//! Steam library import rules: reading `libraryfolders.vdf` and `appmanifest_*.acf` files,
//! telling demos apart from base games, and merging the games found by several sources.
use vstd::prelude::*;
use crate::text::{
    opt_view, concat_str, decimal_seq, u64_to_string, contains_string, eq_str, string_views, occurs_at, contains_seq, contains_vec, find_from_vec, is_first_occurrence, lowercase_of, to_lowercase,
    all_digits, all_digits_vec, chars_of, copy_string, ends_with_seq, ends_with_str, lines_of,
    lines_spec, occurs_at_vec, replace_all, replace_from, slice_vec, split_nth, split_nth_spec,
    starts_with_seq, starts_with_str, string_from, string_from_range, trim_bounds, trim_seq, views_of,
};

verus! {

// ---------------------------------------------------------------------------
// Game records
// ---------------------------------------------------------------------------

/// A Steam game as found by one of the import sources.
pub struct GameData {
    pub name: String,
    pub platform: String,
    pub platform_game_id: String,
    pub install_path: Option<String>,
    pub installed: bool,
    pub import_confidence: String,
    pub playtime_forever: i32,
    pub rtime_last_played: i64,
}

pub struct GameDataView {
    pub name: Seq<char>,
    pub platform: Seq<char>,
    pub platform_game_id: Seq<char>,
    pub install_path: Option<Seq<char>>,
    pub installed: bool,
    pub import_confidence: Seq<char>,
    pub playtime_forever: i32,
    pub rtime_last_played: i64,
}

impl View for GameData {
    type V = GameDataView;

    open spec fn view(&self) -> GameDataView {
        GameDataView {
            name: self.name@,
            platform: self.platform@,
            platform_game_id: self.platform_game_id@,
            install_path: opt_view(self.install_path),
            installed: self.installed,
            import_confidence: self.import_confidence@,
            playtime_forever: self.playtime_forever,
            rtime_last_played: self.rtime_last_played,
        }
    }
}

pub open spec fn game_views(v: Seq<GameData>) -> Seq<GameDataView> {
    v.map_values(|g: GameData| g@)
}

/// Copies an optional string.
pub fn clone_opt(o: &Option<String>) -> (r: Option<String>)
    ensures
        opt_view(r) == opt_view(*o),
{
    match o {
        Some(s) => Some(s.clone()),
        None => None,
    }
}

impl GameData {
    /// A copy of this record.
    pub fn duplicate(&self) -> (r: GameData)
        ensures
            r@ == self@,
    {
        GameData {
            name: self.name.clone(),
            platform: self.platform.clone(),
            platform_game_id: self.platform_game_id.clone(),
            install_path: clone_opt(&self.install_path),
            installed: self.installed,
            import_confidence: self.import_confidence.clone(),
            playtime_forever: self.playtime_forever,
            rtime_last_played: self.rtime_last_played,
        }
    }
}

// ---------------------------------------------------------------------------
// VDF / ACF text
// ---------------------------------------------------------------------------

/// A file name is an app manifest: `appmanifest_<...>.acf`.
pub fn is_appmanifest(file_name: &str) -> (b: bool)
    ensures
        b == (starts_with_seq(file_name@, "appmanifest_"@) && ends_with_seq(
            file_name@,
            ".acf"@,
        )),
{
    starts_with_str(file_name, "appmanifest_") && ends_with_str(file_name, ".acf")
}

/// The value of a `"key"  "value"` line: the fourth piece of the line split at `"`.
pub fn extract_vdf_value(line: &str) -> (r: Option<String>)
    ensures
        opt_view(r) == split_nth_spec(line@, '"', 3),
{
    let v = chars_of(line);
    match split_nth(&v, '"', 3) {
        Some(p) => Some(string_from(&p)),
        None => None,
    }
}

/// The fields read from an app manifest.
pub struct AppManifest {
    pub appid: String,
    pub name: String,
    pub installdir: Option<String>,
}

/// The state while reading an app manifest: appid, name and installdir seen so far.
pub type ManifestState = (Option<Seq<char>>, Option<Seq<char>>, Option<Seq<char>>);

pub open spec fn manifest_complete(st: ManifestState) -> bool {
    st.0 is Some && st.1 is Some && st.2 is Some
}

/// Reading one line of an app manifest: a line that starts with a known key sets that
/// field to the line's value (or clears it when the line has no value).
pub open spec fn manifest_step(st: ManifestState, line: Seq<char>) -> ManifestState {
    let t = trim_seq(line);
    if starts_with_seq(t, "\"appid\""@) {
        (split_nth_spec(t, '"', 3), st.1, st.2)
    } else if starts_with_seq(t, "\"name\""@) {
        (st.0, split_nth_spec(t, '"', 3), st.2)
    } else if starts_with_seq(t, "\"installdir\""@) {
        (st.0, st.1, split_nth_spec(t, '"', 3))
    } else {
        st
    }
}

/// Reads the lines in order, stopping as soon as all three fields are known.
pub open spec fn manifest_fold(lines: Seq<Seq<char>>, st: ManifestState) -> ManifestState
    decreases lines.len(),
{
    if lines.len() == 0 {
        st
    } else {
        let st2 = manifest_step(st, lines[0]);
        if manifest_complete(st2) {
            st2
        } else {
            manifest_fold(lines.drop_first(), st2)
        }
    }
}

pub open spec fn manifest_fields(content: Seq<char>) -> ManifestState {
    manifest_fold(lines_spec(content), (None, None, None))
}

/// Reads `appid`, `name` and `installdir` from the text of an `appmanifest_*.acf` file.
/// A manifest without `appid` is an error; a missing name reads as `"Unknown"`.
pub fn parse_appmanifest(content: &str) -> (r: Result<AppManifest, String>)
    ensures
        match r {
            Ok(m) => {
                &&& manifest_fields(content@).0 == Some(m.appid@)
                &&& m.name@ == match manifest_fields(content@).1 {
                    Some(n) => n,
                    None => "Unknown"@,
                }
                &&& opt_view(m.installdir) == manifest_fields(content@).2
            },
            Err(e) => manifest_fields(content@).0 is None && e@ == "appid não encontrado"@,
        },
{
    let cv = chars_of(content);
    let lines = lines_of(&cv);
    let mut appid: Option<String> = None;
    let mut name: Option<String> = None;
    let mut installdir: Option<String> = None;
    let mut i: usize = 0;
    assert(views_of(lines@).skip(0) =~= views_of(lines@));
    while i < lines.len()
        invariant_except_break
            !manifest_complete((opt_view(appid), opt_view(name), opt_view(installdir))),
            manifest_fields(content@) == manifest_fold(
                views_of(lines@).skip(i as int),
                (opt_view(appid), opt_view(name), opt_view(installdir)),
            ),
        invariant
            i <= lines.len(),
            views_of(lines@) == lines_spec(content@),
        ensures
            manifest_fields(content@) == (opt_view(appid), opt_view(name), opt_view(installdir)),
        decreases lines.len() - i,
    {
        let line = &lines[i];
        let (a, b) = trim_bounds(line);
        let t = slice_vec(line, a, b);
        let ghost st = (opt_view(appid), opt_view(name), opt_view(installdir));
        proof {
            assert(views_of(lines@).skip(i as int)[0] == lines@[i as int]@);
            assert(views_of(lines@).skip(i as int).drop_first() =~= views_of(lines@).skip(
                i + 1,
            ));
        }
        let k_appid = chars_of("\"appid\"");
        let k_name = chars_of("\"name\"");
        let k_dir = chars_of("\"installdir\"");
        if occurs_at_vec(&t, &k_appid, 0) {
            appid = match split_nth(&t, '"', 3) {
                Some(p) => Some(string_from(&p)),
                None => None,
            };
        } else if occurs_at_vec(&t, &k_name, 0) {
            name = match split_nth(&t, '"', 3) {
                Some(p) => Some(string_from(&p)),
                None => None,
            };
        } else if occurs_at_vec(&t, &k_dir, 0) {
            installdir = match split_nth(&t, '"', 3) {
                Some(p) => Some(string_from(&p)),
                None => None,
            };
        }
        assert((opt_view(appid), opt_view(name), opt_view(installdir)) == manifest_step(
            st,
            lines@[i as int]@,
        ));
        i = i + 1;
        if appid.is_some() && name.is_some() && installdir.is_some() {
            break;
        }
    }
    let appid = match appid {
        Some(a) => a,
        None => {
            return Err(copy_string("appid não encontrado"));
        },
    };
    let name = match name {
        Some(n) => n,
        None => copy_string("Unknown"),
    };
    Ok(AppManifest { appid, name, installdir })
}


// ---------------------------------------------------------------------------
// libraryfolders.vdf
// ---------------------------------------------------------------------------

/// The state while reading `libraryfolders.vdf`: inside a numbered folder block, the
/// path seen in the current block, and the library paths found so far.
pub type FolderState = (bool, Option<Seq<char>>, Seq<Seq<char>>);

/// A trimmed line opens a numbered folder block: it starts with `"` and the text
/// between its first two quotes is all digits.
pub open spec fn opens_folder(t: Seq<char>) -> bool {
    starts_with_seq(t, "\""@) && match split_nth_spec(t, '"', 1) {
        Some(p) => all_digits(p),
        None => false,
    }
}

/// Reading one line of `libraryfolders.vdf`. A `"path"` line inside a block records
/// its value with doubled backslashes undone; the closing `}` of a block adds the
/// recorded path.
pub open spec fn folder_step(st: FolderState, line: Seq<char>) -> FolderState {
    let t = trim_seq(line);
    let inside = opens_folder(t) || st.0;
    let cur = if inside && starts_with_seq(t, "\"path\""@) {
        match split_nth_spec(t, '"', 3) {
            Some(v) => Some(replace_from(v, "\\\\"@, "\\"@, 0)),
            None => st.1,
        }
    } else {
        st.1
    };
    if t == "}"@ && inside {
        let out = match cur {
            Some(p) => st.2.push(p),
            None => st.2,
        };
        (false, None, out)
    } else {
        (inside, cur, st.2)
    }
}

/// The state after the first `n` lines.
pub open spec fn folder_fold(lines: Seq<Seq<char>>, n: nat) -> FolderState
    decreases n,
{
    if n == 0 || n > lines.len() {
        (false, None, Seq::empty())
    } else {
        folder_step(folder_fold(lines, (n - 1) as nat), lines[n - 1])
    }
}

/// The library folders named in the text of `libraryfolders.vdf`, in file order.
pub open spec fn library_folders_spec(content: Seq<char>) -> Seq<Seq<char>> {
    folder_fold(lines_spec(content), lines_spec(content).len()).2
}

/// The library folders that `libraryfolders.vdf` lists, in file order. The file lists
/// the Steam root itself too; callers, who put the root first, leave it out where it
/// comes again.
pub fn parse_library_folders(content: &str) -> (r: Vec<String>)
    ensures
        string_views(r@) == library_folders_spec(content@),
{
    let cv = chars_of(content);
    let lines = lines_of(&cv);
    let quote = chars_of("\"");
    let key_path = chars_of("\"path\"");
    let doubled = chars_of("\\\\");
    let single = chars_of("\\");
    proof {
        reveal_strlit("\\\\");
    }
    let mut in_folder = false;
    let mut current: Option<Vec<char>> = None;
    let mut out: Vec<String> = Vec::new();
    let mut i: usize = 0;
    while i < lines.len()
        invariant
            i <= lines.len(),
            views_of(lines@) == lines_spec(content@),
            quote@ == "\""@,
            key_path@ == "\"path\""@,
            doubled@ == "\\\\"@,
            doubled.len() > 0,
            single@ == "\\"@,
            folder_fold(views_of(lines@), i as nat) == (
                in_folder,
                match current {
                    Some(c) => Some(c@),
                    None => None,
                },
                string_views(out@),
            ),
        decreases lines.len() - i,
    {
        let line = &lines[i];
        let (a, b) = trim_bounds(line);
        let t = slice_vec(line, a, b);
        let ghost st = folder_fold(views_of(lines@), i as nat);
        proof {
            assert(views_of(lines@)[i as int] == lines@[i as int]@);
        }
        if occurs_at_vec(&t, &quote, 0) {
            match split_nth(&t, '"', 1) {
                Some(p) => {
                    if all_digits_vec(&p) {
                        in_folder = true;
                    }
                },
                None => {},
            }
        }
        if in_folder && occurs_at_vec(&t, &key_path, 0) {
            match split_nth(&t, '"', 3) {
                Some(v) => {
                    current = Some(replace_all(&v, &doubled, &single));
                },
                None => {},
            }
        }
        let is_close = t.len() == 1 && t[0] == '}';
        proof {
            reveal_strlit("}");
            if is_close {
                assert(t@ =~= "}"@);
            }
            if t@ == "}"@ {
                assert(t@[0] == '}');
            }
        }
        if is_close && in_folder {
            match current {
                Some(c) => {
                    out.push(string_from(&c));
                },
                None => {},
            }
            current = None;
            in_folder = false;
        }
        proof {
            assert(string_views(out@) =~= folder_step(st, lines@[i as int]@).2);
        }
        i = i + 1;
    }
    out
}


// ---------------------------------------------------------------------------
// Demos
// ---------------------------------------------------------------------------

/// Words that mark a lower-cased title as a demo, playtest or trial.
pub open spec fn demo_keywords() -> Seq<Seq<char>> {
    seq![
        " demo"@, "(demo)"@, " - demo"@, " playtest"@, "(playtest)"@, " - playtest"@,
        " free weekend"@, " trial"@, " beta test"@, " limited test"@, " technical test"@,
    ]
}

/// Suffixes cut from a lower-cased title to find the game a demo belongs to.
pub open spec fn demo_suffixes() -> Seq<Seq<char>> {
    seq![
        " demo"@, " (demo)"@, " - demo"@, " playtest"@, " (playtest)"@, " - playtest"@,
        " free weekend"@, " trial"@, " beta test"@, " limited test"@, " technical test"@,
    ]
}

/// A title names a demo: its lower-cased form contains one of the demo keywords.
pub open spec fn is_demo_spec(name: Seq<char>) -> bool {
    exists|k: int| 0 <= k < demo_keywords().len() && contains_seq(lowercase_of(name), #[trigger] demo_keywords()[k])
}

/// Index of the first occurrence of `p` in `s`.
pub open spec fn first_index(s: Seq<char>, p: Seq<char>) -> int {
    choose|i: int| is_first_occurrence(s, p, 0, i)
}

/// `s` cut at the first occurrence of the first suffix (from index `k` on) that it contains.
pub open spec fn cut_at_suffix(s: Seq<char>, sufs: Seq<Seq<char>>, k: int) -> Seq<char>
    decreases sufs.len() - k,
{
    if k < 0 || k >= sufs.len() {
        s
    } else if contains_seq(s, sufs[k]) {
        s.subrange(0, first_index(s, sufs[k]))
    } else {
        cut_at_suffix(s, sufs, k + 1)
    }
}

/// The title a demo and its base game share: lower-cased, cut before the first demo
/// suffix found, and trimmed.
pub open spec fn normalize_name_spec(name: Seq<char>) -> Seq<char> {
    trim_seq(cut_at_suffix(lowercase_of(name), demo_suffixes(), 0))
}

fn demo_keyword_list() -> (v: Vec<Vec<char>>)
    ensures
        views_of(v@) == demo_keywords(),
{
    let v = vec![
        chars_of(" demo"), chars_of("(demo)"), chars_of(" - demo"), chars_of(" playtest"),
        chars_of("(playtest)"), chars_of(" - playtest"), chars_of(" free weekend"),
        chars_of(" trial"), chars_of(" beta test"), chars_of(" limited test"),
        chars_of(" technical test"),
    ];
    assert(views_of(v@) =~= demo_keywords());
    v
}

fn demo_suffix_list() -> (v: Vec<Vec<char>>)
    ensures
        views_of(v@) == demo_suffixes(),
{
    let v = vec![
        chars_of(" demo"), chars_of(" (demo)"), chars_of(" - demo"), chars_of(" playtest"),
        chars_of(" (playtest)"), chars_of(" - playtest"), chars_of(" free weekend"),
        chars_of(" trial"), chars_of(" beta test"), chars_of(" limited test"),
        chars_of(" technical test"),
    ];
    assert(views_of(v@) =~= demo_suffixes());
    v
}

/// Whether a title names a demo, playtest, free weekend, trial or test build.
pub fn is_demo_game(name: &str) -> (b: bool)
    ensures
        b == is_demo_spec(name@),
{
    let lower = chars_of(to_lowercase(name).as_str());
    let kws = demo_keyword_list();
    let mut k: usize = 0;
    while k < kws.len()
        invariant
            k <= kws.len(),
            views_of(kws@) == demo_keywords(),
            lower@ == lowercase_of(name@),
            forall|j: int| 0 <= j < k ==> !contains_seq(lower@, #[trigger] demo_keywords()[j]),
        decreases kws.len() - k,
    {
        assert(views_of(kws@)[k as int] == kws@[k as int]@);
        if contains_vec(&lower, &kws[k]) {
            return true;
        }
        k = k + 1;
    }
    false
}

/// The title with any demo suffix removed, lower-cased and trimmed, so that a demo and
/// its base game compare equal.
pub fn normalize_game_name(name: &str) -> (r: String)
    ensures
        r@ == normalize_name_spec(name@),
{
    let lower = chars_of(to_lowercase(name).as_str());
    let sufs = demo_suffix_list();
    let mut cut: Vec<char> = slice_vec(&lower, 0, lower.len());
    assert(lower@.subrange(0, lower@.len() as int) =~= lower@);
    let mut k: usize = 0;
    while k < sufs.len()
        invariant_except_break
            cut@ == lower@,
            cut_at_suffix(lower@, demo_suffixes(), 0) == cut_at_suffix(lower@, demo_suffixes(), k as int),
        invariant
            k <= sufs.len(),
            views_of(sufs@) == demo_suffixes(),
            lower@ == lowercase_of(name@),
        ensures
            cut@ == cut_at_suffix(lower@, demo_suffixes(), 0),
        decreases sufs.len() - k,
    {
        assert(views_of(sufs@)[k as int] == sufs@[k as int]@);
        match find_from_vec(&lower, &sufs[k], 0) {
            Some(pos) => {
                proof {
                    assert(contains_seq(lower@, sufs@[k as int]@));
                    assert(is_first_occurrence(lower@, sufs@[k as int]@, 0, first_index(lower@, sufs@[k as int]@)));
                    let f = first_index(lower@, sufs@[k as int]@);
                    if f < pos {
                        assert(!occurs_at(lower@, sufs@[k as int]@, f));
                    }
                    if pos < f {
                        assert(!occurs_at(lower@, sufs@[k as int]@, pos as int));
                    }
                }
                cut = slice_vec(&lower, 0, pos);
                break;
            },
            None => {
                proof {
                    if contains_seq(lower@, sufs@[k as int]@) {
                        let j = choose|j: int| occurs_at(lower@, sufs@[k as int]@, j);
                        assert(occurs_at(lower@, sufs@[k as int]@, j));
                    }
                }
            },
        }
        k = k + 1;
    }
    let (a, b) = trim_bounds(&cut);
    string_from_range(&cut, a, b)
}


/// A game and the others with the same normalized title form a group; `demo` picks
/// whether the group has a demo (`true`) or a base game (`false`).
pub open spec fn group_has(games: Seq<GameDataView>, key: Seq<char>, demo: bool) -> bool {
    exists|j: int|
        0 <= j < games.len() && normalize_name_spec(#[trigger] games[j].name) == key
            && is_demo_spec(games[j].name) == demo
}

/// The group with this title has a base game whose id the user owns.
pub open spec fn group_has_owned_base(
    games: Seq<GameDataView>,
    key: Seq<char>,
    owned: Seq<Seq<char>>,
) -> bool {
    exists|j: int|
        0 <= j < games.len() && normalize_name_spec(#[trigger] games[j].name) == key
            && !is_demo_spec(games[j].name) && owned.contains(games[j].platform_game_id)
}

/// Whether `g` survives the demo filter: in a group with both demos and base games,
/// the base games stay when one of them is owned and the demos go; otherwise only the
/// demos stay. Every other game stays.
pub open spec fn keeps_game(games: Seq<GameDataView>, g: GameDataView, owned: Seq<Seq<char>>) -> bool {
    let k = normalize_name_spec(g.name);
    if group_has(games, k, true) && group_has(games, k, false) {
        if group_has_owned_base(games, k, owned) {
            !is_demo_spec(g.name)
        } else {
            is_demo_spec(g.name)
        }
    } else {
        true
    }
}

/// The games among the first `n` that the demo filter keeps, in order.
pub open spec fn demo_filter(games: Seq<GameDataView>, owned: Seq<Seq<char>>, n: nat) -> Seq<GameDataView>
    decreases n,
{
    if n == 0 || n > games.len() {
        Seq::empty()
    } else {
        let prev = demo_filter(games, owned, (n - 1) as nat);
        if keeps_game(games, games[n - 1], owned) {
            prev.push(games[n - 1])
        } else {
            prev
        }
    }
}

/// Whether the games whose normalized titles are in `keys` include, for `key`, a demo,
/// a base game, and an owned base game.
fn group_flags(keys: &Vec<String>, demos: &Vec<bool>, owned: &Vec<bool>, key: &str) -> (r: (bool, bool, bool))
    requires
        keys.len() == demos.len() == owned.len(),
    ensures
        r.0 == exists|j: int| 0 <= j < keys.len() && #[trigger] keys@[j]@ == key@ && demos@[j],
        r.1 == exists|j: int| 0 <= j < keys.len() && #[trigger] keys@[j]@ == key@ && !demos@[j],
        r.2 == exists|j: int|
            0 <= j < keys.len() && #[trigger] keys@[j]@ == key@ && !demos@[j] && owned@[j],
{
    let mut has_demo = false;
    let mut has_base = false;
    let mut has_owned = false;
    let mut j: usize = 0;
    while j < keys.len()
        invariant
            j <= keys.len() == demos.len() == owned.len(),
            has_demo == exists|i: int| 0 <= i < j && #[trigger] keys@[i]@ == key@ && demos@[i],
            has_base == exists|i: int| 0 <= i < j && #[trigger] keys@[i]@ == key@ && !demos@[i],
            has_owned == exists|i: int|
                0 <= i < j && #[trigger] keys@[i]@ == key@ && !demos@[i] && owned@[i],
        decreases keys.len() - j,
    {
        if eq_str(keys[j].as_str(), key) {
            if demos[j] {
                has_demo = true;
            } else {
                has_base = true;
                if owned[j] {
                    has_owned = true;
                }
            }
        }
        j = j + 1;
    }
    (has_demo, has_base, has_owned)
}

/// Drops demos that duplicate a base game the user owns, and base games the user does
/// not own when a demo of them is present (so that a free demo stays). Games keep their
/// order. `owned_appids` are the ids of the games the user owns.
pub fn filter_duplicate_demos(games: Vec<GameData>, owned_appids: &Vec<String>) -> (r: Vec<GameData>)
    ensures
        game_views(r@) == demo_filter(game_views(games@), string_views(owned_appids@), games@.len()),
{
    let ghost gv = game_views(games@);
    let ghost ov = string_views(owned_appids@);
    let mut keys: Vec<String> = Vec::new();
    let mut demos: Vec<bool> = Vec::new();
    let mut owned: Vec<bool> = Vec::new();
    let mut i: usize = 0;
    while i < games.len()
        invariant
            i <= games.len(),
            gv == game_views(games@),
            ov == string_views(owned_appids@),
            keys.len() == i && demos.len() == i && owned.len() == i,
            forall|j: int| 0 <= j < i ==> #[trigger] keys@[j]@ == normalize_name_spec(gv[j].name),
            forall|j: int| 0 <= j < i ==> #[trigger] demos@[j] == is_demo_spec(gv[j].name),
            forall|j: int| 0 <= j < i ==> #[trigger] owned@[j] == ov.contains(gv[j].platform_game_id),
        decreases games.len() - i,
    {
        keys.push(normalize_game_name(games[i].name.as_str()));
        demos.push(is_demo_game(games[i].name.as_str()));
        owned.push(contains_string(owned_appids, games[i].platform_game_id.as_str()));
        i = i + 1;
    }
    let mut out: Vec<GameData> = Vec::new();
    let mut i: usize = 0;
    while i < games.len()
        invariant
            i <= games.len(),
            gv == game_views(games@),
            ov == string_views(owned_appids@),
            keys.len() == games.len() && demos.len() == games.len() && owned.len() == games.len(),
            forall|j: int| 0 <= j < games.len() ==> #[trigger] keys@[j]@ == normalize_name_spec(gv[j].name),
            forall|j: int| 0 <= j < games.len() ==> #[trigger] demos@[j] == is_demo_spec(gv[j].name),
            forall|j: int| 0 <= j < games.len() ==> #[trigger] owned@[j] == ov.contains(gv[j].platform_game_id),
            game_views(out@) == demo_filter(gv, ov, i as nat),
        decreases games.len() - i,
    {
        let (has_demo, has_base, has_owned) = group_flags(&keys, &demos, &owned, keys[i].as_str());
        let ghost k = normalize_name_spec(gv[i as int].name);
        proof {
            if has_demo {
                let j = choose|j: int| 0 <= j < keys.len() && #[trigger] keys@[j]@ == keys@[i as int]@ && demos@[j];
                assert(normalize_name_spec(gv[j].name) == k && is_demo_spec(gv[j].name) == true);
            }
            if group_has(gv, k, true) {
                let j = choose|j: int| 0 <= j < gv.len() && normalize_name_spec(#[trigger] gv[j].name) == k && is_demo_spec(gv[j].name) == true;
                assert(keys@[j]@ == keys@[i as int]@ && demos@[j]);
            }
            if has_base {
                let j = choose|j: int| 0 <= j < keys.len() && #[trigger] keys@[j]@ == keys@[i as int]@ && !demos@[j];
                assert(normalize_name_spec(gv[j].name) == k && is_demo_spec(gv[j].name) == false);
            }
            if group_has(gv, k, false) {
                let j = choose|j: int| 0 <= j < gv.len() && normalize_name_spec(#[trigger] gv[j].name) == k && is_demo_spec(gv[j].name) == false;
                assert(keys@[j]@ == keys@[i as int]@ && !demos@[j]);
            }
            if has_owned {
                let j = choose|j: int| 0 <= j < keys.len() && #[trigger] keys@[j]@ == keys@[i as int]@ && !demos@[j] && owned@[j];
                assert(normalize_name_spec(gv[j].name) == k && !is_demo_spec(gv[j].name) && ov.contains(gv[j].platform_game_id));
            }
            if group_has_owned_base(gv, k, ov) {
                let j = choose|j: int| 0 <= j < gv.len() && normalize_name_spec(#[trigger] gv[j].name) == k && !is_demo_spec(gv[j].name) && ov.contains(gv[j].platform_game_id);
                assert(keys@[j]@ == keys@[i as int]@ && !demos@[j] && owned@[j]);
            }
        }
        let keep = if has_demo && has_base {
            if has_owned {
                !demos[i]
            } else {
                demos[i]
            }
        } else {
            true
        };
        assert(keep == keeps_game(gv, gv[i as int], ov));
        if keep {
            out.push(games[i].duplicate());
            assert(game_views(out@) =~= demo_filter(gv, ov, i as nat).push(gv[i as int]));
        }
        i = i + 1;
    }
    out
}


proof fn lemma_demo_filter_members(games: Seq<GameDataView>, owned: Seq<Seq<char>>, n: nat, x: GameDataView)
    requires
        n <= games.len(),
    ensures
        demo_filter(games, owned, n).contains(x) <==> exists|j: int|
            0 <= j < n && #[trigger] games[j] == x && keeps_game(games, x, owned),
    decreases n,
{
    if n > 0 {
        lemma_demo_filter_members(games, owned, (n - 1) as nat, x);
        let p = demo_filter(games, owned, (n - 1) as nat);
        let g = games[n - 1];
        if p.contains(x) {
            let i = choose|i: int| 0 <= i < p.len() && p[i] == x;
            assert(demo_filter(games, owned, n)[i] == x);
        }
        if demo_filter(games, owned, n).contains(x) && !p.contains(x) {
            assert(g == x);
        }
        if g == x && keeps_game(games, x, owned) {
            assert(demo_filter(games, owned, n)[p.len() as int] == x);
        }
    }
}

/// The demo filter keeps only games of its input, each one once per occurrence and in
/// order, and never keeps a demo beside an owned base game of the same title: when the
/// user owns the base game, its demos are dropped.
pub proof fn lemma_demo_filter_law(games: Seq<GameDataView>, owned: Seq<Seq<char>>, x: GameDataView, y: GameDataView)
    requires
        demo_filter(games, owned, games.len()).contains(x),
    ensures
        games.contains(x),
        demo_filter(games, owned, games.len()).len() <= games.len(),
        games.contains(y) && normalize_name_spec(x.name) == normalize_name_spec(y.name) && is_demo_spec(x.name)
            && !is_demo_spec(y.name) && owned.contains(y.platform_game_id) ==> false,
{
    lemma_demo_filter_members(games, owned, games.len(), x);
    lemma_demo_filter_len(games, owned, games.len());
    let j = choose|j: int| 0 <= j < games.len() && #[trigger] games[j] == x && keeps_game(games, x, owned);
    assert(games[j] == x);
    if games.contains(y) && normalize_name_spec(x.name) == normalize_name_spec(y.name) && is_demo_spec(x.name)
        && !is_demo_spec(y.name) && owned.contains(y.platform_game_id) {
        let k = choose|k: int| 0 <= k < games.len() && games[k] == y;
        let key = normalize_name_spec(x.name);
        assert(normalize_name_spec(games[j].name) == key && is_demo_spec(games[j].name) == true);
        assert(normalize_name_spec(games[k].name) == key && is_demo_spec(games[k].name) == false);
        assert(group_has(games, key, true));
        assert(group_has(games, key, false));
        assert(group_has_owned_base(games, key, owned));
    }
}

proof fn lemma_demo_filter_len(games: Seq<GameDataView>, owned: Seq<Seq<char>>, n: nat)
    ensures
        demo_filter(games, owned, n).len() <= n,
    decreases n,
{
    if n > 0 {
        lemma_demo_filter_len(games, owned, (n - 1) as nat);
    }
}


// ---------------------------------------------------------------------------
// Records from each source
// ---------------------------------------------------------------------------

/// The game an app manifest describes, installed at `install_path` (the manifest's
/// `installdir` under the library's `steamapps/common`, when it names one).
pub fn manifest_game(m: AppManifest, install_path: Option<String>) -> (g: GameData)
    ensures
        g@ == (GameDataView {
            name: m.name@,
            platform: "Steam"@,
            platform_game_id: m.appid@,
            install_path: opt_view(install_path),
            installed: true,
            import_confidence: "High"@,
            playtime_forever: 0,
            rtime_last_played: 0,
        }),
{
    GameData {
        name: m.name,
        platform: copy_string("Steam"),
        platform_game_id: m.appid,
        install_path,
        installed: true,
        import_confidence: copy_string("High"),
        playtime_forever: 0,
        rtime_last_played: 0,
    }
}

/// The app id a `librarycache` file names: a file `<digits>.json`. The stem is what
/// comes before the last dot, which must not be the first character.
pub open spec fn cache_appid_spec(file_name: Seq<char>) -> Option<Seq<char>> {
    if exists|p: int| 0 < p < file_name.len() && file_name[p] == '.' {
        let p = choose|p: int|
            0 < p < file_name.len() && file_name[p] == '.' && forall|q: int| p < q < file_name.len() ==> file_name[q] != '.';
        if file_name.subrange(p + 1, file_name.len() as int) == "json"@ && all_digits(file_name.subrange(0, p)) {
            Some(file_name.subrange(0, p))
        } else {
            None
        }
    } else {
        None
    }
}

/// The app id of a `librarycache` file name, when it is `<digits>.json`.
pub fn librarycache_appid(file_name: &str) -> (r: Option<String>)
    ensures
        opt_view(r) == cache_appid_spec(file_name@),
{
    let v = chars_of(file_name);
    let mut p: usize = v.len();
    while p > 0 && v[p - 1] != '.'
        invariant
            p <= v.len(),
            forall|q: int| p <= q < v.len() ==> v@[q] != '.',
        decreases p,
    {
        p = p - 1;
    }
    if p <= 1 {
        proof {
            if exists|q: int| 0 < q < v@.len() && v@[q] == '.' {
                let q = choose|q: int| 0 < q < v@.len() && v@[q] == '.';
                assert(false);
            }
        }
        return None;
    }
    let dot = p - 1;
    proof {
        let q = choose|q: int|
            0 < q < v@.len() && v@[q] == '.' && forall|r: int| q < r < v@.len() ==> v@[r] != '.';
        assert(0 < dot < v@.len() && v@[dot as int] == '.');
        if q < dot {
            assert(v@[dot as int] != '.');
        }
        if q > dot {
            assert(v@[q] != '.');
        }
    }
    let ext = slice_vec(&v, dot + 1, v.len());
    let stem = slice_vec(&v, 0, dot);
    let json = chars_of("json");
    proof {
        reveal_strlit("json");
    }
    let is_json = ext.len() == 4 && occurs_at_vec(&ext, &json, 0);
    proof {
        assert(ext@.subrange(0, ext@.len() as int) =~= ext@);
    }
    if is_json && all_digits_vec(&stem) {
        Some(string_from(&stem))
    } else {
        None
    }
}

/// A game found in the library cache: named `name` when the store knows it, otherwise
/// `Game <id>`; not installed, medium confidence.
pub fn cache_game(appid: &str, name: Option<String>) -> (g: GameData)
    ensures
        g@ == (GameDataView {
            name: match name {
                Some(n) => n@,
                None => "Game "@ + appid@,
            },
            platform: "Steam"@,
            platform_game_id: appid@,
            install_path: None,
            installed: false,
            import_confidence: "Medium"@,
            playtime_forever: 0,
            rtime_last_played: 0,
        }),
{
    let name = match name {
        Some(n) => n,
        None => concat_str("Game ", appid),
    };
    GameData {
        name,
        platform: copy_string("Steam"),
        platform_game_id: copy_string(appid),
        install_path: None,
        installed: false,
        import_confidence: copy_string("Medium"),
        playtime_forever: 0,
        rtime_last_played: 0,
    }
}

/// A game the Steam Web API lists as owned: not installed, low confidence, with its
/// play time and last-played time.
pub fn api_game(name: String, appid: u64, playtime_forever: i32, rtime_last_played: i64) -> (g: GameData)
    ensures
        g@ == (GameDataView {
            name: name@,
            platform: "Steam"@,
            platform_game_id: decimal_seq(appid as nat),
            install_path: None,
            installed: false,
            import_confidence: "Low"@,
            playtime_forever,
            rtime_last_played,
        }),
{
    GameData {
        name,
        platform: copy_string("Steam"),
        platform_game_id: u64_to_string(appid),
        install_path: None,
        installed: false,
        import_confidence: copy_string("Low"),
        playtime_forever,
        rtime_last_played,
    }
}

/// The games of `games` whose id did not occur earlier: the first record of each id.
pub open spec fn first_of_each_id(games: Seq<GameDataView>, n: nat) -> Seq<GameDataView>
    decreases n,
{
    if n == 0 || n > games.len() {
        Seq::empty()
    } else {
        let prev = first_of_each_id(games, (n - 1) as nat);
        if exists|j: int| 0 <= j < n - 1 && #[trigger] games[j].platform_game_id == games[n - 1].platform_game_id {
            prev
        } else {
            prev.push(games[n - 1])
        }
    }
}

/// Whether a record before index `i` has the id of record `i`.
fn id_seen_before(games: &Vec<GameData>, i: usize) -> (b: bool)
    requires
        i < games.len(),
    ensures
        b == exists|j: int| 0 <= j < i && #[trigger] game_views(games@)[j].platform_game_id == game_views(games@)[i as int].platform_game_id,
{
    let ghost gv = game_views(games@);
    let mut j: usize = 0;
    while j < i
        invariant
            j <= i < games.len(),
            gv == game_views(games@),
            forall|t: int| 0 <= t < j ==> #[trigger] gv[t].platform_game_id != gv[i as int].platform_game_id,
        decreases i - j,
    {
        if eq_str(games[j].platform_game_id.as_str(), games[i].platform_game_id.as_str()) {
            assert(gv[j as int].platform_game_id == gv[i as int].platform_game_id);
            return true;
        }
        j = j + 1;
    }
    false
}

/// Keeps the first record of each platform id, in order.
pub fn dedup_by_id(games: Vec<GameData>) -> (r: Vec<GameData>)
    ensures
        game_views(r@) == first_of_each_id(game_views(games@), games@.len()),
{
    let ghost gv = game_views(games@);
    let mut out: Vec<GameData> = Vec::new();
    let mut i: usize = 0;
    while i < games.len()
        invariant
            i <= games.len(),
            gv == game_views(games@),
            game_views(out@) == first_of_each_id(gv, i as nat),
        decreases games.len() - i,
    {
        if !id_seen_before(&games, i) {
            let ghost before = game_views(out@);
            out.push(games[i].duplicate());
            assert(game_views(out@) =~= before.push(gv[i as int]));
        }
        i = i + 1;
    }
    out
}


/// The owned-game record of a game the Web API lists.
pub open spec fn api_game_view(g: crate::steam_store::SteamGame) -> GameDataView {
    GameDataView {
        name: g.name@,
        platform: "Steam"@,
        platform_game_id: decimal_seq(g.appid as nat),
        install_path: None,
        installed: false,
        import_confidence: "Low"@,
        playtime_forever: g.playtime_forever,
        rtime_last_played: g.rtime_last_played,
    }
}

/// The records of the games the Web API lists as owned, in order.
pub fn api_games(games: &Vec<crate::steam_store::SteamGame>) -> (r: Vec<GameData>)
    ensures
        game_views(r@) == games@.map_values(|g: crate::steam_store::SteamGame| api_game_view(g)),
{
    let mut out: Vec<GameData> = Vec::new();
    let mut i: usize = 0;
    while i < games.len()
        invariant
            i <= games.len(),
            game_views(out@) == games@.map_values(|g: crate::steam_store::SteamGame| api_game_view(g)).take(i as int),
        decreases games.len() - i,
    {
        let g = &games[i];
        let ghost before = game_views(out@);
        let rec = api_game(g.name.clone(), g.appid as u64, g.playtime_forever, g.rtime_last_played);
        out.push(rec);
        assert(game_views(out@) =~= before.push(api_game_view(games@[i as int])));
        assert(game_views(out@) =~= games@.map_values(|g: crate::steam_store::SteamGame| api_game_view(g)).take(i + 1));
        i = i + 1;
    }
    assert(games@.map_values(|g: crate::steam_store::SteamGame| api_game_view(g)).take(games.len() as int) =~= games@.map_values(|g: crate::steam_store::SteamGame| api_game_view(g)));
    out
}

} // verus!
