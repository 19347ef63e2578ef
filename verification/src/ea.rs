//! EA app: game ids made from titles, and the games found in the install folder matched
//! against the titles the launcher has installed before.
use vstd::prelude::*;
use crate::sources::{source_views, SourceGame, SourceGameView};
use crate::text::{
    chars_of, copy_string, eq_str, lowercase_of, opt_view, replace_char_seq, starts_with_seq,
    string_from, string_views, to_lowercase, trim, trim_seq,
};

verus! {

/// A stable id from a title: lower-cased, spaces as underscores.
pub open spec fn normalize_id_spec(name: Seq<char>) -> Seq<char> {
    replace_char_seq(lowercase_of(name), ' ', '_')
}

/// `s` with every `from` replaced by `to`.
pub fn replace_char(s: &str, from: char, to: char) -> (r: String)
    ensures
        r@ == replace_char_seq(s@, from, to),
{
    let v = chars_of(s);
    let mut out: Vec<char> = Vec::new();
    let mut i: usize = 0;
    while i < v.len()
        invariant
            i <= v.len(),
            out@ == replace_char_seq(v@, from, to).take(i as int),
        decreases v.len() - i,
    {
        out.push(if v[i] == from { to } else { v[i] });
        assert(out@ =~= replace_char_seq(v@, from, to).take(i + 1));
        i = i + 1;
    }
    assert(replace_char_seq(v@, from, to).take(v.len() as int) =~= replace_char_seq(v@, from, to));
    string_from(&out)
}

/// The id of an EA game: its title lower-cased with spaces as underscores (the launcher
/// exposes no stable numeric id).
pub fn normalize_id(name: &str) -> (r: String)
    ensures
        r@ == normalize_id_spec(name@),
{
    let l = to_lowercase(name);
    replace_char(l.as_str(), ' ', '_')
}

/// A folder name and a known title belong together when, lower-cased, one starts with
/// the other.
pub open spec fn names_match(folder: Seq<char>, known: Seq<char>) -> bool {
    starts_with_seq(lowercase_of(folder), lowercase_of(known)) || starts_with_seq(
        lowercase_of(known),
        lowercase_of(folder),
    )
}

/// Index of the first known title matching the folder, if any.
pub open spec fn first_match(known: Seq<Seq<char>>, folder: Seq<char>) -> Option<int> {
    if exists|i: int| 0 <= i < known.len() && names_match(folder, known[i]) {
        Some(choose|i: int| 0 <= i < known.len() && names_match(folder, known[i]) && forall|j: int| 0 <= j < i ==> !names_match(folder, known[j]))
    } else {
        None
    }
}

/// An EA game record.
pub open spec fn ea_game(name: Seq<char>, installed: bool, install_path: Option<Seq<char>>) -> SourceGameView {
    SourceGameView {
        platform: "EA"@,
        platform_game_id: normalize_id_spec(name),
        name: Some(name),
        installed,
        executable_path: None,
        install_path,
        playtime_minutes: None,
        last_played: None,
    }
}

/// A folder of the install folder: its name and its path.
pub struct InstallFolder {
    pub name: String,
    pub path: String,
}

/// The installed games, one per folder with a non-blank trimmed name (named by the
/// first matching known title, else by the folder), in order.
pub open spec fn installed_games(known: Seq<Seq<char>>, folders: Seq<(Seq<char>, Seq<char>)>) -> Seq<SourceGameView>
    decreases folders.len(),
{
    if folders.len() == 0 {
        Seq::empty()
    } else {
        let prev = installed_games(known, folders.drop_last());
        let f = trim_seq(folders.last().0);
        if f.len() == 0 {
            prev
        } else {
            let name = match first_match(known, f) {
                Some(i) => known[i],
                None => f,
            };
            prev.push(ea_game(name, true, Some(folders.last().1)))
        }
    }
}

/// An installed folder matched the known title `k`: its trimmed name is not blank and
/// the first known title it matches equals `k`.
pub closed spec fn folder_matches(known: Seq<Seq<char>>, folder_name: Seq<char>, k: Seq<char>) -> bool {
    trim_seq(folder_name).len() > 0 && (first_match(known, trim_seq(folder_name)) matches Some(i) && known[i] == k)
}

/// A known title was matched by some installed folder.
pub open spec fn known_matched(known: Seq<Seq<char>>, folders: Seq<(Seq<char>, Seq<char>)>, k: Seq<char>) -> bool {
    exists|j: int| 0 <= j < folders.len() && #[trigger] folder_matches(known, folders[j].0, k)
}

/// The known titles no installed folder matched, as games not installed, in order.
pub open spec fn missing_games(known: Seq<Seq<char>>, folders: Seq<(Seq<char>, Seq<char>)>, n: nat) -> Seq<SourceGameView>
    decreases n,
{
    if n == 0 || n > known.len() {
        Seq::empty()
    } else {
        let prev = missing_games(known, folders, (n - 1) as nat);
        if known_matched(known, folders, known[n - 1]) {
            prev
        } else {
            prev.push(ea_game(known[n - 1], false, None))
        }
    }
}

pub open spec fn folder_views(v: Seq<InstallFolder>) -> Seq<(Seq<char>, Seq<char>)> {
    v.map_values(|f: InstallFolder| (f.name@, f.path@))
}

fn make_game(name: String, installed: bool, install_path: Option<String>) -> (g: SourceGame)
    ensures
        g@ == ea_game(name@, installed, opt_view(install_path)),
{
    let id = normalize_id(name.as_str());
    SourceGame {
        platform: copy_string("EA"),
        platform_game_id: id,
        name: Some(name),
        installed,
        executable_path: None,
        install_path,
        playtime_minutes: None,
        last_played: None,
    }
}

fn find_match(known_lower: &Vec<String>, known: &Vec<String>, folder: &str) -> (r: Option<usize>)
    requires
        known_lower.len() == known.len(),
        forall|i: int| 0 <= i < known.len() ==> #[trigger] known_lower@[i]@ == lowercase_of(known@[i]@),
    ensures
        match r {
            Some(i) => i < known.len() && first_match(string_views(known@), folder@) == Some(i as int),
            None => first_match(string_views(known@), folder@) is None,
        },
{
    let ghost kv = string_views(known@);
    let fl = to_lowercase(folder);
    let mut i: usize = 0;
    while i < known.len()
        invariant
            i <= known.len() == known_lower.len(),
            kv == string_views(known@),
            fl@ == lowercase_of(folder@),
            forall|k: int| 0 <= k < known.len() ==> #[trigger] known_lower@[k]@ == lowercase_of(known@[k]@),
            forall|j: int| 0 <= j < i ==> !names_match(folder@, kv[j]),
        decreases known.len() - i,
    {
        let kl = known_lower[i].as_str();
        let m = crate::text::starts_with_str(fl.as_str(), kl) || crate::text::starts_with_str(kl, fl.as_str());
        assert(kv[i as int] == known@[i as int]@);
        if m {
            proof {
                let c = choose|k: int| 0 <= k < kv.len() && names_match(folder@, kv[k]) && forall|j: int| 0 <= j < k ==> !names_match(folder@, kv[j]);
                if c < i {
                    assert(!names_match(folder@, kv[c]));
                }
                if c > i {
                    assert(!names_match(folder@, kv[i as int]));
                }
            }
            return Some(i);
        }
        i = i + 1;
    }
    None
}

/// Whether the folder named `folder_name` matched known title `k`.
fn folder_matches_known(known_lower: &Vec<String>, known: &Vec<String>, folder_name: &str, k: usize) -> (b: bool)
    requires
        k < known.len(),
        known_lower.len() == known.len(),
        forall|i: int| 0 <= i < known.len() ==> #[trigger] known_lower@[i]@ == lowercase_of(known@[i]@),
    ensures
        b == folder_matches(string_views(known@), folder_name@, known@[k as int]@),
{
    reveal(folder_matches);
    let ghost kv = string_views(known@);
    assert(kv[k as int] == known@[k as int]@);
    let f = trim(folder_name);
    if f.as_str().unicode_len() == 0 {
        return false;
    }
    match find_match(known_lower, known, f.as_str()) {
        Some(i) => {
            assert(kv[i as int] == known@[i as int]@);
            eq_str(known[i].as_str(), known[k].as_str())
        },
        None => false,
    }
}

/// Whether some installed folder matched known title `k` (or a title equal to it).
fn is_known_matched(known_lower: &Vec<String>, known: &Vec<String>, folders: &Vec<InstallFolder>, k: usize) -> (b: bool)
    requires
        k < known.len(),
        known_lower.len() == known.len(),
        forall|i: int| 0 <= i < known.len() ==> #[trigger] known_lower@[i]@ == lowercase_of(known@[i]@),
    ensures
        b == known_matched(string_views(known@), folder_views(folders@), known@[k as int]@),
{
    let ghost kv = string_views(known@);
    let ghost fv = folder_views(folders@);
    let ghost kk = known@[k as int]@;
    let mut j: usize = 0;
    while j < folders.len()
        invariant
            j <= folders.len(),
            k < known.len() == known_lower.len(),
            kv == string_views(known@),
            fv == folder_views(folders@),
            kk == known@[k as int]@,
            forall|i: int| 0 <= i < known.len() ==> #[trigger] known_lower@[i]@ == lowercase_of(known@[i]@),
            forall|w: int| 0 <= w < j ==> !#[trigger] folder_matches(kv, fv[w].0, kk),
        decreases folders.len() - j,
    {
        assert(fv[j as int].0 == folders@[j as int].name@);
        if folder_matches_known(known_lower, known, folders[j].name.as_str(), k) {
            return true;
        }
        j = j + 1;
    }
    false
}

/// The EA games: one installed game per folder of the install folder (named by the first
/// known title it matches, or by itself), then each known title that no folder matched
/// as a game that is not installed.
pub fn import_games(known: &Vec<String>, folders: &Vec<InstallFolder>) -> (r: Vec<SourceGame>)
    ensures
        source_views(r@) == installed_games(string_views(known@), folder_views(folders@)) + missing_games(
            string_views(known@),
            folder_views(folders@),
            known@.len(),
        ),
{
    let ghost kv = string_views(known@);
    let ghost fv = folder_views(folders@);
    let mut known_lower: Vec<String> = Vec::new();
    let mut i: usize = 0;
    while i < known.len()
        invariant
            i <= known.len(),
            known_lower.len() == i,
            forall|k: int| 0 <= k < i ==> #[trigger] known_lower@[k]@ == lowercase_of(known@[k]@),
        decreases known.len() - i,
    {
        known_lower.push(to_lowercase(known[i].as_str()));
        i = i + 1;
    }
    let mut games: Vec<SourceGame> = Vec::new();
    let mut j: usize = 0;
    assert(fv.take(0) =~= Seq::<(Seq<char>, Seq<char>)>::empty());
    while j < folders.len()
        invariant
            j <= folders.len(),
            kv == string_views(known@),
            fv == folder_views(folders@),
            known_lower.len() == known.len(),
            forall|k: int| 0 <= k < known.len() ==> #[trigger] known_lower@[k]@ == lowercase_of(known@[k]@),
            source_views(games@) == installed_games(kv, fv.take(j as int)),
        decreases folders.len() - j,
    {
        assert(fv.take(j + 1).drop_last() =~= fv.take(j as int));
        assert(fv.take(j + 1).last() == (folders@[j as int].name@, folders@[j as int].path@));
        let f = trim(folders[j].name.as_str());
        if f.as_str().unicode_len() > 0 {
            let found = find_match(&known_lower, known, f.as_str());
            let name = match found {
                Some(m) => {
                    assert(kv[m as int] == known@[m as int]@);
                    known[m].clone()
                },
                None => f.clone(),
            };
            let ghost before = source_views(games@);
            let g = make_game(name, true, Some(folders[j].path.clone()));
            games.push(g);
            assert(source_views(games@) =~= before.push(g@));
        }
        j = j + 1;
    }
    assert(fv.take(folders.len() as int) =~= fv);
    let ghost inst = source_views(games@);
    let mut k: usize = 0;
    assert(inst + missing_games(kv, fv, 0) =~= inst);
    while k < known.len()
        invariant
            k <= known.len() == known_lower.len(),
            kv == string_views(known@),
            fv == folder_views(folders@),
            forall|q: int| 0 <= q < known.len() ==> #[trigger] known_lower@[q]@ == lowercase_of(known@[q]@),
            source_views(games@) == inst + missing_games(kv, fv, k as nat),
        decreases known.len() - k,
    {
        assert(kv[k as int] == known@[k as int]@);
        if !is_known_matched(&known_lower, known, folders, k) {
            let ghost before = source_views(games@);
            let g = make_game(known[k].clone(), false, None);
            games.push(g);
            assert(source_views(games@) =~= before.push(g@));
            assert(source_views(games@) =~= inst + missing_games(kv, fv, (k + 1) as nat));
        }
        k = k + 1;
    }
    games
}


/// The EA app source, with the folder the user installs games into.
pub struct EaSource {
    pub install_dir: Option<String>,
}

impl EaSource {
    /// The source for an install folder (none when not configured).
    pub fn new(install_dir: Option<String>) -> (r: Self)
        ensures
            opt_view(r.install_dir) == opt_view(install_dir),
    {
        EaSource { install_dir }
    }
}


/// The trimmed names that are not empty, in order.
pub open spec fn known_titles_spec(names: Seq<Seq<char>>) -> Seq<Seq<char>>
    decreases names.len(),
{
    if names.len() == 0 {
        Seq::empty()
    } else if trim_seq(names.last()).len() == 0 {
        known_titles_spec(names.drop_last())
    } else {
        known_titles_spec(names.drop_last()).push(trim_seq(names.last()))
    }
}

/// The titles the launcher has installed before, from the folder names of its
/// `InstallData` folder: each trimmed, the empty ones left out.
pub fn known_titles(folder_names: &Vec<String>) -> (r: Vec<String>)
    ensures
        string_views(r@) == known_titles_spec(string_views(folder_names@)),
{
    let ghost nv = string_views(folder_names@);
    let mut out: Vec<String> = Vec::new();
    let mut i: usize = 0;
    assert(nv.take(0) =~= Seq::<Seq<char>>::empty());
    while i < folder_names.len()
        invariant
            i <= folder_names.len(),
            nv == string_views(folder_names@),
            string_views(out@) == known_titles_spec(nv.take(i as int)),
        decreases folder_names.len() - i,
    {
        assert(nv.take(i + 1).drop_last() =~= nv.take(i as int));
        assert(nv.take(i + 1).last() == folder_names@[i as int]@);
        let t = trim(folder_names[i].as_str());
        if t.as_str().is_empty() {
        } else {
            let ghost before = string_views(out@);
            out.push(t);
            assert(string_views(out@) =~= before.push(trim_seq(folder_names@[i as int]@)));
        }
        i = i + 1;
    }
    assert(nv.take(folder_names.len() as int) =~= nv);
    out
}

} // verus!
