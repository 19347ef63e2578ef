//! Legacy Games: the base title of an edition (`Fable CE` is `Fable`).
use vstd::prelude::*;
use vstd::utf8::encode_utf8;
use crate::sources::{copy_opt, SourceGame, SourceGameView};
use crate::text::{
    chars_of, contains_seq, contains_str, copy_string, eq_str, lowercase_of, occurs_at_vec, opt_view,
    slice_vec, string_from, string_from_range, to_lowercase, trim_bounds, trim_end_seq, trim_seq, views_of,
};

verus! {

/// Edition suffixes, longest first.
pub open spec fn edition_suffixes() -> Seq<Seq<char>> {
    seq![
        "Collector's Edition"@, "Collectors Edition"@, "Collection Edition"@,
        "Game of the Year Edition"@, "Special Edition"@, "Deluxe Edition"@, "Premium Edition"@,
        "GOTY Edition"@, "C.E."@, "GOTY"@, "CE"@, "SE"@, "DE"@,
    ]
}

/// `str::len` of a text: its UTF-8 length.
pub open spec fn utf8_len(s: Seq<char>) -> usize {
    encode_utf8(s).len() as usize
}

/// Index of the first suffix (from `k` on) that the lower-cased title ends with, after
/// lower-casing the suffix too.
pub open spec fn first_suffix(lower: Seq<char>, k: int) -> Option<int>
    decreases edition_suffixes().len() - k,
{
    if k < 0 || k >= edition_suffixes().len() {
        None
    } else {
        let sl = lowercase_of(edition_suffixes()[k]);
        if sl.len() <= lower.len() && lower.subrange(lower.len() - sl.len(), lower.len() as int) == sl {
            Some(k)
        } else {
            first_suffix(lower, k + 1)
        }
    }
}

/// The UTF-8 length of what precedes the suffix in the lower-cased title: where the
/// title is cut.
pub open spec fn cut_bytes(trimmed: Seq<char>) -> Option<usize> {
    let lower = lowercase_of(trimmed);
    match first_suffix(lower, 0) {
        Some(k) => Some(utf8_len(lower.subrange(0, lower.len() - lowercase_of(edition_suffixes()[k]).len()))),
        None => None,
    }
}

/// The cut falls on a character boundary of the title: some prefix has that UTF-8 length.
pub open spec fn cut_ok(name: Seq<char>) -> bool {
    match cut_bytes(trim_seq(name)) {
        Some(n) => exists|j: int| 0 <= j <= trim_seq(name).len() && utf8_len(trim_seq(name).take(j)) == n,
        None => true,
    }
}

/// Separators dropped before a suffix.
pub open spec fn is_sep(c: char) -> bool {
    c == '-' || c == ':' || c == ',' || c == ' '
}

/// `s` without trailing separators.
pub open spec fn strip_seps(s: Seq<char>) -> Seq<char>
    decreases s.len(),
{
    if s.len() > 0 && is_sep(s.last()) {
        strip_seps(s.drop_last())
    } else {
        s
    }
}

/// The base title: the trimmed title without the first edition suffix it ends with
/// (compared lower-cased) and the separators before it; the trimmed title when it has
/// none of the suffixes.
pub open spec fn legacy_name_spec(name: Seq<char>) -> Seq<char> {
    let t = trim_seq(name);
    match cut_bytes(t) {
        Some(n) => {
            let j = choose|j: int|
                0 <= j <= t.len() && utf8_len(t.take(j)) == n && forall|q: int| 0 <= q < j ==> utf8_len(t.take(q)) != n;
            trim_seq(strip_seps(t.take(j)))
        },
        None => t,
    }
}

fn suffix_list() -> (v: Vec<Vec<char>>)
    ensures
        views_of(v@) == edition_suffixes(),
{
    let v = vec![
        chars_of("Collector's Edition"), chars_of("Collectors Edition"), chars_of("Collection Edition"),
        chars_of("Game of the Year Edition"), chars_of("Special Edition"), chars_of("Deluxe Edition"),
        chars_of("Premium Edition"), chars_of("GOTY Edition"), chars_of("C.E."), chars_of("GOTY"),
        chars_of("CE"), chars_of("SE"), chars_of("DE"),
    ];
    assert(views_of(v@) =~= edition_suffixes());
    v
}

/// The UTF-8 length of the title where it would be cut, when it ends with a suffix.
fn find_cut(t: &Vec<char>) -> (r: Option<usize>)
    ensures
        r == cut_bytes(t@),
{
    let lower = chars_of(to_lowercase(string_from(t).as_str()).as_str());
    let sufs = suffix_list();
    let mut k: usize = 0;
    while k < sufs.len()
        invariant
            k <= sufs.len(),
            views_of(sufs@) == edition_suffixes(),
            lower@ == lowercase_of(t@),
            first_suffix(lower@, 0) == first_suffix(lower@, k as int),
        decreases sufs.len() - k,
    {
        assert(views_of(sufs@)[k as int] == sufs@[k as int]@);
        let sl = chars_of(to_lowercase(string_from(&sufs[k]).as_str()).as_str());
        if sl.len() <= lower.len() && occurs_at_vec(&lower, &sl, lower.len() - sl.len()) {
            let rest = string_from_range(&lower, 0, lower.len() - sl.len());
            return Some(rest.as_str().len());
        }
        k = k + 1;
    }
    None
}

/// The prefix of `t` with UTF-8 length `n`, if one ends there.
fn prefix_with_len(t: &Vec<char>, n: usize) -> (r: Option<usize>)
    ensures
        match r {
            Some(j) => j <= t.len() && utf8_len(t@.take(j as int)) == n && forall|q: int| 0 <= q < j ==> utf8_len(t@.take(q)) != n,
            None => !exists|j: int| 0 <= j <= t@.len() && utf8_len(t@.take(j)) == n,
        },
{
    let mut j: usize = 0;
    while j <= t.len()
        invariant
            forall|q: int| 0 <= q < j && q <= t@.len() ==> utf8_len(t@.take(q)) != n,
        decreases t.len() + 1 - j,
    {
        let p = string_from_range(t, 0, j);
        assert(t@.subrange(0, j as int) =~= t@.take(j as int));
        if p.as_str().len() == n {
            return Some(j);
        }
        if j == t.len() {
            return None;
        }
        j = j + 1;
    }
    None
}

/// The base title of an edition, for a title whose cut falls on a character boundary:
/// `Fable CE` is `Fable`, `Some Game - Deluxe Edition` is `Some Game`.
pub fn normalize_game_name(name: &str) -> (r: String)
    requires
        cut_ok(name@),
    ensures
        r@ == legacy_name_spec(name@),
{
    let v = chars_of(name);
    let (a, b) = trim_bounds(&v);
    let t = slice_vec(&v, a, b);
    match find_cut(&t) {
        None => string_from(&t),
        Some(n) => {
            let j = match prefix_with_len(&t, n) {
                Some(j) => j,
                None => {
                    return string_from(&t);
                },
            };
            proof {
                let c = choose|c: int|
                    0 <= c <= t@.len() && utf8_len(t@.take(c)) == n && forall|q: int| 0 <= q < c ==> utf8_len(t@.take(q)) != n;
                assert(0 <= j <= t@.len() && utf8_len(t@.take(j as int)) == n && forall|q: int| 0 <= q < j ==> utf8_len(t@.take(q)) != n);
                if c < j {
                    assert(utf8_len(t@.take(c)) != n);
                }
                if c > j {
                    assert(utf8_len(t@.take(j as int)) != n);
                }
            }
            let mut e = j;
            assert(t@.take(j as int).subrange(0, e as int) =~= t@.take(j as int));
            while e > 0 && (t[e - 1] == '-' || t[e - 1] == ':' || t[e - 1] == ',' || t[e - 1] == ' ')
                invariant
                    e <= j <= t.len(),
                    strip_seps(t@.take(j as int)) == strip_seps(t@.take(j as int).subrange(0, e as int)),
                decreases e,
            {
                assert(t@.take(j as int).subrange(0, e as int).drop_last() =~= t@.take(j as int).subrange(0, e - 1));
                e = e - 1;
            }
            assert(t@.take(j as int).subrange(0, e as int) =~= t@.subrange(0, e as int));
            let c = slice_vec(&t, 0, e);
            let (a2, b2) = trim_bounds(&c);
            string_from_range(&c, a2, b2)
        },
    }
}

/// The base title when the cut of its edition suffix falls on a character boundary;
/// `None` otherwise (lower-casing changed the length of the text before the suffix).
pub fn try_normalize_game_name(name: &str) -> (r: Option<String>)
    ensures
        match r {
            Some(s) => cut_ok(name@) && s@ == legacy_name_spec(name@),
            None => !cut_ok(name@),
        },
{
    let v = chars_of(name);
    let (a, b) = trim_bounds(&v);
    let t = slice_vec(&v, a, b);
    match find_cut(&t) {
        None => Some(normalize_game_name(name)),
        Some(n) => match prefix_with_len(&t, n) {
            Some(_) => Some(normalize_game_name(name)),
            None => None,
        },
    }
}


/// The Legacy Games launcher source: where its state file is, and the Wine prefix it
/// runs in on Linux.
pub struct LegacySource {
    pub app_state_path: Option<String>,
    pub wine_prefix: Option<String>,
}

impl LegacySource {
    /// The source for a state file, without Wine.
    pub fn new(app_state_path: Option<String>) -> (r: Self)
        ensures
            crate::text::opt_view(r.app_state_path) == crate::text::opt_view(app_state_path),
            r.wine_prefix is None,
    {
        LegacySource { app_state_path, wine_prefix: None }
    }

    /// The source for a state file inside a Wine prefix.
    pub fn new_with_wine(app_state_path: Option<String>, wine_prefix: Option<String>) -> (r: Self)
        ensures
            crate::text::opt_view(r.app_state_path) == crate::text::opt_view(app_state_path),
            crate::text::opt_view(r.wine_prefix) == crate::text::opt_view(wine_prefix),
    {
        LegacySource { app_state_path, wine_prefix }
    }
}

/// A Legacy Games game with its cover and description.
pub struct LegacyGame {
    pub source: crate::sources::SourceGame,
    pub cover_url: Option<String>,
    pub description_raw: Option<String>,
}


/// A game of the launcher's catalog.
pub struct CatalogGame {
    pub game_id: String,
    pub game_name: String,
    pub game_description: Option<String>,
    pub game_coverart: Option<String>,
}

/// A product the user acquired, by product and game id.
pub struct AcquiredGame {
    pub product_id: String,
    pub game_id: String,
}

/// The catalog game with this id: the last one listed.
pub open spec fn last_catalog(catalog: Seq<CatalogGame>, id: Seq<char>) -> Option<int>
    decreases catalog.len(),
{
    if catalog.len() == 0 {
        None
    } else if catalog.last().game_id@ == id {
        Some(catalog.len() - 1)
    } else {
        last_catalog(catalog.drop_last(), id)
    }
}

/// The index of the catalog game with this id (the last one listed); `None` when the
/// catalog has no such game, and the acquired product is then skipped.
pub fn catalog_game_for(catalog: &Vec<CatalogGame>, game_id: &str) -> (r: Option<usize>)
    ensures
        match r {
            Some(i) => i < catalog.len() && last_catalog(catalog@, game_id@) == Some(i as int),
            None => last_catalog(catalog@, game_id@) is None,
        },
{
    let mut i: usize = catalog.len();
    assert(catalog@.take(i as int) =~= catalog@);
    while i > 0
        invariant
            i <= catalog.len(),
            last_catalog(catalog@, game_id@) == last_catalog(catalog@.take(i as int), game_id@),
        decreases i,
    {
        assert(catalog@.take(i as int).drop_last() =~= catalog@.take(i - 1));
        assert(catalog@.take(i as int).last() == catalog@[i - 1]);
        if eq_str(catalog[i - 1].game_id.as_str(), game_id) {
            return Some(i - 1);
        }
        i = i - 1;
    }
    None
}

/// Where a game is installed, as the library folders show it: the first library folder
/// holding a folder named as the game, and the executable found there.
pub struct InstallInfo {
    pub installed: bool,
    pub install_path: Option<String>,
    pub executable_path: Option<String>,
}

/// The Legacy Games game of an acquired product and its catalog game: named by the base
/// title of the catalog name, with no play time yet, installed as `install` says, with
/// the catalog's cover and description.
pub fn legacy_game(acquired: &AcquiredGame, game: &CatalogGame, install: InstallInfo) -> (r: LegacyGame)
    requires
        cut_ok(game.game_name@),
    ensures
        r.source@ == (SourceGameView {
            platform: "Legacy Games"@,
            platform_game_id: acquired.product_id@,
            name: Some(legacy_name_spec(game.game_name@)),
            installed: install.installed,
            executable_path: opt_view(install.executable_path),
            install_path: opt_view(install.install_path),
            playtime_minutes: Some(0),
            last_played: None,
        }),
        opt_view(r.cover_url) == opt_view(game.game_coverart),
        opt_view(r.description_raw) == opt_view(game.game_description),
{
    let source = SourceGame {
        platform: copy_string("Legacy Games"),
        platform_game_id: acquired.product_id.clone(),
        name: Some(normalize_game_name(game.game_name.as_str())),
        installed: install.installed,
        executable_path: install.executable_path,
        install_path: install.install_path,
        playtime_minutes: Some(0),
        last_played: None,
    };
    LegacyGame { source, cover_url: copy_opt(&game.game_coverart), description_raw: copy_opt(&game.game_description) }
}

/// Characters a file name cannot hold on Windows.
pub open spec fn is_forbidden(c: char) -> bool {
    c == ':' || c == '/' || c == '\\' || c == '*' || c == '?' || c == '"' || c == '<' || c == '>' || c == '|'
}

/// `s` without the characters a file name cannot hold.
pub open spec fn without_forbidden(s: Seq<char>) -> Seq<char>
    decreases s.len(),
{
    if s.len() == 0 {
        Seq::empty()
    } else if is_forbidden(s.last()) {
        without_forbidden(s.drop_last())
    } else {
        without_forbidden(s.drop_last()).push(s.last())
    }
}

/// The file name of the executable named as the game: the name without the characters
/// a file name cannot hold, with `.exe`.
pub fn executable_file_name(game_name: &str) -> (r: String)
    ensures
        r@ == without_forbidden(game_name@) + ".exe"@,
{
    let v = chars_of(game_name);
    let mut out: Vec<char> = Vec::new();
    let mut i: usize = 0;
    assert(v@.take(0) =~= Seq::<char>::empty());
    while i < v.len()
        invariant
            i <= v.len(),
            out@ == without_forbidden(v@.take(i as int)),
        decreases v.len() - i,
    {
        assert(v@.take(i + 1).drop_last() =~= v@.take(i as int));
        assert(v@.take(i + 1).last() == v@[i as int]);
        let c = v[i];
        if !(c == ':' || c == '/' || c == '\\' || c == '*' || c == '?' || c == '"' || c == '<' || c == '>' || c == '|') {
            out.push(c);
        }
        i = i + 1;
    }
    assert(v@.take(v.len() as int) =~= v@);
    let ext = chars_of(".exe");
    let mut j: usize = 0;
    let ghost base = out@;
    while j < ext.len()
        invariant
            j <= ext.len(),
            out@ == base + ext@.take(j as int),
        decreases ext.len() - j,
    {
        assert(ext@.take(j + 1) =~= ext@.take(j as int).push(ext@[j as int]));
        out.push(ext[j]);
        j = j + 1;
    }
    assert(ext@.take(ext.len() as int) =~= ext@);
    string_from(&out)
}

/// File names of tools that come with a game: uninstallers, redistributables, setups.
pub open spec fn ignored_stems() -> Seq<Seq<char>> {
    seq!["unins"@, "redist"@, "setup"@, "vc_redist"@, "dxsetup"@, "directx"@]
}

/// Whether an executable, by its file stem, is one of the tools that come with a game:
/// the stem, lower-cased, contains one of `unins`, `redist`, `setup`, `vc_redist`,
/// `dxsetup`, `directx`.
pub fn is_ignored_executable(file_stem: &str) -> (b: bool)
    ensures
        b == exists|k: int| 0 <= k < ignored_stems().len() && contains_seq(lowercase_of(file_stem@), #[trigger] ignored_stems()[k]),
{
    let l = to_lowercase(file_stem);
    let words: [&str; 6] = ["unins", "redist", "setup", "vc_redist", "dxsetup", "directx"];
    proof {
        reveal_strlit("unins");
        reveal_strlit("redist");
        reveal_strlit("setup");
        reveal_strlit("vc_redist");
        reveal_strlit("dxsetup");
        reveal_strlit("directx");
    }
    let mut k: usize = 0;
    while k < 6
        invariant
            k <= 6,
            l@ == lowercase_of(file_stem@),
            forall|j: int| 0 <= j < 6 ==> #[trigger] words@[j]@ == ignored_stems()[j],
            forall|j: int| 0 <= j < k ==> !contains_seq(l@, #[trigger] ignored_stems()[j]),
        decreases 6 - k,
    {
        if contains_str(l.as_str(), words[k]) {
            return true;
        }
        k = k + 1;
    }
    false
}

} // verus!
