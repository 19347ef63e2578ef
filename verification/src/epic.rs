//! Epic Games Store: manifests of installed games, which catalog items are games, the
//! games of the account library, and
//! merging the account library with the installed games by title.
use vstd::prelude::*;
use crate::sources::{copy_game, copy_opt, join_path, source_views, SourceGame, SourceGameView};
use crate::text::{
    chars_of, copy_string, eq_str, lowercase_of, opt_view, string_views, to_lowercase, trim,
    trim_seq,
};

verus! {

/// The title a game is matched by: its name (empty when it has none), trimmed and
/// lower-cased.
pub open spec fn match_title(name: Option<Seq<char>>) -> Seq<char> {
    lowercase_of(
        trim_seq(
            match name {
                Some(n) => n,
                None => Seq::empty(),
            },
        ),
    )
}

/// Index of the first library game with this match title, if any.
pub open spec fn first_with_title(lib: Seq<SourceGameView>, t: Seq<char>) -> Option<int> {
    if exists|i: int| 0 <= i < lib.len() && match_title(lib[i].name) == t {
        Some(choose|i: int| 0 <= i < lib.len() && match_title(lib[i].name) == t && forall|j: int| 0 <= j < i ==> match_title(lib[j].name) != t)
    } else {
        None
    }
}

/// One local game merged by title: the first library game with the same match title
/// becomes installed with the local executable and install paths; a local game missing
/// from the library is added.
pub open spec fn merge_by_title_step(lib: Seq<SourceGameView>, local: SourceGameView) -> Seq<SourceGameView> {
    match first_with_title(lib, match_title(local.name)) {
        Some(i) => lib.update(
            i,
            SourceGameView {
                installed: true,
                executable_path: local.executable_path,
                install_path: local.install_path,
                ..lib[i]
            },
        ),
        None => lib.push(local),
    }
}

/// The local games merged one after another.
pub open spec fn merge_by_title(lib: Seq<SourceGameView>, locals: Seq<SourceGameView>) -> Seq<SourceGameView>
    decreases locals.len(),
{
    if locals.len() == 0 {
        lib
    } else {
        merge_by_title_step(merge_by_title(lib, locals.drop_last()), locals.last())
    }
}

fn title_of(name: &Option<String>) -> (r: String)
    ensures
        r@ == match_title(opt_view(*name)),
{
    let t = match name {
        Some(n) => trim(n.as_str()),
        None => {
            let e = String::new();
            assert(e@ =~= trim_seq(Seq::<char>::empty()));
            e
        },
    };
    to_lowercase(t.as_str())
}

fn find_by_title(lib: &Vec<SourceGame>, t: &str) -> (r: Option<usize>)
    ensures
        match r {
            Some(i) => i < lib.len() && first_with_title(source_views(lib@), t@) == Some(i as int),
            None => first_with_title(source_views(lib@), t@) is None,
        },
{
    let ghost lv = source_views(lib@);
    let mut i: usize = 0;
    while i < lib.len()
        invariant
            i <= lib.len(),
            lv == source_views(lib@),
            forall|j: int| 0 <= j < i ==> match_title(lv[j].name) != t@,
        decreases lib.len() - i,
    {
        let gt = title_of(&lib[i].name);
        if eq_str(gt.as_str(), t) {
            proof {
                let c = choose|k: int| 0 <= k < lv.len() && match_title(lv[k].name) == t@ && forall|j: int| 0 <= j < k ==> match_title(lv[j].name) != t@;
                if c < i {
                    assert(match_title(lv[c].name) != t@);
                }
                if c > i {
                    assert(match_title(lv[i as int].name) != t@);
                }
            }
            return Some(i);
        }
        i = i + 1;
    }
    None
}

/// Marks as installed the library games whose trimmed, lower-cased title matches a
/// locally installed game (the manifest's id and the catalog id differ), taking the
/// local executable and install paths; installed games missing from the library are added.
pub fn merge_local_install_status(library_games: &mut Vec<SourceGame>, local_games: Vec<SourceGame>)
    ensures
        source_views(final(library_games)@) == merge_by_title(source_views(old(library_games)@), source_views(local_games@)),
{
    let ghost start = source_views(library_games@);
    let ghost lv = source_views(local_games@);
    let mut k: usize = 0;
    assert(lv.take(0) =~= Seq::<SourceGameView>::empty());
    while k < local_games.len()
        invariant
            k <= local_games.len(),
            lv == source_views(local_games@),
            source_views(library_games@) == merge_by_title(start, lv.take(k as int)),
        decreases local_games.len() - k,
    {
        assert(lv.take(k + 1).drop_last() =~= lv.take(k as int));
        assert(lv.take(k + 1).last() == local_games@[k as int]@);
        let local = &local_games[k];
        let ghost before = source_views(library_games@);
        let t = title_of(&local.name);
        match find_by_title(library_games, t.as_str()) {
            Some(i) => {
                let mut g = copy_game(&library_games[i]);
                g.installed = true;
                g.executable_path = copy_opt(&local.executable_path);
                g.install_path = copy_opt(&local.install_path);
                let ghost gv = g@;
                library_games.set(i, g);
                assert(source_views(library_games@) =~= before.update(i as int, gv));
            },
            None => {
                library_games.push(copy_game(local));
                assert(source_views(library_games@) =~= before.push(local@));
            },
        }
        k = k + 1;
    }
    assert(lv.take(local_games.len() as int) =~= lv);
}

/// The code of a character with ASCII upper-case letters read as lower case.
pub open spec fn ascii_lower(c: char) -> int {
    if 'A' <= c && c <= 'Z' {
        (c as int) + 32
    } else {
        c as int
    }
}

/// Equal ignoring ASCII case (`str::eq_ignore_ascii_case`).
pub open spec fn eq_ignore_ascii_case(a: Seq<char>, b: Seq<char>) -> bool {
    a.len() == b.len() && forall|i: int| 0 <= i < a.len() ==> ascii_lower(#[trigger] a[i]) == ascii_lower(b[i])
}

/// The extension of a file name (`Path::extension`): what follows the last dot, when
/// that dot is not the first character.
pub open spec fn extension_of(file_name: Seq<char>) -> Option<Seq<char>> {
    if exists|p: int| 0 < p < file_name.len() && file_name[p] == '.' {
        let p = choose|p: int|
            0 < p < file_name.len() && file_name[p] == '.' && forall|q: int| p < q < file_name.len() ==> file_name[q] != '.';
        Some(file_name.subrange(p + 1, file_name.len() as int))
    } else {
        None
    }
}

fn to_ascii_lower(c: char) -> (r: u32)
    ensures
        r == ascii_lower(c),
{
    if 'A' <= c && c <= 'Z' {
        c as u32 + 32
    } else {
        c as u32
    }
}

/// The extension of a file name, if it has one.
pub fn file_extension(file_name: &str) -> (r: Option<Vec<char>>)
    ensures
        match r {
            Some(e) => extension_of(file_name@) == Some(e@),
            None => extension_of(file_name@) is None,
        },
{
    let v = chars_of(file_name);
    let mut p: usize = v.len();
    while p > 0 && v[p - 1] != '.'
        invariant
            p <= v.len(),
            forall|q: int| p <= q < v.len() ==> v@[q] != '.',
        decreases p,
    {
        p = p - 1;
    }
    if p <= 1 {
        proof {
            if exists|q: int| 0 < q < v@.len() && v@[q] == '.' {
                let q = choose|q: int| 0 < q < v@.len() && v@[q] == '.';
                assert(false);
            }
        }
        return None;
    }
    let dot = p - 1;
    proof {
        let q = choose|q: int|
            0 < q < v@.len() && v@[q] == '.' && forall|r: int| q < r < v@.len() ==> v@[r] != '.';
        assert(0 < dot < v@.len() && v@[dot as int] == '.');
        if q < dot {
            assert(v@[dot as int] != '.');
        }
        if q > dot {
            assert(v@[q] != '.');
        }
    }
    Some(crate::text::slice_vec(&v, dot + 1, v.len()))
}

/// A launcher manifest file: extension `item` in any ASCII case.
pub fn is_item_file(file_name: &str) -> (b: bool)
    ensures
        b == match extension_of(file_name@) {
            Some(e) => eq_ignore_ascii_case(e, "item"@),
            None => false,
        },
{
    let item = chars_of("item");
    proof {
        reveal_strlit("item");
    }
    match file_extension(file_name) {
        Some(e) => {
            if e.len() != 4 {
                return false;
            }
            assert(item.len() == 4);
            let mut i: usize = 0;
            while i < 4
                invariant
                    e.len() == 4,
                    extension_of(file_name@) == Some(e@),
                    item.len() == 4,
                    item@ == "item"@,
                    i <= 4,
                    forall|k: int| 0 <= k < i ==> ascii_lower(#[trigger] e@[k]) == ascii_lower(item@[k]),
                decreases 4 - i,
            {
                if to_ascii_lower(e[i]) != to_ascii_lower(item[i]) {
                    assert(ascii_lower(e@[i as int]) != ascii_lower("item"@[i as int]));
                    assert(!eq_ignore_ascii_case(e@, "item"@));
                    return false;
                }
                i = i + 1;
            }
            true
        },
        None => false,
    }
}

/// A catalog item of the account library, with the paths of its categories.
pub struct EpicCatalogItem {
    pub title: String,
    pub categories: Vec<String>,
}

impl EpicCatalogItem {
    /// An item is a game when one of its categories is `games`.
    pub fn is_game(&self) -> (b: bool)
        ensures
            b == string_views(self.categories@).contains("games"@),
    {
        crate::text::contains_string(&self.categories, "games")
    }
}

/// The fields of an installed-game manifest that the import reads.
pub struct EpicManifest {
    pub display_name: Option<String>,
    pub install_location: Option<String>,
    pub launch_executable: Option<String>,
    pub app_name: Option<String>,
}

/// The game a manifest describes, with its executable at `executable_path`; a manifest
/// without install location, launch executable or app name is refused, naming the first
/// missing field.
pub fn installed_game(m: EpicManifest, executable_path: String) -> (r: Result<SourceGame, String>)
    ensures
        match r {
            Ok(g) => {
                &&& opt_view(m.install_location) is Some
                &&& opt_view(m.launch_executable) is Some
                &&& opt_view(m.app_name) is Some
                &&& g@ == SourceGameView {
                    platform: "Epic"@,
                    platform_game_id: opt_view(m.app_name)->0,
                    name: Some(
                        match opt_view(m.display_name) {
                            Some(n) => n,
                            None => "Unknown"@,
                        },
                    ),
                    installed: true,
                    executable_path: Some(executable_path@),
                    install_path: opt_view(m.install_location),
                    playtime_minutes: None,
                    last_played: None,
                }
            },
            Err(e) => e@ == if opt_view(m.install_location) is None {
                "InstallLocation"@
            } else if opt_view(m.launch_executable) is None {
                "LaunchExecutable"@
            } else {
                "AppName"@
            } && (opt_view(m.install_location) is None || opt_view(m.launch_executable) is None
                || opt_view(m.app_name) is None),
        },
{
    let name = match m.display_name {
        Some(n) => n,
        None => copy_string("Unknown"),
    };
    let install_location = match m.install_location {
        Some(l) => l,
        None => {
            return Err(copy_string("InstallLocation"));
        },
    };
    if m.launch_executable.is_none() {
        return Err(copy_string("LaunchExecutable"));
    }
    let app_name = match m.app_name {
        Some(a) => a,
        None => {
            return Err(copy_string("AppName"));
        },
    };
    Ok(SourceGame {
        platform: copy_string("Epic"),
        platform_game_id: app_name,
        name: Some(name),
        installed: true,
        executable_path: Some(executable_path),
        install_path: Some(install_location),
        playtime_minutes: None,
        last_played: None,
    })
}

/// The game a manifest describes: its executable is the launch executable joined to the
/// install location. A manifest missing a required field is refused as in `installed_game`.
pub fn parse_manifest(m: EpicManifest) -> (r: Result<SourceGame, String>)
    ensures
        r is Ok <==> (opt_view(m.install_location) is Some && opt_view(m.launch_executable) is Some
            && opt_view(m.app_name) is Some),
        match r {
            Ok(g) => g.platform@ == "Epic"@ && g.platform_game_id@ == opt_view(m.app_name)->0
                && opt_view(g.name) == Some(
                match opt_view(m.display_name) {
                    Some(n) => n,
                    None => "Unknown"@,
                },
            ) && g.installed && g.executable_path is Some && opt_view(g.install_path) == opt_view(m.install_location)
                && g.playtime_minutes is None && g.last_played is None,
            Err(e) => e@ == if opt_view(m.install_location) is None {
                "InstallLocation"@
            } else if opt_view(m.launch_executable) is None {
                "LaunchExecutable"@
            } else {
                "AppName"@
            },
        },
{
    let exe = match (&m.install_location, &m.launch_executable) {
        (Some(l), Some(e)) => join_path(l.as_str(), e.as_str()),
        _ => String::new(),
    };
    installed_game(m, exe)
}


/// An item of the account library: its namespace and catalog item id.
pub struct EpicLibraryItem {
    pub namespace: String,
    pub catalog_item_id: String,
}

/// A catalog item resolved for the library: where it is, its title, and whether the
/// catalog files it under games.
pub struct EpicCatalogTitle {
    pub namespace: String,
    pub catalog_item_id: String,
    pub title: String,
    pub is_game: bool,
}

/// The namespace of the engine's own items, which are never library games.
pub open spec fn engine_namespace() -> Seq<char> {
    "ue"@
}

/// The title and game flag resolved for an item, if the catalog resolved it.
pub open spec fn catalog_lookup(titles: Seq<EpicCatalogTitle>, ns: Seq<char>, id: Seq<char>) -> Option<(Seq<char>, bool)>
    decreases titles.len(),
{
    if titles.len() == 0 {
        None
    } else if titles[0].namespace@ == ns && titles[0].catalog_item_id@ == id {
        Some((titles[0].title@, titles[0].is_game))
    } else {
        catalog_lookup(titles.drop_first(), ns, id)
    }
}

/// Some pair of `s` has `key` first.
pub open spec fn has_key<V>(s: Seq<(Seq<char>, V)>, key: Seq<char>) -> bool {
    exists|k: int| 0 <= k < s.len() && (#[trigger] s[k]).0 == key
}

/// The catalog requests the library needs: for each namespace but the engine's, in the
/// order the library first names it, the ids of its items in library order.
pub open spec fn catalog_requests_spec(items: Seq<EpicLibraryItem>) -> Seq<(Seq<char>, Seq<Seq<char>>)>
    decreases items.len(),
{
    if items.len() == 0 {
        Seq::empty()
    } else {
        let prev = catalog_requests_spec(items.drop_last());
        let it = items.last();
        if it.namespace@ == engine_namespace() {
            prev
        } else if has_key(prev, it.namespace@) {
            let k = choose|k: int| 0 <= k < prev.len() && (#[trigger] prev[k]).0 == it.namespace@;
            prev.update(k, (prev[k].0, prev[k].1.push(it.catalog_item_id@)))
        } else {
            prev.push((it.namespace@, seq![it.catalog_item_id@]))
        }
    }
}

/// For each namespace but the engine's, the title of its first item (in library order)
/// that the catalog resolved as a game; namespaces in the order they were chosen.
pub open spec fn chosen_titles(items: Seq<EpicLibraryItem>, titles: Seq<EpicCatalogTitle>) -> Seq<(Seq<char>, Seq<char>)>
    decreases items.len(),
{
    if items.len() == 0 {
        Seq::empty()
    } else {
        let prev = chosen_titles(items.drop_last(), titles);
        let it = items.last();
        if it.namespace@ == engine_namespace() || has_key(prev, it.namespace@) {
            prev
        } else {
            match catalog_lookup(titles, it.namespace@, it.catalog_item_id@) {
                Some((t, g)) => if g {
                    prev.push((it.namespace@, t))
                } else {
                    prev
                },
                None => prev,
            }
        }
    }
}

/// The library game of a chosen namespace: an Epic game under the namespace, named by
/// the chosen title, not installed.
pub open spec fn library_game_view(c: (Seq<char>, Seq<char>)) -> SourceGameView {
    SourceGameView {
        platform: "Epic"@,
        platform_game_id: c.0,
        name: Some(c.1),
        installed: false,
        executable_path: None,
        install_path: None,
        playtime_minutes: None,
        last_played: None,
    }
}

fn lookup_title(titles: &Vec<EpicCatalogTitle>, ns: &str, id: &str) -> (r: Option<(String, bool)>)
    ensures
        match r {
            Some((t, g)) => catalog_lookup(titles@, ns@, id@) == Some((t@, g)),
            None => catalog_lookup(titles@, ns@, id@) is None,
        },
{
    let mut i: usize = 0;
    assert(titles@.skip(0) =~= titles@);
    while i < titles.len()
        invariant
            i <= titles.len(),
            catalog_lookup(titles@, ns@, id@) == catalog_lookup(titles@.skip(i as int), ns@, id@),
        decreases titles.len() - i,
    {
        assert(titles@.skip(i as int).drop_first() =~= titles@.skip(i + 1));
        if eq_str(titles[i].namespace.as_str(), ns) && eq_str(titles[i].catalog_item_id.as_str(), id) {
            return Some((titles[i].title.clone(), titles[i].is_game));
        }
        i = i + 1;
    }
    None
}

fn find_key<V>(s: &Vec<(String, V)>, key: &str) -> (r: Option<usize>)
    ensures
        match r {
            Some(k) => k < s.len() && s@[k as int].0@ == key@,
            None => forall|k: int| 0 <= k < s.len() ==> (#[trigger] s@[k]).0@ != key@,
        },
{
    let mut i: usize = 0;
    while i < s.len()
        invariant
            i <= s.len(),
            forall|k: int| 0 <= k < i ==> (#[trigger] s@[k]).0@ != key@,
        decreases s.len() - i,
    {
        if eq_str(s[i].0.as_str(), key) {
            return Some(i);
        }
        i = i + 1;
    }
    None
}

pub open spec fn request_views(s: Seq<(String, Vec<String>)>) -> Seq<(Seq<char>, Seq<Seq<char>>)> {
    s.map_values(|p: (String, Vec<String>)| (p.0@, string_views(p.1@)))
}

pub open spec fn pair_views(s: Seq<(String, String)>) -> Seq<(Seq<char>, Seq<char>)> {
    s.map_values(|p: (String, String)| (p.0@, p.1@))
}

/// Namespaces appear once in the catalog requests.
pub open spec fn keys_distinct<V>(s: Seq<(Seq<char>, V)>) -> bool {
    forall|a: int, b: int| 0 <= a < b < s.len() ==> (#[trigger] s[a]).0 != (#[trigger] s[b]).0
}

/// The catalog requests for a library: one per namespace but the engine's, with the ids
/// of its items.
pub fn catalog_requests(items: &Vec<EpicLibraryItem>) -> (r: Vec<(String, Vec<String>)>)
    ensures
        request_views(r@) == catalog_requests_spec(items@),
        keys_distinct(request_views(r@)),
{
    let mut out: Vec<(String, Vec<String>)> = Vec::new();
    let mut i: usize = 0;
    while i < items.len()
        invariant
            i <= items.len(),
            request_views(out@) == catalog_requests_spec(items@.take(i as int)),
            keys_distinct(request_views(out@)),
        decreases items.len() - i,
    {
        let ghost prev = request_views(out@);
        assert(items@.take(i + 1).drop_last() =~= items@.take(i as int));
        assert(items@.take(i + 1).last() == items@[i as int]);
        let it = &items[i];
        if eq_str(it.namespace.as_str(), "ue") {
        } else {
            match find_key(&out, it.namespace.as_str()) {
                Some(k) => {
                    proof {
                        assert(prev[k as int].0 == it.namespace@);
                        assert(has_key(prev, it.namespace@));
                        let k2 = choose|k2: int| 0 <= k2 < prev.len() && (#[trigger] prev[k2]).0 == it.namespace@;
                        assert(k2 == k);
                    }
                    let mut entry = out.remove(k);
                    entry.1.push(it.catalog_item_id.clone());
                    out.insert(k, entry);
                    proof {
                        assert(string_views(out@[k as int].1@) =~= prev[k as int].1.push(it.catalog_item_id@));
                        assert(request_views(out@) =~= prev.update(k as int, (prev[k as int].0, prev[k as int].1.push(it.catalog_item_id@))));
                    }
                },
                None => {
                    proof {
                        assert(!has_key(prev, it.namespace@)) by {
                            if has_key(prev, it.namespace@) {
                                let k2 = choose|k2: int| 0 <= k2 < prev.len() && (#[trigger] prev[k2]).0 == it.namespace@;
                                assert(out@[k2].0@ == it.namespace@);
                            }
                        }
                    }
                    let mut ids: Vec<String> = Vec::new();
                    ids.push(it.catalog_item_id.clone());
                    out.push((it.namespace.clone(), ids));
                    proof {
                        assert(string_views(ids@) =~= seq![it.catalog_item_id@]);
                        assert(request_views(out@) =~= prev.push((it.namespace@, seq![it.catalog_item_id@])));
                    }
                },
            }
        }
        i = i + 1;
    }
    assert(items@.take(items.len() as int) =~= items@);
    out
}

/// The games of the account library: for each namespace but the engine's, the first of
/// its items that the catalog resolved as a game, under the namespace's id and with that
/// item's title. A namespace none of whose items resolved as a game gives no game.
pub fn library_games_from_catalog(items: &Vec<EpicLibraryItem>, titles: &Vec<EpicCatalogTitle>) -> (r: Vec<SourceGame>)
    ensures
        source_views(r@) == chosen_titles(items@, titles@).map_values(|c: (Seq<char>, Seq<char>)| library_game_view(c)),
        keys_distinct(chosen_titles(items@, titles@)),
{
    let mut chosen: Vec<(String, String)> = Vec::new();
    let mut i: usize = 0;
    while i < items.len()
        invariant
            i <= items.len(),
            pair_views(chosen@) == chosen_titles(items@.take(i as int), titles@),
            keys_distinct(pair_views(chosen@)),
        decreases items.len() - i,
    {
        let ghost prev = pair_views(chosen@);
        assert(items@.take(i + 1).drop_last() =~= items@.take(i as int));
        assert(items@.take(i + 1).last() == items@[i as int]);
        let it = &items[i];
        let seen = find_key(&chosen, it.namespace.as_str());
        proof {
            match seen {
                Some(k) => {
                    assert(prev[k as int].0 == it.namespace@);
                    assert(has_key(prev, it.namespace@));
                },
                None => {
                    assert(!has_key(prev, it.namespace@)) by {
                        if has_key(prev, it.namespace@) {
                            let k2 = choose|k2: int| 0 <= k2 < prev.len() && (#[trigger] prev[k2]).0 == it.namespace@;
                            assert(chosen@[k2].0@ == it.namespace@);
                        }
                    }
                },
            }
        }
        if !eq_str(it.namespace.as_str(), "ue") && seen.is_none() {
            match lookup_title(titles, it.namespace.as_str(), it.catalog_item_id.as_str()) {
                Some((t, g)) => {
                    if g {
                        chosen.push((it.namespace.clone(), t));
                        assert(pair_views(chosen@) =~= prev.push((it.namespace@, t@)));
                    }
                },
                None => {},
            }
        }
        i = i + 1;
    }
    assert(items@.take(items.len() as int) =~= items@);
    let mut out: Vec<SourceGame> = Vec::new();
    let mut j: usize = 0;
    while j < chosen.len()
        invariant
            j <= chosen.len(),
            out.len() == j,
            source_views(out@) == pair_views(chosen@).take(j as int).map_values(|c: (Seq<char>, Seq<char>)| library_game_view(c)),
        decreases chosen.len() - j,
    {
        let g = SourceGame {
            platform: copy_string("Epic"),
            platform_game_id: chosen[j].0.clone(),
            name: Some(chosen[j].1.clone()),
            installed: false,
            executable_path: None,
            install_path: None,
            playtime_minutes: None,
            last_played: None,
        };
        let ghost before = source_views(out@);
        out.push(g);
        proof {
            let pv = pair_views(chosen@);
            assert(source_views(out@) =~= before.push(out@[j as int]@));
            assert(pv.take(j + 1) =~= pv.take(j as int).push(pv[j as int]));
            assert(pair_views(chosen@)[j as int] == (chosen@[j as int].0@, chosen@[j as int].1@));
            assert(out@[j as int]@ == library_game_view(pair_views(chosen@)[j as int]));
            assert(source_views(out@) =~= pair_views(chosen@).take(j + 1).map_values(|c: (Seq<char>, Seq<char>)| library_game_view(c)));
        }
        j = j + 1;
    }
    assert(pair_views(chosen@).take(chosen.len() as int) =~= pair_views(chosen@));
    out
}



proof fn lemma_least_first_with_title(lib: Seq<SourceGameView>, key: Seq<char>, w: int)
    requires
        0 <= w < lib.len(),
        match_title(lib[w].name) == key,
    ensures
        exists|i: int| 0 <= i < lib.len() && match_title(lib[i].name) == key && forall|j: int| 0 <= j < i ==> match_title(lib[j].name) != key,
    decreases w,
{
    if exists|j: int| 0 <= j < w && match_title(lib[j].name) == key {
        let j = choose|j: int| 0 <= j < w && match_title(lib[j].name) == key;
        lemma_least_first_with_title(lib, key, j);
    } else {
        assert(forall|j: int| 0 <= j < w ==> match_title(lib[j].name) != key);
    }
}

proof fn lemma_first_with_title_found(lib: Seq<SourceGameView>, key: Seq<char>)
    ensures
        match first_with_title(lib, key) {
            Some(i) => 0 <= i < lib.len() && match_title(lib[i].name) == key,
            None => forall|k: int| 0 <= k < lib.len() ==> match_title(lib[k].name) != key,
        },
{
    if exists|i: int| 0 <= i < lib.len() && match_title(lib[i].name) == key {
        let w = choose|i: int| 0 <= i < lib.len() && match_title(lib[i].name) == key;
        lemma_least_first_with_title(lib, key, w);
    }
}

proof fn lemma_merge_by_title_step_props(lib: Seq<SourceGameView>, l: SourceGameView)
    ensures
        merge_by_title_step(lib, l).len() >= lib.len(),
        forall|k: int| 0 <= k < lib.len() ==> match_title((#[trigger] merge_by_title_step(lib, l)[k]).name) == match_title(lib[k].name)
            && (lib[k].installed ==> merge_by_title_step(lib, l)[k].installed),
        exists|k: int| 0 <= k < merge_by_title_step(lib, l).len() && match_title((#[trigger] merge_by_title_step(lib, l)[k]).name) == match_title(l.name)
            && (l.installed ==> merge_by_title_step(lib, l)[k].installed),
{
    let r = merge_by_title_step(lib, l);
    lemma_first_with_title_found(lib, match_title(l.name));
    match first_with_title(lib, match_title(l.name)) {
        Some(i) => {
            assert(match_title(r[i].name) == match_title(l.name));
            assert forall|k: int| 0 <= k < lib.len() implies match_title((#[trigger] r[k]).name) == match_title(lib[k].name)
                && (lib[k].installed ==> r[k].installed) by {
                if k != i {
                    assert(r[k] == lib[k]);
                }
            }
        },
        None => {
            assert(r[lib.len() as int] == l);
            assert forall|k: int| 0 <= k < lib.len() implies match_title((#[trigger] r[k]).name) == match_title(lib[k].name)
                && (lib[k].installed ==> r[k].installed) by {
                assert(r[k] == lib[k]);
            }
        },
    }
}

/// Merging keeps every library game in its place with its title and never marks one as
/// not installed; afterwards every local game's title is in the library, installed when
/// the local game is.
pub proof fn lemma_merge_by_title_law(lib: Seq<SourceGameView>, locals: Seq<SourceGameView>)
    ensures
        merge_by_title(lib, locals).len() >= lib.len(),
        forall|k: int| 0 <= k < lib.len() ==> match_title((#[trigger] merge_by_title(lib, locals)[k]).name) == match_title(lib[k].name)
            && (lib[k].installed ==> merge_by_title(lib, locals)[k].installed),
        forall|i: int| 0 <= i < locals.len() ==> exists|k: int| 0 <= k < merge_by_title(lib, locals).len()
            && match_title((#[trigger] merge_by_title(lib, locals)[k]).name) == match_title((#[trigger] locals[i]).name)
            && (locals[i].installed ==> merge_by_title(lib, locals)[k].installed),
    decreases locals.len(),
{
    if locals.len() > 0 {
        let prev = merge_by_title(lib, locals.drop_last());
        lemma_merge_by_title_law(lib, locals.drop_last());
        lemma_merge_by_title_step_props(prev, locals.last());
        let r = merge_by_title(lib, locals);
        assert(r == merge_by_title_step(prev, locals.last()));
        assert forall|k: int| 0 <= k < lib.len() implies match_title((#[trigger] r[k]).name) == match_title(lib[k].name)
            && (lib[k].installed ==> r[k].installed) by {
            assert(match_title(prev[k].name) == match_title(lib[k].name));
        }
        assert forall|i: int| 0 <= i < locals.len() implies exists|k: int| 0 <= k < r.len()
            && match_title((#[trigger] r[k]).name) == match_title((#[trigger] locals[i]).name) && (locals[i].installed ==> r[k].installed) by {
            if i < locals.len() - 1 {
                assert(locals.drop_last()[i] == locals[i]);
                let k = choose|k: int| 0 <= k < prev.len() && match_title((#[trigger] prev[k]).name) == match_title((#[trigger] locals.drop_last()[i]).name)
                    && (locals.drop_last()[i].installed ==> prev[k].installed);
                assert(match_title(r[k].name) == match_title(prev[k].name));
            } else {
                assert(locals[i] == locals.last());
            }
        }
    }
}

} // verus!
