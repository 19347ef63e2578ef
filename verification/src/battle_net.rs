//! Battle.net: the installed games of `product.db`, named and completed from the
//! launcher's `aggregate.json` and the bundled catalog of product names.
use vstd::prelude::*;
use crate::epic::{ascii_lower, eq_ignore_ascii_case};
use crate::protobuf::{ProductDbEntry, ProductDbEntryView, entry_views};
use crate::sources::{SourceGame, SourceGameView};
use crate::text::{chars_of, copy_string, eq_str, lowercase_of, opt_view, to_lowercase};

verus! {

/// Product ids of the launcher's own components, which are not games.
pub open spec fn internal_ids() -> Seq<Seq<char>> {
    seq!["agent"@, "bna"@]
}

/// A product of the launcher itself (compared ignoring ASCII case).
pub open spec fn is_internal(id: Seq<char>) -> bool {
    exists|k: int| 0 <= k < internal_ids().len() && eq_ignore_ascii_case(id, #[trigger] internal_ids()[k])
}

/// An installed game as `aggregate.json` describes it.
pub struct AggregateGame {
    pub name: Option<String>,
    pub product_id: Option<String>,
    pub icon_path: Option<String>,
    pub last_played_timestamp: Option<i64>,
    pub box_art_uri: Option<String>,
    pub logo_art_uri: Option<String>,
}

/// A product id and its name in the bundled catalog.
pub struct CatalogEntry {
    pub product_id: String,
    pub name: String,
}

/// A Battle.net game with its cover art.
pub struct BattleNetGame {
    pub source: SourceGame,
    pub cover_url: Option<String>,
}

/// The aggregate entry for a lower-cased product id: the last one whose id, lower-cased,
/// is that (a later entry replaces an earlier one).
pub open spec fn find_aggregate(aggs: Seq<AggregateGame>, key: Seq<char>) -> Option<int>
    decreases aggs.len(),
{
    if aggs.len() == 0 {
        None
    } else if opt_view(aggs.last().product_id) matches Some(p) && lowercase_of(p) == key {
        Some(aggs.len() - 1)
    } else {
        find_aggregate(aggs.drop_last(), key)
    }
}

/// The catalog name for a lower-cased product id (the last entry for it).
pub open spec fn find_catalog(cat: Seq<CatalogEntry>, key: Seq<char>) -> Option<Seq<char>>
    decreases cat.len(),
{
    if cat.len() == 0 {
        None
    } else if lowercase_of(cat.last().product_id@) == key {
        Some(cat.last().name@)
    } else {
        find_catalog(cat.drop_last(), key)
    }
}

/// The game of a product installed at `path`: named by `aggregate.json`, else by the
/// catalog, else by its id; executable and cover from `aggregate.json` (box art, else
/// logo); last played in seconds when `aggregate.json` has a positive time in milliseconds.
pub open spec fn game_spec(e: ProductDbEntryView, path: Seq<char>, aggs: Seq<AggregateGame>, cat: Seq<CatalogEntry>) -> (SourceGameView, Option<Seq<char>>) {
    let key = lowercase_of(e.product_id);
    let agg = find_aggregate(aggs, key);
    let a = aggs[agg->0];
    let name = match agg {
        Some(_) => match opt_view(a.name) {
            Some(n) => n,
            None => match find_catalog(cat, key) {
                Some(n) => n,
                None => e.product_id,
            },
        },
        None => match find_catalog(cat, key) {
            Some(n) => n,
            None => e.product_id,
        },
    };
    let exe = match agg {
        Some(_) => opt_view(a.icon_path),
        None => None,
    };
    let last = match agg {
        Some(_) => match a.last_played_timestamp {
            Some(ms) => if ms > 0 {
                Some((ms / 1000) as i64)
            } else {
                None
            },
            None => None,
        },
        None => None,
    };
    let cover = match agg {
        Some(_) => match opt_view(a.box_art_uri) {
            Some(b) => Some(b),
            None => opt_view(a.logo_art_uri),
        },
        None => None,
    };
    (
        SourceGameView {
            platform: "BattleNet"@,
            platform_game_id: e.product_id,
            name: Some(name),
            installed: true,
            executable_path: exe,
            install_path: Some(path),
            playtime_minutes: None,
            last_played: last,
        },
        cover,
    )
}

pub open spec fn bn_views(v: Seq<BattleNetGame>) -> Seq<(SourceGameView, Option<Seq<char>>)> {
    v.map_values(|g: BattleNetGame| (g.source@, opt_view(g.cover_url)))
}

/// The games among the first `n` entries: those not of the launcher itself, with an
/// install path whose folder exists (`dir_exists[i]`), in order.
pub open spec fn games_spec(
    entries: Seq<ProductDbEntryView>,
    dir_exists: Seq<bool>,
    aggs: Seq<AggregateGame>,
    cat: Seq<CatalogEntry>,
    n: nat,
) -> Seq<(SourceGameView, Option<Seq<char>>)>
    decreases n,
{
    if n == 0 || n > entries.len() {
        Seq::empty()
    } else {
        let prev = games_spec(entries, dir_exists, aggs, cat, (n - 1) as nat);
        let e = entries[n - 1];
        if !is_internal(e.product_id) && e.install_path is Some && dir_exists[n - 1] {
            prev.push(game_spec(e, e.install_path->0, aggs, cat))
        } else {
            prev
        }
    }
}

fn internal_product(id: &str) -> (b: bool)
    ensures
        b == is_internal(id@),
{
    let v = chars_of(id);
    let agent = chars_of("agent");
    let bna = chars_of("bna");
    let a = eq_ascii_nocase(&v, &agent);
    let b = eq_ascii_nocase(&v, &bna);
    proof {
        assert(internal_ids()[0] == agent@);
        assert(internal_ids()[1] == bna@);
        if is_internal(id@) {
            let k = choose|k: int| 0 <= k < internal_ids().len() && eq_ignore_ascii_case(id@, #[trigger] internal_ids()[k]);
            assert(k == 0 || k == 1);
        }
    }
    a || b
}

fn lower_code(c: char) -> (r: u32)
    ensures
        r == ascii_lower(c),
{
    if 'A' <= c && c <= 'Z' {
        c as u32 + 32
    } else {
        c as u32
    }
}

fn eq_ascii_nocase(a: &Vec<char>, b: &Vec<char>) -> (r: bool)
    ensures
        r == eq_ignore_ascii_case(a@, b@),
{
    if a.len() != b.len() {
        return false;
    }
    let mut i: usize = 0;
    while i < a.len()
        invariant
            i <= a.len() == b.len(),
            forall|k: int| 0 <= k < i ==> ascii_lower(#[trigger] a@[k]) == ascii_lower(b@[k]),
        decreases a.len() - i,
    {
        if lower_code(a[i]) != lower_code(b[i]) {
            assert(!eq_ignore_ascii_case(a@, b@));
            return false;
        }
        i = i + 1;
    }
    true
}

fn aggregate_for(aggs: &Vec<AggregateGame>, key: &str) -> (r: Option<usize>)
    ensures
        match r {
            Some(i) => i < aggs.len() && find_aggregate(aggs@, key@) == Some(i as int),
            None => find_aggregate(aggs@, key@) is None,
        },
{
    let mut i: usize = aggs.len();
    assert(aggs@.take(i as int) =~= aggs@);
    while i > 0
        invariant
            i <= aggs.len(),
            find_aggregate(aggs@, key@) == match find_aggregate(aggs@.take(i as int), key@) {
                Some(k) => Some(k),
                None => None::<int>,
            },
        decreases i,
    {
        assert(aggs@.take(i as int).drop_last() =~= aggs@.take(i - 1));
        assert(aggs@.take(i as int).last() == aggs@[i - 1]);
        match &aggs[i - 1].product_id {
            Some(p) => {
                let l = to_lowercase(p.as_str());
                if eq_str(l.as_str(), key) {
                    return Some(i - 1);
                }
            },
            None => {},
        }
        i = i - 1;
    }
    None
}

fn catalog_for(cat: &Vec<CatalogEntry>, key: &str) -> (r: Option<String>)
    ensures
        opt_view(r) == find_catalog(cat@, key@),
{
    let mut i: usize = cat.len();
    assert(cat@.take(i as int) =~= cat@);
    while i > 0
        invariant
            i <= cat.len(),
            find_catalog(cat@, key@) == find_catalog(cat@.take(i as int), key@),
        decreases i,
    {
        assert(cat@.take(i as int).drop_last() =~= cat@.take(i - 1));
        assert(cat@.take(i as int).last() == cat@[i - 1]);
        let l = to_lowercase(cat[i - 1].product_id.as_str());
        if eq_str(l.as_str(), key) {
            return Some(cat[i - 1].name.clone());
        }
        i = i - 1;
    }
    None
}

fn copy_opt(o: &Option<String>) -> (r: Option<String>)
    ensures
        opt_view(r) == opt_view(*o),
{
    match o {
        Some(s) => Some(s.clone()),
        None => None,
    }
}

fn make_game(e: &ProductDbEntry, path: &String, aggs: &Vec<AggregateGame>, cat: &Vec<CatalogEntry>) -> (r: BattleNetGame)
    ensures
        (r.source@, opt_view(r.cover_url)) == game_spec(e@, path@, aggs@, cat@),
{
    let key = to_lowercase(e.product_id.as_str());
    let agg = aggregate_for(aggs, key.as_str());
    let fallback = match catalog_for(cat, key.as_str()) {
        Some(n) => n,
        None => e.product_id.clone(),
    };
    let (name, exe, last, cover) = match agg {
        Some(k) => {
            let a = &aggs[k];
            let name = match &a.name {
                Some(n) => n.clone(),
                None => fallback,
            };
            let last = match a.last_played_timestamp {
                Some(ms) => if ms > 0 {
                    Some(ms / 1000)
                } else {
                    None
                },
                None => None,
            };
            let cover = match &a.box_art_uri {
                Some(b) => Some(b.clone()),
                None => copy_opt(&a.logo_art_uri),
            };
            (name, copy_opt(&a.icon_path), last, cover)
        },
        None => (fallback, None, None, None),
    };
    BattleNetGame {
        source: SourceGame {
            platform: copy_string("BattleNet"),
            platform_game_id: e.product_id.clone(),
            name: Some(name),
            installed: true,
            executable_path: exe,
            install_path: Some(path.clone()),
            playtime_minutes: None,
            last_played: last,
        },
        cover_url: cover,
    }
}

/// The installed games of `product.db` (`dir_exists[i]` tells whether entry `i`'s install
/// folder exists): the launcher's own products, entries without install path and stale
/// entries are left out; each game is named and completed from `aggregate.json` entries
/// and the catalog, both matched by lower-cased product id.
pub fn fetch_games_detailed(
    entries: &Vec<ProductDbEntry>,
    dir_exists: &Vec<bool>,
    aggregate: &Vec<AggregateGame>,
    catalog: &Vec<CatalogEntry>,
) -> (r: Vec<BattleNetGame>)
    requires
        dir_exists.len() == entries.len(),
    ensures
        bn_views(r@) == games_spec(entry_views(entries@), dir_exists@, aggregate@, catalog@, entries@.len()),
{
    let ghost ev = entry_views(entries@);
    let mut out: Vec<BattleNetGame> = Vec::new();
    let mut i: usize = 0;
    while i < entries.len()
        invariant
            i <= entries.len() == dir_exists.len(),
            ev == entry_views(entries@),
            bn_views(out@) == games_spec(ev, dir_exists@, aggregate@, catalog@, i as nat),
        decreases entries.len() - i,
    {
        let e = &entries[i];
        assert(ev[i as int] == e@);
        if !internal_product(e.product_id.as_str()) {
            match &e.install_path {
                Some(p) => {
                    if dir_exists[i] {
                        let ghost before = bn_views(out@);
                        let g = make_game(e, p, aggregate, catalog);
                        out.push(g);
                        assert(bn_views(out@) =~= before.push(game_spec(e@, p@, aggregate@, catalog@)));
                    }
                },
                None => {},
            }
        }
        i = i + 1;
    }
    out
}


/// The Battle.net source: installed games read from the launcher's agent folder.
pub struct BattleNetSource {}

impl BattleNetSource {
    /// The source.
    pub fn new() -> (r: Self) {
        BattleNetSource {}
    }
}


/// A game that an entry of `product.db` gives: the entry is not the launcher's own
/// product, its folder exists, and the game keeps its product id and install path and is
/// marked installed.
pub open spec fn from_entry(e: ProductDbEntryView, folder_exists: bool, g: (SourceGameView, Option<Seq<char>>)) -> bool {
    &&& !is_internal(e.product_id)
    &&& folder_exists
    &&& e.install_path is Some
    &&& g.0.install_path == e.install_path
    &&& g.0.platform_game_id == e.product_id
    &&& g.0.installed
}

/// Some entry among the first `n` gives the game.
pub open spec fn from_some_entry(entries: Seq<ProductDbEntryView>, dir_exists: Seq<bool>, n: nat, g: (SourceGameView, Option<Seq<char>>)) -> bool {
    exists|i: int| 0 <= i < n && #[trigger] from_entry(entries[i], dir_exists[i], g)
}

/// Every game found comes from an installed entry of `product.db` that is not the
/// launcher's own product and whose folder exists: it keeps that entry's product id and
/// path and is marked installed. There are at most as many games as entries.
pub proof fn lemma_games_from_installed_entries(
    entries: Seq<ProductDbEntryView>,
    dir_exists: Seq<bool>,
    aggs: Seq<AggregateGame>,
    cat: Seq<CatalogEntry>,
    n: nat,
)
    requires
        n <= entries.len() == dir_exists.len(),
    ensures
        games_spec(entries, dir_exists, aggs, cat, n).len() <= n,
        forall|k: int| 0 <= k < games_spec(entries, dir_exists, aggs, cat, n).len() ==>
            from_some_entry(entries, dir_exists, n, #[trigger] games_spec(entries, dir_exists, aggs, cat, n)[k]),
    decreases n,
{
    if n > 0 {
        lemma_games_from_installed_entries(entries, dir_exists, aggs, cat, (n - 1) as nat);
        let prev = games_spec(entries, dir_exists, aggs, cat, (n - 1) as nat);
        let r = games_spec(entries, dir_exists, aggs, cat, n);
        assert forall|k: int| 0 <= k < r.len() implies from_some_entry(entries, dir_exists, n, #[trigger] r[k]) by {
            if k < prev.len() {
                assert(r[k] == prev[k]);
                assert(from_some_entry(entries, dir_exists, (n - 1) as nat, prev[k]));
                let i = choose|i: int| 0 <= i < n - 1 && #[trigger] from_entry(entries[i], dir_exists[i], prev[k]);
                assert(from_entry(entries[i], dir_exists[i], r[k]));
            } else {
                let i = n - 1;
                assert(r[k] == game_spec(entries[i], entries[i].install_path->0, aggs, cat));
                assert(from_entry(entries[i], dir_exists[i], r[k]));
            }
        }
    }
}

} // verus!
