//! Amazon Games: merging the account library with the games installed on disk, and the
//! device identifiers sent when registering.
use vstd::prelude::*;
use crate::sources::{copy_game, copy_opt, source_views, SourceGame, SourceGameView};
use crate::text::{concat_str, copy_string, eq_str, opt_view, push_char};
use sha2::Digest;

verus! {

/// Device type the app registers as.
pub const AMAZON_DEVICE_TYPE: &'static str = "A2UMVHOX7UP4V7";

/// Index of the first game with id `id`, if any.
pub open spec fn first_with_id(lib: Seq<SourceGameView>, id: Seq<char>) -> Option<int> {
    if exists|i: int| 0 <= i < lib.len() && lib[i].platform_game_id == id {
        Some(choose|i: int| 0 <= i < lib.len() && lib[i].platform_game_id == id && forall|j: int| 0 <= j < i ==> lib[j].platform_game_id != id)
    } else {
        None
    }
}

/// One local game merged by id: the first library game with its id becomes installed
/// with the local install path; a local game missing from the library is added.
pub open spec fn merge_by_id_step(lib: Seq<SourceGameView>, local: SourceGameView) -> Seq<SourceGameView> {
    match first_with_id(lib, local.platform_game_id) {
        Some(i) => lib.update(i, SourceGameView { installed: true, install_path: local.install_path, ..lib[i] }),
        None => lib.push(local),
    }
}

/// The local games merged one after another.
pub open spec fn merge_by_id(lib: Seq<SourceGameView>, locals: Seq<SourceGameView>) -> Seq<SourceGameView>
    decreases locals.len(),
{
    if locals.len() == 0 {
        lib
    } else {
        merge_by_id_step(merge_by_id(lib, locals.drop_last()), locals.last())
    }
}

fn find_by_id(lib: &Vec<SourceGame>, id: &str) -> (r: Option<usize>)
    ensures
        match r {
            Some(i) => i < lib.len() && first_with_id(source_views(lib@), id@) == Some(i as int),
            None => first_with_id(source_views(lib@), id@) is None,
        },
{
    let ghost lv = source_views(lib@);
    let mut i: usize = 0;
    while i < lib.len()
        invariant
            i <= lib.len(),
            lv == source_views(lib@),
            forall|j: int| 0 <= j < i ==> lv[j].platform_game_id != id@,
        decreases lib.len() - i,
    {
        if eq_str(lib[i].platform_game_id.as_str(), id) {
            proof {
                assert(lv[i as int].platform_game_id == id@);
                let c = choose|k: int| 0 <= k < lv.len() && lv[k].platform_game_id == id@ && forall|j: int| 0 <= j < k ==> lv[j].platform_game_id != id@;
                if c < i {
                    assert(lv[c].platform_game_id != id@);
                }
                if c > i {
                    assert(lv[i as int].platform_game_id != id@);
                }
            }
            return Some(i);
        }
        i = i + 1;
    }
    None
}

/// Marks as installed the library games that are installed locally, matched by exact
/// id, taking the local install path; installed games missing from the library are added.
pub fn merge_local_install_status(library_games: &mut Vec<SourceGame>, local_games: Vec<SourceGame>)
    ensures
        source_views(final(library_games)@) == merge_by_id(source_views(old(library_games)@), source_views(local_games@)),
{
    let ghost start = source_views(library_games@);
    let ghost lv = source_views(local_games@);
    let mut k: usize = 0;
    assert(lv.take(0) =~= Seq::<SourceGameView>::empty());
    while k < local_games.len()
        invariant
            k <= local_games.len(),
            lv == source_views(local_games@),
            source_views(library_games@) == merge_by_id(start, lv.take(k as int)),
        decreases local_games.len() - k,
    {
        assert(lv.take(k + 1).drop_last() =~= lv.take(k as int));
        assert(lv.take(k + 1).last() == local_games@[k as int]@);
        let local = &local_games[k];
        let ghost before = source_views(library_games@);
        match find_by_id(library_games, local.platform_game_id.as_str()) {
            Some(i) => {
                let mut g = copy_game(&library_games[i]);
                g.installed = true;
                g.install_path = copy_opt(&local.install_path);
                let ghost gv = g@;
                library_games.set(i, g);
                assert(source_views(library_games@) =~= before.update(i as int, gv));
            },
            None => {
                library_games.push(copy_game(local));
                assert(source_views(library_games@) =~= before.push(local@));
            },
        }
        k = k + 1;
    }
    assert(lv.take(local_games.len() as int) =~= lv);
}

/// A hexadecimal digit, `0`-`9` then `a`-`f` or `A`-`F`.
pub open spec fn hex_digit(d: u8, upper: bool) -> char {
    if d < 10 {
        (48 + d) as char
    } else if upper {
        (65 + (d - 10)) as char
    } else {
        (97 + (d - 10)) as char
    }
}

/// Two hexadecimal digits per byte, high nibble first.
pub open spec fn hex_of(bytes: Seq<u8>, upper: bool) -> Seq<char>
    decreases bytes.len(),
{
    if bytes.len() == 0 {
        Seq::empty()
    } else {
        hex_of(bytes.drop_last(), upper).push(hex_digit(bytes.last() / 16, upper)).push(
            hex_digit(bytes.last() % 16, upper),
        )
    }
}

fn hex_char(d: u8, upper: bool) -> (c: char)
    requires
        d < 16,
    ensures
        c == hex_digit(d, upper),
{
    if d < 10 {
        (48u8 + d) as char
    } else if upper {
        (65u8 + (d - 10)) as char
    } else {
        (97u8 + (d - 10)) as char
    }
}

fn hex_string(bytes: &[u8], upper: bool) -> (r: String)
    ensures
        r@ == hex_of(bytes@, upper),
{
    let mut out = String::new();
    let mut i: usize = 0;
    assert(bytes@.take(0) =~= Seq::<u8>::empty());
    while i < bytes.len()
        invariant
            i <= bytes.len(),
            out@ == hex_of(bytes@.take(i as int), upper),
        decreases bytes.len() - i,
    {
        assert(bytes@.take(i + 1).drop_last() =~= bytes@.take(i as int));
        let b = bytes[i];
        push_char(&mut out, hex_char(b / 16, upper));
        push_char(&mut out, hex_char(b % 16, upper));
        i = i + 1;
    }
    assert(bytes@.take(bytes.len() as int) =~= bytes@);
    out
}

/// Upper-case hexadecimal of the bytes.
pub fn hex_upper(bytes: &[u8]) -> (r: String)
    ensures
        r@ == hex_of(bytes@, true),
{
    hex_string(bytes, true)
}

/// The client id of a device: the lower-case hexadecimal of the UTF-8 bytes of
/// `<serial>#<device type>`.
pub fn generate_client_id(serial: &str) -> (r: String)
    ensures
        r@ == hex_of(vstd::utf8::encode_utf8(serial@ + "#"@ + AMAZON_DEVICE_TYPE@), false),
{
    let a = concat_str(serial, "#");
    let ex = concat_str(a.as_str(), AMAZON_DEVICE_TYPE);
    hex_string(ex.as_str().as_bytes(), false)
}


/// What SHA-256 gives for a message: its digest.
pub uninterp spec fn sha256_digest(message: Seq<u8>) -> Seq<u8>;

/// `sha2::Sha256`: a hasher fed the bytes, then finalized. The digest is named
/// (`sha256_digest`); the contract adds only that it is 32 bytes long, the output size
/// of SHA-256.
#[verifier::external_body]
fn sha256(bytes: &[u8]) -> (r: Vec<u8>)
    ensures
        r@ == sha256_digest(bytes@),
        r@.len() == 32,
{
    let mut hasher = sha2::Sha256::new();
    hasher.update(bytes);
    hasher.finalize().to_vec()
}

proof fn lemma_hex_len(bytes: Seq<u8>, upper: bool)
    ensures
        hex_of(bytes, upper).len() == 2 * bytes.len(),
    decreases bytes.len(),
{
    if bytes.len() > 0 {
        lemma_hex_len(bytes.drop_last(), upper);
    }
}

/// The hardware hash sent when listing the library: the upper-case hexadecimal of the
/// SHA-256 digest of the device serial's UTF-8 bytes, 64 characters.
pub fn hardware_hash(serial: &str) -> (r: String)
    ensures
        r@ == hex_of(sha256_digest(vstd::utf8::encode_utf8(serial@)), true),
        r@.len() == 64,
{
    let digest = sha256(serial.as_bytes());
    proof {
        lemma_hex_len(digest@, true);
    }
    hex_string(digest.as_slice(), true)
}

/// An entitlement of a library page: the product id and its title, when it has one.
pub struct Entitlement {
    pub id: String,
    pub title: Option<String>,
}

/// An owned product: id and title.
pub struct OwnedProduct {
    pub id: String,
    pub title: String,
}

pub open spec fn product_views(v: Seq<OwnedProduct>) -> Seq<(Seq<char>, Seq<char>)> {
    v.map_values(|p: OwnedProduct| (p.id@, p.title@))
}

pub open spec fn entitlement_views(v: Seq<Entitlement>) -> Seq<(Seq<char>, Option<Seq<char>>)> {
    v.map_values(|e: Entitlement| (e.id@, opt_view(e.title)))
}

/// No two products share an id.
pub open spec fn ids_unique(ps: Seq<(Seq<char>, Seq<char>)>) -> bool {
    forall|a: int, b: int| 0 <= a < b < ps.len() ==> (#[trigger] ps[a]).0 != (#[trigger] ps[b]).0
}

/// One entitlement added: a product whose id is already there keeps its first title; a
/// new one is added, titled by its id when it has no title.
pub open spec fn add_entitlement(ps: Seq<(Seq<char>, Seq<char>)>, e: (Seq<char>, Option<Seq<char>>)) -> Seq<(Seq<char>, Seq<char>)> {
    if exists|k: int| 0 <= k < ps.len() && (#[trigger] ps[k]).0 == e.0 {
        ps
    } else {
        ps.push(
            (
                e.0,
                match e.1 {
                    Some(t) => t,
                    None => e.0,
                },
            ),
        )
    }
}

/// A page of entitlements added one after another.
pub open spec fn add_page(ps: Seq<(Seq<char>, Seq<char>)>, page: Seq<(Seq<char>, Option<Seq<char>>)>) -> Seq<(Seq<char>, Seq<char>)>
    decreases page.len(),
{
    if page.len() == 0 {
        ps
    } else {
        add_entitlement(add_page(ps, page.drop_last()), page.last())
    }
}

proof fn lemma_add_keeps_unique(ps: Seq<(Seq<char>, Seq<char>)>, e: (Seq<char>, Option<Seq<char>>))
    requires
        ids_unique(ps),
    ensures
        ids_unique(add_entitlement(ps, e)),
{
    let r = add_entitlement(ps, e);
    if !(exists|k: int| 0 <= k < ps.len() && (#[trigger] ps[k]).0 == e.0) {
        assert forall|a: int, b: int| 0 <= a < b < r.len() implies (#[trigger] r[a]).0 != (#[trigger] r[b]).0 by {
            if b == ps.len() {
                assert(r[a] == ps[a]);
            } else {
                assert(r[a] == ps[a] && r[b] == ps[b]);
            }
        }
    }
}

/// Adding pages keeps the product ids unique, keeps every product already there with
/// its title, and holds every id of the page.
pub proof fn lemma_add_page_law(ps: Seq<(Seq<char>, Seq<char>)>, page: Seq<(Seq<char>, Option<Seq<char>>)>)
    requires
        ids_unique(ps),
    ensures
        ids_unique(add_page(ps, page)),
        add_page(ps, page).len() >= ps.len(),
        add_page(ps, page).take(ps.len() as int) == ps,
        forall|i: int| 0 <= i < page.len() ==> exists|k: int| 0 <= k < add_page(ps, page).len() && (#[trigger] add_page(ps, page)[k]).0 == (#[trigger] page[i]).0,
    decreases page.len(),
{
    if page.len() > 0 {
        let prev = add_page(ps, page.drop_last());
        lemma_add_page_law(ps, page.drop_last());
        lemma_add_keeps_unique(prev, page.last());
        let r = add_page(ps, page);
        assert(r.len() >= prev.len() >= ps.len());
        assert(r.take(prev.len() as int) =~= prev);
        assert(r.take(ps.len() as int) =~= prev.take(ps.len() as int));
        assert forall|i: int| 0 <= i < page.len() implies exists|k: int| 0 <= k < r.len() && (#[trigger] r[k]).0 == (#[trigger] page[i]).0 by {
            if i < page.len() - 1 {
                assert(page.drop_last()[i] == page[i]);
                let k = choose|k: int| 0 <= k < prev.len() && (#[trigger] prev[k]).0 == page.drop_last()[i].0;
                assert(r[k] == prev[k]);
            } else {
                if exists|k: int| 0 <= k < prev.len() && (#[trigger] prev[k]).0 == page[i].0 {
                    let k = choose|k: int| 0 <= k < prev.len() && (#[trigger] prev[k]).0 == page[i].0;
                    assert(r[k] == prev[k]);
                } else {
                    assert(r[prev.len() as int].0 == page[i].0);
                }
            }
        }
    }
}

fn product_index(products: &Vec<OwnedProduct>, id: &str) -> (r: bool)
    ensures
        r == exists|k: int| 0 <= k < products.len() && (#[trigger] product_views(products@)[k]).0 == id@,
{
    let ghost pv = product_views(products@);
    let mut i: usize = 0;
    while i < products.len()
        invariant
            i <= products.len(),
            pv == product_views(products@),
            forall|k: int| 0 <= k < i ==> (#[trigger] pv[k]).0 != id@,
        decreases products.len() - i,
    {
        if eq_str(products[i].id.as_str(), id) {
            assert(pv[i as int].0 == id@);
            return true;
        }
        i = i + 1;
    }
    false
}

/// Adds a page of entitlements to the products owned so far: each new product id is added
/// with its title (its id when it has none); an id already there keeps its first title.
pub fn add_entitlements(products: &mut Vec<OwnedProduct>, page: Vec<Entitlement>)
    ensures
        product_views(final(products)@) == add_page(product_views(old(products)@), entitlement_views(page@)),
{
    let ghost pv0 = product_views(products@);
    let ghost ev = entitlement_views(page@);
    let mut i: usize = 0;
    assert(ev.take(0) =~= Seq::<(Seq<char>, Option<Seq<char>>)>::empty());
    while i < page.len()
        invariant
            i <= page.len(),
            ev == entitlement_views(page@),
            product_views(products@) == add_page(pv0, ev.take(i as int)),
        decreases page.len() - i,
    {
        assert(ev.take(i + 1).drop_last() =~= ev.take(i as int));
        assert(ev.take(i + 1).last() == ev[i as int]);
        let e = &page[i];
        if !product_index(products, e.id.as_str()) {
            let title = match &e.title {
                Some(t) => t.clone(),
                None => e.id.clone(),
            };
            let ghost before = product_views(products@);
            products.push(OwnedProduct { id: e.id.clone(), title });
            assert(product_views(products@) =~= before.push((e.id@, product_views(products@).last().1)));
        }
        i = i + 1;
    }
    assert(ev.take(page.len() as int) =~= ev);
}

/// The token of the next library page: the one given, unless it is missing or empty, in
/// which case the listing is complete.
pub fn next_page_token(token: Option<String>) -> (r: Option<String>)
    ensures
        match opt_view(token) {
            Some(t) => if t.len() > 0 {
                opt_view(r) == Some(t)
            } else {
                r is None
            },
            None => r is None,
        },
{
    match token {
        Some(t) => if t.as_str().is_empty() {
            None
        } else {
            Some(t)
        },
        None => None,
    }
}

/// The library games of the owned products: Amazon games, not installed, by product id
/// and title.
pub fn library_games(products: &Vec<OwnedProduct>) -> (r: Vec<SourceGame>)
    ensures
        r@.len() == products@.len(),
        forall|i: int| 0 <= i < products@.len() ==> #[trigger] r@[i]@ == (SourceGameView {
            platform: "Amazon"@,
            platform_game_id: products@[i].id@,
            name: Some(products@[i].title@),
            installed: false,
            executable_path: None,
            install_path: None,
            playtime_minutes: None,
            last_played: None,
        }),
{
    let mut out: Vec<SourceGame> = Vec::new();
    let mut i: usize = 0;
    while i < products.len()
        invariant
            i <= products.len(),
            out@.len() == i,
            forall|k: int| 0 <= k < i ==> #[trigger] out@[k]@ == (SourceGameView {
                platform: "Amazon"@,
                platform_game_id: products@[k].id@,
                name: Some(products@[k].title@),
                installed: false,
                executable_path: None,
                install_path: None,
                playtime_minutes: None,
                last_played: None,
            }),
        decreases products.len() - i,
    {
        let p = &products[i];
        out.push(SourceGame {
            platform: copy_string("Amazon"),
            platform_game_id: p.id.clone(),
            name: Some(p.title.clone()),
            installed: false,
            executable_path: None,
            install_path: None,
            playtime_minutes: None,
            last_played: None,
        });
        i = i + 1;
    }
    out
}



proof fn lemma_least_first_with_id(lib: Seq<SourceGameView>, key: Seq<char>, w: int)
    requires
        0 <= w < lib.len(),
        lib[w].platform_game_id == key,
    ensures
        exists|i: int| 0 <= i < lib.len() && lib[i].platform_game_id == key && forall|j: int| 0 <= j < i ==> lib[j].platform_game_id != key,
    decreases w,
{
    if exists|j: int| 0 <= j < w && lib[j].platform_game_id == key {
        let j = choose|j: int| 0 <= j < w && lib[j].platform_game_id == key;
        lemma_least_first_with_id(lib, key, j);
    } else {
        assert(forall|j: int| 0 <= j < w ==> lib[j].platform_game_id != key);
    }
}

proof fn lemma_first_with_id_found(lib: Seq<SourceGameView>, key: Seq<char>)
    ensures
        match first_with_id(lib, key) {
            Some(i) => 0 <= i < lib.len() && lib[i].platform_game_id == key,
            None => forall|k: int| 0 <= k < lib.len() ==> lib[k].platform_game_id != key,
        },
{
    if exists|i: int| 0 <= i < lib.len() && lib[i].platform_game_id == key {
        let w = choose|i: int| 0 <= i < lib.len() && lib[i].platform_game_id == key;
        lemma_least_first_with_id(lib, key, w);
    }
}

proof fn lemma_merge_by_id_step_props(lib: Seq<SourceGameView>, l: SourceGameView)
    ensures
        merge_by_id_step(lib, l).len() >= lib.len(),
        forall|k: int| 0 <= k < lib.len() ==> (#[trigger] merge_by_id_step(lib, l)[k]).platform_game_id == lib[k].platform_game_id
            && (lib[k].installed ==> merge_by_id_step(lib, l)[k].installed),
        exists|k: int| 0 <= k < merge_by_id_step(lib, l).len() && (#[trigger] merge_by_id_step(lib, l)[k]).platform_game_id == l.platform_game_id
            && (l.installed ==> merge_by_id_step(lib, l)[k].installed),
{
    let r = merge_by_id_step(lib, l);
    lemma_first_with_id_found(lib, l.platform_game_id);
    match first_with_id(lib, l.platform_game_id) {
        Some(i) => {
            assert(r[i].platform_game_id == l.platform_game_id);
            assert forall|k: int| 0 <= k < lib.len() implies (#[trigger] r[k]).platform_game_id == lib[k].platform_game_id
                && (lib[k].installed ==> r[k].installed) by {
                if k != i {
                    assert(r[k] == lib[k]);
                }
            }
        },
        None => {
            assert(r[lib.len() as int] == l);
            assert forall|k: int| 0 <= k < lib.len() implies (#[trigger] r[k]).platform_game_id == lib[k].platform_game_id
                && (lib[k].installed ==> r[k].installed) by {
                assert(r[k] == lib[k]);
            }
        },
    }
}

/// Merging keeps every library game in its place with its id and never marks one as not
/// installed; afterwards every local game's id is in the library, installed when the
/// local game is.
pub proof fn lemma_merge_by_id_law(lib: Seq<SourceGameView>, locals: Seq<SourceGameView>)
    ensures
        merge_by_id(lib, locals).len() >= lib.len(),
        forall|k: int| 0 <= k < lib.len() ==> (#[trigger] merge_by_id(lib, locals)[k]).platform_game_id == lib[k].platform_game_id
            && (lib[k].installed ==> merge_by_id(lib, locals)[k].installed),
        forall|i: int| 0 <= i < locals.len() ==> exists|k: int| 0 <= k < merge_by_id(lib, locals).len()
            && (#[trigger] merge_by_id(lib, locals)[k]).platform_game_id == (#[trigger] locals[i]).platform_game_id
            && (locals[i].installed ==> merge_by_id(lib, locals)[k].installed),
    decreases locals.len(),
{
    if locals.len() > 0 {
        let prev = merge_by_id(lib, locals.drop_last());
        lemma_merge_by_id_law(lib, locals.drop_last());
        lemma_merge_by_id_step_props(prev, locals.last());
        let r = merge_by_id(lib, locals);
        assert(r == merge_by_id_step(prev, locals.last()));
        assert forall|k: int| 0 <= k < lib.len() implies (#[trigger] r[k]).platform_game_id == lib[k].platform_game_id
            && (lib[k].installed ==> r[k].installed) by {
            assert(prev[k].platform_game_id == lib[k].platform_game_id);
        }
        assert forall|i: int| 0 <= i < locals.len() implies exists|k: int| 0 <= k < r.len()
            && (#[trigger] r[k]).platform_game_id == (#[trigger] locals[i]).platform_game_id && (locals[i].installed ==> r[k].installed) by {
            if i < locals.len() - 1 {
                assert(locals.drop_last()[i] == locals[i]);
                let k = choose|k: int| 0 <= k < prev.len() && (#[trigger] prev[k]).platform_game_id == (#[trigger] locals.drop_last()[i]).platform_game_id
                    && (locals.drop_last()[i].installed ==> prev[k].installed);
                assert(r[k].platform_game_id == prev[k].platform_game_id);
            } else {
                assert(locals[i] == locals.last());
            }
        }
    }
}

} // verus!
