//! The Steam wishlist: what each wishlisted entry becomes, and the order of the list.
use vstd::prelude::*;
use crate::steam_library::clone_opt;
use crate::text::{chars_of, concat_str, copy_string, le_vec, lemma_seq_le_total, lemma_seq_le_trans, opt_view, seq_le};

verus! {

/// The store page of an app, before its id.
pub const STORE_APP_URL: &'static str = "https://store.steampowered.com/app/";

/// One package of a wishlist entry: its price as the store writes it (in cents, or
/// empty), and its discount percentage.
pub struct WishlistSub {
    pub id: u32,
    pub price: Option<String>,
    pub discount_pct: Option<i32>,
}

/// A wishlist entry as the store's wishlist data lists it, under its app id.
pub struct WishlistEntry {
    pub app_id: String,
    pub name: String,
    pub capsule: String,
    /// When the entry was added, in seconds since the Unix epoch.
    pub added: i64,
    pub subs: Option<Vec<WishlistSub>>,
}

/// What the prices of a wishlisted game are computed from: the first package's price
/// text and its discount percentage (0 where the store gives none).
pub struct WishlistPricing {
    pub price: Option<String>,
    pub discount_pct: i32,
}

/// A wishlisted game, its prices left as the store gave them.
pub struct WishlistItem {
    pub id: String,
    pub name: String,
    pub cover_url: Option<String>,
    pub store_url: Option<String>,
    pub store_platform: Option<String>,
    pub currency: Option<String>,
    pub on_sale: bool,
    pub added_at: Option<String>,
    /// `None` where the entry lists no package.
    pub pricing: Option<WishlistPricing>,
}

pub struct PricingView {
    pub price: Option<Seq<char>>,
    pub discount_pct: i32,
}

pub struct ItemView {
    pub id: Seq<char>,
    pub name: Seq<char>,
    pub cover_url: Option<Seq<char>>,
    pub store_url: Option<Seq<char>>,
    pub store_platform: Option<Seq<char>>,
    pub currency: Option<Seq<char>>,
    pub on_sale: bool,
    pub added_at: Option<Seq<char>>,
    pub pricing: Option<PricingView>,
}

pub open spec fn pricing_view(p: Option<WishlistPricing>) -> Option<PricingView> {
    match p {
        Some(p) => Some(PricingView { price: opt_view(p.price), discount_pct: p.discount_pct }),
        None => None,
    }
}

pub open spec fn item_view(i: WishlistItem) -> ItemView {
    ItemView {
        id: i.id@,
        name: i.name@,
        cover_url: opt_view(i.cover_url),
        store_url: opt_view(i.store_url),
        store_platform: opt_view(i.store_platform),
        currency: opt_view(i.currency),
        on_sale: i.on_sale,
        added_at: opt_view(i.added_at),
        pricing: pricing_view(i.pricing),
    }
}

pub open spec fn item_views(s: Seq<WishlistItem>) -> Seq<ItemView> {
    s.map_values(|i: WishlistItem| item_view(i))
}

/// The UTC date and time `secs` seconds after the Unix epoch, written in RFC 3339 form;
/// `None` where that date is out of range.
pub uninterp spec fn utc_rfc3339(secs: int) -> Option<Seq<char>>;

/// `chrono::DateTime::from_timestamp(secs, 0)`, written out by `to_rfc3339`. The text is
/// named, not described: it depends on `secs` alone (the time zone is UTC).
#[verifier::external_body]
fn rfc3339_of(secs: i64) -> (r: Option<String>)
    ensures
        opt_view(r) == utc_rfc3339(secs as int),
{
    match chrono::DateTime::from_timestamp(secs, 0) {
        Some(dt) => Some(dt.to_rfc3339()),
        None => None,
    }
}

/// The first package's price text and discount, where the entry lists a package.
pub open spec fn pricing_of(e: WishlistEntry) -> Option<PricingView> {
    match e.subs {
        Some(subs) => if subs.len() > 0 {
            Some(PricingView {
                price: opt_view(subs@[0].price),
                discount_pct: match subs@[0].discount_pct {
                    Some(p) => p,
                    None => 0,
                },
            })
        } else {
            None
        },
        None => None,
    }
}

/// The wishlisted game an entry stands for. It is on sale when its first package has a
/// positive discount; it was added at the entry's time, or at `now` where that time
/// has no date.
pub open spec fn item_spec(e: WishlistEntry, now: Seq<char>) -> ItemView {
    ItemView {
        id: e.app_id@,
        name: e.name@,
        cover_url: Some(e.capsule@),
        store_url: Some(STORE_APP_URL@ + e.app_id@),
        store_platform: Some("Steam"@),
        currency: Some("BRL"@),
        on_sale: match pricing_of(e) {
            Some(p) => p.discount_pct > 0,
            None => false,
        },
        added_at: Some(
            match utc_rfc3339(e.added as int) {
                Some(t) => t,
                None => now,
            },
        ),
        pricing: pricing_of(e),
    }
}

pub open spec fn item_specs(s: Seq<WishlistEntry>, now: Seq<char>) -> Seq<ItemView> {
    s.map_values(|e: WishlistEntry| item_spec(e, now))
}

/// The wishlisted game that `entry` stands for; `now` is the current time in RFC 3339
/// form, used where the entry's time has no date.
pub fn wishlist_item(entry: &WishlistEntry, now: &str) -> (r: WishlistItem)
    ensures
        item_view(r) == item_spec(*entry, now@),
{
    let pricing = match &entry.subs {
        Some(subs) => if subs.len() > 0 {
            let pct: i32 = match subs[0].discount_pct {
                Some(p) => p,
                None => 0,
            };
            Some(WishlistPricing { price: clone_opt(&subs[0].price), discount_pct: pct })
        } else {
            None
        },
        None => None,
    };
    let on_sale = match &pricing {
        Some(p) => p.discount_pct > 0,
        None => false,
    };
    let added = match rfc3339_of(entry.added) {
        Some(t) => t,
        None => copy_string(now),
    };
    WishlistItem {
        id: entry.app_id.clone(),
        name: entry.name.clone(),
        cover_url: Some(entry.capsule.clone()),
        store_url: Some(concat_str(STORE_APP_URL, &entry.app_id)),
        store_platform: Some(copy_string("Steam")),
        currency: Some(copy_string("BRL")),
        on_sale,
        added_at: Some(added),
        pricing,
    }
}

/// The time a game was added, as text (empty where it has none).
pub open spec fn added_key(v: ItemView) -> Seq<char> {
    match v.added_at {
        Some(t) => t,
        None => Seq::empty(),
    }
}

/// `t` placed into `s` after every game added at its time or later.
pub open spec fn insert_newest(s: Seq<ItemView>, t: ItemView) -> Seq<ItemView>
    decreases s.len(),
{
    if s.len() == 0 {
        seq![t]
    } else if seq_le(added_key(t), added_key(s.last())) {
        s.push(t)
    } else {
        insert_newest(s.drop_last(), t).push(s.last())
    }
}

/// Stable sort, most recently added first: games added at the same time keep their order.
pub open spec fn newest_first(s: Seq<ItemView>) -> Seq<ItemView>
    decreases s.len(),
{
    if s.len() == 0 {
        Seq::empty()
    } else {
        insert_newest(newest_first(s.drop_last()), s.last())
    }
}

proof fn lemma_insert_newest_at(s: Seq<ItemView>, t: ItemView, p: int)
    requires
        0 <= p <= s.len(),
        forall|q: int| p <= q < s.len() ==> !seq_le(added_key(t), added_key(#[trigger] s[q])),
        p == 0 || seq_le(added_key(t), added_key(s[p - 1])),
    ensures
        insert_newest(s, t) == s.insert(p, t),
    decreases s.len(),
{
    if s.len() == 0 {
        assert(s.insert(p, t) =~= seq![t]);
    } else if seq_le(added_key(t), added_key(s.last())) {
        assert(p == s.len());
        assert(s.insert(p, t) =~= s.push(t));
    } else {
        lemma_insert_newest_at(s.drop_last(), t, p);
        assert(s.insert(p, t) =~= s.drop_last().insert(p, t).push(s.last()));
    }
}

/// The wishlisted games that `entries` stand for, most recently added first; games
/// added at the same time keep the order of `entries`.
pub fn wishlist_games(entries: &Vec<WishlistEntry>, now: &str) -> (r: Vec<WishlistItem>)
    ensures
        item_views(r@) == newest_first(item_specs(entries@, now@)),
{
    let ghost specs = item_specs(entries@, now@);
    let mut out: Vec<WishlistItem> = Vec::new();
    let mut keys: Vec<Vec<char>> = Vec::new();
    let mut i: usize = 0;
    while i < entries.len()
        invariant
            i <= entries.len(),
            specs == item_specs(entries@, now@),
            out.len() == keys.len(),
            forall|q: int| 0 <= q < keys.len() ==> (#[trigger] keys@[q])@ == added_key(item_views(out@)[q]),
            item_views(out@) == newest_first(specs.take(i as int)),
        decreases entries.len() - i,
    {
        let item = wishlist_item(&entries[i], now);
        let key = match &item.added_at {
            Some(t) => chars_of(t),
            None => Vec::new(),
        };
        assert(key@ == added_key(item_view(item)));
        let mut p = out.len();
        while p > 0 && !le_vec(&key, &keys[p - 1])
            invariant
                p <= out.len(),
                out.len() == keys.len(),
                forall|q: int| 0 <= q < keys.len() ==> (#[trigger] keys@[q])@ == added_key(item_views(out@)[q]),
                forall|q: int| p <= q < out.len() ==> !seq_le(key@, added_key(#[trigger] item_views(out@)[q])),
            decreases p,
        {
            assert(keys@[p - 1]@ == added_key(item_views(out@)[p - 1]));
            p = p - 1;
        }
        proof {
            if p > 0 {
                assert(keys@[p - 1]@ == added_key(item_views(out@)[p - 1]));
            }
        }
        let ghost before = item_views(out@);
        let ghost before_keys = keys@;
        let ghost t = item_view(item);
        out.insert(p, item);
        keys.insert(p, key);
        proof {
            assert(specs[i as int] == item_spec(entries@[i as int], now@));
            assert(t == specs[i as int]);
            assert(specs.take(i + 1).drop_last() =~= specs.take(i as int));
            assert(specs.take(i + 1).last() == t);
            lemma_insert_newest_at(before, t, p as int);
            assert(item_views(out@) =~= before.insert(p as int, t));
            assert(keys@ =~= before_keys.insert(p as int, key));
        }
        i = i + 1;
    }
    assert(specs.take(entries.len() as int) =~= specs);
    out
}

/// The order of the wishlist: each game was added no earlier than every game after it,
/// and the list holds exactly the games it was built from.
pub proof fn lemma_newest_first_sorted(s: Seq<ItemView>)
    ensures
        newest_first(s).to_multiset() == s.to_multiset(),
        forall|i: int, j: int|
            0 <= i < j < newest_first(s).len() ==> seq_le(
                added_key(#[trigger] newest_first(s)[j]),
                added_key(#[trigger] newest_first(s)[i]),
            ),
    decreases s.len(),
{
    broadcast use vstd::seq_lib::group_to_multiset_ensures;
    if s.len() > 0 {
        lemma_newest_first_sorted(s.drop_last());
        lemma_insert_newest_sorted(newest_first(s.drop_last()), s.last());
        assert(s =~= s.drop_last().push(s.last()));
    }
}

proof fn lemma_insert_newest_sorted(s: Seq<ItemView>, t: ItemView)
    requires
        forall|i: int, j: int| 0 <= i < j < s.len() ==> seq_le(added_key(#[trigger] s[j]), added_key(#[trigger] s[i])),
    ensures
        insert_newest(s, t).to_multiset() == s.to_multiset().insert(t),
        forall|i: int, j: int|
            0 <= i < j < insert_newest(s, t).len() ==> seq_le(
                added_key(#[trigger] insert_newest(s, t)[j]),
                added_key(#[trigger] insert_newest(s, t)[i]),
            ),
    decreases s.len(),
{
    broadcast use vstd::seq_lib::group_to_multiset_ensures;
    if s.len() == 0 {
        assert(seq![t] =~= Seq::<ItemView>::empty().push(t));
    } else if seq_le(added_key(t), added_key(s.last())) {
        let r = s.push(t);
        assert forall|i: int, j: int| 0 <= i < j < r.len() implies seq_le(added_key(#[trigger] r[j]), added_key(#[trigger] r[i])) by {
            if j == s.len() {
                if i < s.len() - 1 {
                    lemma_seq_le_trans(added_key(t), added_key(s.last()), added_key(s[i]));
                }
            }
        }
    } else {
        let d = s.drop_last();
        let l = s.last();
        lemma_insert_newest_sorted(d, t);
        let m = insert_newest(d, t);
        let r = m.push(l);
        lemma_seq_le_total(added_key(t), added_key(l));
        assert(s =~= d.push(l));
        assert forall|i: int, j: int| 0 <= i < j < r.len() implies seq_le(added_key(#[trigger] r[j]), added_key(#[trigger] r[i])) by {
            if j == m.len() {
                // r[i] is t or an element of d: both added no earlier than l.
                assert(m.to_multiset().count(r[i]) > 0);
                assert(d.to_multiset().insert(t).count(r[i]) > 0);
                if r[i] != t {
                    assert(d.to_multiset().count(r[i]) > 0);
                    assert(d.contains(r[i]));
                    let k2 = d.index_of(r[i]);
                    assert(s[k2] == d[k2]);
                    assert(seq_le(added_key(s[s.len() - 1]), added_key(s[k2])));
                }
            }
        }
    }
}

} // verus!
