//! Expiry rules of the metadata cache: how long a payload stays fresh, by the kind of key.
use vstd::prelude::*;
use crate::text::{starts_with_seq, starts_with_str};

verus! {

/// Days a RAWG search result stays fresh.
pub const RAWG_GAME_TTL_DAYS: i64 = 30;
/// Days Steam store data stays fresh.
pub const STEAM_STORE_TTL_DAYS: i64 = 30;
/// Days Steam reviews stay fresh.
pub const STEAM_REVIEWS_TTL_DAYS: i64 = 7;
/// Days Steam play-time data stays fresh.
pub const STEAM_PLAYTIME_TTL_DAYS: i64 = 15;
/// Days any other payload stays fresh.
pub const DEFAULT_TTL_DAYS: i64 = 7;

/// Seconds in a day.
pub const SECONDS_PER_DAY: i64 = 86400;

/// Seconds an entry with this key stays fresh: by the key's prefix
/// (`search_`, `store_`, `reviews_`, `playtime_`), seven days otherwise.
pub open spec fn ttl_spec(key: Seq<char>) -> int {
    if starts_with_seq(key, "search_"@) {
        RAWG_GAME_TTL_DAYS * SECONDS_PER_DAY
    } else if starts_with_seq(key, "store_"@) {
        STEAM_STORE_TTL_DAYS * SECONDS_PER_DAY
    } else if starts_with_seq(key, "reviews_"@) {
        STEAM_REVIEWS_TTL_DAYS * SECONDS_PER_DAY
    } else if starts_with_seq(key, "playtime_"@) {
        STEAM_PLAYTIME_TTL_DAYS * SECONDS_PER_DAY
    } else {
        DEFAULT_TTL_DAYS * SECONDS_PER_DAY
    }
}

/// The time to live, in seconds, of an entry with this key.
pub fn get_ttl_for_cache_type(cache_key: &str) -> (r: i64)
    ensures
        r == ttl_spec(cache_key@),
        r > 0,
{
    if starts_with_str(cache_key, "search_") {
        RAWG_GAME_TTL_DAYS * SECONDS_PER_DAY
    } else if starts_with_str(cache_key, "store_") {
        STEAM_STORE_TTL_DAYS * SECONDS_PER_DAY
    } else if starts_with_str(cache_key, "reviews_") {
        STEAM_REVIEWS_TTL_DAYS * SECONDS_PER_DAY
    } else if starts_with_str(cache_key, "playtime_") {
        STEAM_PLAYTIME_TTL_DAYS * SECONDS_PER_DAY
    } else {
        DEFAULT_TTL_DAYS * SECONDS_PER_DAY
    }
}

/// An entry saved at `updated_at` is stale at `now` when it is older than its time to
/// live. The difference of the two times must fit in `i64`.
pub fn is_cache_expired(cache_key: &str, updated_at: i64, now: i64) -> (r: bool)
    requires
        i64::MIN <= now - updated_at <= i64::MAX,
    ensures
        r == (now - updated_at > ttl_spec(cache_key@)),
{
    let ttl = get_ttl_for_cache_type(cache_key);
    now - updated_at > ttl
}

/// The cached payload when it is still fresh at `now`, else nothing.
pub fn fresh_payload(cache_key: &str, payload: String, updated_at: i64, now: i64) -> (r: Option<String>)
    requires
        i64::MIN <= now - updated_at <= i64::MAX,
    ensures
        match r {
            Some(p) => p@ == payload@ && now - updated_at <= ttl_spec(cache_key@),
            None => now - updated_at > ttl_spec(cache_key@),
        },
{
    if is_cache_expired(cache_key, updated_at, now) {
        None
    } else {
        Some(payload)
    }
}

/// The times before which entries of each kind are stale at `now`: search, store,
/// reviews and play time.
pub fn expiry_cutoffs(now: i64) -> (r: (i64, i64, i64, i64))
    requires
        now >= i64::MIN + 30 * 86400,
    ensures
        r.0 == now - RAWG_GAME_TTL_DAYS * SECONDS_PER_DAY,
        r.1 == now - STEAM_STORE_TTL_DAYS * SECONDS_PER_DAY,
        r.2 == now - STEAM_REVIEWS_TTL_DAYS * SECONDS_PER_DAY,
        r.3 == now - STEAM_PLAYTIME_TTL_DAYS * SECONDS_PER_DAY,
{
    (
        now - RAWG_GAME_TTL_DAYS * SECONDS_PER_DAY,
        now - STEAM_STORE_TTL_DAYS * SECONDS_PER_DAY,
        now - STEAM_REVIEWS_TTL_DAYS * SECONDS_PER_DAY,
        now - STEAM_PLAYTIME_TTL_DAYS * SECONDS_PER_DAY,
    )
}

/// A payload is fresh when it was just saved, and once stale it stays stale: every time
/// to live is positive, and staleness only grows with the current time.
pub proof fn lemma_expiry_law(key: Seq<char>, updated_at: int, now: int, later: int)
    requires
        now <= later,
    ensures
        ttl_spec(key) > 0,
        !(updated_at - updated_at > ttl_spec(key)),
        now - updated_at > ttl_spec(key) ==> later - updated_at > ttl_spec(key),
{
}


/// Counts of the cache: all entries, RAWG entries, Steam entries and stale ones.
pub struct CacheStats {
    pub total_entries: i32,
    pub rawg_entries: i32,
    pub steam_entries: i32,
    pub expired_entries: i32,
}


/// The cache as a table: each key with its payload and the time it was saved.
pub open spec fn cache_saved(table: Map<Seq<char>, (Seq<char>, int)>, key: Seq<char>, payload: Seq<char>, at: int) -> Map<Seq<char>, (Seq<char>, int)> {
    table.insert(key, (payload, at))
}

/// What a read of `key` at `now` gives: the payload saved under it while still fresh.
pub open spec fn cache_read(table: Map<Seq<char>, (Seq<char>, int)>, key: Seq<char>, now: int) -> Option<Seq<char>> {
    if table.contains_key(key) && now - table[key].1 <= ttl_spec(key) {
        Some(table[key].0)
    } else {
        None
    }
}

/// A payload saved under a key at `t0` is read back at `t1` while `t1 - t0` is within the
/// key's time to live, and not afterwards; saving under another key changes no read.
pub proof fn lemma_cache_round_trip(
    table: Map<Seq<char>, (Seq<char>, int)>,
    key: Seq<char>,
    payload: Seq<char>,
    t0: int,
    t1: int,
    other: Seq<char>,
)
    ensures
        t1 - t0 <= ttl_spec(key) ==> cache_read(cache_saved(table, key, payload, t0), key, t1) == Some(payload),
        t1 - t0 > ttl_spec(key) ==> cache_read(cache_saved(table, key, payload, t0), key, t1) is None,
        other != key ==> cache_read(cache_saved(table, key, payload, t0), other, t1) == cache_read(table, other, t1),
{
}

} // verus!
