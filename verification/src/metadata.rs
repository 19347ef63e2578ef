//! Game metadata gathered from RAWG, and the keys of the secret store.
use vstd::prelude::*;
use crate::text::{chars_of, concat_str, copy_string, decimal_seq, i32_to_string, signed_decimal, lowercase_of, opt_view, string_from, string_views, to_lowercase, u64_to_string};

verus! {

/// Metadata of one library game.
pub struct UnifiedGameMetadata {
    pub game_id: String,
    pub game_name: String,
    pub series: Option<String>,
    pub description: String,
    pub release_date: Option<String>,
    pub genres: String,
    pub tags: String,
    pub developer: Option<String>,
    pub publisher: Option<String>,
    pub critic_score: Option<i32>,
    pub website_url: String,
    pub background_image: Option<String>,
    pub rawg_url: Option<String>,
    pub steam_app_id: Option<String>,
    pub success: bool,
    pub error_message: Option<String>,
}

impl UnifiedGameMetadata {
    /// The record of a game whose metadata could not be found, with the reason.
    pub fn empty_with_error(game_id: String, game_name: String, error: String) -> (r: Self)
        ensures
            r.game_id@ == game_id@,
            r.game_name@ == game_name@,
            r.series is None,
            r.description@ == "Metadados não encontrados"@,
            r.release_date is None,
            r.genres@ == Seq::<char>::empty(),
            r.tags@ == Seq::<char>::empty(),
            r.developer is None,
            r.publisher is None,
            r.critic_score is None,
            r.website_url@ == Seq::<char>::empty(),
            r.background_image is None,
            r.rawg_url is None,
            r.steam_app_id is None,
            !r.success,
            opt_view(r.error_message) == Some(error@),
    {
        UnifiedGameMetadata {
            game_id,
            game_name,
            series: None,
            description: copy_string("Metadados não encontrados"),
            release_date: None,
            genres: String::new(),
            tags: String::new(),
            developer: None,
            publisher: None,
            critic_score: None,
            website_url: String::new(),
            background_image: None,
            rawg_url: None,
            steam_app_id: None,
            success: false,
            error_message: Some(error),
        }
    }
}

/// The names joined with `, `.
pub open spec fn joined(names: Seq<Seq<char>>) -> Seq<char>
    decreases names.len(),
{
    if names.len() == 0 {
        Seq::empty()
    } else if names.len() == 1 {
        names[0]
    } else {
        joined(names.drop_last()) + ", "@ + names.last()
    }
}

/// The names joined with `, ` (`[..].join(", ")`).
pub fn join_names(names: &Vec<String>) -> (r: String)
    ensures
        r@ == joined(string_views(names@)),
{
    let ghost nv = string_views(names@);
    let mut out = String::new();
    let mut i: usize = 0;
    assert(nv.take(0) =~= Seq::<Seq<char>>::empty());
    while i < names.len()
        invariant
            i <= names.len(),
            nv == string_views(names@),
            out@ == joined(nv.take(i as int)),
        decreases names.len() - i,
    {
        assert(nv.take(i + 1).drop_last() =~= nv.take(i as int));
        assert(nv.take(i + 1).last() == names@[i as int]@);
        if i == 0 {
            out = names[0].clone();
            assert(nv.take(1)[0] == names@[0]@);
        } else {
            let a = concat_str(out.as_str(), ", ");
            out = concat_str(a.as_str(), names[i].as_str());
        }
        i = i + 1;
    }
    assert(nv.take(names.len() as int) =~= nv);
    out
}

/// A RAWG tag.
pub struct RawgTag {
    pub id: i32,
    pub name: String,
    pub slug: String,
    pub language: Option<String>,
    pub games_count: i32,
    pub image_background: Option<String>,
}

/// A RAWG developer.
pub struct RawgDeveloper {
    pub id: i32,
    pub name: String,
    pub slug: String,
}

/// A RAWG publisher.
pub struct RawgPublisher {
    pub id: i32,
    pub name: String,
    pub slug: String,
}

/// A RAWG genre.
pub struct RawgGenre {
    pub name: String,
}

/// An ESRB rating.
pub struct EsrbRating {
    pub id: Option<i32>,
    pub name: String,
    pub slug: Option<String>,
}

/// A store selling a game.
pub struct StoreInfo {
    pub id: i32,
    pub name: String,
    pub slug: String,
}

/// A game's page at a store.
pub struct StoreWrapper {
    pub id: i32,
    pub url: String,
    pub store: StoreInfo,
}

/// The details of a RAWG game.
pub struct GameDetails {
    pub id: i32,
    pub name: String,
    pub description_raw: Option<String>,
    pub metacritic: Option<i32>,
    pub website: Option<String>,
    pub released: Option<String>,
    pub background_image: Option<String>,
    pub genres: Vec<RawgGenre>,
    pub tags: Vec<RawgTag>,
    pub developers: Vec<RawgDeveloper>,
    pub publishers: Vec<RawgPublisher>,
    pub reddit_url: Option<String>,
    pub metacritic_url: Option<String>,
    pub stores: Vec<StoreWrapper>,
    pub esrb_rating: Option<EsrbRating>,
}

/// How metadata is fetched: the API keys, whether Steam is asked, the pause between
/// requests and how many run at once.
pub struct MetadataConfig {
    pub rawg_api_key: String,
    pub steam_api_key: Option<String>,
    pub enable_steam: bool,
    pub rate_limit_ms: u64,
    pub max_concurrent: usize,
}

pub open spec fn genre_names(v: Seq<RawgGenre>) -> Seq<Seq<char>> {
    v.map_values(|g: RawgGenre| g.name@)
}

pub open spec fn tag_names(v: Seq<RawgTag>) -> Seq<Seq<char>> {
    v.map_values(|t: RawgTag| t.name@)
}

fn names_of_genres(v: &Vec<RawgGenre>) -> (r: Vec<String>)
    ensures
        string_views(r@) == genre_names(v@),
{
    let mut out: Vec<String> = Vec::new();
    let mut i: usize = 0;
    while i < v.len()
        invariant
            i <= v.len(),
            string_views(out@) == genre_names(v@).take(i as int),
        decreases v.len() - i,
    {
        let ghost before = string_views(out@);
        let n = v[i].name.clone();
        out.push(n);
        assert(string_views(out@) =~= before.push(v@[i as int].name@));
        assert(string_views(out@) =~= genre_names(v@).take(i + 1));
        i = i + 1;
    }
    assert(genre_names(v@).take(v.len() as int) =~= genre_names(v@));
    out
}

fn names_of_tags(v: &Vec<RawgTag>, limit: usize) -> (r: Vec<String>)
    ensures
        string_views(r@) == first_n(tag_names(v@), limit as nat),
{
    let mut out: Vec<String> = Vec::new();
    let mut i: usize = 0;
    let n = if v.len() < limit { v.len() } else { limit };
    while i < n
        invariant
            i <= n <= v.len(),
            n == if v.len() < limit { v.len() } else { limit },
            string_views(out@) == tag_names(v@).take(i as int),
        decreases n - i,
    {
        let ghost before = string_views(out@);
        let t = v[i].name.clone();
        out.push(t);
        assert(string_views(out@) =~= before.push(v@[i as int].name@));
        assert(string_views(out@) =~= tag_names(v@).take(i + 1));
        i = i + 1;
    }
    assert(first_n(tag_names(v@), limit as nat) =~= tag_names(v@).take(n as int));
    out
}

/// The first `n` names (all of them when there are fewer).
pub open spec fn first_n(s: Seq<Seq<char>>, n: nat) -> Seq<Seq<char>> {
    if s.len() <= n {
        s
    } else {
        s.take(n as int)
    }
}

/// The metadata of a game found on RAWG as `rawg_id`: description and website (empty when
/// absent), the details' background image or else the search result's, genres and the
/// first ten tags joined with `, `, the first developer and publisher, and the game's
/// RAWG page.
pub fn metadata_from_details(
    game_id: String,
    game_name: String,
    series: Option<String>,
    details: GameDetails,
    rawg_id: u64,
    search_background: Option<String>,
) -> (r: UnifiedGameMetadata)
    ensures
        r.game_id@ == game_id@,
        r.game_name@ == game_name@,
        opt_view(r.series) == opt_view(series),
        r.description@ == match opt_view(details.description_raw) {
            Some(d) => d,
            None => Seq::empty(),
        },
        opt_view(r.release_date) == opt_view(details.released),
        r.genres@ == joined(genre_names(details.genres@)),
        r.tags@ == joined(first_n(tag_names(details.tags@), 10)),
        opt_view(r.developer) == if details.developers.len() > 0 { Some(details.developers@[0].name@) } else { None },
        opt_view(r.publisher) == if details.publishers.len() > 0 { Some(details.publishers@[0].name@) } else { None },
        r.critic_score == details.metacritic,
        r.website_url@ == match opt_view(details.website) {
            Some(w) => w,
            None => Seq::empty(),
        },
        opt_view(r.background_image) == match opt_view(details.background_image) {
            Some(b) => Some(b),
            None => opt_view(search_background),
        },
        opt_view(r.rawg_url) == Some("https://rawg.io/games/"@ + decimal_seq(rawg_id as nat)),
        r.steam_app_id is None,
        r.success,
        r.error_message is None,
{
    let genres = join_names(&names_of_genres(&details.genres));
    let tags = join_names(&names_of_tags(&details.tags, 10));
    let developer = if details.developers.len() > 0 { Some(details.developers[0].name.clone()) } else { None };
    let publisher = if details.publishers.len() > 0 { Some(details.publishers[0].name.clone()) } else { None };
    let description = match details.description_raw {
        Some(d) => d,
        None => String::new(),
    };
    let website = match details.website {
        Some(w) => w,
        None => String::new(),
    };
    let background_image = match details.background_image {
        Some(b) => Some(b),
        None => search_background,
    };
    let id = u64_to_string(rawg_id);
    let url = concat_str("https://rawg.io/games/", id.as_str());
    UnifiedGameMetadata {
        game_id,
        game_name,
        series,
        description,
        release_date: details.released,
        genres,
        tags,
        developer,
        publisher,
        critic_score: details.metacritic,
        website_url: website,
        background_image,
        rawg_url: Some(url),
        steam_app_id: None,
        success: true,
        error_message: None,
    }
}

/// The names of the keys the secret store accepts.
pub fn list_supported_keys() -> (r: Vec<&'static str>)
    ensures
        r@.len() == 3,
        r@[0]@ == "steam_id"@,
        r@[1]@ == "steam_api_key"@,
        r@[2]@ == "rawg_api_key"@,
{
    vec!["steam_id", "steam_api_key", "rawg_api_key"]
}


/// What `char::is_numeric` returns for a character.
pub uninterp spec fn numeric(c: char) -> bool;

/// `char::is_numeric`: whether the character is numeric in Unicode. The result is named;
/// the contract states what it is on ASCII characters (the digits) and leaves the other
/// characters to the name.
#[verifier::external_body]
fn is_numeric(c: char) -> (r: bool)
    ensures
        r == numeric(c),
        (c as u32) < 128 ==> (r == ('0' <= c <= '9')),
{
    c.is_numeric()
}

/// Characters a RAWG slug leaves out.
pub open spec fn slug_dropped(c: char) -> bool {
    c == ':' || c == '\'' || c == '&' || c == '.'
}

/// A title as a RAWG slug: spaces as hyphens, without `:`, `'`, `&` and `.`.
pub open spec fn slug_chars(s: Seq<char>) -> Seq<char>
    decreases s.len(),
{
    if s.len() == 0 {
        Seq::empty()
    } else if slug_dropped(s.last()) {
        slug_chars(s.drop_last())
    } else if s.last() == ' ' {
        slug_chars(s.drop_last()).push('-')
    } else {
        slug_chars(s.drop_last()).push(s.last())
    }
}

/// The identifier RAWG is asked for: a query of numeric characters only (a RAWG id) as
/// it is, any other query as the slug of its lower-cased text.
pub open spec fn rawg_identifier_spec(query: Seq<char>) -> Seq<char> {
    if forall|i: int| 0 <= i < query.len() ==> numeric(#[trigger] query[i]) {
        query
    } else {
        slug_chars(lowercase_of(query))
    }
}

/// The identifier of a game in a RAWG details request: the query itself when it is a
/// number, else its slug (`Baldur's Gate 3` is `baldurs-gate-3`).
pub fn rawg_identifier(query: &str) -> (r: String)
    ensures
        r@ == rawg_identifier_spec(query@),
{
    let v = chars_of(query);
    let mut all_numeric = true;
    let mut i: usize = 0;
    while i < v.len()
        invariant
            i <= v.len(),
            v@ == query@,
            all_numeric == forall|j: int| 0 <= j < i ==> numeric(#[trigger] query@[j]),
        decreases v.len() - i,
    {
        if !is_numeric(v[i]) {
            all_numeric = false;
        }
        i = i + 1;
    }
    if all_numeric {
        return copy_string(query);
    }
    let l = chars_of(to_lowercase(query).as_str());
    let mut out: Vec<char> = Vec::new();
    let mut k: usize = 0;
    assert(l@.take(0) =~= Seq::<char>::empty());
    while k < l.len()
        invariant
            k <= l.len(),
            out@ == slug_chars(l@.take(k as int)),
        decreases l.len() - k,
    {
        assert(l@.take(k + 1).drop_last() =~= l@.take(k as int));
        assert(l@.take(k + 1).last() == l@[k as int]);
        let c = l[k];
        if c == ':' || c == '\'' || c == '&' || c == '.' {
        } else if c == ' ' {
            out.push('-');
        } else {
            out.push(c);
        }
        k = k + 1;
    }
    assert(l@.take(l.len() as int) =~= l@);
    string_from(&out)
}


/// A RAWG listing of the library's discovery page.
pub enum RawgListing {
    /// The most added games released last year or this year.
    Trending,
    /// The most added games to be released from today to the end of next year.
    Upcoming,
}

/// The release dates of the trending listing: from the first day of last year to the
/// last day of this year.
pub open spec fn trending_dates_spec(year: int) -> Seq<char> {
    signed_decimal(year - 1) + "-01-01,"@ + signed_decimal(year) + "-12-31"@
}

/// The release dates of the upcoming listing: from today to the last day of next year.
pub open spec fn upcoming_dates_spec(today: Seq<char>, year: int) -> Seq<char> {
    today + ","@ + signed_decimal(year + 1) + "-12-31"@
}

/// The `dates` filter of the trending listing in `current_year` (`2024` gives
/// `2023-01-01,2024-12-31`).
pub fn trending_dates(current_year: i32) -> (r: String)
    requires
        current_year > i32::MIN,
    ensures
        r@ == trending_dates_spec(current_year as int),
{
    let a = concat_str(i32_to_string(current_year - 1).as_str(), "-01-01,");
    let b = concat_str(a.as_str(), i32_to_string(current_year).as_str());
    let r = concat_str(b.as_str(), "-12-31");
    assert(r@ =~= trending_dates_spec(current_year as int));
    r
}

/// The `dates` filter of the upcoming listing, `today` written `YYYY-MM-DD`.
pub fn upcoming_dates(today: &str, current_year: i32) -> (r: String)
    requires
        current_year < i32::MAX,
    ensures
        r@ == upcoming_dates_spec(today@, current_year as int),
{
    let a = concat_str(today, ",");
    let b = concat_str(a.as_str(), i32_to_string(current_year + 1).as_str());
    let r = concat_str(b.as_str(), "-12-31");
    assert(r@ =~= upcoming_dates_spec(today@, current_year as int));
    r
}

/// How many games a listing asks for.
pub fn listing_page_size(kind: &RawgListing) -> (r: u32)
    ensures
        r == match kind {
            RawgListing::Trending => 20u32,
            RawgListing::Upcoming => 10u32,
        },
{
    match kind {
        RawgListing::Trending => 20,
        RawgListing::Upcoming => 10,
    }
}

/// The cache entry that keeps the last listing received.
pub fn listing_cache_key(kind: &RawgListing) -> (r: &'static str)
    ensures
        r@ == match kind {
            RawgListing::Trending => "rawg_list_trending"@,
            RawgListing::Upcoming => "rawg_list_upcoming"@,
        },
{
    match kind {
        RawgListing::Trending => "rawg_list_trending",
        RawgListing::Upcoming => "rawg_list_upcoming",
    }
}

/// The message given when a listing can be had neither online nor from the cache.
pub open spec fn listing_unavailable(kind: RawgListing) -> Seq<char> {
    match kind {
        RawgListing::Trending => "Não foi possível carregar os jogos em alta (sem conexão e sem cache)."@,
        RawgListing::Upcoming => "Não foi possível carregar lançamentos (sem conexão e sem cache)."@,
    }
}

/// What a listing request gives. `online` is `None` where RAWG could not be reached or
/// answered with an error status, else the decoded games or why the body could not be
/// read; `cached` is the listing last kept, where it could be read. A listing received
/// is given as it is; a body that cannot be read is that error; only an unreachable
/// RAWG falls back to the cache.
pub fn listing_result<T>(kind: &RawgListing, online: Option<Result<Vec<T>, String>>, cached: Option<Vec<T>>) -> (r: Result<Vec<T>, String>)
    ensures
        match online {
            Some(Ok(games)) => r == Ok::<Vec<T>, String>(games),
            Some(Err(e)) => r is Err && r->Err_0@ == e@,
            None => match cached {
                Some(games) => r == Ok::<Vec<T>, String>(games),
                None => r is Err && r->Err_0@ == listing_unavailable(*kind),
            },
        },
{
    match online {
        Some(Ok(games)) => Ok(games),
        Some(Err(e)) => Err(e),
        None => match cached {
            Some(games) => Ok(games),
            None => match kind {
                RawgListing::Trending => Err(copy_string("Não foi possível carregar os jogos em alta (sem conexão e sem cache).")),
                RawgListing::Upcoming => Err(copy_string("Não foi possível carregar lançamentos (sem conexão e sem cache).")),
            },
        },
    }
}

} // verus!
