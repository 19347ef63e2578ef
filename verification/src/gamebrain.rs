//! GameBrain lookups: cache keys, sort parameters, ids that come as numbers or text,
//! accepting a name suggestion, and sorting the videos of a game.
use vstd::prelude::*;
use crate::text::{
    chars_of, concat_str, contains_seq, contains_vec, copy_string, decimal_seq, digits_value,
    ends_with_seq, ends_with_str, eq_str, is_unsigned_literal, is_ws, is_whitespace, lowercase_of,
    opt_view, parse_u64, slice_vec, string_views, to_lowercase, u64_to_string, unsigned_digits,
    views_of,
};

verus! {

/// Cache key of the GameBrain id found for a library game.
pub fn gamebrain_id_cache_key(playlite_game_id: &str) -> (r: String)
    ensures
        r@ == "gamebrain_id:"@ + playlite_game_id@,
{
    concat_str("gamebrain_id:", playlite_game_id)
}

/// Cache key of the similar games of a GameBrain id.
pub fn gamebrain_similar_cache_key(gamebrain_id: u64) -> (r: String)
    ensures
        r@ == "gamebrain_similar:"@ + decimal_seq(gamebrain_id as nat),
{
    let d = u64_to_string(gamebrain_id);
    concat_str("gamebrain_similar:", d.as_str())
}

/// Cache key of the media of a GameBrain id.
pub fn gamebrain_media_cache_key(gamebrain_id: u64) -> (r: String)
    ensures
        r@ == "gamebrain_media:"@ + decimal_seq(gamebrain_id as nat),
{
    let d = u64_to_string(gamebrain_id);
    concat_str("gamebrain_media:", d.as_str())
}

/// Field a search is sorted by.
pub enum GameBrainSort {
    Rating,
    ReleaseDate,
    Price,
}

impl GameBrainSort {
    /// The API's name of the field.
    pub fn as_str(&self) -> (r: &'static str)
        ensures
            r@ == match self {
                GameBrainSort::Rating => "computed_rating"@,
                GameBrainSort::ReleaseDate => "release_date"@,
                GameBrainSort::Price => "price"@,
            },
    {
        match self {
            GameBrainSort::Rating => "computed_rating",
            GameBrainSort::ReleaseDate => "release_date",
            GameBrainSort::Price => "price",
        }
    }
}

/// Direction of a sort.
pub enum GameBrainSortOrder {
    Asc,
    Desc,
}

impl GameBrainSortOrder {
    /// The API's name of the direction.
    pub fn as_str(&self) -> (r: &'static str)
        ensures
            r@ == match self {
                GameBrainSortOrder::Asc => "asc"@,
                GameBrainSortOrder::Desc => "desc"@,
            },
    {
        match self {
            GameBrainSortOrder::Asc => "asc",
            GameBrainSortOrder::Desc => "desc",
        }
    }
}

/// An id as the API sends it: a whole number that fits `u64`, another number, a
/// string, or anything else.
pub enum RawId {
    Unsigned(u64),
    OtherNumber,
    Text(String),
    Other,
}

/// The numeric id: a `u64` number as is, a string that parses as `u64`; otherwise none.
pub fn parse_gamebrain_id(value: &RawId) -> (r: Option<u64>)
    ensures
        r == match value {
            RawId::Unsigned(n) => Some(*n),
            RawId::Text(s) => if is_unsigned_literal(s@) && digits_value(unsigned_digits(s@)) <= u64::MAX {
                Some(digits_value(unsigned_digits(s@)) as u64)
            } else {
                None
            },
            _ => None,
        },
{
    match value {
        RawId::Unsigned(n) => Some(*n),
        RawId::Text(s) => {
            let v = chars_of(s.as_str());
            parse_u64(&v)
        },
        _ => None,
    }
}

// ---------------------------------------------------------------------------
// Matching a suggestion
// ---------------------------------------------------------------------------

/// End of the word that starts at `i`: the next white space or the end.
pub open spec fn word_end(s: Seq<char>, i: int) -> int
    decreases s.len() - i,
{
    if i < 0 || i >= s.len() || is_ws(s[i]) {
        i
    } else {
        word_end(s, i + 1)
    }
}

pub proof fn lemma_word_end(s: Seq<char>, i: int)
    requires
        0 <= i <= s.len(),
    ensures
        i <= word_end(s, i) <= s.len(),
    decreases s.len() - i,
{
    if i < s.len() && !is_ws(s[i]) {
        lemma_word_end(s, i + 1);
    }
}

/// The words of `s[i..]` (`str::split_whitespace`).
pub open spec fn words_from(s: Seq<char>, i: int) -> Seq<Seq<char>>
    decreases s.len() - i, 1int,
{
    if i < 0 || i >= s.len() {
        Seq::empty()
    } else if is_ws(s[i]) {
        words_from(s, i + 1)
    } else {
        proof {
            lemma_word_end(s, i + 1);
        }
        seq![s.subrange(i, word_end(s, i + 1))] + words_from(s, word_end(s, i + 1))
    }
}

/// The first two words of `s` (fewer when it has fewer).
pub open spec fn first_two_words(s: Seq<char>) -> Seq<Seq<char>> {
    let w = words_from(s, 0);
    if w.len() <= 2 {
        w
    } else {
        w.take(2)
    }
}

/// A suggested title matches the searched one: after lower-casing, one contains the
/// other, or their first two words are the same.
pub open spec fn suggestion_match_spec(query: Seq<char>, result: Seq<char>) -> bool {
    let q = lowercase_of(query);
    let r = lowercase_of(result);
    contains_seq(r, q) || contains_seq(q, r) || first_two_words(q) == first_two_words(r)
}

/// The first two words of `s`.
fn first_two(s: &Vec<char>) -> (r: Vec<Vec<char>>)
    ensures
        views_of(r@) == first_two_words(s@),
{
    let mut out: Vec<Vec<char>> = Vec::new();
    let mut i: usize = 0;
    assert(words_from(s@, 0) =~= views_of(out@) + words_from(s@, 0));
    while i < s.len() && out.len() < 2
        invariant
            i <= s.len(),
            out.len() <= 2,
            words_from(s@, 0) == views_of(out@) + words_from(s@, i as int),
        decreases s.len() - i,
    {
        if is_whitespace(s[i]) {
            i = i + 1;
        } else {
            let mut e = i + 1;
            proof {
                lemma_word_end(s@, i + 1);
            }
            while e < s.len() && !is_whitespace(s[e])
                invariant
                    i < e <= s.len(),
                    word_end(s@, i + 1) == word_end(s@, e as int),
                decreases s.len() - e,
            {
                e = e + 1;
            }
            let w = slice_vec(s, i, e);
            let ghost before = views_of(out@);
            out.push(w);
            assert(views_of(out@) =~= before.push(s@.subrange(i as int, e as int)));
            assert(before + words_from(s@, i as int) =~= views_of(out@) + words_from(s@, e as int));
            i = e;
        }
    }
    proof {
        let w = words_from(s@, 0);
        if out.len() < 2 {
            assert(words_from(s@, i as int) =~= Seq::<Seq<char>>::empty());
            assert(w =~= views_of(out@));
        } else {
            assert(w.take(2) =~= views_of(out@));
        }
    }
    out
}

fn same_words(a: &Vec<Vec<char>>, b: &Vec<Vec<char>>) -> (r: bool)
    ensures
        r == (views_of(a@) == views_of(b@)),
{
    if a.len() != b.len() {
        assert(views_of(a@).len() != views_of(b@).len());
        return false;
    }
    let mut i: usize = 0;
    while i < a.len()
        invariant
            i <= a.len() == b.len(),
            forall|k: int| 0 <= k < i ==> a@[k]@ == b@[k]@,
        decreases a.len() - i,
    {
        let same = a[i].len() == b[i].len() && crate::text::occurs_at_vec(&a[i], &b[i], 0);
        proof {
            assert(a@[i as int]@.subrange(0, a@[i as int]@.len() as int) =~= a@[i as int]@);
        }
        if !same {
            assert(views_of(a@)[i as int] != views_of(b@)[i as int]);
            return false;
        }
        i = i + 1;
    }
    assert(views_of(a@) =~= views_of(b@));
    true
}

/// Whether the first suggestion for a searched title is accepted as that game: one
/// lower-cased title contains the other, or both start with the same two words
/// (`Resident Evil 4` and `Resident Evil 4 Remake`).
pub fn suggestion_matches(query: &str, result: &str) -> (b: bool)
    ensures
        b == suggestion_match_spec(query@, result@),
{
    let q = chars_of(to_lowercase(query).as_str());
    let r = chars_of(to_lowercase(result).as_str());
    if contains_vec(&r, &q) || contains_vec(&q, &r) {
        return true;
    }
    let qw = first_two(&q);
    let rw = first_two(&r);
    same_words(&qw, &rw)
}

// ---------------------------------------------------------------------------
// Media
// ---------------------------------------------------------------------------

/// The media fields of a game detail as the API sends them.
pub struct RawGameDetail {
    pub image: Option<String>,
    pub screenshots: Vec<String>,
    pub videos: Vec<String>,
    pub micro_trailer: Option<String>,
}

/// The media of a game with its videos sorted into direct trailers and YouTube embeds.
pub struct GameMedia {
    pub screenshots: Vec<String>,
    pub trailers: Vec<String>,
    pub youtube_embeds: Vec<String>,
    pub micro_trailer: Option<String>,
}

/// The videos that are direct `.webm` trailers, in order.
pub open spec fn trailers_spec(v: Seq<Seq<char>>) -> Seq<Seq<char>>
    decreases v.len(),
{
    if v.len() == 0 {
        Seq::empty()
    } else if ends_with_seq(v.last(), ".webm"@) {
        trailers_spec(v.drop_last()).push(v.last())
    } else {
        trailers_spec(v.drop_last())
    }
}

/// The videos that are YouTube embeds (and not `.webm`), in order.
pub open spec fn embeds_spec(v: Seq<Seq<char>>) -> Seq<Seq<char>>
    decreases v.len(),
{
    if v.len() == 0 {
        Seq::empty()
    } else if !ends_with_seq(v.last(), ".webm"@) && contains_seq(v.last(), "youtube-nocookie.com/embed"@) {
        embeds_spec(v.drop_last()).push(v.last())
    } else {
        embeds_spec(v.drop_last())
    }
}

/// The screenshots, with the cover image first when it is not already among them.
pub open spec fn screenshots_spec(shots: Seq<Seq<char>>, image: Option<Seq<char>>) -> Seq<Seq<char>> {
    match image {
        Some(img) => if shots.contains(img) {
            shots
        } else {
            seq![img] + shots
        },
        None => shots,
    }
}

/// Sorts the videos into `.webm` trailers and YouTube embeds (dropping the others) and
/// puts the cover image in front of the screenshots unless it is one of them.
pub fn build_game_media(raw: RawGameDetail) -> (m: GameMedia)
    ensures
        string_views(m.trailers@) == trailers_spec(string_views(raw.videos@)),
        string_views(m.youtube_embeds@) == embeds_spec(string_views(raw.videos@)),
        string_views(m.screenshots@) == screenshots_spec(string_views(raw.screenshots@), opt_view(raw.image)),
        opt_view(m.micro_trailer) == opt_view(raw.micro_trailer),
{
    let ghost vv = string_views(raw.videos@);
    let mut trailers: Vec<String> = Vec::new();
    let mut embeds: Vec<String> = Vec::new();
    let mut i: usize = 0;
    assert(vv.take(0) =~= Seq::<Seq<char>>::empty());
    while i < raw.videos.len()
        invariant
            i <= raw.videos.len(),
            vv == string_views(raw.videos@),
            string_views(trailers@) == trailers_spec(vv.take(i as int)),
            string_views(embeds@) == embeds_spec(vv.take(i as int)),
        decreases raw.videos.len() - i,
    {
        assert(vv.take(i + 1).drop_last() =~= vv.take(i as int));
        assert(vv.take(i + 1).last() == raw.videos@[i as int]@);
        let url = &raw.videos[i];
        if ends_with_str(url.as_str(), ".webm") {
            let ghost before = string_views(trailers@);
            trailers.push(url.clone());
            assert(string_views(trailers@) =~= before.push(url@));
        } else if crate::text::contains_str(url.as_str(), "youtube-nocookie.com/embed") {
            let ghost before = string_views(embeds@);
            embeds.push(url.clone());
            assert(string_views(embeds@) =~= before.push(url@));
        }
        i = i + 1;
    }
    assert(vv.take(raw.videos.len() as int) =~= vv);
    let mut screenshots = raw.screenshots;
    match &raw.image {
        Some(img) => {
            if !crate::text::contains_string(&screenshots, img.as_str()) {
                let ghost before = string_views(screenshots@);
                screenshots.insert(0, img.clone());
                assert(string_views(screenshots@) =~= seq![img@] + before);
            }
        },
        None => {},
    }
    GameMedia { screenshots, trailers, youtube_embeds: embeds, micro_trailer: raw.micro_trailer }
}


// ---------------------------------------------------------------------------
// Search parameters and results
// ---------------------------------------------------------------------------

/// One value of a search filter.
pub struct GameBrainFilterValue {
    pub value: String,
}

/// A search filter: a key, its values and how they combine.
pub struct GameBrainFilter {
    pub key: String,
    pub values: Vec<GameBrainFilterValue>,
    pub connection: Option<String>,
}

/// Filters, sort and paging of a search.
pub struct GameBrainSearchParams {
    pub filters: Vec<GameBrainFilter>,
    pub sort: Option<GameBrainSort>,
    pub sort_order: Option<GameBrainSortOrder>,
    pub limit: Option<u32>,
    pub offset: Option<u32>,
}

pub open spec fn filter_keys(f: Seq<GameBrainFilter>) -> Seq<Seq<char>> {
    f.map_values(|x: GameBrainFilter| x.key@)
}

/// The parameters of a PC search: a `platform` filter for `pc` (values joined by `OR`) is
/// added unless some filter is already on the platform.
pub fn with_pc_filter(params: GameBrainSearchParams) -> (r: GameBrainSearchParams)
    ensures
        filter_keys(params.filters@).contains("platform"@) ==> filter_keys(r.filters@) == filter_keys(params.filters@),
        !filter_keys(params.filters@).contains("platform"@) ==> {
            &&& filter_keys(r.filters@) == filter_keys(params.filters@).push("platform"@)
            &&& r.filters@.last().values@.len() == 1
            &&& r.filters@.last().values@[0].value@ == "pc"@
            &&& opt_view(r.filters@.last().connection) == Some("OR"@)
        },
        r.filters@.len() >= params.filters@.len(),
        r.filters@.take(params.filters@.len() as int) == params.filters@,
        filter_keys(params.filters@).contains("platform"@) ==> r.filters@ == params.filters@,
        r.sort == params.sort,
        r.sort_order == params.sort_order,
        r.limit == params.limit,
        r.offset == params.offset,
{
    let ghost given = params.filters@;
    let mut params = params;
    let mut found = false;
    let mut i: usize = 0;
    while i < params.filters.len()
        invariant
            i <= params.filters.len(),
            found == filter_keys(params.filters@).take(i as int).contains("platform"@),
        decreases params.filters.len() - i,
    {
        let ghost t0 = filter_keys(params.filters@).take(i as int);
        assert(filter_keys(params.filters@).take(i + 1) =~= t0.push(params.filters@[i as int].key@));
        if eq_str(params.filters[i].key.as_str(), "platform") {
            assert(filter_keys(params.filters@).take(i + 1)[i as int] == "platform"@);
            found = true;
        } else {
            proof {
                let t1 = filter_keys(params.filters@).take(i + 1);
                if t1.contains("platform"@) {
                    let k = choose|k: int| 0 <= k < t1.len() && t1[k] == "platform"@;
                    assert(t0[k] == "platform"@);
                }
                if found {
                    let k = choose|k: int| 0 <= k < t0.len() && t0[k] == "platform"@;
                    assert(t1[k] == "platform"@);
                }
            }
        }
        i = i + 1;
    }
    assert(filter_keys(params.filters@).take(params.filters.len() as int) =~= filter_keys(params.filters@));
    if !found {
        let ghost before = filter_keys(params.filters@);
        let f = GameBrainFilter {
            key: copy_string("platform"),
            values: vec![GameBrainFilterValue { value: copy_string("pc") }],
            connection: Some(copy_string("OR")),
        };
        params.filters.push(f);
        assert(filter_keys(params.filters@) =~= before.push("platform"@));
        assert(params.filters@.take(given.len() as int) =~= given);
    } else {
        assert(params.filters@.take(given.len() as int) =~= given);
    }
    params
}

/// The trimmed query of a search; `None` when it is blank (nothing is searched).
pub fn cleaned_query(query: &str) -> (r: Option<String>)
    ensures
        match r {
            Some(q) => q@ == crate::text::trim_seq(query@) && q@.len() > 0,
            None => crate::text::trim_seq(query@).len() == 0,
        },
{
    let t = crate::text::trim(query);
    if t.as_str().unicode_len() == 0 {
        None
    } else {
        Some(t)
    }
}

/// The non-empty platform names, each once, in order of first appearance.
pub open spec fn distinct_names(s: Seq<Seq<char>>, n: nat) -> Seq<Seq<char>>
    decreases n,
{
    if n == 0 || n > s.len() {
        Seq::empty()
    } else {
        let prev = distinct_names(s, (n - 1) as nat);
        if s[n - 1].len() == 0 || prev.contains(s[n - 1]) {
            prev
        } else {
            prev.push(s[n - 1])
        }
    }
}

/// The platform names of a result: non-empty ones, each once, in order.
pub fn distinct_platforms(names: &Vec<String>) -> (r: Vec<String>)
    ensures
        string_views(r@) == distinct_names(string_views(names@), names@.len()),
{
    let ghost nv = string_views(names@);
    let mut out: Vec<String> = Vec::new();
    let mut i: usize = 0;
    while i < names.len()
        invariant
            i <= names.len(),
            nv == string_views(names@),
            string_views(out@) == distinct_names(nv, i as nat),
        decreases names.len() - i,
    {
        let n = &names[i];
        assert(nv[i as int] == n@);
        if n.as_str().unicode_len() > 0 && !crate::text::contains_string(&out, n.as_str()) {
            let ghost before = string_views(out@);
            out.push(n.clone());
            assert(string_views(out@) =~= before.push(n@));
        }
        i = i + 1;
    }
    out
}

/// The cover of a result: its image, else its cover's URL when not empty.
pub fn cover_url(image: Option<String>, cover: Option<String>) -> (r: Option<String>)
    ensures
        opt_view(r) == match opt_view(image) {
            Some(i) => Some(i),
            None => match opt_view(cover) {
                Some(c) => if c.len() > 0 { Some(c) } else { None },
                None => None,
            },
        },
{
    match image {
        Some(i) => Some(i),
        None => match cover {
            Some(c) => if c.as_str().unicode_len() > 0 { Some(c) } else { None },
            None => None,
        },
    }
}


/// The message given when a search is asked without a GameBrain key.
pub open spec fn missing_key_message() -> Seq<char> {
    "GameBrain API key não configurada"@
}

/// What a search needs before it is sent: an error where the API key is blank; no
/// search (`Ok(None)`) where the trimmed query is empty; otherwise the trimmed query.
pub fn search_precheck(api_key: &str, query: &str) -> (r: Result<Option<String>, String>)
    ensures
        crate::text::trim_seq(api_key@).len() == 0 ==> (r matches Err(e) && e@ == missing_key_message()),
        crate::text::trim_seq(api_key@).len() > 0 ==> match r {
            Ok(Some(q)) => q@ == crate::text::trim_seq(query@) && q@.len() > 0,
            Ok(None) => crate::text::trim_seq(query@).len() == 0,
            Err(_) => false,
        },
{
    let k = crate::text::trim(api_key);
    if k.as_str().unicode_len() == 0 {
        return Err(crate::text::copy_string("GameBrain API key não configurada"));
    }
    Ok(cleaned_query(query))
}

/// The id a search result is shown under: `gamebrain:` and the API's id as JSON writes it.
pub fn search_result_id(json_id: &str) -> (r: String)
    ensures
        r@ == "gamebrain:"@ + json_id@,
{
    crate::text::concat_str("gamebrain:", json_id)
}

} // verus!
