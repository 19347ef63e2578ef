//! Steam store data: which games carry adult content, with the reasons, and the median
//! play time in hours.
use vstd::prelude::*;
use crate::text::{
    chars_of, contains_seq, contains_vec, copy_string, le_vec, lemma_seq_le_total,
    lemma_seq_le_trans, lowercase_of, occurs_at_vec, seq_le, string_views, to_lowercase, views_of,
};

verus! {

/// A game as the Web API lists it in a library.
pub struct SteamGame {
    pub appid: u32,
    pub name: String,
    pub playtime_forever: i32,
    pub img_icon_url: Option<String>,
    pub rtime_last_played: i64,
}

/// An achievement of a player in a game.
pub struct SteamAchievement {
    pub apiname: String,
    pub achieved: i32,
    pub unlocktime: i64,
    pub name: Option<String>,
    pub description: Option<String>,
}

/// The content descriptors of a store page: their ids and notes.
pub struct ContentDescriptors {
    pub ids: Vec<u32>,
    pub notes: Option<String>,
}

/// A store category.
pub struct Category {
    pub id: u32,
    pub description: String,
}

/// A store genre.
pub struct Genre {
    pub id: String,
    pub description: String,
}

/// The store page of an application.
pub struct SteamStoreData {
    pub name: String,
    pub is_free: bool,
    pub short_description: String,
    pub header_image: String,
    pub website: Option<String>,
    pub release_date: Option<String>,
    pub content_descriptors: ContentDescriptors,
    pub categories: Vec<Category>,
    pub genres: Vec<Genre>,
    pub required_age: u32,
}

/// The review summary of an application.
pub struct SteamReviewSummary {
    pub review_score: u32,
    pub review_score_desc: String,
    pub total_positive: u32,
    pub total_negative: u32,
    pub total_reviews: u32,
}

/// The descriptions of the genres.
pub open spec fn genre_descriptions(g: Seq<Genre>) -> Seq<Seq<char>> {
    g.map_values(|x: Genre| x.description@)
}

/// The summary of the review counts a successful query returns: each count as a `u32`
/// (0 when absent), the description `No Reviews` when absent.
pub fn review_summary(
    review_score: Option<u64>,
    review_score_desc: Option<String>,
    total_positive: Option<u64>,
    total_negative: Option<u64>,
    total_reviews: Option<u64>,
) -> (r: SteamReviewSummary)
    ensures
        r.review_score == match review_score { Some(v) => v as u32, None => 0u32 },
        r.review_score_desc@ == match review_score_desc { Some(d) => d@, None => "No Reviews"@ },
        r.total_positive == match total_positive { Some(v) => v as u32, None => 0u32 },
        r.total_negative == match total_negative { Some(v) => v as u32, None => 0u32 },
        r.total_reviews == match total_reviews { Some(v) => v as u32, None => 0u32 },
{
    let as32 = |v: Option<u64>| -> (r: u32)
        ensures
            r == match v { Some(x) => x as u32, None => 0u32 },
    {
        match v {
            Some(x) => #[verifier::truncate] (x as u32),
            None => 0,
        }
    };
    SteamReviewSummary {
        review_score: as32(review_score),
        review_score_desc: match review_score_desc {
            Some(d) => d,
            None => copy_string("No Reviews"),
        },
        total_positive: as32(total_positive),
        total_negative: as32(total_negative),
        total_reviews: as32(total_reviews),
    }
}

/// The flag a content descriptor id raises: 2 sexual content, 3 nudity, 1 violence,
/// 4 gore, 5 adult themes.
pub open spec fn id_flag(id: u32) -> Option<Seq<char>> {
    if id == 2 {
        Some("sexual content"@)
    } else if id == 3 {
        Some("nudity"@)
    } else if id == 1 {
        Some("violence"@)
    } else if id == 4 {
        Some("gore"@)
    } else if id == 5 {
        Some("adult themes"@)
    } else {
        None
    }
}

/// Words of the descriptor notes that mark explicit content.
pub open spec fn note_words() -> Seq<Seq<char>> {
    seq!["adult only sexual content"@, "explicit sexual"@, "pornographic"@, "sexual acts"@, "graphic sexual"@]
}

/// Words of genre descriptions that mark explicit content.
pub open spec fn genre_words() -> Seq<Seq<char>> {
    seq!["hentai"@, "nsfw"@, "eroge"@, "porn"@, "sexual content"@, "adult only"@]
}

/// The flags of the descriptor ids, in order.
pub open spec fn id_flags(ids: Seq<u32>) -> Seq<Seq<char>>
    decreases ids.len(),
{
    if ids.len() == 0 {
        Seq::empty()
    } else {
        match id_flag(ids.last()) {
            Some(f) => id_flags(ids.drop_last()).push(f),
            None => id_flags(ids.drop_last()),
        }
    }
}

/// The words of `words` that `text` (lower-cased) contains, in order.
pub open spec fn words_in(text: Seq<char>, words: Seq<Seq<char>>) -> Seq<Seq<char>>
    decreases words.len(),
{
    if words.len() == 0 {
        Seq::empty()
    } else if contains_seq(lowercase_of(text), words.last()) {
        words_in(text, words.drop_last()).push(words.last())
    } else {
        words_in(text, words.drop_last())
    }
}

/// The genre flags of each genre, in order.
pub open spec fn genre_flags(genres: Seq<Seq<char>>) -> Seq<Seq<char>>
    decreases genres.len(),
{
    if genres.len() == 0 {
        Seq::empty()
    } else {
        genre_flags(genres.drop_last()) + words_in(genres.last(), genre_words())
    }
}

/// Every flag raised, before sorting: descriptor ids, then note words, then genre words.
pub open spec fn raw_flags(ids: Seq<u32>, notes: Option<Seq<char>>, genres: Seq<Seq<char>>) -> Seq<Seq<char>> {
    id_flags(ids) + match notes {
        Some(n) => words_in(n, note_words()),
        None => Seq::empty(),
    } + genre_flags(genres)
}


proof fn lemma_id_flags_contains(ids: Seq<u32>, f: Seq<char>)
    ensures
        id_flags(ids).contains(f) <==> exists|k: int| 0 <= k < ids.len() && id_flag(#[trigger] ids[k]) == Some(f),
    decreases ids.len(),
{
    if ids.len() > 0 {
        lemma_id_flags_contains(ids.drop_last(), f);
        let prev = id_flags(ids.drop_last());
        let d = ids.drop_last();
        let r = id_flags(ids);
        if r.contains(f) {
            let i = choose|i: int| 0 <= i < r.len() && r[i] == f;
            if i < prev.len() {
                assert(prev[i] == f);
                assert(prev.contains(f));
                let k = choose|k: int| 0 <= k < d.len() && id_flag(#[trigger] d[k]) == Some(f);
                assert(ids[k] == d[k]);
            } else {
                assert(id_flag(ids[ids.len() - 1]) == Some(f));
            }
        }
        if exists|k: int| 0 <= k < ids.len() && id_flag(#[trigger] ids[k]) == Some(f) {
            let k = choose|k: int| 0 <= k < ids.len() && id_flag(#[trigger] ids[k]) == Some(f);
            if k < ids.len() - 1 {
                assert(d[k] == ids[k]);
                assert(prev.contains(f));
                let i = choose|i: int| 0 <= i < prev.len() && prev[i] == f;
                assert(r[i] == f);
            } else {
                assert(r[prev.len() as int] == f);
            }
        }
    }
}

/// Adult content detection: descriptor 2 or 3 makes the content explicit, whatever else
/// the store says; without them, without notes and with no genre raising a flag it is not
/// explicit; and each of the descriptors 1 to 5 raises its own flag (`violence`,
/// `sexual content`, `nudity`, `gore`, `adult themes`), while no other descriptor raises one.
pub proof fn lemma_adult_content_law(ids: Seq<u32>, notes: Option<Seq<char>>, genres: Seq<Seq<char>>)
    ensures
        (ids.contains(2u32) || ids.contains(3u32)) ==> explicit_spec(ids, notes, genres),
        (!ids.contains(2u32) && !ids.contains(3u32) && notes is None && genre_flags(genres).len() == 0) ==> !explicit_spec(ids, notes, genres),
        ids.contains(1u32) ==> raw_flags(ids, notes, genres).contains("violence"@),
        ids.contains(2u32) ==> raw_flags(ids, notes, genres).contains("sexual content"@),
        ids.contains(3u32) ==> raw_flags(ids, notes, genres).contains("nudity"@),
        ids.contains(4u32) ==> raw_flags(ids, notes, genres).contains("gore"@),
        ids.contains(5u32) ==> raw_flags(ids, notes, genres).contains("adult themes"@),
        forall|f: Seq<char>| id_flags(ids).contains(f) ==> exists|k: int| 0 <= k < ids.len() && 1 <= #[trigger] ids[k] <= 5,
{
    let extra = match notes {
        Some(n) => words_in(n, note_words()),
        None => Seq::<Seq<char>>::empty(),
    };
    let all = raw_flags(ids, notes, genres);
    assert(all == id_flags(ids) + extra + genre_flags(genres));
    assert forall|f: Seq<char>| id_flags(ids).contains(f) implies all.contains(f) by {
        let i = choose|i: int| 0 <= i < id_flags(ids).len() && id_flags(ids)[i] == f;
        assert(all[i] == f);
    }
    let lits = seq![1u32, 2u32, 3u32, 4u32, 5u32];
    assert forall|k: int| 0 <= k < 5 && ids.contains(#[trigger] lits[k]) implies id_flags(ids).contains(id_flag(lits[k])->0) by {
        let j = choose|j: int| 0 <= j < ids.len() && ids[j] == lits[k];
        lemma_id_flags_contains(ids, id_flag(lits[k])->0);
        assert(id_flag(ids[j]) == Some(id_flag(lits[k])->0));
    }
    if ids.contains(1u32) {
        assert(ids.contains(lits[0]));
    }
    if ids.contains(2u32) {
        assert(ids.contains(lits[1]));
    }
    if ids.contains(3u32) {
        assert(ids.contains(lits[2]));
    }
    if ids.contains(4u32) {
        assert(ids.contains(lits[3]));
    }
    if ids.contains(5u32) {
        assert(ids.contains(lits[4]));
    }
    assert forall|f: Seq<char>| id_flags(ids).contains(f) implies exists|k: int| 0 <= k < ids.len() && 1 <= #[trigger] ids[k] <= 5 by {
        lemma_id_flags_contains(ids, f);
        let k = choose|k: int| 0 <= k < ids.len() && id_flag(#[trigger] ids[k]) == Some(f);
        assert(1 <= ids[k] <= 5);
    }
}

proof fn lemma_words_in_nonempty(text: Seq<char>, words: Seq<Seq<char>>)
    ensures
        words_in(text, words).len() > 0 <==> exists|i: int| 0 <= i < words.len() && contains_seq(lowercase_of(text), #[trigger] words[i]),
    decreases words.len(),
{
    if words.len() > 0 {
        let d = words.drop_last();
        lemma_words_in_nonempty(text, d);
        if exists|i: int| 0 <= i < d.len() && contains_seq(lowercase_of(text), #[trigger] d[i]) {
            let i = choose|i: int| 0 <= i < d.len() && contains_seq(lowercase_of(text), #[trigger] d[i]);
            assert(words[i] == d[i]);
        }
        if exists|i: int| 0 <= i < words.len() && contains_seq(lowercase_of(text), #[trigger] words[i]) {
            let i = choose|i: int| 0 <= i < words.len() && contains_seq(lowercase_of(text), #[trigger] words[i]);
            if i < words.len() - 1 {
                assert(d[i] == words[i]);
            }
        }
    }
}

proof fn lemma_genre_flags_nonempty(genres: Seq<Seq<char>>)
    ensures
        genre_flags(genres).len() > 0 <==> exists|g: int| 0 <= g < genres.len() && words_in(#[trigger] genres[g], genre_words()).len() > 0,
    decreases genres.len(),
{
    if genres.len() > 0 {
        let d = genres.drop_last();
        lemma_genre_flags_nonempty(d);
        if exists|g: int| 0 <= g < d.len() && words_in(#[trigger] d[g], genre_words()).len() > 0 {
            let g = choose|g: int| 0 <= g < d.len() && words_in(#[trigger] d[g], genre_words()).len() > 0;
            assert(genres[g] == d[g]);
        }
        if exists|g: int| 0 <= g < genres.len() && words_in(#[trigger] genres[g], genre_words()).len() > 0 {
            let g = choose|g: int| 0 <= g < genres.len() && words_in(#[trigger] genres[g], genre_words()).len() > 0;
            if g < genres.len() - 1 {
                assert(d[g] == genres[g]);
            }
        }
    }
}

/// When content is explicit: exactly when descriptor 2 or 3 is present, or the lower-cased
/// notes contain one of `adult only sexual content`, `explicit sexual`, `pornographic`,
/// `sexual acts`, `graphic sexual`, or some lower-cased genre description contains one of
/// `hentai`, `nsfw`, `eroge`, `porn`, `sexual content`, `adult only`.
pub proof fn lemma_explicit_content_law(ids: Seq<u32>, notes: Option<Seq<char>>, genres: Seq<Seq<char>>)
    ensures
        explicit_spec(ids, notes, genres) <==> (ids.contains(2u32) || ids.contains(3u32) || (match notes {
            Some(n) => {
                let l = lowercase_of(n);
                contains_seq(l, "adult only sexual content"@) || contains_seq(l, "explicit sexual"@) || contains_seq(l, "pornographic"@)
                    || contains_seq(l, "sexual acts"@) || contains_seq(l, "graphic sexual"@)
            },
            None => false,
        }) || exists|g: int| 0 <= g < genres.len() && ({
            let l = lowercase_of(#[trigger] genres[g]);
            contains_seq(l, "hentai"@) || contains_seq(l, "nsfw"@) || contains_seq(l, "eroge"@) || contains_seq(l, "porn"@)
                || contains_seq(l, "sexual content"@) || contains_seq(l, "adult only"@)
        })),
{
    let nw = note_words();
    let gw = genre_words();
    if let Some(n) = notes {
        lemma_words_in_nonempty(n, nw);
        let l = lowercase_of(n);
        if exists|i: int| 0 <= i < nw.len() && contains_seq(l, #[trigger] nw[i]) {
            let i = choose|i: int| 0 <= i < nw.len() && contains_seq(l, #[trigger] nw[i]);
        }
        assert(nw[0] == "adult only sexual content"@ && nw[1] == "explicit sexual"@ && nw[2] == "pornographic"@
            && nw[3] == "sexual acts"@ && nw[4] == "graphic sexual"@);
    }
    lemma_genre_flags_nonempty(genres);
    assert(gw[0] == "hentai"@ && gw[1] == "nsfw"@ && gw[2] == "eroge"@ && gw[3] == "porn"@ && gw[4] == "sexual content"@
        && gw[5] == "adult only"@);
    assert forall|g: int| 0 <= g < genres.len() implies (words_in(#[trigger] genres[g], gw).len() > 0 <==> {
        let l = lowercase_of(genres[g]);
        contains_seq(l, "hentai"@) || contains_seq(l, "nsfw"@) || contains_seq(l, "eroge"@) || contains_seq(l, "porn"@)
            || contains_seq(l, "sexual content"@) || contains_seq(l, "adult only"@)
    }) by {
        lemma_words_in_nonempty(genres[g], gw);
        let l = lowercase_of(genres[g]);
        if exists|i: int| 0 <= i < gw.len() && contains_seq(l, #[trigger] gw[i]) {
            let i = choose|i: int| 0 <= i < gw.len() && contains_seq(l, #[trigger] gw[i]);
        }
    }
}

/// The content is explicit: descriptor 2 or 3, or an explicit word in the notes or a genre.
pub open spec fn explicit_spec(ids: Seq<u32>, notes: Option<Seq<char>>, genres: Seq<Seq<char>>) -> bool {
    ids.contains(2u32) || ids.contains(3u32) || (match notes {
        Some(n) => words_in(n, note_words()).len() > 0,
        None => false,
    }) || genre_flags(genres).len() > 0
}

/// Strictly increasing: sorted with no repeats.
pub open spec fn strictly_sorted(s: Seq<Seq<char>>) -> bool {
    forall|i: int, j: int| 0 <= i < j < s.len() ==> seq_le(#[trigger] s[i], #[trigger] s[j]) && s[i] != s[j]
}

fn word_list(notes: bool) -> (v: Vec<Vec<char>>)
    ensures
        views_of(v@) == if notes { note_words() } else { genre_words() },
{
    if notes {
        let v = vec![
            chars_of("adult only sexual content"), chars_of("explicit sexual"), chars_of("pornographic"),
            chars_of("sexual acts"), chars_of("graphic sexual"),
        ];
        assert(views_of(v@) =~= note_words());
        v
    } else {
        let v = vec![
            chars_of("hentai"), chars_of("nsfw"), chars_of("eroge"), chars_of("porn"),
            chars_of("sexual content"), chars_of("adult only"),
        ];
        assert(views_of(v@) =~= genre_words());
        v
    }
}

/// Appends the words of `words` that `text` contains (lower-cased).
fn push_words_in(text: &str, words: &Vec<Vec<char>>, flags: &mut Vec<String>)
    ensures
        string_views(final(flags)@) == string_views(old(flags)@) + words_in(text@, views_of(words@)),
{
    let lower = chars_of(to_lowercase(text).as_str());
    let ghost start = string_views(flags@);
    let ghost wv = views_of(words@);
    let mut k: usize = 0;
    assert(wv.take(0) =~= Seq::<Seq<char>>::empty());
    assert(start + Seq::<Seq<char>>::empty() =~= start);
    while k < words.len()
        invariant
            k <= words.len(),
            wv == views_of(words@),
            lower@ == lowercase_of(text@),
            string_views(flags@) == start + words_in(text@, wv.take(k as int)),
        decreases words.len() - k,
    {
        assert(wv.take(k + 1).drop_last() =~= wv.take(k as int));
        assert(wv.take(k + 1).last() == words@[k as int]@);
        if contains_vec(&lower, &words[k]) {
            let ghost before = string_views(flags@);
            let w = crate::text::string_from(&words[k]);
            flags.push(w);
            assert(string_views(flags@) =~= before.push(words@[k as int]@));
            assert(string_views(flags@) =~= start + words_in(text@, wv.take(k + 1)));
        }
        k = k + 1;
    }
    assert(wv.take(words.len() as int) =~= wv);
}

fn eq_chars(a: &Vec<char>, b: &Vec<char>) -> (r: bool)
    ensures
        r == (a@ == b@),
{
    let r = a.len() == b.len() && occurs_at_vec(a, b, 0);
    proof {
        assert(a@.subrange(0, a@.len() as int) =~= a@);
    }
    r
}

/// Adds `x` to a strictly sorted list unless it is there.
pub(crate) fn insert_sorted(out: &mut Vec<String>, x: String)
    requires
        strictly_sorted(string_views(old(out)@)),
    ensures
        strictly_sorted(string_views(final(out)@)),
        forall|f: Seq<char>| string_views(final(out)@).contains(f) <==> (string_views(old(out)@).contains(f) || f == x@),
{
    let ghost ov = string_views(out@);
    let xv = chars_of(x.as_str());
    let mut p: usize = 0;
    while p < out.len()
        invariant
            p <= out.len(),
            ov == string_views(out@),
            strictly_sorted(ov),
            xv@ == x@,
            forall|q: int| 0 <= q < p ==> seq_le(#[trigger] ov[q], x@) && ov[q] != x@,
        ensures
            p <= out.len(),
            ov == string_views(out@),
            forall|q: int| 0 <= q < p ==> seq_le(#[trigger] ov[q], x@) && ov[q] != x@,
            p == out.len() || !seq_le(ov[p as int], x@),
        decreases out.len() - p,
    {
        let cur = chars_of(out[p].as_str());
        assert(ov[p as int] == out@[p as int]@);
        if eq_chars(&cur, &xv) {
            assert(ov[p as int] == x@);
            return;
        }
        if !le_vec(&cur, &xv) {
            break;
        }
        p = p + 1;
    }
    proof {
        if p < ov.len() {
            lemma_seq_le_total(ov[p as int], x@);
        }
        assert forall|q: int| p < q < ov.len() implies seq_le(x@, #[trigger] ov[q]) && ov[q] != x@ by {
            lemma_seq_le_trans(x@, ov[p as int], ov[q]);
            if ov[q] == x@ {
                assert(seq_le(ov[p as int], ov[q]));
            }
        }
    }
    out.insert(p, x);
    proof {
        let n = string_views(out@);
        assert(n =~= ov.insert(p as int, x@));
        assert forall|a: int, b: int| 0 <= a < b < n.len() implies seq_le(#[trigger] n[a], #[trigger] n[b]) && n[a] != n[b] by {
            if b < p {
            } else if b == p {
            } else if a < p {
                lemma_seq_le_trans(n[a], x@, n[b]);
                if n[a] == n[b] {
                    lemma_seq_le_total(x@, n[a]);
                }
            } else if a == p {
            } else {
                assert(n[a] == ov[a - 1] && n[b] == ov[b - 1]);
            }
        }
        assert forall|f: Seq<char>| n.contains(f) <==> (ov.contains(f) || f == x@) by {
            if n.contains(f) {
                let i = choose|i: int| 0 <= i < n.len() && n[i] == f;
                if i < p {
                    assert(ov[i] == f);
                } else if i > p {
                    assert(ov[i - 1] == f);
                }
            }
            if ov.contains(f) {
                let i = choose|i: int| 0 <= i < ov.len() && ov[i] == f;
                if i < p {
                    assert(n[i] == f);
                } else {
                    assert(n[i + 1] == f);
                }
            }
            if f == x@ {
                assert(n[p as int] == f);
            }
        }
    }
}

/// Whether a game's store data marks explicit content, and the sorted distinct reasons:
/// descriptors 2 (sexual content) and 3 (nudity) are explicit, 1, 4 and 5 (violence,
/// gore, adult themes) only inform; explicit words in the descriptor notes or in a genre
/// description are explicit too.
pub fn detect_adult_content(data: &SteamStoreData) -> (r: (bool, Vec<String>))
    ensures
        r.0 == explicit_spec(data.content_descriptors.ids@, crate::text::opt_view(data.content_descriptors.notes), genre_descriptions(data.genres@)),
        strictly_sorted(string_views(r.1@)),
        forall|f: Seq<char>| string_views(r.1@).contains(f) <==> raw_flags(
            data.content_descriptors.ids@,
            crate::text::opt_view(data.content_descriptors.notes),
            genre_descriptions(data.genres@),
        ).contains(f),
{
    let ghost ids = data.content_descriptors.ids@;
    let mut flags: Vec<String> = Vec::new();
    let mut explicit = false;
    let mut i: usize = 0;
    assert(ids.take(0) =~= Seq::<u32>::empty());
    while i < data.content_descriptors.ids.len()
        invariant
            i <= data.content_descriptors.ids.len(),
            ids == data.content_descriptors.ids@,
            string_views(flags@) == id_flags(ids.take(i as int)),
            explicit == (ids.take(i as int).contains(2u32) || ids.take(i as int).contains(3u32)),
        decreases data.content_descriptors.ids.len() - i,
    {
        assert(ids.take(i + 1).drop_last() =~= ids.take(i as int));
        let id = data.content_descriptors.ids[i];
        let ghost before = string_views(flags@);
        if id == 2 {
            explicit = true;
            flags.push(copy_string("sexual content"));
        } else if id == 3 {
            explicit = true;
            flags.push(copy_string("nudity"));
        } else if id == 1 {
            flags.push(copy_string("violence"));
        } else if id == 4 {
            flags.push(copy_string("gore"));
        } else if id == 5 {
            flags.push(copy_string("adult themes"));
        }
        proof {
            assert(string_views(flags@) =~= id_flags(ids.take(i + 1)));
            let t = ids.take(i + 1);
            let t0 = ids.take(i as int);
            assert(t =~= t0.push(id));
            if t0.contains(2u32) {
                let k = choose|k: int| 0 <= k < t0.len() && t0[k] == 2u32;
                assert(t[k] == 2u32);
            }
            if t0.contains(3u32) {
                let k = choose|k: int| 0 <= k < t0.len() && t0[k] == 3u32;
                assert(t[k] == 3u32);
            }
            if t.contains(2u32) && id != 2 {
                let k = choose|k: int| 0 <= k < t.len() && t[k] == 2u32;
                assert(t0[k] == 2u32);
            }
            if t.contains(3u32) && id != 3 {
                let k = choose|k: int| 0 <= k < t.len() && t[k] == 3u32;
                assert(t0[k] == 3u32);
            }
            if id == 2 {
                assert(t[i as int] == 2u32);
            }
            if id == 3 {
                assert(t[i as int] == 3u32);
            }
        }
        i = i + 1;
    }
    assert(ids.take(data.content_descriptors.ids.len() as int) =~= ids);
    let ghost after_ids = string_views(flags@);
    let note_list = word_list(true);
    match &data.content_descriptors.notes {
        Some(n) => {
            let before_len = flags.len();
            push_words_in(n.as_str(), &note_list, &mut flags);
            if flags.len() > before_len {
                explicit = true;
            }
        },
        None => {
            assert(after_ids + Seq::<Seq<char>>::empty() =~= after_ids);
        },
    }
    let ghost after_notes = string_views(flags@);
    let genre_list = word_list(false);
    let ghost gv = genre_descriptions(data.genres@);
    let mut g: usize = 0;
    assert(gv.take(0) =~= Seq::<Seq<char>>::empty());
    assert(after_notes + Seq::<Seq<char>>::empty() =~= after_notes);
    while g < data.genres.len()
        invariant
            g <= data.genres.len(),
            gv == genre_descriptions(data.genres@),
            views_of(genre_list@) == genre_words(),
            string_views(flags@) == after_notes + genre_flags(gv.take(g as int)),
            explicit == (ids.contains(2u32) || ids.contains(3u32) || (match crate::text::opt_view(data.content_descriptors.notes) {
                Some(n) => words_in(n, note_words()).len() > 0,
                None => false,
            }) || genre_flags(gv.take(g as int)).len() > 0),
        decreases data.genres.len() - g,
    {
        assert(gv.take(g + 1).drop_last() =~= gv.take(g as int));
        assert(gv.take(g + 1).last() == data.genres@[g as int].description@);
        let before_len = flags.len();
        let ghost before = string_views(flags@);
        push_words_in(data.genres[g].description.as_str(), &genre_list, &mut flags);
        assert(after_notes + genre_flags(gv.take(g + 1)) =~= before + words_in(data.genres@[g as int].description@, genre_words()));
        if flags.len() > before_len {
            explicit = true;
        }
        g = g + 1;
    }
    assert(gv.take(data.genres.len() as int) =~= gv);
    let ghost raw = string_views(flags@);
    assert(raw =~= raw_flags(ids, crate::text::opt_view(data.content_descriptors.notes), gv));
    // sorted, without repeats
    let mut out: Vec<String> = Vec::new();
    let mut k: usize = 0;
    while k < flags.len()
        invariant
            k <= flags.len(),
            raw == string_views(flags@),
            strictly_sorted(string_views(out@)),
            forall|f: Seq<char>| string_views(out@).contains(f) <==> raw.take(k as int).contains(f),
        decreases flags.len() - k,
    {
        let ghost before = string_views(out@);
        insert_sorted(&mut out, flags[k].clone());
        proof {
            assert forall|f: Seq<char>| string_views(out@).contains(f) <==> raw.take(k + 1).contains(f) by {
                let t = raw.take(k + 1);
                let t0 = raw.take(k as int);
                assert(t =~= t0.push(raw[k as int]));
                if t0.contains(f) {
                    let q = choose|q: int| 0 <= q < t0.len() && t0[q] == f;
                    assert(t[q] == f);
                }
                if t.contains(f) && f != raw[k as int] {
                    let q = choose|q: int| 0 <= q < t.len() && t[q] == f;
                    assert(t0[q] == f);
                }
                if f == raw[k as int] {
                    assert(t[k as int] == f);
                }
            }
        }
        k = k + 1;
    }
    assert(raw.take(flags.len() as int) =~= raw);
    (explicit, out)
}

/// The median play time in whole hours from the median in minutes; `None` when under an
/// hour (no data).
pub fn median_hours(median_minutes: u32) -> (r: Option<u32>)
    ensures
        r == if median_minutes / 60 > 0 { Some(median_minutes / 60) } else { None::<u32> },
{
    let h = median_minutes / 60;
    if h > 0 {
        Some(h)
    } else {
        None
    }
}


/// The fields of an application's data as the store's answer gives them, each where the
/// answer has it (and it reads as the field's type).
pub struct StoreAppFields {
    pub name: Option<String>,
    pub is_free: Option<bool>,
    pub short_description: Option<String>,
    pub header_image: Option<String>,
    pub website: Option<String>,
    pub release_date: Option<String>,
    pub required_age: Option<u64>,
    pub content_descriptors: Option<ContentDescriptors>,
    pub categories: Option<Vec<Category>>,
    pub genres: Option<Vec<Genre>>,
}

/// The store's answer for one application: its `success` flag where it is a boolean,
/// and its `data`, where there is one.
pub struct StoreAppAnswer {
    pub success: Option<bool>,
    pub data: Option<StoreAppFields>,
}

/// Text or empty.
pub open spec fn text_or_empty(o: Option<String>) -> Seq<char> {
    match o {
        Some(t) => t@,
        None => Seq::empty(),
    }
}

fn string_or_empty(o: Option<String>) -> (r: String)
    ensures
        r@ == text_or_empty(o),
{
    match o {
        Some(t) => t,
        None => {
            proof {
                reveal_strlit("");
            }
            let e = copy_string("");
            assert(e@ =~= Seq::<char>::empty());
            e
        },
    }
}

/// The store data of an application: where the answer for it exists, says `success`
/// true and has data, that data with its defaults (empty name, description and image,
/// not free, age 0, no content descriptors, categories or genres, where absent; an age
/// above `u32` is cut to its low bits); otherwise nothing.
pub fn store_app_data(answer: Option<StoreAppAnswer>) -> (r: Option<SteamStoreData>)
    ensures
        match answer {
            Some(StoreAppAnswer { success: Some(true), data: Some(f) }) => match r {
                Some(d) => {
                    &&& d.name@ == text_or_empty(f.name)
                    &&& d.is_free == (f.is_free == Some(true))
                    &&& d.short_description@ == text_or_empty(f.short_description)
                    &&& d.header_image@ == text_or_empty(f.header_image)
                    &&& d.website == f.website
                    &&& d.release_date == f.release_date
                    &&& d.required_age == match f.required_age {
                        Some(a) => a as u32,
                        None => 0u32,
                    }
                    &&& match f.content_descriptors {
                        Some(c) => d.content_descriptors == c,
                        None => d.content_descriptors.ids@.len() == 0 && d.content_descriptors.notes is None,
                    }
                    &&& match f.categories {
                        Some(c) => d.categories == c,
                        None => d.categories@.len() == 0,
                    }
                    &&& match f.genres {
                        Some(g) => d.genres == g,
                        None => d.genres@.len() == 0,
                    }
                },
                None => false,
            },
            _ => r is None,
        },
{
    match answer {
        Some(StoreAppAnswer { success: Some(true), data: Some(f) }) => {
            let content_descriptors = match f.content_descriptors {
                Some(c) => c,
                None => ContentDescriptors { ids: Vec::new(), notes: None },
            };
            let categories = match f.categories {
                Some(c) => c,
                None => Vec::new(),
            };
            let genres = match f.genres {
                Some(g) => g,
                None => Vec::new(),
            };
            let required_age: u32 = match f.required_age {
                Some(a) => a as u32,
                None => 0,
            };
            Some(SteamStoreData {
                name: string_or_empty(f.name),
                is_free: match f.is_free {
                    Some(b) => b,
                    None => false,
                },
                short_description: string_or_empty(f.short_description),
                header_image: string_or_empty(f.header_image),
                website: f.website,
                release_date: f.release_date,
                content_descriptors,
                categories,
                genres,
                required_age,
            })
        },
        _ => None,
    }
}

} // verus!
