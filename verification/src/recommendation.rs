//! Recommendation rules that need no scores: hard filters, the diversity of the first
//! ten picks, release years and the play-time multiplier.
use vstd::prelude::*;
use crate::text::{
    chars_of, contains_seq, contains_vec, digits_value, eq_str, is_unsigned_literal,
    lowercase_of, opt_view, parse_u64, split_nth, split_nth_spec, string_views, to_lowercase,
    unsigned_digits,
};

verus! {

/// The role a tag plays in recommendations.
#[derive(PartialEq, Eq, Structural, Clone, Copy, Debug)]
pub enum TagRole {
    Affinity,
    Context,
    Diversity,
    Filter,
}

/// A tag of a candidate game.
pub struct RecTag {
    pub slug: String,
    pub role: TagRole,
}

/// What the rules read of a candidate game.
pub struct GameWithDetails {
    pub tags: Vec<RecTag>,
    pub series: Option<String>,
    pub genres: Vec<String>,
}

/// How many games of one series the first ten picks may hold.
#[derive(PartialEq, Eq, Structural, Clone, Copy, Debug)]
pub enum SeriesLimit {
    Unlimited,
    Moderate,
    Aggressive,
}

/// The user's filtering choices.
pub struct UserSettings {
    pub filter_adult_content: bool,
    pub series_limit: SeriesLimit,
}

impl Default for UserSettings {
    fn default() -> (r: Self)
        ensures
            !r.filter_adult_content,
            r.series_limit == SeriesLimit::Moderate,
    {
        UserSettings { filter_adult_content: false, series_limit: SeriesLimit::Moderate }
    }
}

/// Slugs of adult content.
pub open spec fn adult_slug(s: Seq<char>) -> bool {
    s == "sexual-content"@ || s == "nsfw"@ || s == "hentai"@
}

/// A game has a filtering tag for adult content.
pub open spec fn has_adult_tag(g: GameWithDetails) -> bool {
    exists|i: int| 0 <= i < g.tags@.len() && g.tags@[i].role == TagRole::Filter && adult_slug(#[trigger] g.tags@[i].slug@)
}

/// The games that pass the hard filters: when the user filters adult content, games
/// with an adult filtering tag are left out.
pub open spec fn passes_hard_filters(g: GameWithDetails, s: UserSettings) -> bool {
    !(s.filter_adult_content && has_adult_tag(g))
}

fn adult_tagged(g: &GameWithDetails) -> (b: bool)
    ensures
        b == has_adult_tag(*g),
{
    let mut i: usize = 0;
    while i < g.tags.len()
        invariant
            i <= g.tags.len(),
            forall|j: int| 0 <= j < i ==> !(g.tags@[j].role == TagRole::Filter && adult_slug(#[trigger] g.tags@[j].slug@)),
        decreases g.tags.len() - i,
    {
        let t = &g.tags[i];
        let s = t.slug.as_str();
        if t.role == TagRole::Filter && (eq_str(s, "sexual-content") || eq_str(s, "nsfw") || eq_str(s, "hentai")) {
            return true;
        }
        i = i + 1;
    }
    false
}

/// The candidates that pass the hard filters, in order (given by their indices).
pub open spec fn hard_filtered(games: Seq<GameWithDetails>, s: UserSettings, n: nat) -> Seq<int>
    decreases n,
{
    if n == 0 || n > games.len() {
        Seq::empty()
    } else if passes_hard_filters(games[n - 1], s) {
        hard_filtered(games, s, (n - 1) as nat).push(n - 1)
    } else {
        hard_filtered(games, s, (n - 1) as nat)
    }
}

/// The hard filter keeps, in increasing order, exactly the candidates that may be shown:
/// with adult filtering on, a kept candidate has no `Filter` tag whose slug is
/// `sexual-content`, `nsfw` or `hentai`, and every candidate without one is kept; with
/// it off, every candidate is kept.
pub proof fn lemma_hard_filter_law(games: Seq<GameWithDetails>, s: UserSettings)
    ensures
        ({
            let r = hard_filtered(games, s, games.len());
            &&& forall|a: int, b: int| 0 <= a < b < r.len() ==> r[a] < r[b]
            &&& forall|k: int| 0 <= k < r.len() ==> 0 <= #[trigger] r[k] < games.len()
            &&& forall|k: int, t: int| 0 <= k < r.len() && s.filter_adult_content && 0 <= t < games[r[k]].tags@.len()
                ==> !(games[r[k]].tags@[t].role == TagRole::Filter && (#[trigger] games[r[k]].tags@[t].slug@ == "sexual-content"@
                || games[r[k]].tags@[t].slug@ == "nsfw"@ || games[r[k]].tags@[t].slug@ == "hentai"@))
            &&& forall|j: int| 0 <= j < games.len() && (!s.filter_adult_content || forall|t: int| 0 <= t < games[j].tags@.len()
                ==> !(games[j].tags@[t].role == TagRole::Filter && (#[trigger] games[j].tags@[t].slug@ == "sexual-content"@
                || games[j].tags@[t].slug@ == "nsfw"@ || games[j].tags@[t].slug@ == "hentai"@))) ==> r.contains(j)
        }),
{
    lemma_hard_filtered_props(games, s, games.len());
}

proof fn lemma_hard_filtered_props(games: Seq<GameWithDetails>, s: UserSettings, n: nat)
    requires
        n <= games.len(),
    ensures
        ({
            let r = hard_filtered(games, s, n);
            &&& forall|a: int, b: int| 0 <= a < b < r.len() ==> r[a] < r[b]
            &&& forall|k: int| 0 <= k < r.len() ==> 0 <= #[trigger] r[k] < n
            &&& forall|k: int| 0 <= k < r.len() ==> passes_hard_filters(games[#[trigger] r[k]], s)
            &&& forall|j: int| 0 <= j < n && passes_hard_filters(games[j], s) ==> r.contains(j)
        }),
        forall|j: int, t: int| 0 <= j < games.len() && 0 <= t < games[j].tags@.len() ==> (
            (games[j].tags@[t].role == TagRole::Filter && (#[trigger] games[j].tags@[t].slug@ == "sexual-content"@
            || games[j].tags@[t].slug@ == "nsfw"@ || games[j].tags@[t].slug@ == "hentai"@)) ==> has_adult_tag(games[j])),
        forall|j: int| 0 <= j < games.len() && has_adult_tag(games[j]) ==> exists|t: int| 0 <= t < games[j].tags@.len()
            && games[j].tags@[t].role == TagRole::Filter && (#[trigger] games[j].tags@[t].slug@ == "sexual-content"@
            || games[j].tags@[t].slug@ == "nsfw"@ || games[j].tags@[t].slug@ == "hentai"@),
    decreases n,
{
    if n > 0 {
        lemma_hard_filtered_props(games, s, (n - 1) as nat);
        let prev = hard_filtered(games, s, (n - 1) as nat);
        let r = hard_filtered(games, s, n);
        if passes_hard_filters(games[n - 1], s) {
            assert(r == prev.push(n - 1));
            assert forall|j: int| 0 <= j < n && passes_hard_filters(games[j], s) implies r.contains(j) by {
                if j == n - 1 {
                    assert(r[prev.len() as int] == j);
                } else {
                    assert(prev.contains(j));
                    let k = choose|k: int| 0 <= k < prev.len() && prev[k] == j;
                    assert(r[k] == j);
                }
            }
        } else {
            assert forall|j: int| 0 <= j < n && passes_hard_filters(games[j], s) implies r.contains(j) by {
                assert(j != n - 1);
            }
        }
    }
    assert forall|j: int, t: int| 0 <= j < games.len() && 0 <= t < games[j].tags@.len()
        && games[j].tags@[t].role == TagRole::Filter && (#[trigger] games[j].tags@[t].slug@ == "sexual-content"@
        || games[j].tags@[t].slug@ == "nsfw"@ || games[j].tags@[t].slug@ == "hentai"@) implies has_adult_tag(games[j]) by {
        assert(adult_slug(games[j].tags@[t].slug@));
    }
    assert forall|j: int| 0 <= j < games.len() && has_adult_tag(games[j]) implies exists|t: int| 0 <= t < games[j].tags@.len()
        && games[j].tags@[t].role == TagRole::Filter && (#[trigger] games[j].tags@[t].slug@ == "sexual-content"@
        || games[j].tags@[t].slug@ == "nsfw"@ || games[j].tags@[t].slug@ == "hentai"@) by {
        let t = choose|t: int| 0 <= t < games[j].tags@.len() && games[j].tags@[t].role == TagRole::Filter && adult_slug(#[trigger] games[j].tags@[t].slug@);
        assert(games[j].tags@[t].slug@ == "sexual-content"@ || games[j].tags@[t].slug@ == "nsfw"@ || games[j].tags@[t].slug@ == "hentai"@);
    }
}

/// The indices of the candidates that pass the hard filters, in order.
pub fn apply_hard_filters(candidates: &Vec<GameWithDetails>, user_settings: &UserSettings) -> (r: Vec<usize>)
    ensures
        r@.map_values(|i: usize| i as int) == hard_filtered(candidates@, *user_settings, candidates@.len()),
{
    let mut out: Vec<usize> = Vec::new();
    let mut i: usize = 0;
    while i < candidates.len()
        invariant
            i <= candidates.len(),
            out@.map_values(|k: usize| k as int) == hard_filtered(candidates@, *user_settings, i as nat),
        decreases candidates.len() - i,
    {
        let keep = !(user_settings.filter_adult_content && adult_tagged(&candidates[i]));
        if keep {
            let ghost before = out@.map_values(|k: usize| k as int);
            out.push(i);
            assert(out@.map_values(|k: usize| k as int) =~= before.push(i as int));
        }
        i = i + 1;
    }
    out
}

// ---------------------------------------------------------------------------
// Diversity of the first picks
// ---------------------------------------------------------------------------

/// The most games of one series among the first ten picks.
pub open spec fn series_max(l: SeriesLimit) -> nat {
    match l {
        SeriesLimit::Unlimited => usize::MAX as nat,
        SeriesLimit::Moderate => 2,
        SeriesLimit::Aggressive => 1,
    }
}

/// Picked games of series `s`.
pub open spec fn count_series(picked: Seq<GameWithDetails>, s: Seq<char>) -> nat
    decreases picked.len(),
{
    if picked.len() == 0 {
        0
    } else {
        count_series(picked.drop_last(), s) + if opt_view(picked.last().series) == Some(s) { 1nat } else { 0nat }
    }
}

/// Picked games whose main (first) genre is `g`.
pub open spec fn count_genre(picked: Seq<GameWithDetails>, g: Seq<char>) -> nat
    decreases picked.len(),
{
    if picked.len() == 0 {
        0
    } else {
        count_genre(picked.drop_last(), g) + if picked.last().genres@.len() > 0 && picked.last().genres@[0]@ == g { 1nat } else { 0nat }
    }
}

/// A game joins the picks unless, while fewer than ten are picked, its series already has
/// the maximum or its main genre already has four games.
pub open spec fn admits(picked: Seq<GameWithDetails>, g: GameWithDetails, l: SeriesLimit) -> bool {
    let series_full = match opt_view(g.series) {
        Some(s) => count_series(picked, s) >= series_max(l) && picked.len() < 10,
        None => false,
    };
    let genre_full = g.genres@.len() > 0 && picked.len() < 10 && count_genre(picked, g.genres@[0]@) >= 4;
    !series_full && !genre_full
}

/// The picks among the first `n` ranked games, in order (as indices), and the games picked.
pub open spec fn diversity_picks(games: Seq<GameWithDetails>, l: SeriesLimit, n: nat) -> (Seq<int>, Seq<GameWithDetails>)
    decreases n,
{
    if n == 0 || n > games.len() {
        (Seq::empty(), Seq::empty())
    } else {
        let (idx, picked) = diversity_picks(games, l, (n - 1) as nat);
        if admits(picked, games[n - 1], l) {
            (idx.push(n - 1), picked.push(games[n - 1]))
        } else {
            (idx, picked)
        }
    }
}

fn limit_of(l: SeriesLimit) -> (r: usize)
    ensures
        r as nat == series_max(l),
{
    match l {
        SeriesLimit::Unlimited => usize::MAX,
        SeriesLimit::Moderate => 2,
        SeriesLimit::Aggressive => 1,
    }
}

/// Games among `picked` (given by index into `games`) of series `s`.
fn series_count(games: &Vec<GameWithDetails>, picked: &Vec<usize>, s: &str) -> (r: usize)
    requires
        forall|k: int| 0 <= k < picked.len() ==> (#[trigger] picked@[k]) < games.len(),
    ensures
        r as nat == count_series(picked@.map_values(|k: usize| games@[k as int]), s@),
{
    let ghost pg = picked@.map_values(|k: usize| games@[k as int]);
    let mut n: usize = 0;
    let mut i: usize = 0;
    assert(pg.take(0) =~= Seq::<GameWithDetails>::empty());
    while i < picked.len()
        invariant
            i <= picked.len(),
            pg == picked@.map_values(|k: usize| games@[k as int]),
            forall|k: int| 0 <= k < picked.len() ==> (#[trigger] picked@[k]) < games.len(),
            n as nat == count_series(pg.take(i as int), s@),
            n <= i,
        decreases picked.len() - i,
    {
        assert(pg.take(i + 1).drop_last() =~= pg.take(i as int));
        assert(pg.take(i + 1).last() == games@[picked@[i as int] as int]);
        let g = &games[picked[i]];
        let same = match &g.series {
            Some(x) => eq_str(x.as_str(), s),
            None => false,
        };
        if same {
            n = n + 1;
        }
        i = i + 1;
    }
    assert(pg.take(picked.len() as int) =~= pg);
    n
}

/// Games among `picked` whose main genre is `genre`.
fn genre_count(games: &Vec<GameWithDetails>, picked: &Vec<usize>, genre: &str) -> (r: usize)
    requires
        forall|k: int| 0 <= k < picked.len() ==> (#[trigger] picked@[k]) < games.len(),
    ensures
        r as nat == count_genre(picked@.map_values(|k: usize| games@[k as int]), genre@),
{
    let ghost pg = picked@.map_values(|k: usize| games@[k as int]);
    let mut n: usize = 0;
    let mut i: usize = 0;
    assert(pg.take(0) =~= Seq::<GameWithDetails>::empty());
    while i < picked.len()
        invariant
            i <= picked.len(),
            pg == picked@.map_values(|k: usize| games@[k as int]),
            forall|k: int| 0 <= k < picked.len() ==> (#[trigger] picked@[k]) < games.len(),
            n as nat == count_genre(pg.take(i as int), genre@),
            n <= i,
        decreases picked.len() - i,
    {
        assert(pg.take(i + 1).drop_last() =~= pg.take(i as int));
        assert(pg.take(i + 1).last() == games@[picked@[i as int] as int]);
        let g = &games[picked[i]];
        if g.genres.len() > 0 && eq_str(g.genres[0].as_str(), genre) {
            n = n + 1;
        }
        i = i + 1;
    }
    assert(pg.take(picked.len() as int) =~= pg);
    n
}

/// The indices of the ranked games kept by the diversity rules, in order: while fewer
/// than ten are kept, a game is skipped when its series already has the most the user's
/// series limit allows, or its main genre already has four games.
pub fn apply_diversity_rules(ranked: &Vec<GameWithDetails>, settings: &UserSettings) -> (r: Vec<usize>)
    ensures
        r@.map_values(|i: usize| i as int) == diversity_picks(ranked@, settings.series_limit, ranked@.len()).0,
{
    let max = limit_of(settings.series_limit);
    let mut picked: Vec<usize> = Vec::new();
    let mut i: usize = 0;
    while i < ranked.len()
        invariant
            i <= ranked.len(),
            max as nat == series_max(settings.series_limit),
            forall|k: int| 0 <= k < picked.len() ==> (#[trigger] picked@[k]) < i,
            picked@.map_values(|k: usize| k as int) == diversity_picks(ranked@, settings.series_limit, i as nat).0,
            picked@.map_values(|k: usize| ranked@[k as int]) == diversity_picks(ranked@, settings.series_limit, i as nat).1,
        decreases ranked.len() - i,
    {
        let g = &ranked[i];
        let series_full = match &g.series {
            Some(s) => series_count(ranked, &picked, s.as_str()) >= max && picked.len() < 10,
            None => false,
        };
        let genre_full = g.genres.len() > 0 && picked.len() < 10 && genre_count(ranked, &picked, g.genres[0].as_str()) >= 4;
        if !series_full && !genre_full {
            let ghost b0 = picked@.map_values(|k: usize| k as int);
            let ghost b1 = picked@.map_values(|k: usize| ranked@[k as int]);
            picked.push(i);
            assert(picked@.map_values(|k: usize| k as int) =~= b0.push(i as int));
            assert(picked@.map_values(|k: usize| ranked@[k as int]) =~= b1.push(ranked@[i as int]));
        }
        i = i + 1;
    }
    picked
}

/// Among the first ten picks, no series has more games than the limit allows and no main
/// genre has more than four.
pub proof fn lemma_diversity_limits(games: Seq<GameWithDetails>, l: SeriesLimit, n: nat, s: Seq<char>, g: Seq<char>)
    requires
        n <= games.len(),
    ensures
        diversity_picks(games, l, n).1.len() <= 10 ==> count_series(diversity_picks(games, l, n).1, s) <= series_max(l),
        diversity_picks(games, l, n).1.len() <= 10 ==> count_genre(diversity_picks(games, l, n).1, g) <= 4,
        diversity_picks(games, l, n).0.len() == diversity_picks(games, l, n).1.len(),
    decreases n,
{
    if n > 0 {
        lemma_diversity_limits(games, l, (n - 1) as nat, s, g);
        let (idx, picked) = diversity_picks(games, l, (n - 1) as nat);
        let x = games[n - 1];
        if admits(picked, x, l) {
            let np = picked.push(x);
            assert(np.drop_last() =~= picked);
        }
    }
}

// ---------------------------------------------------------------------------
// Release year and play time
// ---------------------------------------------------------------------------

/// The year of a date `YYYY-...`: the text before the first `-`, read as an `i32`.
pub open spec fn release_year_spec(date: Seq<char>) -> Option<i32> {
    let p = split_nth_spec(date, '-', 0)->0;
    if is_unsigned_literal(p) && digits_value(unsigned_digits(p)) <= i32::MAX {
        Some(digits_value(unsigned_digits(p)) as i32)
    } else {
        None
    }
}

/// The release year of a date string, if its first `-`-separated part is a number.
pub fn parse_release_year(date_str: &str) -> (r: Option<i32>)
    ensures
        r == release_year_spec(date_str@),
{
    let v = chars_of(date_str);
    let first = match split_nth(&v, '-', 0) {
        Some(p) => p,
        None => {
            return None;
        },
    };
    match parse_u64(&first) {
        Some(n) => {
            if n <= 2147483647 {
                Some(n as i32)
            } else {
                None
            }
        },
        None => None,
    }
}

/// The genres (lower-cased) or tag slugs mention `term`.
pub open spec fn has_term(genres: Seq<Seq<char>>, slugs: Seq<Seq<char>>, term: Seq<char>) -> bool {
    (exists|i: int| 0 <= i < genres.len() && contains_seq(lowercase_of(#[trigger] genres[i]), term)) || (exists|i: int|
        0 <= i < slugs.len() && contains_seq(#[trigger] slugs[i], term))
}

/// The play-time multiplier in tenths by the kind of game: role-playing 35, open world 32,
/// strategy 30, action 28, adventure 25, narrative indie 22, linear or short 18,
/// otherwise 25; plus 10 when the median is under two hours, or 5 under five hours.
pub open spec fn multiplier_tenths(base: u32, genres: Seq<Seq<char>>, slugs: Seq<Seq<char>>) -> u32 {
    let t = |w: Seq<char>| has_term(genres, slugs, w);
    let kind: u32 = if t("rpg"@) || t("role-playing"@) {
        35
    } else if t("open-world"@) || t("sandbox"@) {
        32
    } else if t("strategy"@) || t("rts"@) || t("grand-strategy"@) {
        30
    } else if t("action"@) || t("shooter"@) || t("fps"@) {
        28
    } else if t("adventure"@) {
        25
    } else if t("indie"@) && (t("narrative"@) || t("story"@)) {
        22
    } else if t("linear"@) || t("short"@) {
        18
    } else {
        25
    };
    if base < 2 {
        (kind + 10) as u32
    } else if base < 5 {
        (kind + 5) as u32
    } else {
        kind
    }
}

fn term_present(genres_lower: &Vec<Vec<char>>, slugs: &Vec<Vec<char>>, term: &str) -> (b: bool)
    ensures
        b == ((exists|i: int| 0 <= i < genres_lower.len() && contains_seq(#[trigger] genres_lower@[i]@, term@)) || (exists|i: int|
            0 <= i < slugs.len() && contains_seq(#[trigger] slugs@[i]@, term@))),
{
    let t = chars_of(term);
    let mut i: usize = 0;
    while i < genres_lower.len()
        invariant
            i <= genres_lower.len(),
            t@ == term@,
            forall|j: int| 0 <= j < i ==> !contains_seq(#[trigger] genres_lower@[j]@, term@),
        decreases genres_lower.len() - i,
    {
        if contains_vec(&genres_lower[i], &t) {
            return true;
        }
        i = i + 1;
    }
    let mut i: usize = 0;
    while i < slugs.len()
        invariant
            i <= slugs.len(),
            t@ == term@,
            forall|j: int| 0 <= j < genres_lower.len() ==> !contains_seq(#[trigger] genres_lower@[j]@, term@),
            forall|j: int| 0 <= j < i ==> !contains_seq(#[trigger] slugs@[j]@, term@),
        decreases slugs.len() - i,
    {
        if contains_vec(&slugs[i], &t) {
            return true;
        }
        i = i + 1;
    }
    false
}

/// The multiplier, in tenths, by which a median play time of `base_hours` hours is
/// stretched to estimate the time to finish the game.
pub fn playtime_multiplier_tenths(base_hours: u32, genres: &Vec<String>, tag_slugs: &Vec<String>) -> (r: u32)
    ensures
        r == multiplier_tenths(base_hours, string_views(genres@), string_views(tag_slugs@)),
{
    let ghost gv = string_views(genres@);
    let ghost sv = string_views(tag_slugs@);
    let mut gl: Vec<Vec<char>> = Vec::new();
    let mut i: usize = 0;
    while i < genres.len()
        invariant
            i <= genres.len(),
            gl.len() == i,
            forall|j: int| 0 <= j < i ==> #[trigger] gl@[j]@ == lowercase_of(genres@[j]@),
        decreases genres.len() - i,
    {
        gl.push(chars_of(to_lowercase(genres[i].as_str()).as_str()));
        i = i + 1;
    }
    let mut sl: Vec<Vec<char>> = Vec::new();
    let mut i: usize = 0;
    while i < tag_slugs.len()
        invariant
            i <= tag_slugs.len(),
            sl.len() == i,
            forall|j: int| 0 <= j < i ==> #[trigger] sl@[j]@ == tag_slugs@[j]@,
        decreases tag_slugs.len() - i,
    {
        sl.push(chars_of(tag_slugs[i].as_str()));
        i = i + 1;
    }
    proof {
        assert forall|w: Seq<char>|
            has_term(gv, sv, w) == ((exists|i: int| 0 <= i < gl.len() && contains_seq(#[trigger] gl@[i]@, w)) || (exists|i: int|
                0 <= i < sl.len() && contains_seq(#[trigger] sl@[i]@, w))) by {
            if exists|i: int| 0 <= i < gv.len() && contains_seq(lowercase_of(#[trigger] gv[i]), w) {
                let i = choose|i: int| 0 <= i < gv.len() && contains_seq(lowercase_of(#[trigger] gv[i]), w);
                assert(gl@[i]@ == lowercase_of(gv[i]));
            }
            if exists|i: int| 0 <= i < gl.len() && contains_seq(#[trigger] gl@[i]@, w) {
                let i = choose|i: int| 0 <= i < gl.len() && contains_seq(#[trigger] gl@[i]@, w);
                assert(gl@[i]@ == lowercase_of(gv[i]));
            }
            if exists|i: int| 0 <= i < sv.len() && contains_seq(#[trigger] sv[i], w) {
                let i = choose|i: int| 0 <= i < sv.len() && contains_seq(#[trigger] sv[i], w);
                assert(sl@[i]@ == sv[i]);
            }
            if exists|i: int| 0 <= i < sl.len() && contains_seq(#[trigger] sl@[i]@, w) {
                let i = choose|i: int| 0 <= i < sl.len() && contains_seq(#[trigger] sl@[i]@, w);
                assert(sl@[i]@ == sv[i]);
            }
        }
    }
    let kind: u32 = if term_present(&gl, &sl, "rpg") || term_present(&gl, &sl, "role-playing") {
        35
    } else if term_present(&gl, &sl, "open-world") || term_present(&gl, &sl, "sandbox") {
        32
    } else if term_present(&gl, &sl, "strategy") || term_present(&gl, &sl, "rts") || term_present(&gl, &sl, "grand-strategy") {
        30
    } else if term_present(&gl, &sl, "action") || term_present(&gl, &sl, "shooter") || term_present(&gl, &sl, "fps") {
        28
    } else if term_present(&gl, &sl, "adventure") {
        25
    } else if term_present(&gl, &sl, "indie") && (term_present(&gl, &sl, "narrative") || term_present(&gl, &sl, "story")) {
        22
    } else if term_present(&gl, &sl, "linear") || term_present(&gl, &sl, "short") {
        18
    } else {
        25
    };
    if base_hours < 2 {
        kind + 10
    } else if base_hours < 5 {
        kind + 5
    } else {
        kind
    }
}


// ---------------------------------------------------------------------------
// Reasons and reports
// ---------------------------------------------------------------------------

/// Why a game is recommended: a label for the user and a kind.
pub struct RecommendationReason {
    pub label: String,
    pub type_id: String,
}

/// The reason given when nothing more specific applies.
pub fn default_reason() -> (r: RecommendationReason)
    ensures
        r.label@ == "Baseado no seu perfil"@,
        r.type_id@ == "general"@,
{
    RecommendationReason { label: crate::text::copy_string("Baseado no seu perfil"), type_id: crate::text::copy_string("general") }
}

/// The reason of a game recommended by the community.
pub fn community_reason() -> (r: RecommendationReason)
    ensures
        r.label@ == "Tendência na Comunidade"@,
        r.type_id@ == "community"@,
{
    RecommendationReason { label: crate::text::copy_string("Tendência na Comunidade"), type_id: crate::text::copy_string("community") }
}

/// The reason of a game recommended for a genre.
pub fn genre_reason(genre: &str) -> (r: RecommendationReason)
    ensures
        r.label@ == "Gênero: "@ + genre@,
        r.type_id@ == "genre"@,
{
    RecommendationReason { label: crate::text::concat_str("Gênero: ", genre), type_id: crate::text::copy_string("genre") }
}

/// The reason of a game recommended for a tag.
pub fn tag_reason(tag_name: &str) -> (r: RecommendationReason)
    ensures
        r.label@ == "Tag: "@ + tag_name@,
        r.type_id@ == "tag"@,
{
    RecommendationReason { label: crate::text::concat_str("Tag: ", tag_name), type_id: crate::text::copy_string("tag") }
}

/// The reason of a hybrid recommendation, from whether the content score and the
/// community score are positive: both gives `hybrid`, only the community gives
/// `community`, otherwise the content reason (or the default one).
pub fn determine_hybrid_reason(cb_positive: bool, cf_positive: bool, cb_reason: Option<RecommendationReason>) -> (r: RecommendationReason)
    ensures
        cb_positive && cf_positive ==> r.label@ == "Afinidade + Popular na comunidade"@ && r.type_id@ == "hybrid"@,
        !cb_positive && cf_positive ==> r.label@ == "Popular na comunidade"@ && r.type_id@ == "community"@,
        !cf_positive ==> match cb_reason {
            Some(c) => r.label@ == c.label@ && r.type_id@ == c.type_id@,
            None => r.label@ == "Baseado no seu perfil"@ && r.type_id@ == "general"@,
        },
{
    if cb_positive && cf_positive {
        RecommendationReason {
            label: crate::text::copy_string("Afinidade + Popular na comunidade"),
            type_id: crate::text::copy_string("hybrid"),
        }
    } else if cf_positive {
        RecommendationReason { label: crate::text::copy_string("Popular na comunidade"), type_id: crate::text::copy_string("community") }
    } else {
        match cb_reason {
            Some(c) => c,
            None => default_reason(),
        }
    }
}

/// The user's settings as a report shows them.
pub struct UserSettingsReport {
    pub filter_adult_content: bool,
    pub series_limit: String,
}

/// The report of the user's settings: the series limit as `none`, `moderate` or
/// `aggressive`.
pub fn settings_report(settings: &UserSettings) -> (r: UserSettingsReport)
    ensures
        r.filter_adult_content == settings.filter_adult_content,
        r.series_limit@ == match settings.series_limit {
            SeriesLimit::Unlimited => "none"@,
            SeriesLimit::Moderate => "moderate"@,
            SeriesLimit::Aggressive => "aggressive"@,
        },
{
    UserSettingsReport {
        filter_adult_content: settings.filter_adult_content,
        series_limit: match settings.series_limit {
            SeriesLimit::Unlimited => crate::text::copy_string("none"),
            SeriesLimit::Moderate => crate::text::copy_string("moderate"),
            SeriesLimit::Aggressive => crate::text::copy_string("aggressive"),
        },
    }
}


/// The Steam app id a key of the community index names: the key read as an unsigned
/// decimal number (`str::parse::<u32>`); `None` when it is not one or does not fit.
pub fn cf_app_id(key: &str) -> (r: Option<u32>)
    ensures
        match r {
            Some(v) => crate::text::is_unsigned_literal(key@) && v as nat == crate::text::digits_value(crate::text::unsigned_digits(key@)),
            None => !crate::text::is_unsigned_literal(key@) || crate::text::digits_value(crate::text::unsigned_digits(key@)) > u32::MAX,
        },
{
    let v = crate::text::chars_of(key);
    match crate::text::parse_u64(&v) {
        Some(n) => if n <= 0xffff_ffffu64 {
            Some(n as u32)
        } else {
            None
        },
        None => None,
    }
}

} // verus!
