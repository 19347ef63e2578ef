//! Tag classification with slug normalization: numbered slugs such as `rpg-2` are read
//! as their base slug, and repeated tags are dropped.
use vstd::prelude::*;
use crate::tag_service::{
    classify_spec, classify_tags as classify_exact, get_tag_stats as table_stats, lookup,
    meta_views, sort_by_relevance, sort_desc, tag_views, truncate_tags, truncated, GameTag,
    GameTagView, TagMetadata, TagStats,
};
use crate::steam_store::{insert_sorted, strictly_sorted};
use crate::text::{chars_of, copy_string, eq_str, is_ascii_digit, push_char, string_from_range, string_views};

verus! {

/// The pattern of one decimal digit (Unicode `Nd`, as the regex crate reads `\d`).
pub const DIGIT_PATTERN: &'static str = "^\\d$";

/// What `regex::Regex::new(pattern)` followed by `is_match(text)` gives: `None` where the
/// pattern does not compile.
pub uninterp spec fn regex_match(pattern: Seq<char>, text: Seq<char>) -> Option<bool>;

/// `regex::Regex::new(pattern)` and, when it compiles, `is_match(text)`. The result is
/// named; of the digit pattern on one ASCII character the contract states it, as the
/// crate documents `\d`: the ASCII digits and no other ASCII character.
#[verifier::external_body]
fn regex_is_match(pattern: &str, text: &str) -> (r: Option<bool>)
    ensures
        r == regex_match(pattern@, text@),
        pattern@ == DIGIT_PATTERN@ && text@.len() == 1 && (text@[0] as u32) < 128 ==> r == Some(
            is_ascii_digit(text@[0]),
        ),
{
    match regex::Regex::new(pattern) {
        Ok(re) => Some(re.is_match(text)),
        Err(_) => None,
    }
}

/// A decimal digit, as `\d` reads it.
pub open spec fn decimal_digit(c: char) -> bool {
    regex_match(DIGIT_PATTERN@, seq![c]) == Some(true)
}

fn is_decimal_digit(c: char) -> (b: bool)
    ensures
        b == decimal_digit(c),
        (c as u32) < 128 ==> b == is_ascii_digit(c),
{
    let mut t = String::new();
    push_char(&mut t, c);
    assert(t@ =~= seq![c]);
    let pattern = DIGIT_PATTERN;
    regex_is_match(pattern, t.as_str()) == Some(true)
}

/// Index of the last `-` among the first `n` characters of `s`, or -1.
pub open spec fn last_dash(s: Seq<char>, n: int) -> int
    decreases n,
{
    if n <= 0 {
        -1
    } else if s[n - 1] == '-' {
        n - 1
    } else {
        last_dash(s, n - 1)
    }
}

/// The slug without a numeric suffix: where it ends with `-` and one or more decimal
/// digits, the part before that `-`; otherwise the slug itself.
pub open spec fn numeric_suffix_stripped(slug: Seq<char>) -> Seq<char> {
    let p = last_dash(slug, slug.len() as int);
    if p >= 0 && p + 1 < slug.len() && (forall|q: int| p < q < slug.len() ==> decimal_digit(#[trigger] slug[q])) {
        slug.take(p)
    } else {
        slug
    }
}

proof fn lemma_last_dash_none(s: Seq<char>, n: int)
    requires
        n <= s.len(),
        forall|q: int| 0 <= q < n ==> s[q] != '-',
    ensures
        last_dash(s, n) == -1,
    decreases n,
{
    if n > 0 {
        lemma_last_dash_none(s, n - 1);
    }
}

/// The slug with a numeric suffix such as `-2` removed; numbers without a hyphen (`2d`,
/// `4x`) stay.
pub fn normalize_tag_slug(slug: &str) -> (r: String)
    ensures
        r@ == numeric_suffix_stripped(slug@),
        !slug@.contains('-') ==> r@ == slug@,
{
    let v = chars_of(slug);
    let n = v.len();
    let mut k: usize = n;
    while k > 0 && v[k - 1] != '-'
        invariant
            k <= n,
            n == v.len(),
            v@ == slug@,
            last_dash(slug@, k as int) == last_dash(slug@, n as int),
        decreases k,
    {
        k = k - 1;
    }
    proof {
        if !slug@.contains('-') {
            assert forall|q: int| 0 <= q < n implies slug@[q] != '-' by {
                if slug@[q] == '-' {
                    assert(slug@.contains('-'));
                }
            }
            lemma_last_dash_none(slug@, n as int);
        }
    }
    if k == 0 || k >= n {
        return copy_string(slug);
    }
    let p = k - 1;
    assert(last_dash(slug@, n as int) == p);
    let mut q: usize = k;
    while q < n
        invariant
            k <= q <= n,
            p + 1 == k,
            last_dash(slug@, n as int) == p,
            n == v.len(),
            v@ == slug@,
            forall|j: int| p < j < q ==> decimal_digit(#[trigger] slug@[j]),
        decreases n - q,
    {
        if !is_decimal_digit(v[q]) {
            assert(!decimal_digit(slug@[q as int]));
            return copy_string(slug);
        }
        q = q + 1;
    }
    string_from_range(&v, 0, p)
}

/// The normalized form of each slug.
pub open spec fn normalized_all(s: Seq<Seq<char>>) -> Seq<Seq<char>> {
    s.map_values(|x: Seq<char>| numeric_suffix_stripped(x))
}

/// The tags of `s` whose slug did not occur earlier (the first of each slug), in order.
pub open spec fn first_of_each_slug(s: Seq<GameTagView>, n: nat) -> Seq<GameTagView>
    decreases n,
{
    if n == 0 || n > s.len() {
        Seq::empty()
    } else {
        let prev = first_of_each_slug(s, (n - 1) as nat);
        if exists|j: int| 0 <= j < n - 1 && #[trigger] s[j].slug == s[n - 1].slug {
            prev
        } else {
            prev.push(s[n - 1])
        }
    }
}

/// The strings of `s` that did not occur earlier, in order.
pub open spec fn distinct_in_order(s: Seq<Seq<char>>, n: nat) -> Seq<Seq<char>>
    decreases n,
{
    if n == 0 || n > s.len() {
        Seq::empty()
    } else {
        let prev = distinct_in_order(s, (n - 1) as nat);
        if exists|j: int| 0 <= j < n - 1 && #[trigger] s[j] == s[n - 1] {
            prev
        } else {
            prev.push(s[n - 1])
        }
    }
}

/// The slugs the table does not know, in order.
pub open spec fn unknown_only(table: Seq<crate::tag_service::TagMetadataView>, s: Seq<Seq<char>>) -> Seq<Seq<char>>
    decreases s.len(),
{
    if s.len() == 0 {
        Seq::empty()
    } else {
        let prev = unknown_only(table, s.drop_last());
        if lookup(table, s.last()) is None {
            prev.push(s.last())
        } else {
            prev
        }
    }
}

fn normalize_all(raw_tags: &Vec<String>) -> (r: Vec<String>)
    ensures
        string_views(r@) == normalized_all(string_views(raw_tags@)),
{
    let mut out: Vec<String> = Vec::new();
    let mut i: usize = 0;
    while i < raw_tags.len()
        invariant
            i <= raw_tags.len(),
            string_views(out@) == normalized_all(string_views(raw_tags@)).take(i as int),
        decreases raw_tags.len() - i,
    {
        let ghost before = string_views(out@);
        let n = normalize_tag_slug(raw_tags[i].as_str());
        out.push(n);
        assert(string_views(out@) =~= before.push(numeric_suffix_stripped(raw_tags@[i as int]@)));
        assert(string_views(out@) =~= normalized_all(string_views(raw_tags@)).take(i + 1));
        i = i + 1;
    }
    assert(normalized_all(string_views(raw_tags@)).take(raw_tags.len() as int) =~= normalized_all(string_views(raw_tags@)));
    out
}

/// The visible tags among `raw_tags`, each slug read in its normalized form, in order.
pub fn classify_tags(table: &Vec<TagMetadata>, raw_tags: Vec<String>) -> (r: Vec<GameTag>)
    ensures
        tag_views(r@) == classify_spec(meta_views(table@), normalized_all(string_views(raw_tags@))),
{
    let normalized = normalize_all(&raw_tags);
    classify_exact(table, normalized)
}

fn slug_seen_before(tags: &Vec<GameTag>, i: usize) -> (b: bool)
    requires
        i < tags.len(),
    ensures
        b == exists|j: int| 0 <= j < i && #[trigger] tag_views(tags@)[j].slug == tag_views(tags@)[i as int].slug,
{
    let ghost tv = tag_views(tags@);
    let mut j: usize = 0;
    while j < i
        invariant
            j <= i < tags.len(),
            tv == tag_views(tags@),
            forall|t: int| 0 <= t < j ==> #[trigger] tv[t].slug != tv[i as int].slug,
        decreases i - j,
    {
        if eq_str(tags[j].slug.as_str(), tags[i].slug.as_str()) {
            assert(tv[j as int].slug == tv[i as int].slug);
            return true;
        }
        j = j + 1;
    }
    false
}

fn copy_tag(t: &GameTag) -> (r: GameTag)
    ensures
        r@ == t@,
{
    GameTag { slug: t.slug.clone(), name: t.name.clone(), category: t.category, relevance: t.relevance }
}

/// Keeps the first tag of each slug, in order.
pub fn dedup_by_slug(tags: Vec<GameTag>) -> (r: Vec<GameTag>)
    ensures
        tag_views(r@) == first_of_each_slug(tag_views(tags@), tags@.len()),
{
    let ghost tv = tag_views(tags@);
    let mut out: Vec<GameTag> = Vec::new();
    let mut i: usize = 0;
    while i < tags.len()
        invariant
            i <= tags.len(),
            tv == tag_views(tags@),
            tag_views(out@) == first_of_each_slug(tv, i as nat),
        decreases tags.len() - i,
    {
        if !slug_seen_before(&tags, i) {
            let ghost before = tag_views(out@);
            out.push(copy_tag(&tags[i]));
            assert(tag_views(out@) =~= before.push(tv[i as int]));
        }
        i = i + 1;
    }
    out
}

/// The visible tags among `raw_tags` (slugs normalized), the first of each slug, most
/// relevant first (equal relevance in order), at most `limit` of them.
pub fn classify_and_sort_tags(table: &Vec<TagMetadata>, raw_tags: Vec<String>, limit: usize) -> (r: Vec<GameTag>)
    ensures
        tag_views(r@) == truncated(
            sort_desc(
                first_of_each_slug(
                    classify_spec(meta_views(table@), normalized_all(string_views(raw_tags@))),
                    classify_spec(meta_views(table@), normalized_all(string_views(raw_tags@))).len(),
                ),
            ),
            limit as nat,
        ),
{
    let classified = classify_tags(table, raw_tags);
    let unique = dedup_by_slug(classified);
    let sorted = sort_by_relevance(unique);
    truncate_tags(sorted, limit)
}

fn string_seen_before(v: &Vec<String>, i: usize) -> (b: bool)
    requires
        i < v.len(),
    ensures
        b == exists|j: int| 0 <= j < i && #[trigger] string_views(v@)[j] == string_views(v@)[i as int],
{
    let ghost sv = string_views(v@);
    let mut j: usize = 0;
    while j < i
        invariant
            j <= i < v.len(),
            sv == string_views(v@),
            forall|t: int| 0 <= t < j ==> #[trigger] sv[t] != sv[i as int],
        decreases i - j,
    {
        if eq_str(v[j].as_str(), v[i].as_str()) {
            assert(sv[j as int] == sv[i as int]);
            return true;
        }
        j = j + 1;
    }
    false
}

/// Keeps the first occurrence of each string, in order.
pub fn dedup_strings(v: Vec<String>) -> (r: Vec<String>)
    ensures
        string_views(r@) == distinct_in_order(string_views(v@), v@.len()),
{
    let ghost sv = string_views(v@);
    let mut out: Vec<String> = Vec::new();
    let mut i: usize = 0;
    while i < v.len()
        invariant
            i <= v.len(),
            sv == string_views(v@),
            string_views(out@) == distinct_in_order(sv, i as nat),
        decreases v.len() - i,
    {
        if !string_seen_before(&v, i) {
            let ghost before = string_views(out@);
            out.push(v[i].clone());
            assert(string_views(out@) =~= before.push(sv[i as int]));
        }
        i = i + 1;
    }
    out
}

/// The normalized slugs of `raw_tags` that the table does not know, each once, in order
/// of first appearance.
pub fn get_unknown_tags(table: &Vec<TagMetadata>, raw_tags: &Vec<String>) -> (r: Vec<String>)
    ensures
        string_views(r@) == distinct_in_order(
            unknown_only(meta_views(table@), normalized_all(string_views(raw_tags@))),
            unknown_only(meta_views(table@), normalized_all(string_views(raw_tags@))).len(),
        ),
{
    let normalized = normalize_all(raw_tags);
    let ghost nv = string_views(normalized@);
    let mut unknown: Vec<String> = Vec::new();
    let mut i: usize = 0;
    assert(nv.take(0) =~= Seq::<Seq<char>>::empty());
    while i < normalized.len()
        invariant
            i <= normalized.len(),
            nv == string_views(normalized@),
            string_views(unknown@) == unknown_only(meta_views(table@), nv.take(i as int)),
        decreases normalized.len() - i,
    {
        assert(nv.take(i + 1).drop_last() =~= nv.take(i as int));
        assert(nv.take(i + 1).last() == normalized@[i as int]@);
        if crate::tag_service::find_metadata(table, normalized[i].as_str()).is_none() {
            let ghost before = string_views(unknown@);
            unknown.push(normalized[i].clone());
            assert(string_views(unknown@) =~= before.push(nv[i as int]));
        }
        i = i + 1;
    }
    assert(nv.take(normalized.len() as int) =~= nv);
    dedup_strings(unknown)
}

/// Counts of the table: distinct slugs, visible and hidden ones, and per category.
pub fn get_tag_stats(table: &Vec<TagMetadata>) -> (r: TagStats)
    ensures
        r.total == crate::tag_service::stats_count(meta_views(table@), table.len() as nat, None, false),
        r.visible == crate::tag_service::stats_count(meta_views(table@), table.len() as nat, None, true),
        r.hidden == r.total - r.visible,
        crate::tag_service::count_views(r.by_category@) == crate::tag_service::by_category_spec(meta_views(table@), 6),
{
    table_stats(table)
}


/// No two tags of `s` share a slug.
pub open spec fn distinct_slugs(s: Seq<GameTagView>) -> bool {
    forall|i: int, j: int| 0 <= i < j < s.len() ==> (#[trigger] s[i]).slug != (#[trigger] s[j]).slug
}

proof fn lemma_first_of_each(s: Seq<GameTagView>, n: nat)
    requires
        n <= s.len(),
    ensures
        distinct_slugs(first_of_each_slug(s, n)),
        forall|k: int| 0 <= k < first_of_each_slug(s, n).len() ==>
            exists|j: int| 0 <= j < n && #[trigger] first_of_each_slug(s, n)[k] == s[j],
    decreases n,
{
    if n > 0 {
        lemma_first_of_each(s, (n - 1) as nat);
        let prev = first_of_each_slug(s, (n - 1) as nat);
        if !(exists|j: int| 0 <= j < n - 1 && #[trigger] s[j].slug == s[n - 1].slug) {
            let r = prev.push(s[n - 1]);
            assert forall|k: int| 0 <= k < r.len() implies exists|j: int| 0 <= j < n && #[trigger] r[k] == s[j] by {
                if k < prev.len() {
                    let j = choose|j: int| 0 <= j < n - 1 && #[trigger] prev[k] == s[j];
                    assert(r[k] == s[j]);
                } else {
                    assert(r[k] == s[n - 1]);
                }
            }
            assert forall|a: int, b: int| 0 <= a < b < r.len() implies (#[trigger] r[a]).slug != (#[trigger] r[b]).slug by {
                if b == prev.len() {
                    let j = choose|j: int| 0 <= j < n - 1 && #[trigger] prev[a] == s[j];
                    assert(s[j].slug != s[n - 1].slug);
                } else {
                    assert(prev[a] == r[a] && prev[b] == r[b]);
                }
            }
        }
    }
}

proof fn lemma_insert_desc_parts(s: Seq<GameTagView>, t: GameTagView)
    ensures
        crate::tag_service::insert_desc(s, t).len() == s.len() + 1,
        forall|k: int| 0 <= k < crate::tag_service::insert_desc(s, t).len() ==>
            #[trigger] crate::tag_service::insert_desc(s, t)[k] == t || s.contains(crate::tag_service::insert_desc(s, t)[k]),
        distinct_slugs(s) && (forall|i: int| 0 <= i < s.len() ==> (#[trigger] s[i]).slug != t.slug)
            ==> distinct_slugs(crate::tag_service::insert_desc(s, t)),
    decreases s.len(),
{
    let r = crate::tag_service::insert_desc(s, t);
    if s.len() == 0 {
    } else if s.last().relevance >= t.relevance {
        assert(r == s.push(t));
        assert forall|k: int| 0 <= k < r.len() implies #[trigger] r[k] == t || s.contains(r[k]) by {
            if k < s.len() {
                assert(r[k] == s[k]);
            }
        }
    } else {
        let inner = crate::tag_service::insert_desc(s.drop_last(), t);
        lemma_insert_desc_parts(s.drop_last(), t);
        assert(r == inner.push(s.last()));
        assert forall|k: int| 0 <= k < r.len() implies #[trigger] r[k] == t || s.contains(r[k]) by {
            if k < inner.len() {
                if inner[k] != t {
                    assert(s.drop_last().contains(inner[k]));
                    let j = choose|j: int| 0 <= j < s.drop_last().len() && s.drop_last()[j] == inner[k];
                    assert(s[j] == r[k]);
                }
            } else {
                assert(s[s.len() - 1] == r[k]);
            }
        }
        if distinct_slugs(s) && (forall|i: int| 0 <= i < s.len() ==> (#[trigger] s[i]).slug != t.slug) {
            assert forall|i: int| 0 <= i < s.drop_last().len() implies (#[trigger] s.drop_last()[i]).slug != t.slug by {
                assert(s.drop_last()[i] == s[i]);
            }
            assert forall|a: int, b: int| 0 <= a < b < s.drop_last().len() implies (#[trigger] s.drop_last()[a]).slug != (#[trigger] s.drop_last()[b]).slug by {
                assert(s.drop_last()[a] == s[a] && s.drop_last()[b] == s[b]);
            }
            assert forall|a: int, b: int| 0 <= a < b < r.len() implies (#[trigger] r[a]).slug != (#[trigger] r[b]).slug by {
                if b == inner.len() {
                    if inner[a] == t {
                        assert(s[s.len() - 1].slug != t.slug);
                    } else {
                        assert(s.drop_last().contains(inner[a]));
                        let j = choose|j: int| 0 <= j < s.drop_last().len() && s.drop_last()[j] == inner[a];
                        assert(s[j] == inner[a]);
                        assert(s[j].slug != s[s.len() - 1].slug);
                    }
                } else {
                    assert(inner[a] == r[a] && inner[b] == r[b]);
                }
            }
        }
    }
}

proof fn lemma_sort_desc_distinct(s: Seq<GameTagView>)
    ensures
        sort_desc(s).len() == s.len(),
        forall|k: int| 0 <= k < sort_desc(s).len() ==> s.contains(#[trigger] sort_desc(s)[k]),
        distinct_slugs(s) ==> distinct_slugs(sort_desc(s)),
    decreases s.len(),
{
    if s.len() > 0 {
        let p = s.drop_last();
        lemma_sort_desc_distinct(p);
        let sp = sort_desc(p);
        lemma_insert_desc_parts(sp, s.last());
        let r = sort_desc(s);
        assert(r == crate::tag_service::insert_desc(sp, s.last()));
        assert forall|k: int| 0 <= k < r.len() implies s.contains(#[trigger] r[k]) by {
            if r[k] == s.last() {
                assert(s[s.len() - 1] == r[k]);
            } else {
                assert(sp.contains(r[k]));
                let j = choose|j: int| 0 <= j < sp.len() && sp[j] == r[k];
                assert(p.contains(sp[j]));
                let i = choose|i: int| 0 <= i < p.len() && p[i] == sp[j];
                assert(s[i] == r[k]);
            }
        }
        if distinct_slugs(s) {
            assert forall|a: int, b: int| 0 <= a < b < p.len() implies (#[trigger] p[a]).slug != (#[trigger] p[b]).slug by {
                assert(p[a] == s[a] && p[b] == s[b]);
            }
            assert forall|i: int| 0 <= i < sp.len() implies (#[trigger] sp[i]).slug != s.last().slug by {
                assert(p.contains(sp[i]));
                let j = choose|j: int| 0 <= j < p.len() && p[j] == sp[i];
                assert(s[j] == sp[i]);
                assert(s[j].slug != s[s.len() - 1].slug);
            }
        }
    }
}

/// The classified tags of a game hold each slug once (the first tag of each slug among
/// the classified ones), come from the most to the least relevant (equal relevance in
/// their order, by the stable sort), are `limit` many or all of them where fewer, and
/// each is a classified tag.
pub proof fn lemma_classified_tags_law(table: Seq<TagMetadata>, raw_tags: Seq<Seq<char>>, limit: nat)
    ensures
        ({
            let c = classify_spec(meta_views(table), normalized_all(raw_tags));
            let u = first_of_each_slug(c, c.len());
            let r = truncated(sort_desc(u), limit);
            &&& distinct_slugs(r)
            &&& crate::tag_service::relevance_desc(r)
            &&& r.len() <= limit
            &&& r.len() == if u.len() < limit { u.len() } else { limit }
            &&& forall|k: int| 0 <= k < r.len() ==> c.contains(#[trigger] r[k])
        }),
{
    lemma_classified_tags_core(table, raw_tags, limit);
    let c = classify_spec(meta_views(table), normalized_all(raw_tags));
    let u = first_of_each_slug(c, c.len());
    lemma_first_of_each(c, c.len());
    crate::tag_service::lemma_sort_desc_law(u);
    let sd = sort_desc(u);
    let r = truncated(sd, limit);
    vstd::seq_lib::to_multiset_len(sd);
    vstd::seq_lib::to_multiset_len(u);
    assert forall|k: int| 0 <= k < r.len() implies c.contains(#[trigger] r[k]) by {
        assert(r[k] == sd[k]);
        vstd::seq_lib::to_multiset_contains(sd, sd[k]);
        vstd::seq_lib::to_multiset_contains(u, sd[k]);
        assert(sd.contains(sd[k]));
        assert(u.contains(sd[k]));
        let i = choose|i: int| 0 <= i < u.len() && u[i] == sd[k];
        let j = choose|j: int| 0 <= j < c.len() && #[trigger] u[i] == c[j];
        assert(c[j] == r[k]);
    }
}

proof fn lemma_classified_tags_core(table: Seq<TagMetadata>, raw_tags: Seq<Seq<char>>, limit: nat)
    ensures
        ({
            let c = classify_spec(meta_views(table), normalized_all(raw_tags));
            let r = truncated(sort_desc(first_of_each_slug(c, c.len())), limit);
            &&& distinct_slugs(r)
            &&& crate::tag_service::relevance_desc(r)
            &&& r.len() <= limit
        }),
{
    let c = classify_spec(meta_views(table), normalized_all(raw_tags));
    let u = first_of_each_slug(c, c.len());
    lemma_first_of_each(c, c.len());
    lemma_sort_desc_distinct(u);
    crate::tag_service::lemma_sort_desc_law(u);
    let sd = sort_desc(u);
    let r = truncated(sd, limit);
    if sd.len() > limit {
        assert forall|a: int, b: int| 0 <= a < b < r.len() implies (#[trigger] r[a]).slug != (#[trigger] r[b]).slug by {
            assert(r[a] == sd[a] && r[b] == sd[b]);
        }
        assert forall|a: int, b: int| 0 <= a < b < r.len() implies (#[trigger] r[a]).relevance >= (#[trigger] r[b]).relevance by {
            assert(r[a] == sd[a] && r[b] == sd[b]);
        }
    }
}


/// The strings kept by `distinct_in_order` are those of the first `n` of `s`.
proof fn lemma_distinct_in_order_contains(s: Seq<Seq<char>>, n: nat, f: Seq<char>)
    requires
        n <= s.len(),
    ensures
        distinct_in_order(s, n).contains(f) <==> s.take(n as int).contains(f),
    decreases n,
{
    if n == 0 {
        assert(s.take(0) =~= Seq::<Seq<char>>::empty());
    } else {
        lemma_distinct_in_order_contains(s, (n - 1) as nat, f);
        let prev = distinct_in_order(s, (n - 1) as nat);
        let d = distinct_in_order(s, n);
        let sp = s.take(n - 1);
        let t = s.take(n as int);
        assert(t =~= sp.push(s[n - 1]));
        let repeated = exists|j: int| 0 <= j < n - 1 && #[trigger] s[j] == s[n - 1];
        if repeated {
            assert(d == prev);
        } else {
            assert(d == prev.push(s[n - 1]));
        }
        if t.contains(f) {
            let i = choose|i: int| 0 <= i < t.len() && #[trigger] t[i] == f;
            if i < n - 1 {
                assert(sp[i] == f);
                assert(sp.contains(f));
            } else if repeated {
                let j = choose|j: int| 0 <= j < n - 1 && #[trigger] s[j] == s[n - 1];
                assert(sp[j] == f);
                assert(sp.contains(f));
            }
            if sp.contains(f) {
                assert(prev.contains(f));
                let k = choose|k: int| 0 <= k < prev.len() && #[trigger] prev[k] == f;
                assert(d[k] == f);
            } else {
                assert(d[prev.len() as int] == f);
            }
            assert(d.contains(f));
        }
        if d.contains(f) {
            let i = choose|i: int| 0 <= i < d.len() && #[trigger] d[i] == f;
            if i < prev.len() {
                assert(prev[i] == f);
                assert(prev.contains(f));
                let k = choose|k: int| 0 <= k < sp.len() && #[trigger] sp[k] == f;
                assert(t[k] == f);
            } else {
                assert(t[n - 1] == f);
            }
            assert(t.contains(f));
        }
    }
}

/// The normalized slugs of `encountered` that the table does not know, each once, in
/// increasing order: the list a tag analysis report gives.
pub fn sorted_unknown_tags(table: &Vec<TagMetadata>, encountered: &Vec<String>) -> (r: Vec<String>)
    ensures
        strictly_sorted(string_views(r@)),
        forall|f: Seq<char>|
            string_views(r@).contains(f) <==> unknown_only(meta_views(table@), normalized_all(string_views(encountered@))).contains(f),
{
    let u = get_unknown_tags(table, encountered);
    let ghost all = unknown_only(meta_views(table@), normalized_all(string_views(encountered@)));
    let ghost uv = string_views(u@);
    proof {
        assert forall|f: Seq<char>| uv.contains(f) <==> all.contains(f) by {
            lemma_distinct_in_order_contains(all, all.len(), f);
            assert(all.take(all.len() as int) =~= all);
        }
    }
    let mut out: Vec<String> = Vec::new();
    let mut i: usize = 0;
    while i < u.len()
        invariant
            i <= u.len(),
            uv == string_views(u@),
            strictly_sorted(string_views(out@)),
            forall|f: Seq<char>| string_views(out@).contains(f) <==> uv.take(i as int).contains(f),
        decreases u.len() - i,
    {
        let ghost before = string_views(out@);
        let x = u[i].clone();
        assert(x@ == uv[i as int]);
        insert_sorted(&mut out, x);
        proof {
            assert(uv.take(i + 1) =~= uv.take(i as int).push(uv[i as int]));
            let a = uv.take(i as int);
            let b = uv.take(i + 1);
            assert forall|f: Seq<char>| string_views(out@).contains(f) <==> b.contains(f) by {
                assert(before.contains(f) <==> a.contains(f));
                if b.contains(f) {
                    let k = choose|k: int| 0 <= k < b.len() && #[trigger] b[k] == f;
                    if k < i {
                        assert(a[k] == f);
                        assert(a.contains(f));
                    } else {
                        assert(f == uv[i as int]);
                    }
                }
                if a.contains(f) {
                    let k = choose|k: int| 0 <= k < a.len() && #[trigger] a[k] == f;
                    assert(b[k] == f);
                }
                if f == uv[i as int] {
                    assert(b[i as int] == f);
                }
            }
        }
        i = i + 1;
    }
    assert(uv.take(u.len() as int) =~= uv);
    out
}


proof fn lemma_distinct_in_order_unique(s: Seq<Seq<char>>, n: nat)
    requires
        n <= s.len(),
    ensures
        forall|a: int, b: int| 0 <= a < b < distinct_in_order(s, n).len() ==> distinct_in_order(s, n)[a] != distinct_in_order(s, n)[b],
    decreases n,
{
    if n > 0 {
        lemma_distinct_in_order_unique(s, (n - 1) as nat);
        let prev = distinct_in_order(s, (n - 1) as nat);
        let d = distinct_in_order(s, n);
        if !(exists|j: int| 0 <= j < n - 1 && #[trigger] s[j] == s[n - 1]) {
            assert(d == prev.push(s[n - 1]));
            assert forall|a: int, b: int| 0 <= a < b < d.len() implies d[a] != d[b] by {
                if b == prev.len() && d[a] == d[b] {
                    assert(prev[a] == s[n - 1]);
                    assert(prev.contains(s[n - 1]));
                    lemma_distinct_in_order_contains(s, (n - 1) as nat, s[n - 1]);
                    let sp = s.take(n - 1);
                    let k = choose|k: int| 0 <= k < sp.len() && #[trigger] sp[k] == s[n - 1];
                    assert(s[k] == s[n - 1]);
                }
            }
        }
    }
}

proof fn lemma_unknown_only_contains(t: Seq<crate::tag_service::TagMetadataView>, s: Seq<Seq<char>>, x: Seq<char>)
    ensures
        unknown_only(t, s).contains(x) <==> (exists|j: int| 0 <= j < s.len() && #[trigger] s[j] == x) && lookup(t, x) is None,
    decreases s.len(),
{
    if s.len() > 0 {
        lemma_unknown_only_contains(t, s.drop_last(), x);
        let prev = unknown_only(t, s.drop_last());
        let u = unknown_only(t, s);
        let d = s.drop_last();
        if u.contains(x) {
            let i = choose|i: int| 0 <= i < u.len() && u[i] == x;
            if i < prev.len() {
                assert(prev[i] == x);
                assert(prev.contains(x));
                let j = choose|j: int| 0 <= j < d.len() && #[trigger] d[j] == x;
                assert(s[j] == x);
            } else {
                assert(s[s.len() - 1] == x);
            }
        }
        if (exists|j: int| 0 <= j < s.len() && #[trigger] s[j] == x) && lookup(t, x) is None {
            let j = choose|j: int| 0 <= j < s.len() && #[trigger] s[j] == x;
            if j < s.len() - 1 {
                assert(d[j] == x);
                assert(prev.contains(x));
                let i = choose|i: int| 0 <= i < prev.len() && prev[i] == x;
                assert(u[i] == x);
            } else {
                assert(u[prev.len() as int] == x);
            }
        }
    }
}

/// The unknown tags hold no slug twice, and hold exactly the normalized slugs of the raw
/// tags that the table does not know (hidden but known tags are not unknown).
pub proof fn lemma_unknown_tags_law(table: Seq<TagMetadata>, raw_tags: Seq<Seq<char>>)
    ensures
        ({
            let u = unknown_only(meta_views(table), normalized_all(raw_tags));
            let r = distinct_in_order(u, u.len());
            &&& forall|a: int, b: int| 0 <= a < b < r.len() ==> r[a] != r[b]
            &&& forall|x: Seq<char>| r.contains(x) <==> (exists|j: int| 0 <= j < raw_tags.len()
                && numeric_suffix_stripped(#[trigger] raw_tags[j]) == x) && lookup(meta_views(table), x) is None
        }),
{
    let t = meta_views(table);
    let ns = normalized_all(raw_tags);
    let u = unknown_only(t, ns);
    lemma_distinct_in_order_unique(u, u.len());
    assert forall|x: Seq<char>| distinct_in_order(u, u.len()).contains(x) <==> (exists|j: int| 0 <= j < raw_tags.len()
        && numeric_suffix_stripped(#[trigger] raw_tags[j]) == x) && lookup(t, x) is None by {
        lemma_distinct_in_order_contains(u, u.len(), x);
        assert(u.take(u.len() as int) =~= u);
        lemma_unknown_only_contains(t, ns, x);
        if exists|j: int| 0 <= j < ns.len() && #[trigger] ns[j] == x {
            let j = choose|j: int| 0 <= j < ns.len() && #[trigger] ns[j] == x;
            assert(numeric_suffix_stripped(raw_tags[j]) == x);
        }
        if exists|j: int| 0 <= j < raw_tags.len() && numeric_suffix_stripped(#[trigger] raw_tags[j]) == x {
            let j = choose|j: int| 0 <= j < raw_tags.len() && numeric_suffix_stripped(#[trigger] raw_tags[j]) == x;
            assert(ns[j] == x);
        }
    }
}

} // verus!
