//! Classifying the tags of a game against the tag metadata table: which tags are known,
//! which are shown, and in what order of relevance.
use vstd::prelude::*;
use crate::text::{copy_string, eq_str, string_views};

verus! {

/// The category a tag belongs to.
#[derive(PartialEq, Eq, Structural, Clone, Copy, Debug)]
pub enum TagCategory {
    Mode,
    Narrative,
    Theme,
    Technical,
    Gameplay,
    Meta,
}

impl TagCategory {
    /// The variant's name, as `{:?}` writes it.
    pub open spec fn name_spec(self) -> Seq<char> {
        match self {
            TagCategory::Mode => "Mode"@,
            TagCategory::Narrative => "Narrative"@,
            TagCategory::Theme => "Theme"@,
            TagCategory::Technical => "Technical"@,
            TagCategory::Gameplay => "Gameplay"@,
            TagCategory::Meta => "Meta"@,
        }
    }

    /// The variant's name, as `{:?}` writes it.
    pub fn name(&self) -> (r: String)
        ensures
            r@ == self.name_spec(),
    {
        match self {
            TagCategory::Mode => copy_string("Mode"),
            TagCategory::Narrative => copy_string("Narrative"),
            TagCategory::Theme => copy_string("Theme"),
            TagCategory::Technical => copy_string("Technical"),
            TagCategory::Gameplay => copy_string("Gameplay"),
            TagCategory::Meta => copy_string("Meta"),
        }
    }
}

/// One entry of the tag metadata table.
pub struct TagMetadata {
    pub slug: String,
    pub name: String,
    pub category: TagCategory,
    pub relevance: u8,
    pub visible: bool,
}

pub struct TagMetadataView {
    pub slug: Seq<char>,
    pub name: Seq<char>,
    pub category: TagCategory,
    pub relevance: u8,
    pub visible: bool,
}

impl View for TagMetadata {
    type V = TagMetadataView;

    open spec fn view(&self) -> TagMetadataView {
        TagMetadataView {
            slug: self.slug@,
            name: self.name@,
            category: self.category,
            relevance: self.relevance,
            visible: self.visible,
        }
    }
}

/// A classified tag of a game. Its relevance is the whole number of the metadata entry.
pub struct GameTag {
    pub slug: String,
    pub name: String,
    pub category: TagCategory,
    pub relevance: u8,
}

pub struct GameTagView {
    pub slug: Seq<char>,
    pub name: Seq<char>,
    pub category: TagCategory,
    pub relevance: u8,
}

impl View for GameTag {
    type V = GameTagView;

    open spec fn view(&self) -> GameTagView {
        GameTagView {
            slug: self.slug@,
            name: self.name@,
            category: self.category,
            relevance: self.relevance,
        }
    }
}

pub open spec fn meta_views(v: Seq<TagMetadata>) -> Seq<TagMetadataView> {
    v.map_values(|m: TagMetadata| m@)
}

pub open spec fn tag_views(v: Seq<GameTag>) -> Seq<GameTagView> {
    v.map_values(|t: GameTag| t@)
}

// ---------------------------------------------------------------------------
// Specifications
// ---------------------------------------------------------------------------

/// The entry of the table for `slug`: the last entry with that slug, as a map built
/// from the list in order keeps it.
pub open spec fn lookup(table: Seq<TagMetadataView>, slug: Seq<char>) -> Option<TagMetadataView>
    decreases table.len(),
{
    if table.len() == 0 {
        None
    } else if table.last().slug == slug {
        Some(table.last())
    } else {
        lookup(table.drop_last(), slug)
    }
}

/// The tag shown for a metadata entry.
pub open spec fn tag_of(m: TagMetadataView) -> GameTagView {
    GameTagView { slug: m.slug, name: m.name, category: m.category, relevance: m.relevance }
}

/// The visible tags among the slugs, in the order of the slugs.
pub open spec fn classify_spec(table: Seq<TagMetadataView>, slugs: Seq<Seq<char>>) -> Seq<GameTagView>
    decreases slugs.len(),
{
    if slugs.len() == 0 {
        Seq::empty()
    } else {
        let prev = classify_spec(table, slugs.drop_last());
        match lookup(table, slugs.last()) {
            Some(m) => if m.visible {
                prev.push(tag_of(m))
            } else {
                prev
            },
            None => prev,
        }
    }
}

/// `t` placed into `s` after every tag at least as relevant (one step of a stable
/// sort by decreasing relevance).
pub open spec fn insert_desc(s: Seq<GameTagView>, t: GameTagView) -> Seq<GameTagView>
    decreases s.len(),
{
    if s.len() == 0 {
        seq![t]
    } else if s.last().relevance >= t.relevance {
        s.push(t)
    } else {
        insert_desc(s.drop_last(), t).push(s.last())
    }
}

/// Stable sort by decreasing relevance: tags of equal relevance keep their order.
pub open spec fn sort_desc(s: Seq<GameTagView>) -> Seq<GameTagView>
    decreases s.len(),
{
    if s.len() == 0 {
        Seq::empty()
    } else {
        insert_desc(sort_desc(s.drop_last()), s.last())
    }
}

/// The first `n` elements (all of them when there are fewer).
pub open spec fn truncated<A>(s: Seq<A>, n: nat) -> Seq<A> {
    if s.len() <= n {
        s
    } else {
        s.take(n as int)
    }
}

/// Tags in order of decreasing relevance.
pub open spec fn relevance_desc(s: Seq<GameTagView>) -> bool {
    forall|i: int, j: int| 0 <= i < j < s.len() ==> (#[trigger] s[i]).relevance >= (#[trigger] s[j]).relevance
}

/// The slugs that the table does not know, in order.
pub open spec fn unknown_spec(table: Seq<TagMetadataView>, slugs: Seq<Seq<char>>) -> Seq<Seq<char>>
    decreases slugs.len(),
{
    if slugs.len() == 0 {
        Seq::empty()
    } else {
        let prev = unknown_spec(table, slugs.drop_last());
        if lookup(table, slugs.last()) is None {
            prev.push(slugs.last())
        } else {
            prev
        }
    }
}

// ---------------------------------------------------------------------------
// Lemmas
// ---------------------------------------------------------------------------

proof fn lemma_insert_desc_at(s: Seq<GameTagView>, t: GameTagView, p: int)
    requires
        0 <= p <= s.len(),
        p > 0 ==> s[p - 1].relevance >= t.relevance,
        forall|q: int| p <= q < s.len() ==> (#[trigger] s[q]).relevance < t.relevance,
    ensures
        insert_desc(s, t) == s.insert(p, t),
    decreases s.len(),
{
    if s.len() == 0 {
        assert(s.insert(p, t) =~= seq![t]);
    } else if s.last().relevance >= t.relevance {
        assert(p == s.len());
        assert(s.insert(p, t) =~= s.push(t));
    } else {
        let d = s.drop_last();
        assert forall|q: int| p <= q < d.len() implies (#[trigger] d[q]).relevance < t.relevance by {
            assert(d[q] == s[q]);
        }
        if p > 0 {
            assert(d[p - 1] == s[p - 1]);
        }
        lemma_insert_desc_at(d, t, p);
        assert(d.insert(p, t).push(s.last()) =~= s.insert(p, t));
    }
}

proof fn lemma_insert_desc_sorted(s: Seq<GameTagView>, t: GameTagView)
    requires
        relevance_desc(s),
    ensures
        relevance_desc(insert_desc(s, t)),
        insert_desc(s, t).to_multiset() == s.to_multiset().insert(t),
        insert_desc(s, t).len() == s.len() + 1,
    decreases s.len(),
{
    broadcast use vstd::seq_lib::group_to_multiset_ensures;
    if s.len() == 0 {
        assert(seq![t] =~= Seq::<GameTagView>::empty().push(t));
    } else if s.last().relevance >= t.relevance {
    } else {
        let d = s.drop_last();
        assert forall|i: int, j: int| 0 <= i < j < d.len() implies (#[trigger] d[i]).relevance >= (#[trigger] d[j]).relevance by {
            assert(d[i] == s[i] && d[j] == s[j]);
        }
        lemma_insert_desc_sorted(d, t);
        let r = insert_desc(d, t);
        assert(s =~= d.push(s.last()));
        assert forall|i: int| 0 <= i < r.len() implies (#[trigger] r[i]).relevance >= s.last().relevance by {
            assert(r.to_multiset().count(r[i]) > 0);
            assert(d.to_multiset().insert(t).count(r[i]) > 0);
            if r[i] != t {
                assert(d.to_multiset().count(r[i]) > 0);
                assert(d.contains(r[i]));
                let k = choose|k: int| 0 <= k < d.len() && d[k] == r[i];
                assert(s[k] == d[k]);
                assert(s[s.len() - 1] == s.last());
            }
        }
    }
}

proof fn lemma_sort_desc(s: Seq<GameTagView>)
    ensures
        relevance_desc(sort_desc(s)),
        sort_desc(s).to_multiset() == s.to_multiset(),
        sort_desc(s).len() == s.len(),
    decreases s.len(),
{
    broadcast use vstd::seq_lib::group_to_multiset_ensures;
    if s.len() > 0 {
        lemma_sort_desc(s.drop_last());
        lemma_insert_desc_sorted(sort_desc(s.drop_last()), s.last());
        assert(s =~= s.drop_last().push(s.last()));
    }
}

/// Sorting by relevance orders the tags from the most to the least relevant and keeps
/// every tag, each as often as it came.
pub proof fn lemma_sort_desc_law(s: Seq<GameTagView>)
    ensures
        relevance_desc(sort_desc(s)),
        sort_desc(s).to_multiset() == s.to_multiset(),
{
    lemma_sort_desc(s);
}

// ---------------------------------------------------------------------------
// Executable code
// ---------------------------------------------------------------------------

/// The entry of `table` for `slug` (the last one with that slug).
pub fn find_metadata(table: &Vec<TagMetadata>, slug: &str) -> (r: Option<usize>)
    ensures
        match r {
            Some(i) => i < table.len() && lookup(meta_views(table@), slug@) == Some(table@[i as int]@),
            None => lookup(meta_views(table@), slug@) is None,
        },
{
    let ghost tv = meta_views(table@);
    let mut i: usize = table.len();
    assert(tv.take(i as int) =~= tv);
    while i > 0
        invariant
            i <= table.len(),
            tv == meta_views(table@),
            lookup(tv, slug@) == lookup(tv.take(i as int), slug@),
        decreases i,
    {
        assert(tv.take(i as int).drop_last() =~= tv.take(i - 1));
        assert(tv.take(i as int).last() == table@[i - 1]@);
        if eq_str(table[i - 1].slug.as_str(), slug) {
            return Some(i - 1);
        }
        i = i - 1;
    }
    None
}

fn tag_from(m: &TagMetadata) -> (t: GameTag)
    ensures
        t@ == tag_of(m@),
{
    GameTag { slug: m.slug.clone(), name: m.name.clone(), category: m.category, relevance: m.relevance }
}

/// The visible tags of the table among `raw_tags`, in the order of `raw_tags`. Slugs the
/// table does not know and hidden tags are left out.
pub fn classify_tags(table: &Vec<TagMetadata>, raw_tags: Vec<String>) -> (r: Vec<GameTag>)
    ensures
        tag_views(r@) == classify_spec(meta_views(table@), string_views(raw_tags@)),
{
    let ghost sv = string_views(raw_tags@);
    let mut out: Vec<GameTag> = Vec::new();
    let mut i: usize = 0;
    assert(sv.take(0) =~= Seq::<Seq<char>>::empty());
    while i < raw_tags.len()
        invariant
            i <= raw_tags.len(),
            sv == string_views(raw_tags@),
            tag_views(out@) == classify_spec(meta_views(table@), sv.take(i as int)),
        decreases raw_tags.len() - i,
    {
        assert(sv.take(i + 1).drop_last() =~= sv.take(i as int));
        assert(sv.take(i + 1).last() == raw_tags@[i as int]@);
        match find_metadata(table, raw_tags[i].as_str()) {
            Some(k) => {
                if table[k].visible {
                    let ghost before = tag_views(out@);
                    out.push(tag_from(&table[k]));
                    assert(tag_views(out@) =~= before.push(tag_of(table@[k as int]@)));
                }
            },
            None => {},
        }
        i = i + 1;
    }
    assert(sv.take(raw_tags.len() as int) =~= sv);
    out
}

/// Stable sort of tags by decreasing relevance.
pub fn sort_by_relevance(tags: Vec<GameTag>) -> (r: Vec<GameTag>)
    ensures
        tag_views(r@) == sort_desc(tag_views(tags@)),
{
    let ghost tv = tag_views(tags@);
    let mut out: Vec<GameTag> = Vec::new();
    let mut tags = tags;
    let mut i: usize = 0;
    assert(tv.take(0) =~= Seq::<GameTagView>::empty());
    while i < tags.len()
        invariant
            i <= tags.len(),
            tv == tag_views(tags@),
            tag_views(out@) == sort_desc(tv.take(i as int)),
        decreases tags.len() - i,
    {
        assert(tv.take(i + 1).drop_last() =~= tv.take(i as int));
        assert(tv.take(i + 1).last() == tags@[i as int]@);
        let rel = tags[i].relevance;
        let mut p = out.len();
        while p > 0 && out[p - 1].relevance < rel
            invariant
                p <= out.len(),
                forall|q: int| p <= q < out.len() ==> (#[trigger] out@[q]).relevance < rel,
            decreases p,
        {
            p = p - 1;
        }
        let ghost before = tag_views(out@);
        proof {
            assert forall|q: int| p <= q < before.len() implies (#[trigger] before[q]).relevance < tv[i as int].relevance by {
                assert(before[q] == out@[q]@);
            }
            if p > 0 {
                assert(before[p - 1] == out@[p - 1]@);
            }
            lemma_insert_desc_at(before, tv[i as int], p as int);
        }
        let t = tag_from_tag(&tags[i]);
        out.insert(p, t);
        assert(tag_views(out@) =~= before.insert(p as int, tv[i as int]));
        i = i + 1;
    }
    assert(tv.take(tags.len() as int) =~= tv);
    out
}

fn tag_from_tag(t: &GameTag) -> (r: GameTag)
    ensures
        r@ == t@,
{
    GameTag { slug: t.slug.clone(), name: t.name.clone(), category: t.category, relevance: t.relevance }
}

/// The first `limit` tags.
pub fn truncate_tags(tags: Vec<GameTag>, limit: usize) -> (r: Vec<GameTag>)
    ensures
        tag_views(r@) == truncated(tag_views(tags@), limit as nat),
{
    let mut tags = tags;
    let ghost before = tag_views(tags@);
    tags.truncate(limit);
    assert(tag_views(tags@) =~= truncated(before, limit as nat));
    tags
}

/// The visible tags among `raw_tags`, most relevant first (tags of equal relevance in
/// their order), at most `limit` of them.
pub fn classify_and_sort_tags(table: &Vec<TagMetadata>, raw_tags: Vec<String>, limit: usize) -> (r: Vec<GameTag>)
    ensures
        tag_views(r@) == truncated(sort_desc(classify_spec(meta_views(table@), string_views(raw_tags@))), limit as nat),
{
    let classified = classify_tags(table, raw_tags);
    let sorted = sort_by_relevance(classified);
    truncate_tags(sorted, limit)
}

/// The slugs of `raw_tags` that the table does not know, in order.
pub fn get_unknown_tags(table: &Vec<TagMetadata>, raw_tags: &Vec<String>) -> (r: Vec<String>)
    ensures
        string_views(r@) == unknown_spec(meta_views(table@), string_views(raw_tags@)),
{
    let ghost sv = string_views(raw_tags@);
    let mut out: Vec<String> = Vec::new();
    let mut i: usize = 0;
    assert(sv.take(0) =~= Seq::<Seq<char>>::empty());
    while i < raw_tags.len()
        invariant
            i <= raw_tags.len(),
            sv == string_views(raw_tags@),
            string_views(out@) == unknown_spec(meta_views(table@), sv.take(i as int)),
        decreases raw_tags.len() - i,
    {
        assert(sv.take(i + 1).drop_last() =~= sv.take(i as int));
        assert(sv.take(i + 1).last() == raw_tags@[i as int]@);
        if find_metadata(table, raw_tags[i].as_str()).is_none() {
            let ghost before = string_views(out@);
            out.push(raw_tags[i].clone());
            assert(string_views(out@) =~= before.push(raw_tags@[i as int]@));
        }
        i = i + 1;
    }
    assert(sv.take(raw_tags.len() as int) =~= sv);
    out
}

/// Where the tag metadata table is read from.
pub fn get_tag_metadata_path() -> (r: String)
    ensures
        r@ == "data/tag_metadata.json"@,
{
    copy_string("data/tag_metadata.json")
}


// ---------------------------------------------------------------------------
// Statistics
// ---------------------------------------------------------------------------

/// The number of tags of one category.
pub struct CategoryCount {
    pub category: String,
    pub count: usize,
}

/// Counts over the table: distinct slugs, how many are shown and hidden, and how many
/// fall in each category (categories with no tag are not listed).
pub struct TagStats {
    pub total: usize,
    pub visible: usize,
    pub hidden: usize,
    pub by_category: Vec<CategoryCount>,
}

/// Entry `i` is the one the table keeps for its slug: no later entry has that slug.
pub open spec fn kept_entry(t: Seq<TagMetadataView>, i: int) -> bool {
    forall|j: int| i < j < t.len() ==> (#[trigger] t[j]).slug != t[i].slug
}

/// An entry is counted: of category `cat` when one is given, and visible when `vis`.
pub open spec fn counted(m: TagMetadataView, cat: Option<TagCategory>, vis: bool) -> bool {
    (cat is None || m.category == cat->0) && (!vis || m.visible)
}

/// The kept entries among the first `n` that are counted.
pub open spec fn stats_count(t: Seq<TagMetadataView>, n: nat, cat: Option<TagCategory>, vis: bool) -> nat
    decreases n,
{
    if n == 0 || n > t.len() {
        0
    } else {
        stats_count(t, (n - 1) as nat, cat, vis) + if kept_entry(t, n - 1) && counted(t[n - 1], cat, vis) {
            1nat
        } else {
            0nat
        }
    }
}

/// The categories in the order the statistics list them.
pub open spec fn category_order() -> Seq<TagCategory> {
    seq![
        TagCategory::Mode,
        TagCategory::Narrative,
        TagCategory::Theme,
        TagCategory::Technical,
        TagCategory::Gameplay,
        TagCategory::Meta,
    ]
}

/// Name and count of each of the first `k` categories that has a tag.
pub open spec fn by_category_spec(t: Seq<TagMetadataView>, k: nat) -> Seq<(Seq<char>, nat)>
    decreases k,
{
    if k == 0 || k > 6 {
        Seq::empty()
    } else {
        let prev = by_category_spec(t, (k - 1) as nat);
        let c = category_order()[k - 1];
        let n = stats_count(t, t.len(), Some(c), false);
        if n > 0 {
            prev.push((c.name_spec(), n))
        } else {
            prev
        }
    }
}

/// The kept entries of each of the six categories, added up.
pub open spec fn six_sum(t: Seq<TagMetadataView>, n: nat) -> nat {
    stats_count(t, n, Some(TagCategory::Mode), false) + stats_count(t, n, Some(TagCategory::Narrative), false)
        + stats_count(t, n, Some(TagCategory::Theme), false) + stats_count(t, n, Some(TagCategory::Technical), false)
        + stats_count(t, n, Some(TagCategory::Gameplay), false) + stats_count(t, n, Some(TagCategory::Meta), false)
}

/// The counts of a list of `(name, count)` pairs, added up.
pub open spec fn counts_sum(v: Seq<(Seq<char>, nat)>) -> nat
    decreases v.len(),
{
    if v.len() == 0 {
        0
    } else {
        counts_sum(v.drop_last()) + v.last().1
    }
}

/// The kept entries of the first `k` categories, added up.
pub open spec fn category_total(t: Seq<TagMetadataView>, k: nat) -> nat
    decreases k,
{
    if k == 0 || k > 6 {
        0
    } else {
        category_total(t, (k - 1) as nat) + stats_count(t, t.len(), Some(category_order()[k - 1]), false)
    }
}

proof fn lemma_six_sum(t: Seq<TagMetadataView>, n: nat)
    ensures
        stats_count(t, n, None, false) == six_sum(t, n),
    decreases n,
{
    if n > 0 && n <= t.len() {
        lemma_six_sum(t, (n - 1) as nat);
    }
}

proof fn lemma_by_category_sum(t: Seq<TagMetadataView>, k: nat)
    requires
        k <= 6,
    ensures
        counts_sum(by_category_spec(t, k)) == category_total(t, k),
        forall|i: int| 0 <= i < by_category_spec(t, k).len() ==> (#[trigger] by_category_spec(t, k)[i]).1 >= 1,
    decreases k,
{
    if k > 0 {
        lemma_by_category_sum(t, (k - 1) as nat);
        let prev = by_category_spec(t, (k - 1) as nat);
        let c = category_order()[k - 1];
        let n = stats_count(t, t.len(), Some(c), false);
        if n > 0 {
            let v = prev.push((c.name_spec(), n));
            assert(v.drop_last() =~= prev);
            assert forall|i: int| 0 <= i < v.len() implies (#[trigger] v[i]).1 >= 1 by {
                if i < prev.len() {
                    assert(v[i] == prev[i]);
                }
            }
        }
    }
}

/// Tag statistics add up: the per-category counts sum to the total, each listed category
/// has at least one tag, the visible tags are at most the total, and the hidden ones are
/// the rest. The total counts one entry per slug (the last entry of each slug).
pub proof fn lemma_tag_stats_law(t: Seq<TagMetadataView>)
    ensures
        counts_sum(by_category_spec(t, 6)) == stats_count(t, t.len(), None, false),
        forall|i: int| 0 <= i < by_category_spec(t, 6).len() ==> (#[trigger] by_category_spec(t, 6)[i]).1 >= 1,
        stats_count(t, t.len(), None, true) <= stats_count(t, t.len(), None, false),
{
    lemma_by_category_sum(t, 6);
    lemma_six_sum(t, t.len());
    reveal_with_fuel(category_total, 7);
    lemma_stats_count_le(t, t.len(), None, true);
}

pub open spec fn count_views(v: Seq<CategoryCount>) -> Seq<(Seq<char>, nat)> {
    v.map_values(|c: CategoryCount| (c.category@, c.count as nat))
}

proof fn lemma_stats_count_le(t: Seq<TagMetadataView>, n: nat, cat: Option<TagCategory>, vis: bool)
    ensures
        stats_count(t, n, cat, vis) <= n,
        stats_count(t, n, Some(TagCategory::Mode), vis) <= stats_count(t, n, None, vis),
        stats_count(t, n, cat, true) <= stats_count(t, n, cat, false),
    decreases n,
{
    if n > 0 && n <= t.len() {
        lemma_stats_count_le(t, (n - 1) as nat, cat, vis);
    }
}

/// Which entries of the table are the ones kept for their slug.
fn kept_entries(table: &Vec<TagMetadata>) -> (r: Vec<bool>)
    ensures
        r.len() == table.len(),
        forall|i: int| 0 <= i < table.len() ==> #[trigger] r@[i] == kept_entry(meta_views(table@), i),
{
    let ghost tv = meta_views(table@);
    let mut r: Vec<bool> = Vec::new();
    let mut i: usize = 0;
    while i < table.len()
        invariant
            i <= table.len(),
            tv == meta_views(table@),
            r.len() == i,
            forall|k: int| 0 <= k < i ==> #[trigger] r@[k] == kept_entry(tv, k),
        decreases table.len() - i,
    {
        let mut kept = true;
        let mut j: usize = i + 1;
        while j < table.len()
            invariant
                i < j <= table.len(),
                tv == meta_views(table@),
                kept == forall|q: int| i < q < j ==> (#[trigger] tv[q]).slug != tv[i as int].slug,
            decreases table.len() - j,
        {
            if eq_str(table[j].slug.as_str(), table[i].slug.as_str()) {
                assert(tv[j as int].slug == tv[i as int].slug);
                kept = false;
            }
            j = j + 1;
        }
        r.push(kept);
        i = i + 1;
    }
    r
}

/// The number of kept entries that are counted.
fn count_kept(table: &Vec<TagMetadata>, kept: &Vec<bool>, cat: Option<TagCategory>, vis: bool) -> (r: usize)
    requires
        kept.len() == table.len(),
        forall|i: int| 0 <= i < table.len() ==> #[trigger] kept@[i] == kept_entry(meta_views(table@), i),
    ensures
        r == stats_count(meta_views(table@), table.len() as nat, cat, vis),
{
    let ghost tv = meta_views(table@);
    let mut n: usize = 0;
    let mut i: usize = 0;
    while i < table.len()
        invariant
            i <= table.len() == kept.len(),
            tv == meta_views(table@),
            forall|k: int| 0 <= k < table.len() ==> #[trigger] kept@[k] == kept_entry(tv, k),
            n == stats_count(tv, i as nat, cat, vis),
        decreases table.len() - i,
    {
        proof {
            lemma_stats_count_le(tv, i as nat, cat, vis);
        }
        let m = &table[i];
        let in_cat = match cat {
            Some(c) => m.category == c,
            None => true,
        };
        if kept[i] && in_cat && (!vis || m.visible) {
            n = n + 1;
        }
        i = i + 1;
    }
    n
}

/// Counts of the table: distinct slugs, visible and hidden ones, and per category.
pub fn get_tag_stats(table: &Vec<TagMetadata>) -> (r: TagStats)
    ensures
        r.total == stats_count(meta_views(table@), table.len() as nat, None, false),
        r.visible == stats_count(meta_views(table@), table.len() as nat, None, true),
        r.hidden == r.total - r.visible,
        count_views(r.by_category@) == by_category_spec(meta_views(table@), 6),
{
    let ghost tv = meta_views(table@);
    let kept = kept_entries(table);
    let total = count_kept(table, &kept, None, false);
    let visible = count_kept(table, &kept, None, true);
    proof {
        lemma_stats_count_le(tv, table.len() as nat, None, false);
    }
    let cats = vec![
        TagCategory::Mode,
        TagCategory::Narrative,
        TagCategory::Theme,
        TagCategory::Technical,
        TagCategory::Gameplay,
        TagCategory::Meta,
    ];
    assert(cats@ =~= category_order());
    let mut by_category: Vec<CategoryCount> = Vec::new();
    let mut k: usize = 0;
    while k < cats.len()
        invariant
            k <= cats.len() == 6,
            cats@ == category_order(),
            tv == meta_views(table@),
            kept.len() == table.len(),
            forall|i: int| 0 <= i < table.len() ==> #[trigger] kept@[i] == kept_entry(tv, i),
            count_views(by_category@) == by_category_spec(tv, k as nat),
        decreases cats.len() - k,
    {
        let c = cats[k];
        let n = count_kept(table, &kept, Some(c), false);
        if n > 0 {
            let ghost before = count_views(by_category@);
            by_category.push(CategoryCount { category: c.name(), count: n });
            assert(count_views(by_category@) =~= before.push((c.name_spec(), n as nat)));
        }
        k = k + 1;
    }
    TagStats { total, visible, hidden: total - visible, by_category }
}

} // verus!
