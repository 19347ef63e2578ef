//! Merging the Steam games that several sources found: one record per platform and id,
//! the most confident source first, and the result ordered by title.
use vstd::prelude::*;
use vstd::utf8::encode_utf8;
use crate::steam_library::{
    clone_opt, dedup_by_id, demo_filter, filter_duplicate_demos, first_of_each_id, game_views,
    GameData, GameDataView,
};
use crate::text::string_views;
use crate::text::{
    chars_of, eq_str, lemma_seq_le_total, lemma_seq_le_trans, le_vec, lowercase_of, occurs_at_vec,
    seq_le, to_lowercase, views_of,
};

verus! {

broadcast use vstd::seq_lib::group_to_multiset_ensures;

// ---------------------------------------------------------------------------
// Specifications
// ---------------------------------------------------------------------------

/// The key games are merged by: platform, `::`, platform id.
pub open spec fn game_key(g: GameDataView) -> Seq<char> {
    g.platform + "::"@ + g.platform_game_id
}

/// Rank of an import confidence: `High` 3, `Medium` 2, `Low` 1, anything else 0.
pub open spec fn conf_score(c: Seq<char>) -> int {
    if c == "High"@ {
        3
    } else if c == "Medium"@ {
        2
    } else if c == "Low"@ {
        1
    } else {
        0
    }
}

/// `str::len` of a title: its length in UTF-8 bytes.
pub open spec fn byte_len(s: Seq<char>) -> usize {
    encode_utf8(s).len() as usize
}

/// `primary` completed by `secondary`: the longer title (the primary's on a tie), the
/// primary's platform, id and confidence, the first install path present, installed if
/// either is, and the larger play time and last-played time.
pub open spec fn enrich_spec(p: GameDataView, s: GameDataView) -> GameDataView {
    GameDataView {
        name: if byte_len(p.name) >= byte_len(s.name) {
            p.name
        } else {
            s.name
        },
        platform: p.platform,
        platform_game_id: p.platform_game_id,
        install_path: if p.install_path is Some {
            p.install_path
        } else {
            s.install_path
        },
        installed: p.installed || s.installed,
        import_confidence: p.import_confidence,
        playtime_forever: if p.playtime_forever >= s.playtime_forever {
            p.playtime_forever
        } else {
            s.playtime_forever
        },
        rtime_last_played: if p.rtime_last_played >= s.rtime_last_played {
            p.rtime_last_played
        } else {
            s.rtime_last_played
        },
    }
}

/// The games of `s` whose confidence ranks `c`, in order.
pub open spec fn with_score(s: Seq<GameDataView>, c: int) -> Seq<GameDataView>
    decreases s.len(),
{
    if s.len() == 0 {
        Seq::empty()
    } else {
        let p = with_score(s.drop_last(), c);
        if conf_score(s.last().import_confidence) == c {
            p.push(s.last())
        } else {
            p
        }
    }
}

/// `s` ordered from the most to the least confident source, keeping the order of
/// games with the same confidence.
pub open spec fn by_confidence(s: Seq<GameDataView>) -> Seq<GameDataView> {
    with_score(s, 3) + with_score(s, 2) + with_score(s, 1) + with_score(s, 0)
}

/// Left fold of `enrich_spec` over a non-empty sequence.
pub open spec fn fold_enrich(s: Seq<GameDataView>) -> GameDataView
    decreases s.len(),
{
    if s.len() <= 1 {
        s[0]
    } else {
        enrich_spec(fold_enrich(s.drop_last()), s.last())
    }
}

/// One record made of several records of the same game.
pub open spec fn merge_multiple_spec(s: Seq<GameDataView>) -> GameDataView {
    fold_enrich(by_confidence(s))
}

/// The distinct keys of `s` in order of first appearance.
pub open spec fn key_list(s: Seq<GameDataView>) -> Seq<Seq<char>>
    decreases s.len(),
{
    if s.len() == 0 {
        Seq::empty()
    } else {
        let p = key_list(s.drop_last());
        if p.contains(game_key(s.last())) {
            p
        } else {
            p.push(game_key(s.last()))
        }
    }
}

/// The games of `s` with key `k`, in order.
pub open spec fn group_of(s: Seq<GameDataView>, k: Seq<char>) -> Seq<GameDataView>
    decreases s.len(),
{
    if s.len() == 0 {
        Seq::empty()
    } else {
        let p = group_of(s.drop_last(), k);
        if game_key(s.last()) == k {
            p.push(s.last())
        } else {
            p
        }
    }
}

/// One merged record per key, in order of first appearance.
pub open spec fn merged_groups(s: Seq<GameDataView>) -> Seq<GameDataView> {
    key_list(s).map_values(|k: Seq<char>| merge_multiple_spec(group_of(s, k)))
}

/// The games of all sources, one source after another.
pub open spec fn flatten_games(srcs: Seq<Vec<GameData>>) -> Seq<GameDataView>
    decreases srcs.len(),
{
    if srcs.len() == 0 {
        Seq::empty()
    } else {
        flatten_games(srcs.drop_last()) + game_views(srcs.last()@)
    }
}

/// Titles in order of their lower-cased forms.
pub open spec fn sorted_by_title(s: Seq<GameDataView>) -> bool {
    forall|i: int, j: int|
        0 <= i < j < s.len() ==> seq_le(lowercase_of(#[trigger] s[i].name), lowercase_of(#[trigger] s[j].name))
}

// ---------------------------------------------------------------------------
// Lemmas
// ---------------------------------------------------------------------------

proof fn lemma_with_score_len(s: Seq<GameDataView>)
    ensures
        with_score(s, 3).len() + with_score(s, 2).len() + with_score(s, 1).len() + with_score(
            s,
            0,
        ).len() == s.len(),
    decreases s.len(),
{
    if s.len() > 0 {
        lemma_with_score_len(s.drop_last());
    }
}

proof fn lemma_key_list_group(s: Seq<GameDataView>, k: Seq<char>)
    ensures
        key_list(s).contains(k) ==> group_of(s, k).len() > 0,
    decreases s.len(),
{
    if s.len() > 0 {
        lemma_key_list_group(s.drop_last(), k);
    }
}

// ---------------------------------------------------------------------------
// Executable code
// ---------------------------------------------------------------------------

/// Rank of an import confidence (`High` 3, `Medium` 2, `Low` 1, otherwise 0).
pub fn confidence_score(conf: &str) -> (r: i32)
    ensures
        r == conf_score(conf@),
{
    if eq_str(conf, "High") {
        3
    } else if eq_str(conf, "Medium") {
        2
    } else if eq_str(conf, "Low") {
        1
    } else {
        0
    }
}

/// `primary` completed with what `secondary` adds.
pub fn enrich(primary: &GameData, secondary: &GameData) -> (r: GameData)
    ensures
        r@ == enrich_spec(primary@, secondary@),
{
    GameData {
        name: if primary.name.as_str().len() >= secondary.name.as_str().len() {
            primary.name.clone()
        } else {
            secondary.name.clone()
        },
        platform: primary.platform.clone(),
        platform_game_id: primary.platform_game_id.clone(),
        install_path: if primary.install_path.is_some() {
            clone_opt(&primary.install_path)
        } else {
            clone_opt(&secondary.install_path)
        },
        installed: primary.installed || secondary.installed,
        import_confidence: primary.import_confidence.clone(),
        playtime_forever: if primary.playtime_forever >= secondary.playtime_forever {
            primary.playtime_forever
        } else {
            secondary.playtime_forever
        },
        rtime_last_played: if primary.rtime_last_played >= secondary.rtime_last_played {
            primary.rtime_last_played
        } else {
            secondary.rtime_last_played
        },
    }
}

/// The games of `games` whose confidence ranks `c`, in order.
fn games_with_score(games: &Vec<GameData>, c: i32) -> (r: Vec<GameData>)
    ensures
        game_views(r@) == with_score(game_views(games@), c as int),
{
    let ghost gv = game_views(games@);
    let mut out: Vec<GameData> = Vec::new();
    let mut i: usize = 0;
    assert(gv.take(0) =~= Seq::<GameDataView>::empty());
    while i < games.len()
        invariant
            i <= games.len(),
            gv == game_views(games@),
            game_views(out@) == with_score(gv.take(i as int), c as int),
        decreases games.len() - i,
    {
        assert(gv.take(i + 1).drop_last() =~= gv.take(i as int));
        let s = confidence_score(games[i].import_confidence.as_str());
        if s == c {
            out.push(games[i].duplicate());
            assert(game_views(out@) =~= with_score(gv.take(i as int), c as int).push(gv[i as int]));
        }
        i = i + 1;
    }
    assert(gv.take(games.len() as int) =~= gv);
    out
}

/// Several records of one game merged into one: ordered from the most to the least
/// confident source, then each completed by the next.
pub fn merge_multiple(games: Vec<GameData>) -> (r: GameData)
    requires
        games.len() > 0,
    ensures
        r@ == merge_multiple_spec(game_views(games@)),
{
    let ghost gv = game_views(games@);
    let mut ordered = games_with_score(&games, 3);
    let mut next = games_with_score(&games, 2);
    ordered.append(&mut next);
    let mut next = games_with_score(&games, 1);
    ordered.append(&mut next);
    let mut next = games_with_score(&games, 0);
    ordered.append(&mut next);
    let ghost ov = game_views(ordered@);
    proof {
        lemma_with_score_len(gv);
        assert(ov =~= by_confidence(gv));
    }
    let mut acc = ordered[0].duplicate();
    let mut i: usize = 1;
    assert(ov.take(1).drop_last().len() == 0);
    while i < ordered.len()
        invariant
            1 <= i <= ordered.len(),
            ov == game_views(ordered@),
            acc@ == fold_enrich(ov.take(i as int)),
        decreases ordered.len() - i,
    {
        assert(ov.take(i + 1).drop_last() =~= ov.take(i as int));
        acc = enrich(&acc, &ordered[i]);
        i = i + 1;
    }
    assert(ov.take(ordered.len() as int) =~= ov);
    acc
}


/// Character sequences in lexicographic order.
pub open spec fn sorted_keys(s: Seq<Seq<char>>) -> bool {
    forall|i: int, j: int| 0 <= i < j < s.len() ==> seq_le(#[trigger] s[i], #[trigger] s[j])
}

proof fn lemma_insert_sorted(old: Seq<Seq<char>>, p: int, k: Seq<char>)
    requires
        sorted_keys(old),
        0 <= p <= old.len(),
        p > 0 ==> seq_le(old[p - 1], k),
        forall|q: int| p <= q < old.len() ==> !seq_le(#[trigger] old[q], k),
    ensures
        sorted_keys(old.insert(p, k)),
{
    let n = old.insert(p, k);
    assert forall|a: int, b: int| 0 <= a < b < n.len() implies seq_le(#[trigger] n[a], #[trigger] n[b]) by {
        if b < p {
        } else if b == p {
            if a < p - 1 {
                lemma_seq_le_trans(old[a], old[p - 1], k);
            }
        } else if a < p {
            assert(n[b] == old[b - 1]);
        } else if a == p {
            lemma_seq_le_total(old[b - 1], k);
        } else {
            assert(n[a] == old[a - 1] && n[b] == old[b - 1]);
        }
    }
}

/// The merge key of a game as characters.
fn game_key_vec(g: &GameData) -> (v: Vec<char>)
    ensures
        v@ == game_key(g@),
{
    let mut v = chars_of(g.platform.as_str());
    let mut sep = chars_of("::");
    let mut id = chars_of(g.platform_game_id.as_str());
    v.append(&mut sep);
    v.append(&mut id);
    v
}

/// Whether `list` holds a sequence equal to `v`.
fn contains_chars(list: &Vec<Vec<char>>, v: &Vec<char>) -> (b: bool)
    ensures
        b == views_of(list@).contains(v@),
{
    let mut i: usize = 0;
    while i < list.len()
        invariant
            i <= list.len(),
            forall|j: int| 0 <= j < i ==> list@[j]@ != v@,
        decreases list.len() - i,
    {
        if list[i].len() == v.len() && occurs_at_vec(&list[i], v, 0) {
            proof {
                assert(list@[i as int]@.subrange(0, v@.len() as int) =~= list@[i as int]@);
                assert(views_of(list@)[i as int] == v@);
            }
            return true;
        }
        proof {
            if list@[i as int]@ == v@ {
                assert(list@[i as int]@.subrange(0, v@.len() as int) =~= list@[i as int]@);
            }
        }
        i = i + 1;
    }
    proof {
        if views_of(list@).contains(v@) {
            let j = choose|j: int| 0 <= j < views_of(list@).len() && views_of(list@)[j] == v@;
            assert(list@[j]@ == v@);
        }
    }
    false
}

/// The games of `flat` whose key is `key`, in order.
fn games_with_key(flat: &Vec<GameData>, key: &Vec<char>) -> (r: Vec<GameData>)
    ensures
        game_views(r@) == group_of(game_views(flat@), key@),
{
    let ghost fv = game_views(flat@);
    let mut out: Vec<GameData> = Vec::new();
    let mut i: usize = 0;
    assert(fv.take(0) =~= Seq::<GameDataView>::empty());
    while i < flat.len()
        invariant
            i <= flat.len(),
            fv == game_views(flat@),
            game_views(out@) == group_of(fv.take(i as int), key@),
        decreases flat.len() - i,
    {
        assert(fv.take(i + 1).drop_last() =~= fv.take(i as int));
        let k = game_key_vec(&flat[i]);
        let same = k.len() == key.len() && occurs_at_vec(&k, key, 0);
        proof {
            assert(k@.subrange(0, k@.len() as int) =~= k@);
        }
        if same {
            out.push(flat[i].duplicate());
            assert(game_views(out@) =~= group_of(fv.take(i as int), key@).push(fv[i as int]));
        }
        i = i + 1;
    }
    assert(fv.take(flat.len() as int) =~= fv);
    out
}

/// `t` placed into `s` after every record whose lower-cased title is not after its own.
pub open spec fn insert_by_title(s: Seq<GameDataView>, t: GameDataView) -> Seq<GameDataView>
    decreases s.len(),
{
    if s.len() == 0 {
        seq![t]
    } else if seq_le(lowercase_of(s.last().name), lowercase_of(t.name)) {
        s.push(t)
    } else {
        insert_by_title(s.drop_last(), t).push(s.last())
    }
}

/// Stable sort by lower-cased title: records with the same lower-cased title keep their
/// order.
pub open spec fn sort_by_title(s: Seq<GameDataView>) -> Seq<GameDataView>
    decreases s.len(),
{
    if s.len() == 0 {
        Seq::empty()
    } else {
        insert_by_title(sort_by_title(s.drop_last()), s.last())
    }
}

proof fn lemma_insert_by_title_at(s: Seq<GameDataView>, t: GameDataView, p: int)
    requires
        0 <= p <= s.len(),
        forall|q: int| p <= q < s.len() ==> !seq_le(lowercase_of((#[trigger] s[q]).name), lowercase_of(t.name)),
        p == 0 || seq_le(lowercase_of(s[p - 1].name), lowercase_of(t.name)),
    ensures
        insert_by_title(s, t) == s.insert(p, t),
    decreases s.len(),
{
    if s.len() == 0 {
        assert(s.insert(p, t) =~= seq![t]);
    } else if seq_le(lowercase_of(s.last().name), lowercase_of(t.name)) {
        assert(p == s.len());
        assert(s.insert(p, t) =~= s.push(t));
    } else {
        lemma_insert_by_title_at(s.drop_last(), t, p);
        assert(s.insert(p, t) =~= s.drop_last().insert(p, t).push(s.last()));
    }
}

/// Merges the games of several sources: one record per platform and id (the records of
/// one game merged by `merge_multiple`), ordered by lower-cased title. Records with the
/// same lower-cased title keep the order in which their keys first appear.
pub fn merge_games(sources: Vec<Vec<GameData>>) -> (r: Vec<GameData>)
    ensures
        game_views(r@) == sort_by_title(merged_groups(flatten_games(sources@))),
        sorted_by_title(game_views(r@)),
        game_views(r@).to_multiset() == merged_groups(flatten_games(sources@)).to_multiset(),
{
    // All games, one source after another.
    let mut flat: Vec<GameData> = Vec::new();
    let mut s: usize = 0;
    assert(sources@.take(0) =~= Seq::<Vec<GameData>>::empty());
    while s < sources.len()
        invariant
            s <= sources.len(),
            game_views(flat@) == flatten_games(sources@.take(s as int)),
        decreases sources.len() - s,
    {
        let src = &sources[s];
        let ghost base = game_views(flat@);
        let mut j: usize = 0;
        while j < src.len()
            invariant
                j <= src.len(),
                game_views(flat@) == base + game_views(src@).take(j as int),
            decreases src.len() - j,
        {
            let ghost before = game_views(flat@);
            let g = src[j].duplicate();
            flat.push(g);
            assert(game_views(flat@) =~= before.push(src@[j as int]@));
            assert(game_views(src@).take(j + 1) =~= game_views(src@).take(j as int).push(src@[j as int]@));
            assert(game_views(flat@) =~= base + game_views(src@).take(j + 1));
            j = j + 1;
        }
        assert(sources@.take(s + 1).drop_last() =~= sources@.take(s as int));
        assert(game_views(src@).take(src.len() as int) =~= game_views(src@));
        s = s + 1;
    }
    assert(sources@.take(sources.len() as int) =~= sources@);
    let ghost fv = game_views(flat@);
    // The distinct keys in order of first appearance.
    let mut keys: Vec<Vec<char>> = Vec::new();
    let mut i: usize = 0;
    assert(fv.take(0) =~= Seq::<GameDataView>::empty());
    while i < flat.len()
        invariant
            i <= flat.len(),
            fv == game_views(flat@),
            views_of(keys@) == key_list(fv.take(i as int)),
        decreases flat.len() - i,
    {
        assert(fv.take(i + 1).drop_last() =~= fv.take(i as int));
        let k = game_key_vec(&flat[i]);
        if !contains_chars(&keys, &k) {
            keys.push(k);
            assert(views_of(keys@) =~= key_list(fv.take(i as int)).push(game_key(fv[i as int])));
        }
        i = i + 1;
    }
    assert(fv.take(flat.len() as int) =~= fv);
    // One merged record per key.
    let ghost mg = merged_groups(fv);
    let mut merged: Vec<GameData> = Vec::new();
    let mut j: usize = 0;
    while j < keys.len()
        invariant
            j <= keys.len(),
            fv == game_views(flat@),
            views_of(keys@) == key_list(fv),
            mg == merged_groups(fv),
            game_views(merged@) == mg.take(j as int),
        decreases keys.len() - j,
    {
        let group = games_with_key(&flat, &keys[j]);
        proof {
            assert(views_of(keys@)[j as int] == keys@[j as int]@);
            assert(key_list(fv).contains(keys@[j as int]@));
            lemma_key_list_group(fv, keys@[j as int]@);
        }
        let m = merge_multiple(group);
        let ghost before = game_views(merged@);
        assert(mg[j as int] == m@);
        merged.push(m);
        assert(game_views(merged@) =~= before.push(mg[j as int]));
        assert(game_views(merged@) =~= mg.take(j + 1));
        j = j + 1;
    }
    assert(mg.take(keys.len() as int) =~= mg);
    let ghost mv = game_views(merged@);
    // Stable insertion by lower-cased title.
    let mut out: Vec<GameData> = Vec::new();
    let mut okeys: Vec<Vec<char>> = Vec::new();
    let mut i: usize = 0;
    assert(mv.take(0) =~= Seq::<GameDataView>::empty());
    while i < merged.len()
        invariant
            i <= merged.len(),
            mv == game_views(merged@),
            out.len() == okeys.len(),
            forall|q: int| 0 <= q < out.len() ==> #[trigger] okeys@[q]@ == lowercase_of(out@[q]@.name),
            sorted_keys(views_of(okeys@)),
            game_views(out@).to_multiset() == mv.take(i as int).to_multiset(),
            game_views(out@) == sort_by_title(mv.take(i as int)),
        decreases merged.len() - i,
    {
        let lower = to_lowercase(merged[i].name.as_str());
        let ki = chars_of(lower.as_str());
        let mut p = out.len();
        while p > 0 && !le_vec(&okeys[p - 1], &ki)
            invariant
                p <= okeys.len(),
                forall|q: int| p <= q < okeys.len() ==> !seq_le(#[trigger] okeys@[q]@, ki@),
            decreases p,
        {
            p = p - 1;
        }
        proof {
            let ok = views_of(okeys@);
            assert forall|q: int| p <= q < ok.len() implies !seq_le(#[trigger] ok[q], ki@) by {
                assert(ok[q] == okeys@[q]@);
            }
            if p > 0 {
                assert(ok[p - 1] == okeys@[p - 1]@);
            }
            lemma_insert_sorted(ok, p as int, ki@);
            let gv = game_views(out@);
            assert forall|q: int| p <= q < gv.len() implies !seq_le(lowercase_of((#[trigger] gv[q]).name), lowercase_of(mv[i as int].name)) by {
                assert(ok[q] == okeys@[q]@);
                assert(okeys@[q]@ == lowercase_of(out@[q]@.name));
            }
            if p > 0 {
                assert(okeys@[p - 1]@ == lowercase_of(out@[p - 1]@.name));
            }
            lemma_insert_by_title_at(gv, mv[i as int], p as int);
        }
        let ghost old_out = game_views(out@);
        let ghost old_keys = okeys@;
        let item = merged[i].duplicate();
        out.insert(p, item);
        okeys.insert(p, ki);
        proof {
            assert(views_of(okeys@) =~= views_of(old_keys).insert(p as int, ki@));
            assert(game_views(out@) =~= old_out.insert(p as int, mv[i as int]));
            assert(mv.take(i + 1) =~= mv.take(i as int).push(mv[i as int]));
            assert(mv.take(i + 1).drop_last() =~= mv.take(i as int));
            assert forall|q: int| 0 <= q < out.len() implies #[trigger] okeys@[q]@ == lowercase_of(out@[q]@.name) by {
                if q < p {
                    assert(okeys@[q] == old_keys[q]);
                } else if q > p {
                    assert(okeys@[q] == old_keys[q - 1]);
                }
            }
        }
        i = i + 1;
    }
    proof {
        assert(mv.take(merged.len() as int) =~= mv);
        assert forall|a: int, b: int| 0 <= a < b < out.len() implies seq_le(
            lowercase_of(#[trigger] game_views(out@)[a].name),
            lowercase_of(#[trigger] game_views(out@)[b].name),
        ) by {
            assert(views_of(okeys@)[a] == okeys@[a]@);
            assert(views_of(okeys@)[b] == okeys@[b]@);
        }
    }
    out
}


proof fn lemma_with_score_members(s: Seq<GameDataView>, c: int, x: GameDataView)
    ensures
        with_score(s, c).contains(x) ==> s.contains(x),
        s.contains(x) && conf_score(x.import_confidence) == c ==> with_score(s, c).contains(x),
    decreases s.len(),
{
    if s.len() > 0 {
        lemma_with_score_members(s.drop_last(), c, x);
        let p = with_score(s.drop_last(), c);
        if p.contains(x) {
            let i = choose|i: int| 0 <= i < p.len() && p[i] == x;
            assert(with_score(s, c)[i] == x);
        }
        if s.drop_last().contains(x) {
            let i = choose|i: int| 0 <= i < s.drop_last().len() && s.drop_last()[i] == x;
            assert(s[i] == x);
        }
        if s.contains(x) && !s.drop_last().contains(x) {
            let i = choose|i: int| 0 <= i < s.len() && s[i] == x;
            if i < s.len() - 1 {
                assert(s.drop_last()[i] == x);
            }
            assert(s.last() == x);
        }
        if with_score(s, c).contains(x) && !p.contains(x) {
            assert(s.last() == x);
        }
        if s.last() == x && conf_score(x.import_confidence) == c {
            assert(with_score(s, c)[p.len() as int] == x);
        }
    }
}

proof fn lemma_by_confidence_members(s: Seq<GameDataView>, x: GameDataView)
    ensures
        by_confidence(s).contains(x) <==> s.contains(x),
{
    lemma_with_score_members(s, 3, x);
    lemma_with_score_members(s, 2, x);
    lemma_with_score_members(s, 1, x);
    lemma_with_score_members(s, 0, x);
    let a = with_score(s, 3);
    let b = with_score(s, 2);
    let c = with_score(s, 1);
    let d = with_score(s, 0);
    let all = a + b + c + d;
    if all.contains(x) {
        let i = choose|i: int| 0 <= i < all.len() && all[i] == x;
        if i < a.len() {
            assert(a[i] == x);
        } else if i < a.len() + b.len() {
            assert(b[i - a.len()] == x);
        } else if i < a.len() + b.len() + c.len() {
            assert(c[i - a.len() - b.len()] == x);
        } else {
            assert(d[i - a.len() - b.len() - c.len()] == x);
        }
    }
    if s.contains(x) {
        let sc = conf_score(x.import_confidence);
        if sc == 3 {
            let i = choose|i: int| 0 <= i < a.len() && a[i] == x;
            assert(all[i] == x);
        } else if sc == 2 {
            let i = choose|i: int| 0 <= i < b.len() && b[i] == x;
            assert(all[a.len() + i] == x);
        } else if sc == 1 {
            let i = choose|i: int| 0 <= i < c.len() && c[i] == x;
            assert(all[a.len() + b.len() + i] == x);
        } else {
            let i = choose|i: int| 0 <= i < d.len() && d[i] == x;
            assert(all[a.len() + b.len() + c.len() + i] == x);
        }
    }
}

proof fn lemma_fold_enrich_bounds(s: Seq<GameDataView>)
    requires
        s.len() > 0,
    ensures
        game_key(fold_enrich(s)) == game_key(s[0]),
        fold_enrich(s).import_confidence == s[0].import_confidence,
        forall|i: int| 0 <= i < s.len() ==> fold_enrich(s).playtime_forever >= (#[trigger] s[i]).playtime_forever,
        forall|i: int| 0 <= i < s.len() ==> fold_enrich(s).rtime_last_played >= (#[trigger] s[i]).rtime_last_played,
        forall|i: int| 0 <= i < s.len() ==> (#[trigger] s[i]).installed ==> fold_enrich(s).installed,
        forall|i: int| 0 <= i < s.len() ==> (#[trigger] s[i]).install_path is Some ==> fold_enrich(s).install_path is Some,
    decreases s.len(),
{
    if s.len() > 1 {
        lemma_fold_enrich_bounds(s.drop_last());
        assert(s.drop_last()[0] == s[0]);
        let f = fold_enrich(s);
        assert forall|i: int| 0 <= i < s.len() implies {
            &&& f.playtime_forever >= (#[trigger] s[i]).playtime_forever
            &&& f.rtime_last_played >= s[i].rtime_last_played
            &&& (s[i].installed ==> f.installed)
            &&& (s[i].install_path is Some ==> f.install_path is Some)
        } by {
            if i < s.len() - 1 {
                assert(s[i] == s.drop_last()[i]);
            }
        }
    }
}

proof fn lemma_group_members(s: Seq<GameDataView>, k: Seq<char>, x: GameDataView)
    ensures
        group_of(s, k).contains(x) <==> (s.contains(x) && game_key(x) == k),
    decreases s.len(),
{
    if s.len() > 0 {
        lemma_group_members(s.drop_last(), k, x);
        let p = group_of(s.drop_last(), k);
        if p.contains(x) {
            let i = choose|i: int| 0 <= i < p.len() && p[i] == x;
            assert(group_of(s, k)[i] == x);
        }
        if s.drop_last().contains(x) {
            let i = choose|i: int| 0 <= i < s.drop_last().len() && s.drop_last()[i] == x;
            assert(s[i] == x);
        }
        if s.contains(x) && !s.drop_last().contains(x) {
            let i = choose|i: int| 0 <= i < s.len() && s[i] == x;
            if i < s.len() - 1 {
                assert(s.drop_last()[i] == x);
            }
            assert(s.last() == x);
        }
        if group_of(s, k).contains(x) && !p.contains(x) {
            assert(s.last() == x);
        }
        if s.last() == x && game_key(x) == k {
            assert(group_of(s, k)[p.len() as int] == x);
        }
    }
}

proof fn lemma_key_list_distinct(s: Seq<GameDataView>)
    ensures
        key_list(s).no_duplicates(),
        forall|k: Seq<char>| key_list(s).contains(k) <==> exists|i: int| 0 <= i < s.len() && game_key(#[trigger] s[i]) == k,
    decreases s.len(),
{
    if s.len() > 0 {
        lemma_key_list_distinct(s.drop_last());
        let p = key_list(s.drop_last());
        assert forall|k: Seq<char>| key_list(s).contains(k) implies exists|i: int| 0 <= i < s.len() && game_key(#[trigger] s[i]) == k by {
            if p.contains(k) {
                let i = choose|i: int| 0 <= i < s.drop_last().len() && game_key(#[trigger] s.drop_last()[i]) == k;
                assert(s[i] == s.drop_last()[i]);
            } else {
                assert(game_key(s[s.len() - 1]) == k);
            }
        }
        assert forall|k: Seq<char>| (exists|i: int| 0 <= i < s.len() && game_key(#[trigger] s[i]) == k) implies key_list(s).contains(k) by {
            let i = choose|i: int| 0 <= i < s.len() && game_key(#[trigger] s[i]) == k;
            if i < s.len() - 1 {
                assert(s.drop_last()[i] == s[i]);
                assert(p.contains(k));
                if !p.contains(game_key(s.last())) {
                    assert(p.push(game_key(s.last()))[p.index_of(k)] == k);
                }
            } else {
                if !p.contains(k) {
                    assert(p.push(game_key(s.last()))[p.len() as int] == k);
                }
            }
        }
    }
}

/// Merging the records of one game keeps its platform and id, takes the confidence of
/// the most confident source, and keeps the largest play time and last-played time, an
/// install path if any record has one, and the installed flag if any record has it.
pub proof fn lemma_merge_multiple_keeps(s: Seq<GameDataView>)
    requires
        s.len() > 0,
    ensures
        forall|i: int| 0 <= i < s.len() ==> merge_multiple_spec(s).playtime_forever >= (#[trigger] s[i]).playtime_forever,
        forall|i: int| 0 <= i < s.len() ==> merge_multiple_spec(s).rtime_last_played >= (#[trigger] s[i]).rtime_last_played,
        forall|i: int| 0 <= i < s.len() ==> (#[trigger] s[i]).installed ==> merge_multiple_spec(s).installed,
        forall|i: int| 0 <= i < s.len() ==> (#[trigger] s[i]).install_path is Some ==> merge_multiple_spec(s).install_path is Some,
        forall|i: int| 0 <= i < s.len() ==> conf_score((#[trigger] s[i]).import_confidence) <= conf_score(merge_multiple_spec(s).import_confidence),
        exists|i: int| 0 <= i < s.len() && game_key(#[trigger] s[i]) == game_key(merge_multiple_spec(s)),
{
    let b = by_confidence(s);
    lemma_with_score_len(s);
    lemma_fold_enrich_bounds(b);
    assert forall|i: int| 0 <= i < s.len() implies b.contains(#[trigger] s[i]) by {
        lemma_by_confidence_members(s, s[i]);
    }
    lemma_by_confidence_members(s, b[0]);
    assert(b.contains(b[0]));
    assert forall|i: int| 0 <= i < s.len() implies conf_score((#[trigger] s[i]).import_confidence) <= conf_score(merge_multiple_spec(s).import_confidence) by {
        let x = s[i];
        lemma_with_score_members(s, 3, x);
        lemma_with_score_members(s, 2, x);
        lemma_with_score_members(s, 1, x);
        lemma_with_score_members(s, 0, x);
        lemma_with_score_members(s, 3, b[0]);
        lemma_with_score_members(s, 2, b[0]);
        lemma_with_score_members(s, 1, b[0]);
        let a3 = with_score(s, 3);
        let a2 = with_score(s, 2);
        let a1 = with_score(s, 1);
        lemma_with_score_all(s, 3);
        lemma_with_score_all(s, 2);
        lemma_with_score_all(s, 1);
        lemma_with_score_all(s, 0);
        if a3.len() > 0 {
            assert(b[0] == a3[0]);
        } else if a2.len() > 0 {
            assert(b[0] == a2[0]);
            assert(!a3.contains(x));
        } else if a1.len() > 0 {
            assert(b[0] == a1[0]);
            assert(!a3.contains(x));
            assert(!a2.contains(x));
        } else {
            assert(!a3.contains(x));
            assert(!a2.contains(x));
            assert(!a1.contains(x));
        }
    }
    let j = choose|j: int| 0 <= j < s.len() && s[j] == b[0];
    assert(game_key(s[j]) == game_key(merge_multiple_spec(s)));
}

proof fn lemma_with_score_all(s: Seq<GameDataView>, c: int)
    ensures
        forall|i: int| 0 <= i < with_score(s, c).len() ==> conf_score((#[trigger] with_score(s, c)[i]).import_confidence) == c,
    decreases s.len(),
{
    if s.len() > 0 {
        lemma_with_score_all(s.drop_last(), c);
    }
}

/// The merged list has one record per platform and id: its keys are those of the input
/// records, each once.
pub proof fn lemma_merged_groups_keys(s: Seq<GameDataView>)
    ensures
        merged_groups(s).len() == key_list(s).len(),
        forall|i: int| 0 <= i < merged_groups(s).len() ==> game_key(#[trigger] merged_groups(s)[i]) == key_list(s)[i],
        forall|i: int, j: int| 0 <= i < j < merged_groups(s).len() ==> game_key(#[trigger] merged_groups(s)[i]) != game_key(#[trigger] merged_groups(s)[j]),
        forall|k: Seq<char>| (exists|i: int| 0 <= i < s.len() && game_key(#[trigger] s[i]) == k) <==> key_list(s).contains(k),
{
    lemma_key_list_distinct(s);
    let kl = key_list(s);
    assert forall|i: int| 0 <= i < merged_groups(s).len() implies game_key(#[trigger] merged_groups(s)[i]) == kl[i] by {
        let k = kl[i];
        let g = group_of(s, k);
        assert(kl.contains(k));
        lemma_key_list_group(s, k);
        lemma_merge_multiple_keeps(g);
        let t = choose|t: int| 0 <= t < g.len() && game_key(#[trigger] g[t]) == game_key(merge_multiple_spec(g));
        lemma_group_members(s, k, g[t]);
        assert(g.contains(g[t]));
    }
}


/// The ids of a list of games.
pub open spec fn ids_of(games: Seq<GameDataView>) -> Seq<Seq<char>> {
    games.map_values(|g: GameDataView| g.platform_game_id)
}

/// The Steam library from its three sources: the installed games and the library-cache
/// games (each with repeated ids dropped) and the games the Web API lists as owned are
/// merged; then demos are filtered against the owned ids.
pub fn combine_library(installed: Vec<GameData>, cached: Vec<GameData>, api_games: Vec<GameData>) -> (r: Vec<GameData>)
    ensures
        ({
            let m = sort_by_title(
                merged_groups(
                    first_of_each_id(game_views(installed@), installed@.len()) + first_of_each_id(
                        game_views(cached@),
                        cached@.len(),
                    ) + game_views(api_games@),
                ),
            );
            game_views(r@) == demo_filter(m, ids_of(game_views(api_games@)), m.len())
        }),
{
    let mut owned: Vec<String> = Vec::new();
    let mut i: usize = 0;
    while i < api_games.len()
        invariant
            i <= api_games.len(),
            string_views(owned@) == ids_of(game_views(api_games@)).take(i as int),
        decreases api_games.len() - i,
    {
        let ghost before = string_views(owned@);
        let id = api_games[i].platform_game_id.clone();
        owned.push(id);
        assert(string_views(owned@) =~= before.push(api_games@[i as int]@.platform_game_id));
        assert(string_views(owned@) =~= ids_of(game_views(api_games@)).take(i + 1));
        i = i + 1;
    }
    assert(ids_of(game_views(api_games@)).take(api_games.len() as int) =~= ids_of(game_views(api_games@)));
    let inst = dedup_by_id(installed);
    let cach = dedup_by_id(cached);
    let sources = vec![inst, cach, api_games];
    proof {
        let s3 = sources@;
        assert(s3.drop_last().drop_last().drop_last() =~= Seq::<Vec<GameData>>::empty());
        reveal_with_fuel(flatten_games, 4);
        assert(s3.drop_last().drop_last().last() == s3[0]);
        assert(s3.drop_last().last() == s3[1]);
        assert(flatten_games(s3) =~= game_views(s3[0]@) + game_views(s3[1]@) + game_views(s3[2]@));
    }
    let merged = merge_games(sources);
    let r = filter_duplicate_demos(merged, &owned);
    r
}


/// UTF-8 bytes of a record's title.
pub open spec fn title_bytes(g: GameDataView) -> nat {
    encode_utf8(g.name).len()
}

/// Every title fits in memory (its byte length is a `usize`).
pub open spec fn titles_fit(s: Seq<GameDataView>) -> bool {
    forall|i: int| 0 <= i < s.len() ==> title_bytes(#[trigger] s[i]) <= usize::MAX
}

/// Enriching one record with another keeps the longer title: the result's title is one
/// of the two, never has fewer UTF-8 bytes than either, and is the primary's on a tie; the
/// game is installed when either record says so, and the play time and last-played time
/// are the larger of the two.
pub proof fn lemma_enrich_law(p: GameDataView, s: GameDataView)
    requires
        title_bytes(p) <= usize::MAX,
        title_bytes(s) <= usize::MAX,
    ensures
        ({
            let r = enrich_spec(p, s);
            &&& r.name == p.name || r.name == s.name
            &&& encode_utf8(p.name).len() <= encode_utf8(r.name).len()
            &&& encode_utf8(s.name).len() <= encode_utf8(r.name).len()
            &&& (encode_utf8(p.name).len() == encode_utf8(s.name).len() ==> r.name == p.name)
            &&& r.installed == (p.installed || s.installed)
            &&& p.playtime_forever <= r.playtime_forever && s.playtime_forever <= r.playtime_forever
            &&& (r.playtime_forever == p.playtime_forever || r.playtime_forever == s.playtime_forever)
            &&& p.rtime_last_played <= r.rtime_last_played && s.rtime_last_played <= r.rtime_last_played
            &&& (r.rtime_last_played == p.rtime_last_played || r.rtime_last_played == s.rtime_last_played)
        }),
{
}

#[verifier::spinoff_prover]
#[verifier::rlimit(50)]
proof fn lemma_fold_enrich_props(t: Seq<GameDataView>)
    requires
        t.len() > 0,
        titles_fit(t),
    ensures
        exists|k: int| {
            &&& 0 <= k < t.len()
            &&& fold_enrich(t).name == #[trigger] t[k].name
            &&& forall|i: int| 0 <= i < t.len() ==> title_bytes(#[trigger] t[i]) <= title_bytes(t[k])
            &&& forall|i: int| 0 <= i < k ==> title_bytes(#[trigger] t[i]) < title_bytes(t[k])
        },
        fold_enrich(t).installed <==> exists|i: int| 0 <= i < t.len() && (#[trigger] t[i]).installed,
        forall|i: int| 0 <= i < t.len() ==> (#[trigger] t[i]).playtime_forever <= fold_enrich(t).playtime_forever,
        exists|i: int| 0 <= i < t.len() && (#[trigger] t[i]).playtime_forever == fold_enrich(t).playtime_forever,
        forall|i: int| 0 <= i < t.len() ==> (#[trigger] t[i]).rtime_last_played <= fold_enrich(t).rtime_last_played,
        exists|i: int| 0 <= i < t.len() && (#[trigger] t[i]).rtime_last_played == fold_enrich(t).rtime_last_played,
        fold_enrich(t).platform == t[0].platform,
        fold_enrich(t).platform_game_id == t[0].platform_game_id,
        fold_enrich(t).import_confidence == t[0].import_confidence,
    decreases t.len(),
{
    if t.len() == 1 {
        assert(title_bytes(t[0]) <= title_bytes(t[0]));
        assert(t[0].playtime_forever == fold_enrich(t).playtime_forever);
        assert(t[0].rtime_last_played == fold_enrich(t).rtime_last_played);
    } else {
        let d = t.drop_last();
        let l = t.last();
        let n = t.len() - 1;
        assert forall|i: int| 0 <= i < d.len() implies title_bytes(#[trigger] d[i]) <= usize::MAX by {
            assert(d[i] == t[i]);
        }
        lemma_fold_enrich_props(d);
        let f = fold_enrich(d);
        let r = fold_enrich(t);
        assert(r == enrich_spec(f, l));
        let k = choose|k: int| {
            &&& 0 <= k < d.len()
            &&& f.name == #[trigger] d[k].name
            &&& forall|i: int| 0 <= i < d.len() ==> title_bytes(#[trigger] d[i]) <= title_bytes(d[k])
            &&& forall|i: int| 0 <= i < k ==> title_bytes(#[trigger] d[i]) < title_bytes(d[k])
        };
        assert(d[k] == t[k]);
        assert(title_bytes(t[k]) <= usize::MAX);
        assert(title_bytes(l) == title_bytes(t[n]));
        assert(byte_len(f.name) == title_bytes(t[k]));
        assert(byte_len(l.name) == title_bytes(l));
        if title_bytes(t[k]) >= title_bytes(l) {
            assert(r.name == t[k].name);
            assert forall|i: int| 0 <= i < t.len() implies title_bytes(#[trigger] t[i]) <= title_bytes(t[k]) by {
                if i < n {
                    assert(d[i] == t[i]);
                }
            }
            assert forall|i: int| 0 <= i < k implies title_bytes(#[trigger] t[i]) < title_bytes(t[k]) by {
                assert(d[i] == t[i]);
            }
        } else {
            assert(r.name == t[n].name);
            assert forall|i: int| 0 <= i < t.len() implies title_bytes(#[trigger] t[i]) <= title_bytes(t[n]) by {
                if i < n {
                    assert(d[i] == t[i]);
                }
            }
            assert forall|i: int| 0 <= i < n implies title_bytes(#[trigger] t[i]) < title_bytes(t[n]) by {
                assert(d[i] == t[i]);
            }
        }
        if r.installed {
            if f.installed {
                let i = choose|i: int| 0 <= i < d.len() && (#[trigger] d[i]).installed;
                assert(t[i] == d[i]);
            } else {
                assert(t[n].installed);
            }
        }
        if exists|i: int| 0 <= i < t.len() && (#[trigger] t[i]).installed {
            let i = choose|i: int| 0 <= i < t.len() && (#[trigger] t[i]).installed;
            if i < n {
                assert(d[i] == t[i]);
            }
        }
        assert forall|i: int| 0 <= i < t.len() implies (#[trigger] t[i]).playtime_forever <= r.playtime_forever
            && t[i].rtime_last_played <= r.rtime_last_played by {
            if i < n {
                assert(d[i] == t[i]);
            }
        }
        let ip = choose|i: int| 0 <= i < d.len() && (#[trigger] d[i]).playtime_forever == f.playtime_forever;
        assert(d[ip] == t[ip]);
        if f.playtime_forever >= l.playtime_forever {
            assert(t[ip].playtime_forever == r.playtime_forever);
        } else {
            assert(t[n].playtime_forever == r.playtime_forever);
        }
        let ir = choose|i: int| 0 <= i < d.len() && (#[trigger] d[i]).rtime_last_played == f.rtime_last_played;
        assert(d[ir] == t[ir]);
        if f.rtime_last_played >= l.rtime_last_played {
            assert(t[ir].rtime_last_played == r.rtime_last_played);
        } else {
            assert(t[n].rtime_last_played == r.rtime_last_played);
        }
        assert(d[0] == t[0]);
    }
}

proof fn lemma_with_score_scores(s: Seq<GameDataView>, c: int)
    ensures
        forall|i: int| 0 <= i < with_score(s, c).len() ==> conf_score((#[trigger] with_score(s, c)[i]).import_confidence) == c,
    decreases s.len(),
{
    if s.len() > 0 {
        lemma_with_score_scores(s.drop_last(), c);
        let p = with_score(s.drop_last(), c);
        let w = with_score(s, c);
        assert forall|i: int| 0 <= i < w.len() implies conf_score((#[trigger] w[i]).import_confidence) == c by {
            if i < p.len() {
                assert(w[i] == p[i]);
            }
        }
    }
}

proof fn lemma_by_confidence_sorted(s: Seq<GameDataView>)
    ensures
        forall|a: int, b: int| 0 <= a < b < by_confidence(s).len() ==> conf_score((#[trigger] by_confidence(s)[a]).import_confidence)
            >= conf_score((#[trigger] by_confidence(s)[b]).import_confidence),
{
    let w3 = with_score(s, 3);
    let w2 = with_score(s, 2);
    let w1 = with_score(s, 1);
    let w0 = with_score(s, 0);
    lemma_with_score_scores(s, 3);
    lemma_with_score_scores(s, 2);
    lemma_with_score_scores(s, 1);
    lemma_with_score_scores(s, 0);
    let t = by_confidence(s);
    assert forall|p: int| 0 <= p < t.len() implies conf_score((#[trigger] t[p]).import_confidence) == (if p < w3.len() {
        3int
    } else if p < w3.len() + w2.len() {
        2int
    } else if p < w3.len() + w2.len() + w1.len() {
        1int
    } else {
        0int
    }) by {
        if p < w3.len() {
            assert(t[p] == w3[p]);
        } else if p < w3.len() + w2.len() {
            assert(t[p] == w2[p - w3.len()]);
        } else if p < w3.len() + w2.len() + w1.len() {
            assert(t[p] == w1[p - w3.len() - w2.len()]);
        } else {
            assert(t[p] == w0[p - w3.len() - w2.len() - w1.len()]);
        }
    }
}

/// Merging the records of one game: the title is the longest title among them (the
/// first of the most confident records on a tie), so it never has fewer UTF-8 bytes than
/// any record's title; the game is installed when any record says so; the play time and
/// the last-played time are the largest among them; the platform, id and confidence are
/// those of a record of the highest confidence.
pub proof fn lemma_merge_multiple_law(s: Seq<GameDataView>)
    requires
        s.len() > 0,
        titles_fit(s),
    ensures
        ({
            let r = merge_multiple_spec(s);
            &&& exists|j: int| {
                &&& 0 <= j < s.len()
                &&& r.name == (#[trigger] s[j]).name
                &&& forall|i: int| 0 <= i < s.len() ==> title_bytes(#[trigger] s[i]) <= title_bytes(s[j])
                &&& forall|i: int| 0 <= i < s.len() && title_bytes(#[trigger] s[i]) == title_bytes(s[j])
                    ==> conf_score(s[i].import_confidence) <= conf_score(s[j].import_confidence)
            }
            &&& forall|i: int| 0 <= i < s.len() ==> encode_utf8((#[trigger] s[i]).name).len() <= encode_utf8(r.name).len()
            &&& (r.installed <==> exists|i: int| 0 <= i < s.len() && (#[trigger] s[i]).installed)
            &&& forall|i: int| 0 <= i < s.len() ==> (#[trigger] s[i]).playtime_forever <= r.playtime_forever
            &&& exists|i: int| 0 <= i < s.len() && (#[trigger] s[i]).playtime_forever == r.playtime_forever
            &&& forall|i: int| 0 <= i < s.len() ==> (#[trigger] s[i]).rtime_last_played <= r.rtime_last_played
            &&& exists|i: int| 0 <= i < s.len() && (#[trigger] s[i]).rtime_last_played == r.rtime_last_played
            &&& forall|i: int| 0 <= i < s.len() ==> conf_score((#[trigger] s[i]).import_confidence) <= conf_score(r.import_confidence)
            &&& exists|j: int| 0 <= j < s.len() && (#[trigger] s[j]).platform == r.platform
                && s[j].platform_game_id == r.platform_game_id && s[j].import_confidence == r.import_confidence
        }),
{
    let t = by_confidence(s);
    let r = merge_multiple_spec(s);
    assert(r == fold_enrich(t));
    // t holds exactly the records of s.
    assert forall|x: GameDataView| t.contains(x) <==> s.contains(x) by {
        lemma_by_confidence_members(s, x);
    }
    assert(s.contains(s[0]));
    assert(t.contains(s[0]));
    assert forall|i: int| 0 <= i < t.len() implies title_bytes(#[trigger] t[i]) <= usize::MAX by {
        assert(t.contains(t[i]));
        let j = choose|j: int| 0 <= j < s.len() && s[j] == t[i];
    }
    lemma_fold_enrich_props(t);
    lemma_by_confidence_sorted(s);
    let k = choose|k: int| {
        &&& 0 <= k < t.len()
        &&& fold_enrich(t).name == #[trigger] t[k].name
        &&& forall|i: int| 0 <= i < t.len() ==> title_bytes(#[trigger] t[i]) <= title_bytes(t[k])
        &&& forall|i: int| 0 <= i < k ==> title_bytes(#[trigger] t[i]) < title_bytes(t[k])
    };
    assert(t.contains(t[k]));
    let j = choose|j: int| 0 <= j < s.len() && s[j] == t[k];
    assert forall|i: int| 0 <= i < s.len() implies title_bytes(#[trigger] s[i]) <= title_bytes(s[j]) && (title_bytes(s[i])
        == title_bytes(s[j]) ==> conf_score(s[i].import_confidence) <= conf_score(s[j].import_confidence)) by {
        assert(s.contains(s[i]));
        assert(t.contains(s[i]));
        let q = choose|q: int| 0 <= q < t.len() && t[q] == s[i];
        if title_bytes(s[i]) == title_bytes(s[j]) {
            assert(!(q < k));
            if q > k {
                assert(conf_score(t[k].import_confidence) >= conf_score(t[q].import_confidence));
            }
        }
    }
    assert forall|i: int| 0 <= i < s.len() implies encode_utf8((#[trigger] s[i]).name).len() <= encode_utf8(r.name).len() by {
        assert(title_bytes(s[i]) <= title_bytes(s[j]));
    }
    assert forall|i: int| 0 <= i < s.len() implies (#[trigger] s[i]).playtime_forever <= r.playtime_forever
        && s[i].rtime_last_played <= r.rtime_last_played
        && conf_score(s[i].import_confidence) <= conf_score(r.import_confidence) by {
        assert(s.contains(s[i]));
        assert(t.contains(s[i]));
        let q = choose|q: int| 0 <= q < t.len() && t[q] == s[i];
        if q > 0 {
            assert(conf_score(t[0].import_confidence) >= conf_score(t[q].import_confidence));
        }
    }
    if r.installed {
        let i = choose|i: int| 0 <= i < t.len() && (#[trigger] t[i]).installed;
        assert(t.contains(t[i]));
        let j2 = choose|j2: int| 0 <= j2 < s.len() && s[j2] == t[i];
        assert(s[j2].installed);
    }
    if exists|i: int| 0 <= i < s.len() && (#[trigger] s[i]).installed {
        let i = choose|i: int| 0 <= i < s.len() && (#[trigger] s[i]).installed;
        assert(s.contains(s[i]));
        assert(t.contains(s[i]));
        let q = choose|q: int| 0 <= q < t.len() && t[q] == s[i];
        assert(t[q].installed);
    }
    let ip = choose|i: int| 0 <= i < t.len() && (#[trigger] t[i]).playtime_forever == r.playtime_forever;
    assert(t.contains(t[ip]));
    let jp = choose|j2: int| 0 <= j2 < s.len() && s[j2] == t[ip];
    assert(s[jp].playtime_forever == r.playtime_forever);
    let ir = choose|i: int| 0 <= i < t.len() && (#[trigger] t[i]).rtime_last_played == r.rtime_last_played;
    assert(t.contains(t[ir]));
    let jr = choose|j2: int| 0 <= j2 < s.len() && s[j2] == t[ir];
    assert(s[jr].rtime_last_played == r.rtime_last_played);
    assert(t.contains(t[0]));
    let j0 = choose|j2: int| 0 <= j2 < s.len() && s[j2] == t[0];
    assert(s[j0].platform == r.platform);
}


proof fn lemma_group_of_members(s: Seq<GameDataView>, k: Seq<char>, x: GameDataView)
    ensures
        group_of(s, k).contains(x) <==> s.contains(x) && game_key(x) == k,
    decreases s.len(),
{
    if s.len() > 0 {
        lemma_group_of_members(s.drop_last(), k, x);
        let p = group_of(s.drop_last(), k);
        let g = group_of(s, k);
        let d = s.drop_last();
        if g.contains(x) {
            let i = choose|i: int| 0 <= i < g.len() && g[i] == x;
            if i < p.len() {
                assert(p[i] == x);
                assert(p.contains(x));
                let j = choose|j: int| 0 <= j < d.len() && d[j] == x;
                assert(s[j] == x);
            } else {
                assert(s[s.len() - 1] == x);
            }
        }
        if s.contains(x) && game_key(x) == k {
            let j = choose|j: int| 0 <= j < s.len() && s[j] == x;
            if j < s.len() - 1 {
                assert(d[j] == x);
                assert(d.contains(x));
                let i = choose|i: int| 0 <= i < p.len() && p[i] == x;
                assert(g[i] == x);
            } else {
                assert(g[p.len() as int] == x);
            }
        }
    }
}

/// In the merged list, the record of each platform and id carries the longest title of
/// the records with that platform and id: never fewer UTF-8 bytes than any of them, and
/// the title of one of them; it is installed when one of them is, and has their largest
/// play time.
pub proof fn lemma_merged_titles_law(s: Seq<GameDataView>)
    requires
        titles_fit(s),
    ensures
        forall|i: int, x: int| 0 <= i < merged_groups(s).len() && 0 <= x < s.len()
            && game_key(#[trigger] s[x]) == game_key(#[trigger] merged_groups(s)[i]) ==> {
            &&& encode_utf8(s[x].name).len() <= encode_utf8(merged_groups(s)[i].name).len()
            &&& (s[x].installed ==> merged_groups(s)[i].installed)
            &&& s[x].playtime_forever <= merged_groups(s)[i].playtime_forever
        },
        forall|i: int| 0 <= i < merged_groups(s).len() ==> exists|x: int| 0 <= x < s.len()
            && game_key(#[trigger] s[x]) == game_key(merged_groups(s)[i]) && s[x].name == (#[trigger] merged_groups(s)[i]).name,
{
    lemma_merged_groups_keys(s);
    let m = merged_groups(s);
    let kl = key_list(s);
    assert forall|i: int| #![trigger m[i]] 0 <= i < m.len() implies {
        &&& (forall|x: int| 0 <= x < s.len() && game_key(#[trigger] s[x]) == game_key(m[i]) ==> {
            &&& encode_utf8(s[x].name).len() <= encode_utf8(m[i].name).len()
            &&& (s[x].installed ==> m[i].installed)
            &&& s[x].playtime_forever <= m[i].playtime_forever
        })
        &&& exists|x: int| 0 <= x < s.len() && game_key(#[trigger] s[x]) == game_key(m[i]) && s[x].name == m[i].name
    } by {
        let k = kl[i];
        let g = group_of(s, k);
        assert(kl.contains(k));
        lemma_key_list_group(s, k);
        assert(m[i] == merge_multiple_spec(g));
        assert(game_key(m[i]) == k);
        assert forall|q: int| 0 <= q < g.len() implies title_bytes(#[trigger] g[q]) <= usize::MAX by {
            assert(g.contains(g[q]));
            lemma_group_of_members(s, k, g[q]);
            let j = choose|j: int| 0 <= j < s.len() && s[j] == g[q];
        }
        lemma_merge_multiple_law(g);
        assert forall|x: int| 0 <= x < s.len() && game_key(#[trigger] s[x]) == game_key(m[i]) implies {
            &&& encode_utf8(s[x].name).len() <= encode_utf8(m[i].name).len()
            &&& (s[x].installed ==> m[i].installed)
            &&& s[x].playtime_forever <= m[i].playtime_forever
        } by {
            assert(s.contains(s[x]));
            lemma_group_of_members(s, k, s[x]);
            let q = choose|q: int| 0 <= q < g.len() && g[q] == s[x];
            assert(encode_utf8(g[q].name).len() <= encode_utf8(m[i].name).len());
            assert(g[q].playtime_forever <= m[i].playtime_forever);
            if s[x].installed {
                assert(g[q].installed);
            }
        }
        let j = choose|j: int| {
            &&& 0 <= j < g.len()
            &&& m[i].name == (#[trigger] g[j]).name
            &&& forall|q: int| 0 <= q < g.len() ==> title_bytes(#[trigger] g[q]) <= title_bytes(g[j])
            &&& forall|q: int| 0 <= q < g.len() && title_bytes(#[trigger] g[q]) == title_bytes(g[j])
                ==> conf_score(g[q].import_confidence) <= conf_score(g[j].import_confidence)
        };
        assert(g.contains(g[j]));
        lemma_group_of_members(s, k, g[j]);
        let x = choose|x: int| 0 <= x < s.len() && s[x] == g[j];
        assert(game_key(s[x]) == game_key(m[i]) && s[x].name == m[i].name);
    }
}

} // verus!
