//! Local game folders: ranking the executables found in a folder, picking the best one,
//! and how confident a discovery is.
use vstd::prelude::*;
use crate::text::{chars_of, contains_seq, contains_vec, copy_string, lowercase_of, opt_view, to_lowercase, views_of};

verus! {

/// The kind of an executable file.
#[derive(PartialEq, Eq, Structural, Clone, Copy, Debug)]
pub enum ExecutableType {
    WindowsExe,
    LinuxElf,
    Script,
    Unknown,
}

impl ExecutableType {
    /// The name shown for the kind.
    pub fn label(&self) -> (r: &'static str)
        ensures
            r@ == match self {
                ExecutableType::WindowsExe => "Windows EXE"@,
                ExecutableType::LinuxElf => "Linux ELF"@,
                ExecutableType::Script => "Script"@,
                ExecutableType::Unknown => "Unknown"@,
            },
    {
        match self {
            ExecutableType::WindowsExe => "Windows EXE",
            ExecutableType::LinuxElf => "Linux ELF",
            ExecutableType::Script => "Script",
            ExecutableType::Unknown => "Unknown",
        }
    }
}

/// An executable that may start the game.
pub struct ExecutableCandidate {
    pub path: String,
    pub filename: String,
    pub size_mb: u64,
    pub rank_score: i32,
    pub executable_type: ExecutableType,
}

/// A folder that holds a game.
pub struct GameDiscovery {
    pub id: String,
    pub base_path: String,
    pub suggested_name: String,
    pub confidence: i32,
    pub executables: Vec<ExecutableCandidate>,
}

/// Words of file names that are surely not the game itself.
pub open spec fn bad_words() -> Seq<Seq<char>> {
    seq![
        "launcher"@, "crash"@, "uninstall"@, "uninst"@, "setup"@, "redist"@, "vcredist"@, "dx"@,
        "directx"@, "reporter"@, "updater"@, "patcher"@, "config"@, "settings"@,
    ]
}

/// Words of file names that suggest the main program.
pub open spec fn good_words() -> Seq<Seq<char>> {
    seq!["game"@, "play"@, "start"@, "run"@]
}

pub open spec fn has_word(s: Seq<char>, words: Seq<Seq<char>>) -> bool {
    exists|k: int| 0 <= k < words.len() && contains_seq(s, #[trigger] words[k])
}

/// The rank of an executable: −5 for a helper-tool word in its lower-cased file name,
/// +2 for a main-program word, +2 above 100 MB and +3 more above 500 MB, +3 when its
/// folder's name and its file stem (lower-cased) contain one another, +2 when it lies at
/// the root of the game folder (`levels` folders below it: 0), in a named folder.
pub open spec fn rank_spec(filename: Seq<char>, size_mb: u64, parent_name: Option<Seq<char>>, file_stem: Option<Seq<char>>, levels: nat) -> int {
    let lower = lowercase_of(filename);
    let stem = lowercase_of(
        match file_stem {
            Some(s) => s,
            None => Seq::empty(),
        },
    );
    (if has_word(lower, bad_words()) { -5int } else { 0int }) + (if has_word(lower, good_words()) { 2int } else { 0int })
        + (if size_mb > 100 { 2int } else { 0int }) + (if size_mb > 500 { 3int } else { 0int }) + match parent_name {
        Some(f) => (if contains_seq(lowercase_of(f), stem) || contains_seq(stem, lowercase_of(f)) { 3int } else { 0int })
            + (if levels == 0 { 2int } else { 0int }),
        None => 0int,
    }
}

fn word_list(bad: bool) -> (v: Vec<Vec<char>>)
    ensures
        views_of(v@) == if bad { bad_words() } else { good_words() },
{
    if bad {
        let v = vec![
            chars_of("launcher"), chars_of("crash"), chars_of("uninstall"), chars_of("uninst"),
            chars_of("setup"), chars_of("redist"), chars_of("vcredist"), chars_of("dx"),
            chars_of("directx"), chars_of("reporter"), chars_of("updater"), chars_of("patcher"),
            chars_of("config"), chars_of("settings"),
        ];
        assert(views_of(v@) =~= bad_words());
        v
    } else {
        let v = vec![chars_of("game"), chars_of("play"), chars_of("start"), chars_of("run")];
        assert(views_of(v@) =~= good_words());
        v
    }
}

fn any_word(s: &Vec<char>, words: &Vec<Vec<char>>) -> (b: bool)
    ensures
        b == has_word(s@, views_of(words@)),
{
    let mut k: usize = 0;
    while k < words.len()
        invariant
            k <= words.len(),
            forall|j: int| 0 <= j < k ==> !contains_seq(s@, #[trigger] views_of(words@)[j]),
        decreases words.len() - k,
    {
        assert(views_of(words@)[k as int] == words@[k as int]@);
        if contains_vec(s, &words[k]) {
            return true;
        }
        k = k + 1;
    }
    false
}

/// The rank of an executable named `filename` of `size_mb` megabytes, lying in a folder
/// named `parent_name` (`None` when its parent has no name), with file stem `file_stem`,
/// lying `levels` folders below the root of the game folder (0 at the root itself).
pub fn calculate_rank(filename: &str, size_mb: u64, parent_name: Option<String>, file_stem: Option<String>, levels: usize) -> (r: i32)
    ensures
        r == rank_spec(filename@, size_mb, opt_view(parent_name), opt_view(file_stem), levels as nat),
{
    let lower = chars_of(to_lowercase(filename).as_str());
    let mut score: i32 = 0;
    if any_word(&lower, &word_list(true)) {
        score = score - 5;
    }
    if any_word(&lower, &word_list(false)) {
        score = score + 2;
    }
    if size_mb > 100 {
        score = score + 2;
    }
    if size_mb > 500 {
        score = score + 3;
    }
    match parent_name {
        Some(f) => {
            let folder = chars_of(to_lowercase(f.as_str()).as_str());
            let stem_text = match file_stem {
                Some(s) => s,
                None => String::new(),
            };
            proof {
                assert(stem_text@ == match opt_view(file_stem) { Some(s) => s, None => Seq::<char>::empty() });
            }
            let stem = chars_of(to_lowercase(stem_text.as_str()).as_str());
            if contains_vec(&folder, &stem) || contains_vec(&stem, &folder) {
                score = score + 3;
            }
            if levels == 0 {
                score = score + 2;
            }
        },
        None => {},
    }
    score
}

/// The whole megabytes of a file that can be a game's executable: at least 5 MiB.
pub fn candidate_size_mb(size_bytes: u64) -> (r: Option<u64>)
    ensures
        match r {
            Some(mb) => size_bytes >= 5 * 1024 * 1024 && mb == size_bytes / 1048576u64,
            None => size_bytes < 5 * 1024 * 1024,
        },
{
    if size_bytes < 5 * 1024 * 1024 {
        None
    } else {
        Some(size_bytes / (1024 * 1024))
    }
}

pub open spec fn ranks(v: Seq<ExecutableCandidate>) -> Seq<i32> {
    v.map_values(|e: ExecutableCandidate| e.rank_score)
}

/// Index of the best executable: the last one of highest rank.
pub open spec fn is_best_index(r: Seq<i32>, i: int) -> bool {
    &&& 0 <= i < r.len()
    &&& forall|j: int| 0 <= j < r.len() ==> r[j] <= r[i]
    &&& forall|j: int| i < j < r.len() ==> r[j] < r[i]
}

/// The highest rank among the executables, 0 when there are none.
pub open spec fn max_rank(r: Seq<i32>) -> int
    decreases r.len(),
{
    if r.len() == 0 {
        0
    } else if r.len() == 1 || r.last() >= max_rank(r.drop_last()) {
        r.last() as int
    } else {
        max_rank(r.drop_last())
    }
}

fn copy_candidate(e: &ExecutableCandidate) -> (r: ExecutableCandidate)
    ensures
        r.path@ == e.path@,
        r.filename@ == e.filename@,
        r.size_mb == e.size_mb,
        r.rank_score == e.rank_score,
        r.executable_type == e.executable_type,
{
    ExecutableCandidate {
        path: e.path.clone(),
        filename: e.filename.clone(),
        size_mb: e.size_mb,
        rank_score: e.rank_score,
        executable_type: e.executable_type,
    }
}

/// An executable candidate as values.
pub struct CandidateView {
    pub path: Seq<char>,
    pub filename: Seq<char>,
    pub size_mb: u64,
    pub rank_score: i32,
    pub executable_type: ExecutableType,
}

pub open spec fn cand_view(e: ExecutableCandidate) -> CandidateView {
    CandidateView { path: e.path@, filename: e.filename@, size_mb: e.size_mb, rank_score: e.rank_score, executable_type: e.executable_type }
}

pub open spec fn cand_views(v: Seq<ExecutableCandidate>) -> Seq<CandidateView> {
    v.map_values(|e: ExecutableCandidate| cand_view(e))
}

/// `t` placed into `s` after every candidate of at least its rank.
pub open spec fn insert_by_rank(s: Seq<CandidateView>, t: CandidateView) -> Seq<CandidateView>
    decreases s.len(),
{
    if s.len() == 0 {
        seq![t]
    } else if s.last().rank_score >= t.rank_score {
        s.push(t)
    } else {
        insert_by_rank(s.drop_last(), t).push(s.last())
    }
}

/// Stable sort by decreasing rank: candidates of equal rank keep their order.
pub open spec fn sort_by_rank(s: Seq<CandidateView>) -> Seq<CandidateView>
    decreases s.len(),
{
    if s.len() == 0 {
        Seq::empty()
    } else {
        insert_by_rank(sort_by_rank(s.drop_last()), s.last())
    }
}

proof fn lemma_insert_by_rank_at(s: Seq<CandidateView>, t: CandidateView, p: int)
    requires
        0 <= p <= s.len(),
        forall|q: int| p <= q < s.len() ==> (#[trigger] s[q]).rank_score < t.rank_score,
        p == 0 || s[p - 1].rank_score >= t.rank_score,
    ensures
        insert_by_rank(s, t) == s.insert(p, t),
    decreases s.len(),
{
    if s.len() == 0 {
        assert(s.insert(p, t) =~= seq![t]);
    } else if s.last().rank_score >= t.rank_score {
        assert(p == s.len());
        assert(s.insert(p, t) =~= s.push(t));
    } else {
        lemma_insert_by_rank_at(s.drop_last(), t, p);
        assert(s.insert(p, t) =~= s.drop_last().insert(p, t).push(s.last()));
    }
}

/// Stable sort of ranks, largest first.
pub open spec fn insert_rank(s: Seq<i32>, x: i32) -> Seq<i32>
    decreases s.len(),
{
    if s.len() == 0 {
        seq![x]
    } else if s.last() >= x {
        s.push(x)
    } else {
        insert_rank(s.drop_last(), x).push(s.last())
    }
}

impl GameDiscovery {
    /// The executable with the highest rank (the last such one), if there is any.
    pub fn best_executable(&self) -> (r: Option<&ExecutableCandidate>)
        ensures
            r is None <==> self.executables.len() == 0,
            match r {
                Some(e) => exists|i: int| is_best_index(ranks(self.executables@), i) && *e == self.executables@[i],
                None => true,
            },
    {
        let ex = &self.executables;
        if ex.len() == 0 {
            return None;
        }
        let ghost rv = ranks(ex@);
        let mut best: usize = 0;
        let mut i: usize = 1;
        while i < ex.len()
            invariant
                1 <= i <= ex.len(),
                best < i,
                rv == ranks(ex@),
                forall|j: int| 0 <= j < i ==> rv[j] <= rv[best as int],
                forall|j: int| best < j < i ==> rv[j] < rv[best as int],
            decreases ex.len() - i,
        {
            if ex[i].rank_score >= ex[best].rank_score {
                best = i;
            }
            i = i + 1;
        }
        assert(is_best_index(rv, best as int));
        Some(&ex[best])
    }

    /// The executables from the highest rank down; equal ranks keep their order.
    pub fn sorted_executables(&self) -> (r: Vec<ExecutableCandidate>)
        ensures
            cand_views(r@) == sort_by_rank(cand_views(self.executables@)),
            r.len() == self.executables.len(),
            forall|i: int, j: int| 0 <= i < j < r.len() ==> r@[i].rank_score >= r@[j].rank_score,
            ranks(r@).to_multiset() == ranks(self.executables@).to_multiset(),
    {
        broadcast use vstd::seq_lib::group_to_multiset_ensures;
        let ex = &self.executables;
        let ghost rv = ranks(ex@);
        let mut out: Vec<ExecutableCandidate> = Vec::new();
        let mut i: usize = 0;
        assert(rv.take(0) =~= Seq::<i32>::empty());
        while i < ex.len()
            invariant
                i <= ex.len(),
                rv == ranks(ex@),
                out.len() == i,
                forall|a: int, b: int| 0 <= a < b < out.len() ==> out@[a].rank_score >= out@[b].rank_score,
                ranks(out@).to_multiset() == rv.take(i as int).to_multiset(),
                cand_views(out@) == sort_by_rank(cand_views(ex@).take(i as int)),
            decreases ex.len() - i,
        {
            let x = ex[i].rank_score;
            let mut p = out.len();
            while p > 0 && out[p - 1].rank_score < x
                invariant
                    p <= out.len(),
                    forall|q: int| p <= q < out.len() ==> out@[q].rank_score < x,
                decreases p,
            {
                p = p - 1;
            }
            let ghost before = out@;
            out.insert(p, copy_candidate(&ex[i]));
            proof {
                let cv = cand_views(ex@);
                assert(cv.take(i + 1).drop_last() =~= cv.take(i as int));
                assert(cv.take(i + 1).last() == cand_view(ex@[i as int]));
                assert forall|q: int| p <= q < cand_views(before).len() implies (#[trigger] cand_views(before)[q]).rank_score < x by {
                    assert(cand_views(before)[q] == cand_view(before[q]));
                }
                if p > 0 {
                    assert(cand_views(before)[p - 1] == cand_view(before[p - 1]));
                }
                lemma_insert_by_rank_at(cand_views(before), cand_view(ex@[i as int]), p as int);
                assert(cand_views(out@) =~= cand_views(before).insert(p as int, cand_view(ex@[i as int])));
                assert(ranks(out@) =~= ranks(before).insert(p as int, x));
                assert(rv.take(i + 1) =~= rv.take(i as int).push(x));
                vstd::seq_lib::to_multiset_insert(ranks(before), p as int, x);
                vstd::seq_lib::to_multiset_build(rv.take(i as int), x);
                assert forall|a: int, b: int| 0 <= a < b < out.len() implies out@[a].rank_score >= out@[b].rank_score by {
                    if b < p {
                        assert(out@[a] == before[a] && out@[b] == before[b]);
                    } else if b == p {
                        if a < p - 1 {
                            assert(out@[a] == before[a]);
                            assert(before[a].rank_score >= before[p - 1].rank_score);
                        } else {
                            assert(out@[a] == before[a]);
                        }
                    } else if a < p {
                        assert(out@[a] == before[a] && out@[b] == before[b - 1]);
                    } else if a == p {
                        assert(out@[b] == before[b - 1]);
                    } else {
                        assert(out@[a] == before[a - 1] && out@[b] == before[b - 1]);
                    }
                }
            }
            i = i + 1;
        }
        assert(rv.take(ex.len() as int) =~= rv);
        assert(cand_views(ex@).take(ex.len() as int) =~= cand_views(ex@));
        out
    }
}

/// How confident a discovery is: the highest rank of its executables, 0 when it has none.
pub fn discovery_confidence(executables: &Vec<ExecutableCandidate>) -> (r: i32)
    ensures
        r == max_rank(ranks(executables@)),
        executables.len() > 0 ==> exists|i: int| 0 <= i < executables.len() && r == executables@[i].rank_score,
        forall|i: int| 0 <= i < executables.len() ==> executables@[i].rank_score <= r || executables.len() == 0,
{
    let ghost rv = ranks(executables@);
    if executables.len() == 0 {
        return 0;
    }
    let mut m = executables[0].rank_score;
    let mut i: usize = 1;
    assert(rv.take(1).drop_last() =~= Seq::<i32>::empty());
    while i < executables.len()
        invariant
            1 <= i <= executables.len(),
            rv == ranks(executables@),
            m == max_rank(rv.take(i as int)),
            exists|k: int| 0 <= k < i && m == executables@[k].rank_score,
            forall|k: int| 0 <= k < i ==> executables@[k].rank_score <= m,
        decreases executables.len() - i,
    {
        assert(rv.take(i + 1).drop_last() =~= rv.take(i as int));
        if executables[i].rank_score >= m {
            m = executables[i].rank_score;
        }
        i = i + 1;
    }
    assert(rv.take(executables.len() as int) =~= rv);
    m
}


proof fn lemma_insert_by_rank_sorted(s: Seq<CandidateView>, t: CandidateView)
    requires
        forall|i: int, j: int| 0 <= i < j < s.len() ==> (#[trigger] s[i]).rank_score >= (#[trigger] s[j]).rank_score,
    ensures
        insert_by_rank(s, t).to_multiset() == s.to_multiset().insert(t),
        forall|i: int, j: int|
            0 <= i < j < insert_by_rank(s, t).len() ==> (#[trigger] insert_by_rank(s, t)[i]).rank_score
                >= (#[trigger] insert_by_rank(s, t)[j]).rank_score,
    decreases s.len(),
{
    broadcast use vstd::seq_lib::group_to_multiset_ensures;
    if s.len() == 0 {
        assert(seq![t] =~= Seq::<CandidateView>::empty().push(t));
    } else if s.last().rank_score >= t.rank_score {
    } else {
        let d = s.drop_last();
        let l = s.last();
        lemma_insert_by_rank_sorted(d, t);
        let m = insert_by_rank(d, t);
        let r = m.push(l);
        assert(s =~= d.push(l));
        assert forall|i: int, j: int| 0 <= i < j < r.len() implies (#[trigger] r[i]).rank_score >= (#[trigger] r[j]).rank_score by {
            if j == m.len() {
                assert(m.to_multiset().count(r[i]) > 0);
                assert(d.to_multiset().insert(t).count(r[i]) > 0);
                if r[i] != t {
                    assert(d.to_multiset().count(r[i]) > 0);
                    assert(d.contains(r[i]));
                    let k2 = d.index_of(r[i]);
                    assert(s[k2] == d[k2]);
                }
            }
        }
    }
}

proof fn lemma_sort_by_rank_props(s: Seq<CandidateView>)
    ensures
        sort_by_rank(s).to_multiset() == s.to_multiset(),
        forall|i: int, j: int| 0 <= i < j < sort_by_rank(s).len() ==> (#[trigger] sort_by_rank(s)[i]).rank_score
            >= (#[trigger] sort_by_rank(s)[j]).rank_score,
    decreases s.len(),
{
    broadcast use vstd::seq_lib::group_to_multiset_ensures;
    if s.len() > 0 {
        lemma_sort_by_rank_props(s.drop_last());
        lemma_insert_by_rank_sorted(sort_by_rank(s.drop_last()), s.last());
        assert(s =~= s.drop_last().push(s.last()));
    }
}

/// The executables sorted by rank are the same executables, from the highest rank down
/// (equal ranks keep their order, by the definition of the sort), and the first of them
/// has the rank of the best executable.
pub proof fn lemma_sorted_executables_law(s: Seq<CandidateView>)
    ensures
        sort_by_rank(s).len() == s.len(),
        sort_by_rank(s).to_multiset() == s.to_multiset(),
        forall|i: int, j: int| 0 <= i < j < sort_by_rank(s).len() ==> (#[trigger] sort_by_rank(s)[i]).rank_score
            >= (#[trigger] sort_by_rank(s)[j]).rank_score,
        forall|b: int| 0 <= b < s.len() && (forall|j: int| 0 <= j < s.len() ==> (#[trigger] s[j]).rank_score <= s[b].rank_score)
            ==> sort_by_rank(s)[0].rank_score == (#[trigger] s[b]).rank_score,
{
    lemma_sort_by_rank_props(s);
    let r = sort_by_rank(s);
    assert(r.len() == s.len()) by {
        vstd::seq_lib::to_multiset_len(r);
        vstd::seq_lib::to_multiset_len(s);
    }
    assert forall|b: int| 0 <= b < s.len() && (forall|j: int| 0 <= j < s.len() ==> (#[trigger] s[j]).rank_score <= s[b].rank_score)
        implies r[0].rank_score == (#[trigger] s[b]).rank_score by {
        vstd::seq_lib::to_multiset_contains(s, s[b]);
        vstd::seq_lib::to_multiset_contains(r, s[b]);
        vstd::seq_lib::to_multiset_contains(r, r[0]);
        vstd::seq_lib::to_multiset_contains(s, r[0]);
        assert(s.contains(s[b]));
        assert(r.contains(s[b]));
        let k = choose|k: int| 0 <= k < r.len() && r[k] == s[b];
        if k > 0 {
            assert(r[0].rank_score >= r[k].rank_score);
        }
        assert(r.contains(r[0]));
        assert(s.contains(r[0]));
        let k0 = choose|k0: int| 0 <= k0 < s.len() && s[k0] == r[0];
        assert(s[k0].rank_score <= s[b].rank_score);
    }
}

} // verus!
