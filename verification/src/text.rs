//! Character-level text utilities shared by the parsers and matchers of the library.
//!
//! Strings are reasoned about through their view, a `Seq<char>`. Most algorithms copy the
//! characters of a `&str` into a `Vec<char>` once and work on indices from there.
use vstd::prelude::*;

verus! {

// ---------------------------------------------------------------------------
// Specifications
// ---------------------------------------------------------------------------

/// Unicode `White_Space` property, the set used by `char::is_whitespace`.
pub open spec fn is_ws(c: char) -> bool {
    ||| c == '\t'
    ||| c == '\n'
    ||| c == '\x0B'
    ||| c == '\x0C'
    ||| c == '\r'
    ||| c == ' '
    ||| c == '\u{85}'
    ||| c == '\u{A0}'
    ||| c == '\u{1680}'
    ||| ('\u{2000}' <= c && c <= '\u{200A}')
    ||| c == '\u{2028}'
    ||| c == '\u{2029}'
    ||| c == '\u{202F}'
    ||| c == '\u{205F}'
    ||| c == '\u{3000}'
}

/// Removes leading white space.
pub open spec fn trim_start_seq(s: Seq<char>) -> Seq<char>
    decreases s.len(),
{
    if s.len() > 0 && is_ws(s[0]) {
        trim_start_seq(s.drop_first())
    } else {
        s
    }
}

/// Removes trailing white space.
pub open spec fn trim_end_seq(s: Seq<char>) -> Seq<char>
    decreases s.len(),
{
    if s.len() > 0 && is_ws(s.last()) {
        trim_end_seq(s.drop_last())
    } else {
        s
    }
}

/// Removes leading and trailing white space (`str::trim`).
pub open spec fn trim_seq(s: Seq<char>) -> Seq<char> {
    trim_end_seq(trim_start_seq(s))
}

/// `p` occurs in `s` starting at index `i`.
pub open spec fn occurs_at(s: Seq<char>, p: Seq<char>, i: int) -> bool {
    0 <= i && i + p.len() <= s.len() && s.subrange(i, i + p.len()) == p
}

/// `p` is a substring of `s`.
pub open spec fn contains_seq(s: Seq<char>, p: Seq<char>) -> bool {
    exists|i: int| occurs_at(s, p, i)
}

/// `s` starts with `p`.
pub open spec fn starts_with_seq(s: Seq<char>, p: Seq<char>) -> bool {
    p.len() <= s.len() && s.subrange(0, p.len() as int) == p
}

/// `s` ends with `p`.
pub open spec fn ends_with_seq(s: Seq<char>, p: Seq<char>) -> bool {
    p.len() <= s.len() && s.subrange(s.len() - p.len(), s.len() as int) == p
}

/// Index of the first occurrence of `p` in `s` at or after `from`, if any.
pub open spec fn is_first_occurrence(s: Seq<char>, p: Seq<char>, from: int, i: int) -> bool {
    &&& from <= i
    &&& occurs_at(s, p, i)
    &&& forall|j: int| from <= j < i ==> !occurs_at(s, p, j)
}

/// What `str::to_lowercase` returns for a string, by its characters.
pub uninterp spec fn lowercase_of(s: Seq<char>) -> Seq<char>;

/// The ASCII lowercase of a character: `A`–`Z` become `a`–`z`, others stay.
pub open spec fn ascii_lower(c: char) -> char {
    if 'A' <= c && c <= 'Z' {
        ((c as u32) + 32) as char
    } else {
        c
    }
}

/// Every character is ASCII.
pub open spec fn all_ascii(s: Seq<char>) -> bool {
    forall|i: int| 0 <= i < s.len() ==> (#[trigger] s[i] as u32) < 128
}

/// Every character of `s` is replaced by `to` where it equals `from`.
pub open spec fn replace_char_seq(s: Seq<char>, from: char, to: char) -> Seq<char> {
    Seq::new(s.len(), |i: int| if s[i] == from { to } else { s[i] })
}

/// ASCII decimal digit.
pub open spec fn is_ascii_digit(c: char) -> bool {
    '0' <= c && c <= '9'
}

/// Value of the ASCII decimal digits `s`, most significant first.
pub open spec fn digits_value(s: Seq<char>) -> nat
    decreases s.len(),
{
    if s.len() == 0 {
        0
    } else {
        digits_value(s.drop_last()) * 10 + ((s.last() as int - '0' as int) as nat)
    }
}

/// All characters of `s` are ASCII digits.
pub open spec fn all_digits(s: Seq<char>) -> bool {
    forall|i: int| 0 <= i < s.len() ==> is_ascii_digit(#[trigger] s[i])
}

/// The digits part of an unsigned integer literal as `str::parse` reads it:
/// an optional leading `+` followed by the digits.
pub open spec fn unsigned_digits(s: Seq<char>) -> Seq<char> {
    if s.len() > 0 && s[0] == '+' {
        s.drop_first()
    } else {
        s
    }
}

/// `s` is a well-formed unsigned decimal literal (`str::parse::<uN>` syntax).
pub open spec fn is_unsigned_literal(s: Seq<char>) -> bool {
    unsigned_digits(s).len() > 0 && all_digits(unsigned_digits(s))
}

/// Lexicographic order on character sequences, the order of `str`'s `Ord`.
pub open spec fn seq_le(a: Seq<char>, b: Seq<char>) -> bool
    decreases a.len(),
{
    if a.len() == 0 {
        true
    } else if b.len() == 0 {
        false
    } else if a[0] != b[0] {
        a[0] < b[0]
    } else {
        seq_le(a.drop_first(), b.drop_first())
    }
}

// ---------------------------------------------------------------------------
// Lemmas about the specifications
// ---------------------------------------------------------------------------

/// Lexicographic order is total.
pub proof fn lemma_seq_le_total(a: Seq<char>, b: Seq<char>)
    ensures
        seq_le(a, b) || seq_le(b, a),
    decreases a.len(),
{
    if a.len() > 0 && b.len() > 0 && a[0] == b[0] {
        lemma_seq_le_total(a.drop_first(), b.drop_first());
    }
}

/// Lexicographic order is transitive.
pub proof fn lemma_seq_le_trans(a: Seq<char>, b: Seq<char>, c: Seq<char>)
    requires
        seq_le(a, b),
        seq_le(b, c),
    ensures
        seq_le(a, c),
    decreases a.len(),
{
    if a.len() > 0 && b.len() > 0 && c.len() > 0 && a[0] == b[0] && b[0] == c[0] {
        lemma_seq_le_trans(a.drop_first(), b.drop_first(), c.drop_first());
    }
}

// ---------------------------------------------------------------------------
// Trusted std calls
// ---------------------------------------------------------------------------

/// `String::push`: appends one character at the end of the string.
#[verifier::external_body]
pub(crate) fn push_char(s: &mut String, c: char)
    ensures
        final(s)@ == old(s)@.push(c),
{
    s.push(c);
}

/// `str::to_lowercase`: the lowercase equivalent of the string, by the Unicode
/// `Lowercase` mapping. The result is named; it depends on the string alone. Of an ASCII
/// string the contract states it: `A`–`Z` become `a`–`z`, other characters stay.
#[verifier::external_body]
pub(crate) fn to_lowercase(s: &str) -> (r: String)
    ensures
        r@ == lowercase_of(s@),
        all_ascii(s@) ==> r@ == s@.map_values(|c: char| ascii_lower(c)),
{
    s.to_lowercase()
}

// ---------------------------------------------------------------------------
// Executable helpers
// ---------------------------------------------------------------------------

/// Copies the characters of `s` into a vector.
pub fn chars_of(s: &str) -> (v: Vec<char>)
    ensures
        v@ == s@,
{
    let n = s.unicode_len();
    let mut v: Vec<char> = Vec::new();
    let mut i: usize = 0;
    while i < n
        invariant
            n == s@.len(),
            i <= n,
            v@ == s@.subrange(0, i as int),
        decreases n - i,
    {
        let c = s.get_char(i);
        v.push(c);
        i = i + 1;
        assert(v@ =~= s@.subrange(0, i as int));
    }
    assert(v@ =~= s@);
    v
}

/// Builds a string from the characters `v[from..to]`.
pub fn string_from_range(v: &Vec<char>, from: usize, to: usize) -> (s: String)
    requires
        from <= to <= v.len(),
    ensures
        s@ == v@.subrange(from as int, to as int),
{
    let mut s = String::new();
    let mut i: usize = from;
    while i < to
        invariant
            from <= i <= to <= v.len(),
            s@ == v@.subrange(from as int, i as int),
        decreases to - i,
    {
        push_char(&mut s, v[i]);
        i = i + 1;
        assert(s@ =~= v@.subrange(from as int, i as int));
    }
    s
}

/// Builds a string from all characters of `v`.
pub fn string_from(v: &Vec<char>) -> (s: String)
    ensures
        s@ == v@,
{
    let s = string_from_range(v, 0, v.len());
    assert(v@.subrange(0, v@.len() as int) =~= v@);
    s
}

/// Copies a string.
pub fn copy_string(s: &str) -> (r: String)
    ensures
        r@ == s@,
{
    let v = chars_of(s);
    string_from(&v)
}

/// `p` occurs in `s` at index `i` (executable check on character vectors).
pub fn occurs_at_vec(s: &Vec<char>, p: &Vec<char>, i: usize) -> (b: bool)
    ensures
        b == occurs_at(s@, p@, i as int),
{
    if i > s.len() || p.len() > s.len() - i {
        return false;
    }
    let mut k: usize = 0;
    while k < p.len()
        invariant
            i + p.len() <= s.len(),
            k <= p.len(),
            forall|j: int| 0 <= j < k ==> s@[i + j] == p@[j],
        decreases p.len() - k,
    {
        if s[i + k] != p[k] {
            assert(s@.subrange(i as int, i + p.len())[k as int] != p@[k as int]);
            return false;
        }
        k = k + 1;
    }
    assert(s@.subrange(i as int, i + p.len()) =~= p@);
    true
}

/// First index at or after `from` where `p` occurs in `s`.
pub fn find_from_vec(s: &Vec<char>, p: &Vec<char>, from: usize) -> (r: Option<usize>)
    ensures
        match r {
            Some(i) => is_first_occurrence(s@, p@, from as int, i as int),
            None => forall|j: int| from <= j ==> !occurs_at(s@, p@, j),
        },
{
    if p.len() > s.len() {
        return None;
    }
    let last = s.len() - p.len();
    let mut i: usize = from;
    while i <= last
        invariant
            last == s.len() - p.len(),
            from <= i,
            forall|j: int| from <= j < i ==> !occurs_at(s@, p@, j),
        decreases last + 1 - i,
    {
        if occurs_at_vec(s, p, i) {
            return Some(i);
        }
        if i == last {
            return None;
        }
        i = i + 1;
    }
    None
}

/// `p` is a substring of `s`.
pub fn contains_vec(s: &Vec<char>, p: &Vec<char>) -> (b: bool)
    ensures
        b == contains_seq(s@, p@),
{
    match find_from_vec(s, p, 0) {
        Some(i) => {
            assert(occurs_at(s@, p@, i as int));
            true
        },
        None => false,
    }
}

/// `p` is a substring of `s`.
pub fn contains_str(s: &str, p: &str) -> (b: bool)
    ensures
        b == contains_seq(s@, p@),
{
    let sv = chars_of(s);
    let pv = chars_of(p);
    contains_vec(&sv, &pv)
}

/// `s` starts with `p`.
pub fn starts_with_str(s: &str, p: &str) -> (b: bool)
    ensures
        b == starts_with_seq(s@, p@),
{
    let sv = chars_of(s);
    let pv = chars_of(p);
    occurs_at_vec(&sv, &pv, 0)
}

/// `s` ends with `p`.
pub fn ends_with_str(s: &str, p: &str) -> (b: bool)
    ensures
        b == ends_with_seq(s@, p@),
{
    let sv = chars_of(s);
    let pv = chars_of(p);
    if pv.len() > sv.len() {
        return false;
    }
    occurs_at_vec(&sv, &pv, sv.len() - pv.len())
}

/// Character sequences are equal.
pub fn eq_str(a: &str, b: &str) -> (r: bool)
    ensures
        r == (a@ == b@),
{
    let av = chars_of(a);
    let bv = chars_of(b);
    if av.len() != bv.len() {
        return false;
    }
    let r = occurs_at_vec(&av, &bv, 0);
    assert(r ==> av@ =~= bv@.subrange(0, bv@.len() as int));
    assert(bv@.subrange(0, bv@.len() as int) =~= bv@);
    r
}


// ---------------------------------------------------------------------------
// Trimming, splitting and replacing
// ---------------------------------------------------------------------------

/// Unicode white space (`char::is_whitespace`).
pub fn is_whitespace(c: char) -> (b: bool)
    ensures
        b == is_ws(c),
{
    c == '\t' || c == '\n' || c == '\x0B' || c == '\x0C' || c == '\r' || c == ' ' || c == '\u{85}'
        || c == '\u{A0}' || c == '\u{1680}' || ('\u{2000}' <= c && c <= '\u{200A}') || c
        == '\u{2028}' || c == '\u{2029}' || c == '\u{202F}' || c == '\u{205F}' || c == '\u{3000}'
}

/// Bounds `[a, b)` of `trim_seq(v)` inside `v`.
pub fn trim_bounds(v: &Vec<char>) -> (r: (usize, usize))
    ensures
        r.0 <= r.1 <= v.len(),
        v@.subrange(r.0 as int, r.1 as int) == trim_seq(v@),
{
    let n = v.len();
    let mut a: usize = 0;
    assert(v@.subrange(0, n as int) =~= v@);
    while a < n && is_whitespace(v[a])
        invariant
            a <= n == v.len(),
            trim_start_seq(v@) == trim_start_seq(v@.subrange(a as int, n as int)),
        decreases n - a,
    {
        assert(v@.subrange(a as int, n as int).drop_first() =~= v@.subrange(a + 1, n as int));
        a = a + 1;
    }
    assert(trim_start_seq(v@) == v@.subrange(a as int, n as int));
    let mut b: usize = n;
    while b > a && is_whitespace(v[b - 1])
        invariant
            a <= b <= n == v.len(),
            trim_seq(v@) == trim_end_seq(v@.subrange(a as int, b as int)),
        decreases b - a,
    {
        assert(v@.subrange(a as int, b as int).drop_last() =~= v@.subrange(a as int, b - 1));
        b = b - 1;
    }
    (a, b)
}

/// `str::trim`.
pub fn trim(s: &str) -> (r: String)
    ensures
        r@ == trim_seq(s@),
{
    let v = chars_of(s);
    let (a, b) = trim_bounds(&v);
    string_from_range(&v, a, b)
}

/// Index of the first `\n` at or after `i`, or the length when there is none.
pub open spec fn newline_pos(s: Seq<char>, i: int) -> int
    decreases s.len() - i,
{
    if i < 0 || i >= s.len() {
        s.len() as int
    } else if s[i] == '\n' {
        i
    } else {
        newline_pos(s, i + 1)
    }
}

/// A line without its terminator: a `\r` before the `\n` is dropped.
pub open spec fn strip_cr(piece: Seq<char>) -> Seq<char> {
    if piece.len() > 0 && piece.last() == '\r' {
        piece.drop_last()
    } else {
        piece
    }
}

/// The lines of `s` from `start` on, as `str::lines` yields them: split at `\n`, with a
/// `\r` just before a `\n` dropped; a final line ending adds no empty line.
pub open spec fn lines_from(s: Seq<char>, start: int) -> Seq<Seq<char>>
    decreases s.len() - start,
{
    if start < 0 || start >= s.len() {
        seq![]
    } else {
        let i = newline_pos(s, start);
        if i >= s.len() || i < start {
            seq![s.subrange(start, s.len() as int)]
        } else {
            seq![strip_cr(s.subrange(start, i))] + lines_from(s, i + 1)
        }
    }
}

/// The lines of `s` (`str::lines`).
pub open spec fn lines_spec(s: Seq<char>) -> Seq<Seq<char>> {
    lines_from(s, 0)
}

proof fn lemma_newline_pos_skip(s: Seq<char>, a: int, b: int)
    requires
        0 <= a <= b <= s.len(),
        forall|j: int| a <= j < b ==> s[j] != '\n',
    ensures
        newline_pos(s, a) == newline_pos(s, b),
    decreases b - a,
{
    if a < b {
        lemma_newline_pos_skip(s, a + 1, b);
    }
}

pub open spec fn views_of(v: Seq<Vec<char>>) -> Seq<Seq<char>> {
    v.map_values(|x: Vec<char>| x@)
}

/// Copies `s[from..to]` into a new vector.
pub fn slice_vec(s: &Vec<char>, from: usize, to: usize) -> (r: Vec<char>)
    requires
        from <= to <= s.len(),
    ensures
        r@ == s@.subrange(from as int, to as int),
{
    let mut line: Vec<char> = Vec::new();
    let mut k = from;
    while k < to
        invariant
            from <= k <= to <= s.len(),
            line@ == s@.subrange(from as int, k as int),
        decreases to - k,
    {
        line.push(s[k]);
        k = k + 1;
        assert(line@ =~= s@.subrange(from as int, k as int));
    }
    line
}

/// `str::lines`, as character vectors.
pub fn lines_of(s: &Vec<char>) -> (r: Vec<Vec<char>>)
    ensures
        views_of(r@) == lines_spec(s@),
{
    let n = s.len();
    let mut out: Vec<Vec<char>> = Vec::new();
    let mut start: usize = 0;
    let mut i: usize = 0;
    while i < n
        invariant
            n == s.len(),
            start <= i <= n,
            forall|j: int| start <= j < i ==> s@[j] != '\n',
            lines_spec(s@) == views_of(out@) + lines_from(s@, start as int),
        decreases n - i,
    {
        if s[i] == '\n' {
            proof {
                lemma_newline_pos_skip(s@, start as int, i as int);
            }
            let mut end = i;
            if end > start && s[end - 1] == '\r' {
                end = end - 1;
            }
            let line = slice_vec(s, start, end);
            proof {
                let piece = s@.subrange(start as int, i as int);
                if piece.len() > 0 && piece.last() == '\r' {
                    assert(piece.drop_last() =~= line@);
                } else {
                    assert(piece =~= line@);
                }
            }
            let ghost old_out = out@;
            out.push(line);
            proof {
                assert(views_of(out@) =~= views_of(old_out).push(out@[out@.len() - 1]@));
                assert(views_of(out@) + lines_from(s@, i + 1) =~= views_of(old_out) + (seq![
                    out@[out@.len() - 1]@,
                ] + lines_from(s@, i + 1)));
            }
            start = i + 1;
        }
        i = i + 1;
    }
    if start < n {
        proof {
            lemma_newline_pos_skip(s@, start as int, n as int);
        }
        let line = slice_vec(s, start, n);
        let ghost old_out = out@;
        out.push(line);
        proof {
            assert(views_of(out@) =~= views_of(old_out).push(line@));
            assert(views_of(out@) =~= views_of(old_out) + lines_from(s@, start as int));
        }
    } else {
        proof {
            assert(views_of(out@) + lines_from(s@, start as int) =~= views_of(out@));
        }
    }
    out
}


/// Index of the first `c` at or after `i`, or the length when there is none.
pub open spec fn char_pos(s: Seq<char>, c: char, i: int) -> int
    decreases s.len() - i,
{
    if i < 0 || i >= s.len() {
        s.len() as int
    } else if s[i] == c {
        i
    } else {
        char_pos(s, c, i + 1)
    }
}

/// The `k`-th piece (from 0) of `s[start..]` split at `c` (`str::split(c).nth(k)`).
pub open spec fn split_nth_from(s: Seq<char>, c: char, start: int, k: nat) -> Option<Seq<char>>
    decreases k,
{
    let e = char_pos(s, c, start);
    if k == 0 {
        Some(s.subrange(start, e))
    } else if e >= s.len() {
        None
    } else {
        split_nth_from(s, c, e + 1, (k - 1) as nat)
    }
}

/// The `k`-th piece (from 0) of `s` split at `c`.
pub open spec fn split_nth_spec(s: Seq<char>, c: char, k: nat) -> Option<Seq<char>> {
    split_nth_from(s, c, 0, k)
}

proof fn lemma_char_pos_bounds(s: Seq<char>, c: char, i: int)
    requires
        0 <= i <= s.len(),
    ensures
        i <= char_pos(s, c, i) <= s.len(),
        char_pos(s, c, i) < s.len() ==> s[char_pos(s, c, i)] == c,
    decreases s.len() - i,
{
    if i < s.len() && s[i] != c {
        lemma_char_pos_bounds(s, c, i + 1);
    }
}

/// Position of the first `c` at or after `i` (or the length).
pub fn find_char_from(s: &Vec<char>, c: char, i: usize) -> (r: usize)
    requires
        i <= s.len(),
    ensures
        r as int == char_pos(s@, c, i as int),
{
    let mut j = i;
    while j < s.len() && s[j] != c
        invariant
            i <= j <= s.len(),
            char_pos(s@, c, i as int) == char_pos(s@, c, j as int),
        decreases s.len() - j,
    {
        j = j + 1;
    }
    j
}

/// The `k`-th piece of `s` split at `c` (`str::split(c).nth(k)`).
pub fn split_nth(s: &Vec<char>, c: char, k: usize) -> (r: Option<Vec<char>>)
    ensures
        match r {
            Some(v) => split_nth_spec(s@, c, k as nat) == Some(v@),
            None => split_nth_spec(s@, c, k as nat) is None,
        },
{
    let mut start: usize = 0;
    let mut left: usize = k;
    loop
        invariant
            start <= s.len(),
            split_nth_spec(s@, c, k as nat) == split_nth_from(s@, c, start as int, left as nat),
        decreases left,
    {
        let e = find_char_from(s, c, start);
        proof {
            lemma_char_pos_bounds(s@, c, start as int);
        }
        if left == 0 {
            return Some(slice_vec(s, start, e));
        }
        if e >= s.len() {
            return None;
        }
        start = e + 1;
        left = left - 1;
    }
}

/// `s` with every non-overlapping occurrence of `from`, scanned left to right from
/// `start`, replaced by `to` (`str::replace`).
pub open spec fn replace_from(s: Seq<char>, from: Seq<char>, to: Seq<char>, start: int) -> Seq<
    char,
>
    decreases s.len() - start,
{
    if start < 0 || start >= s.len() || from.len() == 0 {
        s.subrange(if 0 <= start <= s.len() { start } else { s.len() as int }, s.len() as int)
    } else if occurs_at(s, from, start) {
        to + replace_from(s, from, to, start + from.len())
    } else {
        seq![s[start]] + replace_from(s, from, to, start + 1)
    }
}

/// `str::replace` for a non-empty pattern.
pub fn replace_all(s: &Vec<char>, from: &Vec<char>, to: &Vec<char>) -> (r: Vec<char>)
    requires
        from.len() > 0,
    ensures
        r@ == replace_from(s@, from@, to@, 0),
{
    let mut out: Vec<char> = Vec::new();
    let mut i: usize = 0;
    while i < s.len()
        invariant
            from.len() > 0,
            i <= s.len(),
            replace_from(s@, from@, to@, 0) == out@ + replace_from(s@, from@, to@, i as int),
        decreases s.len() - i,
    {
        let ghost old_out = out@;
        if occurs_at_vec(s, from, i) {
            let mut k: usize = 0;
            while k < to.len()
                invariant
                    k <= to.len(),
                    out@ == old_out + to@.subrange(0, k as int),
                decreases to.len() - k,
            {
                out.push(to[k]);
                k = k + 1;
                assert(out@ =~= old_out + to@.subrange(0, k as int));
            }
            assert(to@.subrange(0, to@.len() as int) =~= to@);
            assert(old_out + (to@ + replace_from(s@, from@, to@, i + from@.len())) =~= out@
                + replace_from(s@, from@, to@, i + from@.len()));
            i = i + from.len();
        } else {
            out.push(s[i]);
            assert(old_out + (seq![s@[i as int]] + replace_from(s@, from@, to@, i + 1)) =~= out@
                + replace_from(s@, from@, to@, i + 1));
            i = i + 1;
        }
    }
    assert(out@ + replace_from(s@, from@, to@, i as int) =~= out@);
    out
}

/// Every character is an ASCII digit (true of the empty sequence).
pub fn all_digits_vec(v: &Vec<char>) -> (b: bool)
    ensures
        b == all_digits(v@),
{
    let mut i: usize = 0;
    while i < v.len()
        invariant
            i <= v.len(),
            forall|j: int| 0 <= j < i ==> is_ascii_digit(#[trigger] v@[j]),
        decreases v.len() - i,
    {
        if !('0' <= v[i] && v[i] <= '9') {
            return false;
        }
        i = i + 1;
    }
    true
}

/// The characters of an optional string.
pub open spec fn opt_view(o: Option<String>) -> Option<Seq<char>> {
    match o {
        Some(s) => Some(s@),
        None => None,
    }
}

/// The character sequences of a list of strings.
pub open spec fn string_views(v: Seq<String>) -> Seq<Seq<char>> {
    v.map_values(|s: String| s@)
}

/// Whether `list` holds a string equal to `s`.
pub fn contains_string(list: &Vec<String>, s: &str) -> (b: bool)
    ensures
        b == string_views(list@).contains(s@),
{
    let mut i: usize = 0;
    while i < list.len()
        invariant
            i <= list.len(),
            forall|j: int| 0 <= j < i ==> list@[j]@ != s@,
        decreases list.len() - i,
    {
        if eq_str(list[i].as_str(), s) {
            assert(string_views(list@)[i as int] == s@);
            return true;
        }
        i = i + 1;
    }
    proof {
        if string_views(list@).contains(s@) {
            let j = choose|j: int| 0 <= j < string_views(list@).len() && string_views(list@)[j] == s@;
            assert(list@[j]@ == s@);
        }
    }
    false
}

/// `seq_le` on character vectors.
pub fn le_vec(a: &Vec<char>, b: &Vec<char>) -> (r: bool)
    ensures
        r == seq_le(a@, b@),
{
    let mut i: usize = 0;
    assert(a@.skip(0) =~= a@);
    assert(b@.skip(0) =~= b@);
    while i < a.len() && i < b.len() && a[i] == b[i]
        invariant
            i <= a.len(),
            i <= b.len(),
            seq_le(a@, b@) == seq_le(a@.skip(i as int), b@.skip(i as int)),
        decreases a.len() - i,
    {
        assert(a@.skip(i as int).drop_first() =~= a@.skip(i + 1));
        assert(b@.skip(i as int).drop_first() =~= b@.skip(i + 1));
        i = i + 1;
    }
    if i == a.len() {
        return true;
    }
    if i == b.len() {
        return false;
    }
    assert(a@.skip(i as int)[0] == a@[i as int]);
    assert(b@.skip(i as int)[0] == b@[i as int]);
    a[i] < b[i]
}

/// The decimal digit character for `d < 10`.
pub open spec fn digit_char(d: nat) -> char {
    (('0' as nat) + d) as char
}

/// Decimal representation of `n`, as `u64::to_string` writes it.
pub open spec fn decimal_seq(n: nat) -> Seq<char>
    decreases n,
{
    if n < 10 {
        seq![digit_char(n)]
    } else {
        decimal_seq(n / 10).push(digit_char(n % 10))
    }
}

/// `u64::to_string`.
pub fn u64_to_string(n: u64) -> (s: String)
    ensures
        s@ == decimal_seq(n as nat),
{
    let mut rev: Vec<char> = Vec::new();
    let mut m: u64 = n;
    assert(rev@.reverse() =~= Seq::<char>::empty());
    loop
        invariant_except_break
            decimal_seq(n as nat) == decimal_seq(m as nat) + rev@.reverse(),
        ensures
            decimal_seq(n as nat) == rev@.reverse(),
        decreases m,
    {
        let d = m % 10;
        let c = char_of_digit(d);
        if m < 10 {
            let ghost before = rev@;
            rev.push(c);
            assert(rev@.drop_last() =~= before);
            assert(rev@.reverse() =~= seq![c] + before.reverse());
            assert(decimal_seq(m as nat) == seq![c]);
            break;
        }
        let ghost before = rev@;
        rev.push(c);
        assert(rev@.drop_last() =~= before);
        assert(rev@.reverse() =~= seq![c] + rev@.drop_last().reverse());
        assert(decimal_seq(m as nat) == decimal_seq((m / 10) as nat).push(c));
        assert(decimal_seq((m / 10) as nat).push(c) + rev@.drop_last().reverse() =~= decimal_seq((m / 10) as nat) + rev@.reverse());
        m = m / 10;
    }
    let mut out: Vec<char> = Vec::new();
    let mut i: usize = rev.len();
    while i > 0
        invariant
            i <= rev.len(),
            out@ == rev@.reverse().subrange(0, (rev.len() - i) as int),
        decreases i,
    {
        i = i - 1;
        out.push(rev[i]);
        assert(out@ =~= rev@.reverse().subrange(0, (rev.len() - i) as int));
    }
    assert(out@ =~= rev@.reverse());
    string_from(&out)
}

/// Decimal representation of a signed integer, as `i32::to_string` writes it.
pub open spec fn signed_decimal(n: int) -> Seq<char> {
    if n < 0 {
        seq!['-'] + decimal_seq((-n) as nat)
    } else {
        decimal_seq(n as nat)
    }
}

/// `i32::to_string`.
pub fn i32_to_string(n: i32) -> (s: String)
    ensures
        s@ == signed_decimal(n as int),
{
    if n < 0 {
        let m: i64 = 0i64 - (n as i64);
        let digits = u64_to_string(m as u64);
        let sign = "-";
        proof {
            reveal_strlit("-");
        }
        let r = concat_str(sign, digits.as_str());
        assert(r@ =~= seq!['-'] + decimal_seq((-n) as nat));
        r
    } else {
        u64_to_string(n as u64)
    }
}

/// `i64::to_string`.
pub fn i64_to_string(n: i64) -> (s: String)
    ensures
        s@ == signed_decimal(n as int),
{
    if n < 0 {
        let m: u64 = ((0i64 - (n + 1)) as u64) + 1;
        let digits = u64_to_string(m);
        let sign = "-";
        proof {
            reveal_strlit("-");
        }
        let r = concat_str(sign, digits.as_str());
        assert(r@ =~= seq!['-'] + decimal_seq((-n) as nat));
        r
    } else {
        u64_to_string(n as u64)
    }
}

fn char_of_digit(d: u64) -> (c: char)
    requires
        d < 10,
    ensures
        c == digit_char(d as nat),
{
    if d == 0 { '0' } else if d == 1 { '1' } else if d == 2 { '2' } else if d == 3 { '3' } else if d == 4 { '4' }
    else if d == 5 { '5' } else if d == 6 { '6' } else if d == 7 { '7' } else if d == 8 { '8' } else { '9' }
}

/// Concatenation of two strings.
pub fn concat_str(a: &str, b: &str) -> (r: String)
    ensures
        r@ == a@ + b@,
{
    let mut v = chars_of(a);
    let mut w = chars_of(b);
    v.append(&mut w);
    string_from(&v)
}

proof fn lemma_digits_value_mono(s: Seq<char>, k: int)
    requires
        0 <= k <= s.len(),
    ensures
        digits_value(s.subrange(0, k)) <= digits_value(s),
    decreases s.len() - k,
{
    if k < s.len() {
        lemma_digits_value_mono(s, k + 1);
        let t = s.subrange(0, k + 1);
        assert(t.drop_last() =~= s.subrange(0, k));
    } else {
        assert(s.subrange(0, k) =~= s);
    }
}

/// `str::parse::<u64>`: an optional `+` and then one or more ASCII digits whose value fits.
pub fn parse_u64(s: &Vec<char>) -> (r: Option<u64>)
    ensures
        match r {
            Some(v) => is_unsigned_literal(s@) && v as nat == digits_value(unsigned_digits(s@)),
            None => !is_unsigned_literal(s@) || digits_value(unsigned_digits(s@)) > u64::MAX,
        },
{
    let mut i: usize = 0;
    if s.len() > 0 && s[0] == '+' {
        i = 1;
    }
    let ghost d = unsigned_digits(s@);
    assert(d =~= s@.subrange(i as int, s@.len() as int));
    if i >= s.len() {
        return None;
    }
    let mut v: u64 = 0;
    let mut k: usize = i;
    while k < s.len()
        invariant
            i <= k <= s.len(),
            d == s@.subrange(i as int, s@.len() as int),
            d == unsigned_digits(s@),
            d.len() > 0,
            forall|j: int| 0 <= j < k - i ==> is_ascii_digit(#[trigger] d[j]),
            v as nat == digits_value(d.subrange(0, k - i)),
        decreases s.len() - k,
    {
        let c = s[k];
        assert(d[k - i] == s@[k as int]);
        if !('0' <= c && c <= '9') {
            assert(!is_ascii_digit(d[k - i]));
            return None;
        }
        let digit = (c as u32 - '0' as u32) as u64;
        assert(d.subrange(0, k - i + 1).drop_last() =~= d.subrange(0, k - i));
        assert(d.subrange(0, k - i + 1).last() == c);
        assert(digits_value(d.subrange(0, k - i + 1)) == v * 10 + digit);
        proof {
            lemma_digits_value_mono(d, k - i + 1);
        }
        let m = match v.checked_mul(10) {
            Some(m) => m,
            None => {
                return None;
            },
        };
        let nv = match m.checked_add(digit) {
            Some(nv) => nv,
            None => {
                return None;
            },
        };
        v = nv;
        k = k + 1;
    }
    assert(d.subrange(0, k - i) =~= d);
    Some(v)
}

} // verus!
