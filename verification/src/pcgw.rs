//! PCGamingWiki page data: template blocks of the wikitext, their `|key = value`
//! parameters, system requirement tiers, save and config paths, and the normalization
//! of the values the wiki's query API returns.
use vstd::prelude::*;
use crate::text::{
    chars_of, concat_str, contains_seq, copy_string, decimal_seq, ends_with_seq, ends_with_str,
    eq_str, find_from_vec, is_first_occurrence, lowercase_of, occurs_at, opt_view, slice_vec,
    string_from, string_from_range, to_lowercase, trim, trim_bounds, trim_seq, u64_to_string,
    char_pos, find_char_from, is_whitespace, is_ws, occurs_at_vec,
    views_of,
};

verus! {

// ---------------------------------------------------------------------------
// Template blocks
// ---------------------------------------------------------------------------

/// Position of the `}}` that closes a template opened before `pos`, `depth` levels deep:
/// `{{` opens a level, `}}` closes one, both read as pairs from left to right.
pub open spec fn scan_close(s: Seq<char>, pos: int, depth: nat) -> Option<int>
    decreases s.len() - pos,
{
    if pos < 0 || !(pos < s.len() - 1) || depth == 0 {
        None
    } else if s[pos] == '{' && s[pos + 1] == '{' {
        scan_close(s, pos + 2, depth + 1)
    } else if s[pos] == '}' && s[pos + 1] == '}' {
        if depth == 1 {
            Some(pos)
        } else {
            scan_close(s, pos + 2, (depth - 1) as nat)
        }
    } else {
        scan_close(s, pos + 1, depth)
    }
}

pub proof fn lemma_scan_close_bounds(s: Seq<char>, pos: int, depth: nat)
    ensures
        scan_close(s, pos, depth) matches Some(c) ==> pos <= c && c + 1 < s.len(),
    decreases s.len() - pos,
{
    if pos < 0 || !(pos < s.len() - 1) || depth == 0 {
    } else if s[pos] == '{' && s[pos + 1] == '{' {
        lemma_scan_close_bounds(s, pos + 2, depth + 1);
    } else if s[pos] == '}' && s[pos + 1] == '}' {
        if depth != 1 {
            lemma_scan_close_bounds(s, pos + 2, (depth - 1) as nat);
        }
    } else {
        lemma_scan_close_bounds(s, pos + 1, depth);
    }
}

/// The inner text of each template block that starts with `marker`, searching from
/// `from`; the search stops at the first block that is never closed.
pub open spec fn blocks_from(s: Seq<char>, marker: Seq<char>, from: int) -> Seq<Seq<char>>
    decreases s.len() - from,
{
    if from < 0 || from > s.len() || !(exists|i: int| from <= i && occurs_at(s, marker, i)) {
        Seq::empty()
    } else {
        let start = choose|i: int| is_first_occurrence(s, marker, from, i);
        match scan_close(s, start + 2, 1) {
            None => Seq::empty(),
            Some(close) => {
                proof {
                    lemma_first_occurrence_exists(s, marker, from);
                    lemma_scan_close_bounds(s, start + 2, 1);
                }
                seq![s.subrange(start + 2, close)] + blocks_from(s, marker, close + 2)
            },
        }
    }
}

pub proof fn lemma_first_occurrence_exists(s: Seq<char>, p: Seq<char>, from: int)
    requires
        exists|i: int| from <= i && occurs_at(s, p, i),
    ensures
        exists|i: int| is_first_occurrence(s, p, from, i),
        forall|i: int| is_first_occurrence(s, p, from, i) ==> from <= i && i + p.len() <= s.len(),
{
    let w = choose|i: int| from <= i && occurs_at(s, p, i);
    lemma_least_occurrence(s, p, from, w);
}

pub proof fn lemma_least_occurrence(s: Seq<char>, p: Seq<char>, from: int, w: int)
    requires
        from <= w,
        occurs_at(s, p, w),
    ensures
        exists|i: int| is_first_occurrence(s, p, from, i),
    decreases w - from,
{
    if exists|j: int| from <= j < w && occurs_at(s, p, j) {
        let j = choose|j: int| from <= j < w && occurs_at(s, p, j);
        lemma_least_occurrence(s, p, from, j);
    } else {
        assert(is_first_occurrence(s, p, from, w));
    }
}

/// The inner text of every `{{<template_name>` block of the wikitext, nested templates
/// included in their parent's text.
pub open spec fn template_blocks_spec(wikitext: Seq<char>, template_name: Seq<char>) -> Seq<Seq<char>> {
    blocks_from(wikitext, "{{"@ + template_name, 0)
}

/// Position of the `}}` closing a block whose inner text starts at `pos`.
fn find_close(s: &Vec<char>, pos: usize) -> (r: Option<usize>)
    requires
        pos <= s.len(),
    ensures
        match r {
            Some(c) => scan_close(s@, pos as int, 1) == Some(c as int),
            None => scan_close(s@, pos as int, 1) is None,
        },
{
    let mut depth: usize = 1;
    let mut p: usize = pos;
    let n = s.len();
    while n > 0 && p < n - 1
        invariant
            n == s.len(),
            depth >= 1,
            pos <= p <= n,
            depth <= p + 1,
            scan_close(s@, pos as int, 1) == scan_close(s@, p as int, depth as nat),
        decreases n - p,
    {
        if s[p] == '{' && s[p + 1] == '{' {
            depth = depth + 1;
            p = p + 2;
        } else if s[p] == '}' && s[p + 1] == '}' {
            if depth == 1 {
                return Some(p);
            }
            depth = depth - 1;
            p = p + 2;
        } else {
            p = p + 1;
        }
    }
    None
}

/// The inner text (without the outer braces) of every `{{<template_name>` block of the
/// wikitext, respecting nested templates. An unclosed block ends the search.
pub fn extract_template_blocks(wikitext: &str, template_name: &str) -> (r: Vec<String>)
    ensures
        views_of_strings(r@) == template_blocks_spec(wikitext@, template_name@),
{
    let s = chars_of(wikitext);
    let mut marker = chars_of("{{");
    let mut name = chars_of(template_name);
    marker.append(&mut name);
    proof {
        reveal_strlit("{{");
    }
    let mut blocks: Vec<String> = Vec::new();
    let mut from: usize = 0;
    loop
        invariant
            s@ == wikitext@,
            marker@ == "{{"@ + template_name@,
            marker@.len() >= 2,
            from <= s.len(),
            template_blocks_spec(wikitext@, template_name@) == views_of_strings(blocks@) + blocks_from(s@, marker@, from as int),
        decreases s.len() - from,
    {
        match find_from_vec(&s, &marker, from) {
            None => {
                assert(blocks_from(s@, marker@, from as int) =~= Seq::<Seq<char>>::empty());
                assert(views_of_strings(blocks@) + Seq::<Seq<char>>::empty() =~= views_of_strings(blocks@));
                return blocks;
            },
            Some(start) => {
                proof {
                    assert(occurs_at(s@, marker@, start as int));
                    lemma_first_occurrence_exists(s@, marker@, from as int);
                    let c = choose|i: int| is_first_occurrence(s@, marker@, from as int, i);
                    if c < start {
                        assert(!occurs_at(s@, marker@, c));
                    }
                    if start < c {
                        assert(!occurs_at(s@, marker@, start as int));
                    }
                    assert(marker@.len() >= 2);
                }
                match find_close(&s, start + 2) {
                    None => {
                        assert(blocks_from(s@, marker@, from as int) =~= Seq::<Seq<char>>::empty());
                        assert(views_of_strings(blocks@) + Seq::<Seq<char>>::empty() =~= views_of_strings(blocks@));
                        return blocks;
                    },
                    Some(close) => {
                        proof {
                            lemma_scan_close_bounds(s@, start + 2, 1);
                        }
                        let ghost before = views_of_strings(blocks@);
                        blocks.push(string_from_range(&s, start + 2, close));
                        assert(views_of_strings(blocks@) =~= before.push(s@.subrange(start + 2, close as int)));
                        assert(before + blocks_from(s@, marker@, from as int) =~= views_of_strings(blocks@) + blocks_from(s@, marker@, close + 2));
                        from = close + 2;
                    },
                }
            },
        }
    }
}

/// The character sequences of a list of strings.
pub open spec fn views_of_strings(v: Seq<String>) -> Seq<Seq<char>> {
    v.map_values(|s: String| s@)
}


// ---------------------------------------------------------------------------
// Template parameters
// ---------------------------------------------------------------------------


/// A captured pair of strings.
pub struct Capture2 {
    pub first: String,
    pub second: String,
}

/// A captured triple of strings.
pub struct Capture3 {
    pub first: String,
    pub second: String,
    pub third: String,
}

pub open spec fn capture2_views(v: Seq<Capture2>) -> Seq<(Seq<char>, Seq<char>)> {
    v.map_values(|c: Capture2| (c.first@, c.second@))
}

pub open spec fn capture3_views(v: Seq<Capture3>) -> Seq<(Seq<char>, Seq<char>, Seq<char>)> {
    v.map_values(|c: Capture3| (c.first@, c.second@, c.third@))
}

// A parameter of a template block is written `|key = value`: after a `|`, the key runs
// to the first `=` (its trailing white space is not part of it, though a key keeps at
// least one character) and may hold no `|`, `}` or line break; white space after the
// `=` is skipped and the value runs to the next `|`, `}` or line break. Where a `|` does
// not start such a parameter, the search goes on at the next character; after one, it
// goes on where the value ends.

/// End of the key that starts at `a`, the text up to `b` being the key and the white
/// space after it: the position after its last character that is not white space.
pub open spec fn key_end(s: Seq<char>, a: int, b: int) -> int
    decreases b - a,
{
    if b <= a {
        a
    } else if is_ws(s[b - 1]) {
        key_end(s, a, b - 1)
    } else {
        b
    }
}

/// First position at or after `a` that is not white space (or the end).
pub open spec fn skip_ws(s: Seq<char>, a: int) -> int
    decreases s.len() - a,
{
    if a < 0 || a >= s.len() {
        s.len() as int
    } else if is_ws(s[a]) {
        skip_ws(s, a + 1)
    } else {
        a
    }
}

/// A character that ends a parameter's value.
pub open spec fn value_stop(c: char) -> bool {
    c == '|' || c == '}' || c == '\n'
}

/// First position at or after `a` whose character ends a value (or the end).
pub open spec fn value_end(s: Seq<char>, a: int) -> int
    decreases s.len() - a,
{
    if a < 0 || a >= s.len() {
        s.len() as int
    } else if value_stop(s[a]) {
        a
    } else {
        value_end(s, a + 1)
    }
}

/// Where the key of a parameter starting with the `|` at `i` ends: after the last
/// character before the `=` that is not white space, and at least one character in.
pub open spec fn param_key_end(s: Seq<char>, i: int, e: int) -> int {
    if key_end(s, i + 1, e) == i + 1 {
        i + 2
    } else {
        key_end(s, i + 1, e)
    }
}

/// A parameter starts with the `|` at `i`: an `=` follows, the key is not empty and holds
/// no `|`, `}` or line break.
pub open spec fn param_at(s: Seq<char>, i: int) -> bool {
    let e = char_pos(s, '=', i + 1);
    &&& 0 <= i < s.len()
    &&& s[i] == '|'
    &&& e < s.len()
    &&& e > i + 1
    &&& forall|q: int| i + 1 <= q < param_key_end(s, i, e) ==> !(#[trigger] value_stop(s[q]))
}

/// The `(key, value)` pairs of the parameters from position `i` on, in order.
pub open spec fn param_caps_from(s: Seq<char>, i: int) -> Seq<(Seq<char>, Seq<char>)>
    decreases s.len() - i,
{
    if i < 0 || i >= s.len() {
        Seq::empty()
    } else if param_at(s, i) {
        let e = char_pos(s, '=', i + 1);
        let w = skip_ws(s, e + 1);
        let v = value_end(s, w);
        if v > i && v <= s.len() {
            seq![(s.subrange(i + 1, param_key_end(s, i, e)), s.subrange(w, v))] + param_caps_from(s, v)
        } else {
            Seq::empty()
        }
    } else {
        param_caps_from(s, i + 1)
    }
}

/// The `(key, value)` pairs of the parameters of a template block, in order, as written
/// (before trimming).
pub open spec fn param_captures(block: Seq<char>) -> Seq<(Seq<char>, Seq<char>)> {
    param_caps_from(block, 0)
}

proof fn lemma_char_pos_bounds(s: Seq<char>, c: char, i: int)
    requires
        0 <= i,
    ensures
        i <= char_pos(s, c, i) <= s.len() || (i > s.len() && char_pos(s, c, i) == s.len()),
        char_pos(s, c, i) < s.len() ==> s[char_pos(s, c, i)] == c,
        forall|q: int| i <= q < char_pos(s, c, i) ==> s[q] != c,
    decreases s.len() - i,
{
    if i < s.len() && s[i] != c {
        lemma_char_pos_bounds(s, c, i + 1);
    }
}

proof fn lemma_skip_ws_bounds(s: Seq<char>, a: int)
    requires
        0 <= a,
    ensures
        a <= skip_ws(s, a) || a > s.len(),
        skip_ws(s, a) <= s.len(),
    decreases s.len() - a,
{
    if a < s.len() && is_ws(s[a]) {
        lemma_skip_ws_bounds(s, a + 1);
    }
}

proof fn lemma_value_end_bounds(s: Seq<char>, a: int)
    requires
        0 <= a,
    ensures
        a <= value_end(s, a) || a > s.len(),
        value_end(s, a) <= s.len(),
    decreases s.len() - a,
{
    if a < s.len() && !value_stop(s[a]) {
        lemma_value_end_bounds(s, a + 1);
    }
}

proof fn lemma_key_end_bounds(s: Seq<char>, a: int, b: int)
    requires
        a <= b,
    ensures
        a <= key_end(s, a, b) <= b,
    decreases b - a,
{
    if b > a && is_ws(s[b - 1]) {
        lemma_key_end_bounds(s, a, b - 1);
    }
}

/// The `(key, value)` pairs of the parameters of a template block, in order.
fn scan_params(block: &str) -> (r: Vec<Capture2>)
    ensures
        capture2_views(r@) == param_captures(block@),
{
    let s = chars_of(block);
    let n = s.len();
    let mut out: Vec<Capture2> = Vec::new();
    let mut i: usize = 0;
    while i < n
        invariant
            n == s.len(),
            s@ == block@,
            i <= n,
            capture2_views(out@) + param_caps_from(s@, i as int) == param_caps_from(s@, 0),
        decreases n - i,
    {
        let ghost sv = s@;
        let mut matched = false;
        if s[i] == '|' {
            let e = find_char_from(&s, '=', i + 1);
            proof {
                lemma_char_pos_bounds(sv, '=', i + 1);
            }
            if e < n && e > i + 1 {
                // The key: back from the `=` over white space, at least one character.
                let mut k = e;
                while k > i + 1 && is_whitespace(s[k - 1])
                    invariant
                        i + 1 <= k <= e,
                        e < n,
                        n == s.len(),
                        key_end(s@, i + 1, e as int) == key_end(s@, i + 1, k as int),
                    decreases k,
                {
                    k = k - 1;
                }
                let g = if k == i + 1 { i + 2 } else { k };
                assert(g as int == param_key_end(sv, i as int, e as int));
                let mut q = i + 1;
                let mut ok = true;
                while q < g && ok
                    invariant
                        i + 1 <= q <= g,
                        g <= e,
                        e < n,
                        n == s.len(),
                        ok ==> forall|j: int| i + 1 <= j < q ==> !(#[trigger] value_stop(s@[j])),
                        !ok ==> q < g && value_stop(s@[q as int]),
                    decreases g - q, if ok { 1int } else { 0int },
                {
                    if s[q] == '|' || s[q] == '}' || s[q] == '\n' {
                        ok = false;
                    } else {
                        q = q + 1;
                    }
                }
                if ok {
                    assert(param_at(sv, i as int));
                    let mut w = e + 1;
                    while w < n && is_whitespace(s[w])
                        invariant
                            e + 1 <= w <= n,
                            n == s.len(),
                            skip_ws(s@, (e + 1) as int) == skip_ws(s@, w as int),
                        decreases n - w,
                    {
                        w = w + 1;
                    }
                    let mut v = w;
                    while v < n && !(s[v] == '|' || s[v] == '}' || s[v] == '\n')
                        invariant
                            w <= v <= n,
                            n == s.len(),
                            value_end(s@, w as int) == value_end(s@, v as int),
                        decreases n - v,
                    {
                        v = v + 1;
                    }
                    let ghost before = capture2_views(out@);
                    out.push(Capture2 { first: string_from_range(&s, i + 1, g), second: string_from_range(&s, w, v) });
                    proof {
                        assert(capture2_views(out@) =~= before.push((sv.subrange(i + 1, g as int), sv.subrange(w as int, v as int))));
                        assert(param_caps_from(sv, i as int) == seq![(sv.subrange(i + 1, g as int), sv.subrange(w as int, v as int))] + param_caps_from(sv, v as int));
                        assert(capture2_views(out@) + param_caps_from(sv, v as int) =~= before + param_caps_from(sv, i as int));
                    }
                    i = v;
                    matched = true;
                } else {
                    assert(!param_at(sv, i as int)) by {
                        let j = q as int;
                        assert(value_stop(sv[j]));
                    }
                }
            }
        }
        if !matched {
            proof {
                if s@[i as int] == '|' {
                    lemma_char_pos_bounds(sv, '=', i + 1);
                }
                assert(!param_at(sv, i as int));
                assert(param_caps_from(sv, i as int) == param_caps_from(sv, i + 1));
            }
            i = i + 1;
        }
    }
    out
}

// A save or config row of the wikitext is written `{{Game data/<kind>|<os>|<path>}}`:
// the kind is `config` or `saves`, the OS runs to the next `|` and is not empty, and the
// path runs to the `}}` that closes the row, nested templates such as `{{p|appdata}}`
// kept whole; the path is not empty. Where no row starts, the search goes on at the next
// character; after a row, it goes on after its `}}`.

/// The row opening.
pub open spec fn row_open() -> Seq<char> {
    "{{Game data/"@
}

/// The kind of the row starting at `i` and the position of the `|` after it.
pub open spec fn row_kind(s: Seq<char>, i: int) -> Option<(Seq<char>, int)> {
    let j = i + row_open().len();
    if occurs_at(s, "config"@, j) && j + "config"@.len() < s.len() && s[j + "config"@.len()] == '|' {
        Some(("config"@, j + "config"@.len()))
    } else if occurs_at(s, "saves"@, j) && j + "saves"@.len() < s.len() && s[j + "saves"@.len()] == '|' {
        Some(("saves"@, j + "saves"@.len()))
    } else {
        None
    }
}

/// The row starting at `i`: its kind, OS and path, and the position after its `}}`.
pub open spec fn row_at(s: Seq<char>, i: int) -> Option<(Seq<char>, Seq<char>, Seq<char>, int)> {
    if !occurs_at(s, row_open(), i) {
        None
    } else {
        match row_kind(s, i) {
            None => None,
            Some((kind, a)) => {
                let b = char_pos(s, '|', a + 1);
                if !(b < s.len() && b > a + 1) {
                    None
                } else {
                    match scan_close(s, b + 1, 1) {
                        None => None,
                        Some(c) => if c > b + 1 {
                            Some((kind, s.subrange(a + 1, b), s.subrange(b + 1, c), c + 2))
                        } else {
                            None
                        },
                    }
                }
            },
        }
    }
}

/// The `(kind, os, path)` of the rows from position `i` on, in order.
pub open spec fn rows_from(s: Seq<char>, i: int) -> Seq<(Seq<char>, Seq<char>, Seq<char>)>
    decreases s.len() - i,
{
    if i < 0 || i >= s.len() {
        Seq::empty()
    } else {
        match row_at(s, i) {
            Some((k, o, p, end)) => if end > i && end <= s.len() {
                seq![(k, o, p)] + rows_from(s, end)
            } else {
                rows_from(s, i + 1)
            },
            None => rows_from(s, i + 1),
        }
    }
}

/// The `(kind, os, path)` of every save and config row of a wikitext, in order, as
/// written (before trimming).
pub open spec fn game_data_captures(wikitext: Seq<char>) -> Seq<(Seq<char>, Seq<char>, Seq<char>)> {
    rows_from(wikitext, 0)
}

/// The row starting at `i`, if one does.
fn row_at_exec(s: &Vec<char>, i: usize, open: &Vec<char>, config: &Vec<char>, saves: &Vec<char>) -> (r: Option<(Vec<char>, Vec<char>, Vec<char>, usize)>)
    requires
        i < s.len(),
        open@ == row_open(),
        config@ == "config"@,
        saves@ == "saves"@,
    ensures
        match r {
            Some((k, o, p, end)) => row_at(s@, i as int) == Some((k@, o@, p@, end as int)),
            None => row_at(s@, i as int) is None,
        },
{
    if !occurs_at_vec(s, open, i) {
        return None;
    }
    let j = i + open.len();
    let (kind, a) = if occurs_at_vec(s, config, j) && j + config.len() < s.len() && s[j + config.len()] == '|' {
        (copy_chars(config), j + config.len())
    } else if occurs_at_vec(s, saves, j) && j + saves.len() < s.len() && s[j + saves.len()] == '|' {
        (copy_chars(saves), j + saves.len())
    } else {
        return None;
    };
    assert(row_kind(s@, i as int) == Some((kind@, a as int)));
    let b = find_char_from(s, '|', a + 1);
    if !(b < s.len() && b > a + 1) {
        return None;
    }
    match find_close(s, b + 1) {
        None => None,
        Some(c) => {
            if c > b + 1 {
                proof {
                    lemma_scan_close_bounds(s@, b + 1, 1);
                }
                Some((kind, slice_vec(s, a + 1, b), slice_vec(s, b + 1, c), c + 2))
            } else {
                None
            }
        },
    }
}

fn copy_chars(v: &Vec<char>) -> (r: Vec<char>)
    ensures
        r@ == v@,
{
    slice_vec(v, 0, v.len())
}

/// The `(kind, os, path)` of every save and config row of a wikitext, in order.
fn scan_game_data(wikitext: &str) -> (r: Vec<Capture3>)
    ensures
        capture3_views(r@) == game_data_captures(wikitext@),
{
    let s = chars_of(wikitext);
    let open = chars_of("{{Game data/");
    let config = chars_of("config");
    let saves = chars_of("saves");
    let n = s.len();
    let mut out: Vec<Capture3> = Vec::new();
    let mut i: usize = 0;
    while i < n
        invariant
            n == s.len(),
            s@ == wikitext@,
            open@ == row_open(),
            config@ == "config"@,
            saves@ == "saves"@,
            i <= n,
            capture3_views(out@) + rows_from(s@, i as int) == rows_from(s@, 0),
        decreases n - i,
    {
        let ghost sv = s@;
        match row_at_exec(&s, i, &open, &config, &saves) {
            Some((k, o, p, end)) => {
                if end > i && end <= n {
                    let ghost before = capture3_views(out@);
                    out.push(Capture3 { first: string_from(&k), second: string_from(&o), third: string_from(&p) });
                    proof {
                        assert(capture3_views(out@) =~= before.push((k@, o@, p@)));
                        assert(rows_from(sv, i as int) == seq![(k@, o@, p@)] + rows_from(sv, end as int));
                        assert(capture3_views(out@) + rows_from(sv, end as int) =~= before + rows_from(sv, i as int));
                    }
                    i = end;
                } else {
                    i = i + 1;
                }
            },
            None => {
                i = i + 1;
            },
        }
    }
    out
}

/// One `key = value` parameter of a template.
pub struct Param {
    pub key: String,
    pub value: String,
}

pub open spec fn param_views(v: Seq<Param>) -> Seq<(Seq<char>, Seq<char>)> {
    v.map_values(|p: Param| (p.key@, p.value@))
}

/// The key of a captured parameter: trimmed and lower-cased.
pub open spec fn param_key(c: (Seq<char>, Seq<char>)) -> Seq<char> {
    lowercase_of(trim_seq(c.0))
}

/// A captured parameter is kept unless its key is a note (`... notes`) or a reference
/// (`ref`), or its trimmed value is empty.
pub open spec fn param_kept(c: (Seq<char>, Seq<char>)) -> bool {
    !(ends_with_seq(param_key(c), " notes"@) || param_key(c) == "ref"@) && trim_seq(c.1).len() > 0
}

/// The kept parameters, as (key, trimmed value), in order.
pub open spec fn params_spec(caps: Seq<(Seq<char>, Seq<char>)>) -> Seq<(Seq<char>, Seq<char>)>
    decreases caps.len(),
{
    if caps.len() == 0 {
        Seq::empty()
    } else {
        let prev = params_spec(caps.drop_last());
        if param_kept(caps.last()) {
            prev.push((param_key(caps.last()), trim_seq(caps.last().1)))
        } else {
            prev
        }
    }
}

/// The value of `key`: the last parameter with that key (a later one replaces an
/// earlier one).
pub open spec fn param_get(params: Seq<(Seq<char>, Seq<char>)>, key: Seq<char>) -> Option<Seq<char>>
    decreases params.len(),
{
    if params.len() == 0 {
        None
    } else if params.last().0 == key {
        Some(params.last().1)
    } else {
        param_get(params.drop_last(), key)
    }
}

/// The kept parameters of captured `(key, value)` pairs: keys trimmed and lower-cased,
/// values trimmed; notes, references and empty values left out.
pub fn params_from_captures(caps: Vec<Capture2>) -> (r: Vec<Param>)
    ensures
        param_views(r@) == params_spec(capture2_views(caps@)),
{
    let ghost cv = capture2_views(caps@);
    let mut out: Vec<Param> = Vec::new();
    let mut i: usize = 0;
    assert(cv.take(0) =~= Seq::<(Seq<char>, Seq<char>)>::empty());
    while i < caps.len()
        invariant
            i <= caps.len(),
            cv == capture2_views(caps@),
            param_views(out@) == params_spec(cv.take(i as int)),
        decreases caps.len() - i,
    {
        assert(cv.take(i + 1).drop_last() =~= cv.take(i as int));
        assert(cv.take(i + 1).last() == cv[i as int]);
        let trimmed_key = trim(caps[i].first.as_str());
        let key = to_lowercase(trimmed_key.as_str());
        let value = trim(caps[i].second.as_str());
        let skip = ends_with_str(key.as_str(), " notes") || eq_str(key.as_str(), "ref");
        if !skip && value.as_str().unicode_len() > 0 {
            let ghost before = param_views(out@);
            out.push(Param { key, value });
            assert(param_views(out@) =~= before.push((param_key(cv[i as int]), trim_seq(cv[i as int].1))));
        }
        i = i + 1;
    }
    assert(cv.take(caps.len() as int) =~= cv);
    out
}

/// The parameters of a template block with their trimmed, lower-cased keys and trimmed
/// values; notes, references and empty values are left out.
pub fn parse_params(block: &str) -> (r: Vec<Param>)
    ensures
        param_views(r@) == params_spec(param_captures(block@)),
{
    params_from_captures(scan_params(block))
}

/// The value of parameter `key`, if the block has it.
pub fn get_param(params: &Vec<Param>, key: &str) -> (r: Option<String>)
    ensures
        opt_view(r) == param_get(param_views(params@), key@),
{
    let ghost pv = param_views(params@);
    let mut i: usize = params.len();
    assert(pv.take(i as int) =~= pv);
    while i > 0
        invariant
            i <= params.len(),
            pv == param_views(params@),
            param_get(pv, key@) == param_get(pv.take(i as int), key@),
        decreases i,
    {
        assert(pv.take(i as int).drop_last() =~= pv.take(i - 1));
        assert(pv.take(i as int).last() == pv[i - 1]);
        if eq_str(params[i - 1].key.as_str(), key) {
            return Some(params[i - 1].value.clone());
        }
        i = i - 1;
    }
    None
}

/// `a / b` when both are present and `b` is not empty; otherwise the one present.
pub open spec fn combine_spec(a: Option<Seq<char>>, b: Option<Seq<char>>) -> Option<Seq<char>> {
    match (a, b) {
        (Some(x), Some(y)) => if y.len() > 0 {
            Some(x + " / "@ + y)
        } else {
            Some(x)
        },
        (Some(x), None) => Some(x),
        (None, Some(y)) => Some(y),
        (None, None) => None,
    }
}

/// Two optional fields as one: `"a / b"` when both are there (and `b` is not empty),
/// else whichever is there.
pub fn combine_fields(primary: Option<String>, secondary: Option<String>) -> (r: Option<String>)
    ensures
        opt_view(r) == combine_spec(opt_view(primary), opt_view(secondary)),
{
    match (primary, secondary) {
        (Some(a), Some(b)) => {
            if b.as_str().unicode_len() > 0 {
                let ab = concat_str(a.as_str(), " / ");
                Some(concat_str(ab.as_str(), b.as_str()))
            } else {
                Some(a)
            }
        },
        (Some(a), None) => Some(a),
        (None, Some(b)) => Some(b),
        (None, None) => None,
    }
}


// ---------------------------------------------------------------------------
// System requirements
// ---------------------------------------------------------------------------

/// The requirements of one OS and tier.
pub struct SystemRequirements {
    pub os_family: String,
    pub tier_title: Option<String>,
    pub target: Option<String>,
    pub min_os: Option<String>,
    pub min_cpu: Option<String>,
    pub min_cpu2: Option<String>,
    pub min_ram: Option<String>,
    pub min_gpu: Option<String>,
    pub min_gpu2: Option<String>,
    pub min_vram: Option<String>,
    pub min_dx: Option<String>,
    pub min_storage: Option<String>,
    pub rec_os: Option<String>,
    pub rec_cpu: Option<String>,
    pub rec_cpu2: Option<String>,
    pub rec_ram: Option<String>,
    pub rec_gpu: Option<String>,
    pub rec_gpu2: Option<String>,
    pub rec_vram: Option<String>,
    pub rec_dx: Option<String>,
    pub rec_storage: Option<String>,
}

pub struct ReqView {
    pub os_family: Seq<char>,
    pub tier_title: Option<Seq<char>>,
    pub target: Option<Seq<char>>,
    pub min_os: Option<Seq<char>>,
    pub min_cpu: Option<Seq<char>>,
    pub min_cpu2: Option<Seq<char>>,
    pub min_ram: Option<Seq<char>>,
    pub min_gpu: Option<Seq<char>>,
    pub min_gpu2: Option<Seq<char>>,
    pub min_vram: Option<Seq<char>>,
    pub min_dx: Option<Seq<char>>,
    pub min_storage: Option<Seq<char>>,
    pub rec_os: Option<Seq<char>>,
    pub rec_cpu: Option<Seq<char>>,
    pub rec_cpu2: Option<Seq<char>>,
    pub rec_ram: Option<Seq<char>>,
    pub rec_gpu: Option<Seq<char>>,
    pub rec_gpu2: Option<Seq<char>>,
    pub rec_vram: Option<Seq<char>>,
    pub rec_dx: Option<Seq<char>>,
    pub rec_storage: Option<Seq<char>>,
}

impl View for SystemRequirements {
    type V = ReqView;

    open spec fn view(&self) -> ReqView {
        ReqView {
            os_family: self.os_family@,
            tier_title: opt_view(self.tier_title),
            target: opt_view(self.target),
            min_os: opt_view(self.min_os),
            min_cpu: opt_view(self.min_cpu),
            min_cpu2: opt_view(self.min_cpu2),
            min_ram: opt_view(self.min_ram),
            min_gpu: opt_view(self.min_gpu),
            min_gpu2: opt_view(self.min_gpu2),
            min_vram: opt_view(self.min_vram),
            min_dx: opt_view(self.min_dx),
            min_storage: opt_view(self.min_storage),
            rec_os: opt_view(self.rec_os),
            rec_cpu: opt_view(self.rec_cpu),
            rec_cpu2: opt_view(self.rec_cpu2),
            rec_ram: opt_view(self.rec_ram),
            rec_gpu: opt_view(self.rec_gpu),
            rec_gpu2: opt_view(self.rec_gpu2),
            rec_vram: opt_view(self.rec_vram),
            rec_dx: opt_view(self.rec_dx),
            rec_storage: opt_view(self.rec_storage),
        }
    }
}

pub open spec fn req_views(v: Seq<SystemRequirements>) -> Seq<ReqView> {
    v.map_values(|r: SystemRequirements| r@)
}

/// The OS family of a block, `Unknown` when it names none.
pub open spec fn os_family_spec(p: Seq<(Seq<char>, Seq<char>)>) -> Seq<char> {
    match param_get(p, "osfamily"@) {
        Some(v) => v,
        None => "Unknown"@,
    }
}

/// The minimum and recommended requirements of a block; CPU and GPU name their second
/// option after a slash.
pub open spec fn standard_reqs(p: Seq<(Seq<char>, Seq<char>)>) -> ReqView {
    ReqView {
        os_family: os_family_spec(p),
        tier_title: None,
        target: param_get(p, "mintgt"@),
        min_os: param_get(p, "minos"@),
        min_cpu: combine_spec(param_get(p, "mincpu"@), param_get(p, "mincpu2"@)),
        min_cpu2: None,
        min_ram: param_get(p, "minram"@),
        min_gpu: combine_spec(param_get(p, "mingpu"@), param_get(p, "mingpu2"@)),
        min_gpu2: None,
        min_vram: param_get(p, "minvram"@),
        min_dx: param_get(p, "mindx"@),
        min_storage: param_get(p, "minhd"@),
        rec_os: param_get(p, "recos"@),
        rec_cpu: combine_spec(param_get(p, "reccpu"@), param_get(p, "reccpu2"@)),
        rec_cpu2: None,
        rec_ram: param_get(p, "recram"@),
        rec_gpu: combine_spec(param_get(p, "recgpu"@), param_get(p, "recgpu2"@)),
        rec_gpu2: None,
        rec_vram: param_get(p, "recvram"@),
        rec_dx: param_get(p, "recdx"@),
        rec_storage: param_get(p, "rechd"@),
    }
}

/// `alt<n>`, the prefix of the keys of extra tier `n`.
pub open spec fn alt_prefix(n: nat) -> Seq<char> {
    "alt"@ + decimal_seq(n)
}

/// Extra tier `n` of a block, titled `title`: minimum values only.
pub open spec fn alt_reqs(p: Seq<(Seq<char>, Seq<char>)>, n: nat, title: Seq<char>) -> ReqView {
    let a = alt_prefix(n);
    ReqView {
        os_family: os_family_spec(p),
        tier_title: Some(title),
        target: param_get(p, a + "tgt"@),
        min_os: param_get(p, a + "os"@),
        min_cpu: combine_spec(param_get(p, a + "cpu"@), param_get(p, a + "cpu2"@)),
        min_cpu2: None,
        min_ram: param_get(p, a + "ram"@),
        min_gpu: combine_spec(param_get(p, a + "gpu"@), param_get(p, a + "gpu2"@)),
        min_gpu2: None,
        min_vram: param_get(p, a + "vram"@),
        min_dx: param_get(p, a + "dx"@),
        min_storage: param_get(p, a + "hd"@),
        rec_os: None,
        rec_cpu: None,
        rec_cpu2: None,
        rec_ram: None,
        rec_gpu: None,
        rec_gpu2: None,
        rec_vram: None,
        rec_dx: None,
        rec_storage: None,
    }
}

/// The extra tiers from `n` to 3, up to the first without a title.
pub open spec fn alt_tiers(p: Seq<(Seq<char>, Seq<char>)>, n: nat) -> Seq<ReqView>
    decreases 4 - n,
{
    if n < 1 || n > 3 {
        Seq::empty()
    } else {
        match param_get(p, alt_prefix(n) + "title"@) {
            None => Seq::empty(),
            Some(t) => seq![alt_reqs(p, n, t)] + alt_tiers(p, n + 1),
        }
    }
}

/// The requirement entries of one block: the standard one, then its extra tiers.
pub open spec fn block_reqs(block: Seq<char>) -> Seq<ReqView> {
    let p = params_spec(param_captures(block));
    seq![standard_reqs(p)] + alt_tiers(p, 1)
}

/// The requirement entries of all blocks, in order.
pub open spec fn all_block_reqs(blocks: Seq<Seq<char>>) -> Seq<ReqView>
    decreases blocks.len(),
{
    if blocks.len() == 0 {
        Seq::empty()
    } else {
        all_block_reqs(blocks.drop_last()) + block_reqs(blocks.last())
    }
}

/// How many extra tiers, from `n` to 3, have titles before the first that has none.
pub open spec fn titled_tiers(p: Seq<(Seq<char>, Seq<char>)>, n: nat) -> nat
    decreases 4 - n,
{
    if n < 1 || n > 3 {
        0
    } else {
        match param_get(p, alt_prefix(n) + "title"@) {
            None => 0,
            Some(t) => 1 + titled_tiers(p, n + 1),
        }
    }
}

/// The entries of one block: its standard entry and its titled extra tiers.
pub open spec fn block_entry_count(block: Seq<char>) -> nat {
    1 + titled_tiers(params_spec(param_captures(block)), 1)
}

/// The entries of all blocks.
pub open spec fn total_entries(blocks: Seq<Seq<char>>) -> nat
    decreases blocks.len(),
{
    if blocks.len() == 0 {
        0
    } else {
        total_entries(blocks.drop_last()) + block_entry_count(blocks.last())
    }
}

proof fn lemma_alt_tiers_props(p: Seq<(Seq<char>, Seq<char>)>, n: nat)
    ensures
        alt_tiers(p, n).len() == titled_tiers(p, n),
        forall|k: int| 0 <= k < alt_tiers(p, n).len() ==> (#[trigger] alt_tiers(p, n)[k]).os_family == os_family_spec(p)
            && alt_tiers(p, n)[k].tier_title is Some,
    decreases 4 - n,
{
    if 1 <= n <= 3 {
        lemma_alt_tiers_props(p, n + 1);
        match param_get(p, alt_prefix(n) + "title"@) {
            None => {},
            Some(t) => {
                let r = alt_tiers(p, n);
                let rest = alt_tiers(p, n + 1);
                assert forall|k: int| 0 <= k < r.len() implies (#[trigger] r[k]).os_family == os_family_spec(p) && r[k].tier_title is Some by {
                    if k > 0 {
                        assert(r[k] == rest[k - 1]);
                    }
                }
            },
        }
    }
}

/// The system requirement entries of a wikitext's blocks: one standard entry per block
/// (no tier title) followed by its titled extra tiers (up to three, in order), every
/// entry of a block with that block's OS family (`Unknown` where it names none); no
/// block, no entry.
pub proof fn lemma_system_requirements_law(blocks: Seq<Seq<char>>)
    ensures
        all_block_reqs(blocks).len() == total_entries(blocks),
        blocks.len() == 0 ==> all_block_reqs(blocks).len() == 0,
        forall|i: int| 0 <= i < blocks.len() ==> {
            let b = #[trigger] blocks[i];
            let p = params_spec(param_captures(b));
            &&& block_reqs(b).len() == block_entry_count(b)
            &&& block_reqs(b)[0].tier_title is None
            &&& forall|k: int| 0 <= k < block_reqs(b).len() ==> (#[trigger] block_reqs(b)[k]).os_family == os_family_spec(p)
            &&& forall|k: int| 1 <= k < block_reqs(b).len() ==> (#[trigger] block_reqs(b)[k]).tier_title is Some
        },
    decreases blocks.len(),
{
    if blocks.len() > 0 {
        lemma_system_requirements_law(blocks.drop_last());
    }
    assert forall|i: int| 0 <= i < blocks.len() implies {
        let b = #[trigger] blocks[i];
        let p = params_spec(param_captures(b));
        &&& block_reqs(b).len() == block_entry_count(b)
        &&& block_reqs(b)[0].tier_title is None
        &&& forall|k: int| 0 <= k < block_reqs(b).len() ==> (#[trigger] block_reqs(b)[k]).os_family == os_family_spec(p)
        &&& forall|k: int| 1 <= k < block_reqs(b).len() ==> (#[trigger] block_reqs(b)[k]).tier_title is Some
    } by {
        let b = blocks[i];
        let p = params_spec(param_captures(b));
        lemma_alt_tiers_props(p, 1);
        let r = block_reqs(b);
        assert forall|k: int| 1 <= k < r.len() implies (#[trigger] r[k]).tier_title is Some by {
            assert(r[k] == alt_tiers(p, 1)[k - 1]);
        }
        assert forall|k: int| 0 <= k < r.len() implies (#[trigger] r[k]).os_family == os_family_spec(p) by {
            if k > 0 {
                assert(r[k] == alt_tiers(p, 1)[k - 1]);
            }
        }
    }
}

/// The last parameter with key `key` has value `v`.
pub open spec fn last_param_is(p: Seq<(Seq<char>, Seq<char>)>, key: Seq<char>, v: Seq<char>) -> bool {
    exists|i: int| 0 <= i < p.len() && #[trigger] p[i] == (key, v) && forall|j: int| i < j < p.len() ==> (#[trigger] p[j]).0 != key
}

/// No parameter has key `key`.
pub open spec fn no_param(p: Seq<(Seq<char>, Seq<char>)>, key: Seq<char>) -> bool {
    forall|i: int| 0 <= i < p.len() ==> (#[trigger] p[i]).0 != key
}

/// A field filled from parameter `a`: its last value, nothing without one.
pub open spec fn field_from(v: Option<Seq<char>>, p: Seq<(Seq<char>, Seq<char>)>, a: Seq<char>) -> bool {
    &&& no_param(p, a) ==> v is None
    &&& forall|x: Seq<char>| #[trigger] last_param_is(p, a, x) ==> v == Some(x)
}

/// A field filled from parameter `a` and its alternative `b`: `x / y` with both (only `x`
/// when `y` is empty), the one present otherwise, nothing without either.
pub open spec fn combined_from(v: Option<Seq<char>>, p: Seq<(Seq<char>, Seq<char>)>, a: Seq<char>, b: Seq<char>) -> bool {
    &&& no_param(p, a) && no_param(p, b) ==> v is None
    &&& forall|x: Seq<char>| #[trigger] last_param_is(p, a, x) && no_param(p, b) ==> v == Some(x)
    &&& forall|y: Seq<char>| no_param(p, a) && #[trigger] last_param_is(p, b, y) ==> v == Some(y)
    &&& forall|x: Seq<char>, y: Seq<char>| #[trigger] last_param_is(p, a, x) && #[trigger] last_param_is(p, b, y)
        ==> v == (if y.len() > 0 { Some(x + " / "@ + y) } else { Some(x) })
}

proof fn lemma_param_get_last(p: Seq<(Seq<char>, Seq<char>)>, key: Seq<char>)
    ensures
        no_param(p, key) ==> param_get(p, key) is None,
        forall|v: Seq<char>| #[trigger] last_param_is(p, key, v) ==> param_get(p, key) == Some(v),
    decreases p.len(),
{
    if p.len() > 0 {
        lemma_param_get_last(p.drop_last(), key);
        assert(no_param(p, key) ==> no_param(p.drop_last(), key)) by {
            if no_param(p, key) {
                assert forall|i: int| 0 <= i < p.drop_last().len() implies (#[trigger] p.drop_last()[i]).0 != key by {
                    assert(p.drop_last()[i] == p[i]);
                }
            }
        }
        assert forall|v: Seq<char>| #[trigger] last_param_is(p, key, v) implies param_get(p, key) == Some(v) by {
            let i = choose|i: int| 0 <= i < p.len() && #[trigger] p[i] == (key, v) && forall|j: int| i < j < p.len() ==> (#[trigger] p[j]).0 != key;
            if i < p.len() - 1 {
                assert(p.last().0 != key);
                let d = p.drop_last();
                assert(d[i] == (key, v));
                assert forall|j: int| i < j < d.len() implies (#[trigger] d[j]).0 != key by {
                    assert(d[j] == p[j]);
                }
                assert(last_param_is(d, key, v));
            }
        }
    }
}

proof fn lemma_field_from(p: Seq<(Seq<char>, Seq<char>)>, a: Seq<char>)
    ensures
        field_from(param_get(p, a), p, a),
{
    lemma_param_get_last(p, a);
}

proof fn lemma_combined_from(p: Seq<(Seq<char>, Seq<char>)>, a: Seq<char>, b: Seq<char>)
    ensures
        combined_from(combine_spec(param_get(p, a), param_get(p, b)), p, a, b),
{
    lemma_param_get_last(p, a);
    lemma_param_get_last(p, b);
}

/// The standard entry of every `{{System requirements}}` block takes each field from
/// its own parameter: the target from `mintgt`, the OS from `minos` / `recos`, the CPU
/// from `mincpu` and `mincpu2` / `reccpu` and `reccpu2`, the RAM from `minram` / `recram`,
/// the GPU from `mingpu` and `mingpu2` / `recgpu` and `recgpu2`, the VRAM from `minvram`
/// / `recvram`, DirectX from `mindx` / `recdx` and the storage from `minhd` / `rechd`
/// (keys lower-cased, the last value of a key kept); it has no tier title and no separate
/// second CPU or GPU; its OS family is `osfamily`, or `Unknown` without one.
pub proof fn lemma_standard_requirements_law(block: Seq<char>)
    ensures
        ({
            let p = params_spec(param_captures(block));
            let e = block_reqs(block)[0];
            &&& e.tier_title is None
            &&& e.min_cpu2 is None && e.min_gpu2 is None && e.rec_cpu2 is None && e.rec_gpu2 is None
            &&& (no_param(p, "osfamily"@) ==> e.os_family == "Unknown"@)
            &&& (forall|x: Seq<char>| #[trigger] last_param_is(p, "osfamily"@, x) ==> e.os_family == x)
            &&& field_from(e.target, p, "mintgt"@)
            &&& field_from(e.min_os, p, "minos"@)
            &&& combined_from(e.min_cpu, p, "mincpu"@, "mincpu2"@)
            &&& field_from(e.min_ram, p, "minram"@)
            &&& combined_from(e.min_gpu, p, "mingpu"@, "mingpu2"@)
            &&& field_from(e.min_vram, p, "minvram"@)
            &&& field_from(e.min_dx, p, "mindx"@)
            &&& field_from(e.min_storage, p, "minhd"@)
            &&& field_from(e.rec_os, p, "recos"@)
            &&& combined_from(e.rec_cpu, p, "reccpu"@, "reccpu2"@)
            &&& field_from(e.rec_ram, p, "recram"@)
            &&& combined_from(e.rec_gpu, p, "recgpu"@, "recgpu2"@)
            &&& field_from(e.rec_vram, p, "recvram"@)
            &&& field_from(e.rec_dx, p, "recdx"@)
            &&& field_from(e.rec_storage, p, "rechd"@)
        }),
{
    let p = params_spec(param_captures(block));
    assert(block_reqs(block)[0] == standard_reqs(p));
    lemma_param_get_last(p, "osfamily"@);
    lemma_field_from(p, "mintgt"@);
    lemma_field_from(p, "minos"@);
    lemma_combined_from(p, "mincpu"@, "mincpu2"@);
    lemma_field_from(p, "minram"@);
    lemma_combined_from(p, "mingpu"@, "mingpu2"@);
    lemma_field_from(p, "minvram"@);
    lemma_field_from(p, "mindx"@);
    lemma_field_from(p, "minhd"@);
    lemma_field_from(p, "recos"@);
    lemma_combined_from(p, "reccpu"@, "reccpu2"@);
    lemma_field_from(p, "recram"@);
    lemma_combined_from(p, "recgpu"@, "recgpu2"@);
    lemma_field_from(p, "recvram"@);
    lemma_field_from(p, "recdx"@);
    lemma_field_from(p, "rechd"@);
}

fn get_param2(params: &Vec<Param>, a: &str, b: &str) -> (r: Option<String>)
    ensures
        opt_view(r) == param_get(param_views(params@), a@ + b@),
{
    let k = concat_str(a, b);
    get_param(params, k.as_str())
}

fn get_combined(params: &Vec<Param>, a: &str, b: &str, b2: &str) -> (r: Option<String>)
    ensures
        opt_view(r) == combine_spec(param_get(param_views(params@), a@ + b@), param_get(param_views(params@), a@ + b2@)),
{
    combine_fields(get_param2(params, a, b), get_param2(params, a, b2))
}

fn os_family_of(params: &Vec<Param>) -> (r: String)
    ensures
        r@ == os_family_spec(param_views(params@)),
{
    match get_param(params, "osfamily") {
        Some(v) => v,
        None => copy_string("Unknown"),
    }
}

fn standard_requirements(params: &Vec<Param>) -> (r: SystemRequirements)
    ensures
        r@ == standard_reqs(param_views(params@)),
{
    proof {
        reveal_strlit("mincpu");
        reveal_strlit("mincpu2");
        reveal_strlit("min");
        reveal_strlit("cpu");
        reveal_strlit("cpu2");
        reveal_strlit("mingpu");
        reveal_strlit("mingpu2");
        reveal_strlit("gpu");
        reveal_strlit("gpu2");
        reveal_strlit("reccpu");
        reveal_strlit("reccpu2");
        reveal_strlit("rec");
        reveal_strlit("recgpu");
        reveal_strlit("recgpu2");
    }
    assert("min"@ + "cpu"@ =~= "mincpu"@);
    assert("min"@ + "cpu2"@ =~= "mincpu2"@);
    assert("min"@ + "gpu"@ =~= "mingpu"@);
    assert("min"@ + "gpu2"@ =~= "mingpu2"@);
    assert("rec"@ + "cpu"@ =~= "reccpu"@);
    assert("rec"@ + "cpu2"@ =~= "reccpu2"@);
    assert("rec"@ + "gpu"@ =~= "recgpu"@);
    assert("rec"@ + "gpu2"@ =~= "recgpu2"@);
    SystemRequirements {
        os_family: os_family_of(params),
        tier_title: None,
        target: get_param(params, "mintgt"),
        min_os: get_param(params, "minos"),
        min_cpu: get_combined(params, "min", "cpu", "cpu2"),
        min_cpu2: None,
        min_ram: get_param(params, "minram"),
        min_gpu: get_combined(params, "min", "gpu", "gpu2"),
        min_gpu2: None,
        min_vram: get_param(params, "minvram"),
        min_dx: get_param(params, "mindx"),
        min_storage: get_param(params, "minhd"),
        rec_os: get_param(params, "recos"),
        rec_cpu: get_combined(params, "rec", "cpu", "cpu2"),
        rec_cpu2: None,
        rec_ram: get_param(params, "recram"),
        rec_gpu: get_combined(params, "rec", "gpu", "gpu2"),
        rec_gpu2: None,
        rec_vram: get_param(params, "recvram"),
        rec_dx: get_param(params, "recdx"),
        rec_storage: get_param(params, "rechd"),
    }
}

fn alt_requirements(params: &Vec<Param>, n: u64, prefix: &str, title: String) -> (r: SystemRequirements)
    requires
        prefix@ == alt_prefix(n as nat),
    ensures
        r@ == alt_reqs(param_views(params@), n as nat, title@),
{
    SystemRequirements {
        os_family: os_family_of(params),
        tier_title: Some(title),
        target: get_param2(params, prefix, "tgt"),
        min_os: get_param2(params, prefix, "os"),
        min_cpu: get_combined(params, prefix, "cpu", "cpu2"),
        min_cpu2: None,
        min_ram: get_param2(params, prefix, "ram"),
        min_gpu: get_combined(params, prefix, "gpu", "gpu2"),
        min_gpu2: None,
        min_vram: get_param2(params, prefix, "vram"),
        min_dx: get_param2(params, prefix, "dx"),
        min_storage: get_param2(params, prefix, "hd"),
        rec_os: None,
        rec_cpu: None,
        rec_cpu2: None,
        rec_ram: None,
        rec_gpu: None,
        rec_gpu2: None,
        rec_vram: None,
        rec_dx: None,
        rec_storage: None,
    }
}

/// The requirement entries of a block's parameters: the standard one, then the titled
/// extra tiers `alt1` to `alt3`, up to the first without a title.
pub fn block_requirements(params: &Vec<Param>) -> (r: Vec<SystemRequirements>)
    ensures
        req_views(r@) == seq![standard_reqs(param_views(params@))] + alt_tiers(param_views(params@), 1),
{
    let ghost pv = param_views(params@);
    let mut out: Vec<SystemRequirements> = Vec::new();
    out.push(standard_requirements(params));
    let mut n: u64 = 1;
    assert(req_views(out@) =~= seq![standard_reqs(pv)]);
    assert(alt_tiers(pv, 1) =~= Seq::<ReqView>::empty() + alt_tiers(pv, 1));
    let ghost mut done: Seq<ReqView> = Seq::empty();
    while n <= 3
        invariant
            1 <= n <= 4,
            pv == param_views(params@),
            req_views(out@) == seq![standard_reqs(pv)] + done,
            alt_tiers(pv, 1) == done + alt_tiers(pv, n as nat),
        ensures
            req_views(out@) == seq![standard_reqs(pv)] + done,
            alt_tiers(pv, 1) == done,
        decreases 4 - n,
    {
        let digits = u64_to_string(n);
        let prefix = concat_str("alt", digits.as_str());
        match get_param2(params, prefix.as_str(), "title") {
            None => {
                assert(alt_tiers(pv, n as nat) =~= Seq::<ReqView>::empty());
                assert(done + Seq::<ReqView>::empty() =~= done);
                break;
            },
            Some(t) => {
                let ghost tv = t@;
                let r = alt_requirements(params, n, prefix.as_str(), t);
                let ghost before = req_views(out@);
                out.push(r);
                proof {
                    assert(req_views(out@) =~= before.push(alt_reqs(pv, n as nat, tv)));
                    assert(alt_tiers(pv, n as nat) =~= seq![alt_reqs(pv, n as nat, tv)] + alt_tiers(pv, (n + 1) as nat));
                    assert(done + alt_tiers(pv, n as nat) =~= done.push(alt_reqs(pv, n as nat, tv)) + alt_tiers(pv, (n + 1) as nat));
                    done = done.push(alt_reqs(pv, n as nat, tv));
                    assert(req_views(out@) =~= seq![standard_reqs(pv)] + done);
                }
                n = n + 1;
            },
        }
    }
    out
}

/// Every `{{System requirements}}` block of the wikitext as entries: per block the
/// standard minimum/recommended entry of its OS, then its titled extra tiers.
pub fn parse_system_requirements(wikitext: &str) -> (r: Vec<SystemRequirements>)
    ensures
        req_views(r@) == all_block_reqs(template_blocks_spec(wikitext@, "System requirements"@)),
{
    let blocks = extract_template_blocks(wikitext, "System requirements");
    let ghost bv = views_of_strings(blocks@);
    let mut out: Vec<SystemRequirements> = Vec::new();
    let mut i: usize = 0;
    assert(bv.take(0) =~= Seq::<Seq<char>>::empty());
    while i < blocks.len()
        invariant
            i <= blocks.len(),
            bv == views_of_strings(blocks@),
            req_views(out@) == all_block_reqs(bv.take(i as int)),
        decreases blocks.len() - i,
    {
        assert(bv.take(i + 1).drop_last() =~= bv.take(i as int));
        assert(bv.take(i + 1).last() == blocks@[i as int]@);
        let params = parse_params(blocks[i].as_str());
        let mut reqs = block_requirements(&params);
        let ghost before = req_views(out@);
        let ghost added = req_views(reqs@);
        out.append(&mut reqs);
        assert(req_views(out@) =~= before + added);
        i = i + 1;
    }
    assert(bv.take(blocks.len() as int) =~= bv);
    out
}


// ---------------------------------------------------------------------------
// Save and config paths
// ---------------------------------------------------------------------------

/// A save or config location: kind (`config` or `saves`), OS, the path as the wiki
/// writes it, and the path expanded for this machine when known.
pub struct GameDataPath {
    pub kind: String,
    pub os: String,
    pub raw_path: String,
    pub expanded_path: Option<String>,
}

pub open spec fn path_views(v: Seq<GameDataPath>) -> Seq<(Seq<char>, Seq<char>, Seq<char>, Option<Seq<char>>)> {
    v.map_values(|p: GameDataPath| (p.kind@, p.os@, p.raw_path@, opt_view(p.expanded_path)))
}

/// The paths of captured `(kind, os, path)` triples, each trimmed, leaving out those
/// whose path is empty.
pub open spec fn paths_spec(caps: Seq<(Seq<char>, Seq<char>, Seq<char>)>) -> Seq<(Seq<char>, Seq<char>, Seq<char>, Option<Seq<char>>)>
    decreases caps.len(),
{
    if caps.len() == 0 {
        Seq::empty()
    } else {
        let prev = paths_spec(caps.drop_last());
        let c = caps.last();
        if trim_seq(c.2).len() == 0 {
            prev
        } else {
            prev.push((trim_seq(c.0), trim_seq(c.1), trim_seq(c.2), None))
        }
    }
}

/// The paths of captured `(kind, os, path)` triples: trimmed, unexpanded, empty paths
/// left out.
pub fn paths_from_captures(caps: Vec<Capture3>) -> (r: Vec<GameDataPath>)
    ensures
        path_views(r@) == paths_spec(capture3_views(caps@)),
{
    let ghost cv = capture3_views(caps@);
    let mut out: Vec<GameDataPath> = Vec::new();
    let mut i: usize = 0;
    assert(cv.take(0) =~= Seq::<(Seq<char>, Seq<char>, Seq<char>)>::empty());
    while i < caps.len()
        invariant
            i <= caps.len(),
            cv == capture3_views(caps@),
            path_views(out@) == paths_spec(cv.take(i as int)),
        decreases caps.len() - i,
    {
        assert(cv.take(i + 1).drop_last() =~= cv.take(i as int));
        assert(cv.take(i + 1).last() == cv[i as int]);
        let kind = trim(caps[i].first.as_str());
        let os = trim(caps[i].second.as_str());
        let raw_path = trim(caps[i].third.as_str());
        if raw_path.as_str().unicode_len() > 0 {
            let ghost before = path_views(out@);
            out.push(GameDataPath { kind, os, raw_path, expanded_path: None });
            assert(path_views(out@) =~= before.push((trim_seq(cv[i as int].0), trim_seq(cv[i as int].1), trim_seq(cv[i as int].2), None)));
        }
        i = i + 1;
    }
    assert(cv.take(caps.len() as int) =~= cv);
    out
}

/// Every `{{Game data/config|OS|path}}` and `{{Game data/saves|OS|path}}` of the
/// wikitext, in order; paths keep their `{{p|...}}` variables.
pub fn parse_game_data_paths(wikitext: &str) -> (r: Vec<GameDataPath>)
    ensures
        path_views(r@) == paths_spec(game_data_captures(wikitext@)),
{
    paths_from_captures(scan_game_data(wikitext))
}

// ---------------------------------------------------------------------------
// Query API rows
// ---------------------------------------------------------------------------

/// One row of the localization table: the text of its `language`, `interface`, `audio`
/// and `subtitles` columns (absent when the row has no such text).
pub struct L10nRow {
    pub language: Option<String>,
    pub interface: Option<String>,
    pub audio: Option<String>,
    pub subtitles: Option<String>,
}

pub struct L10nView {
    pub language: Option<Seq<char>>,
    pub interface: Option<Seq<char>>,
    pub audio: Option<Seq<char>>,
    pub subtitles: Option<Seq<char>>,
}

impl View for L10nRow {
    type V = L10nView;

    open spec fn view(&self) -> L10nView {
        L10nView {
            language: opt_view(self.language),
            interface: opt_view(self.interface),
            audio: opt_view(self.audio),
            subtitles: opt_view(self.subtitles),
        }
    }
}

pub open spec fn l10n_views(v: Seq<L10nRow>) -> Seq<L10nView> {
    v.map_values(|r: L10nRow| r@)
}

/// A column confirms support: `true`, or `hackable` (a fan translation).
pub open spec fn supported(v: Option<Seq<char>>) -> bool {
    v == Some("true"@) || v == Some("hackable"@)
}

/// Which column of a localization row: 0 interface, 1 audio, 2 subtitles.
pub open spec fn l10n_column(r: L10nView, which: int) -> Option<Seq<char>> {
    if which == 0 {
        r.interface
    } else if which == 1 {
        r.audio
    } else {
        r.subtitles
    }
}

/// The languages of the rows that name one and confirm the column, in order.
pub open spec fn languages_with(rows: Seq<L10nView>, which: int) -> Seq<Seq<char>>
    decreases rows.len(),
{
    if rows.len() == 0 {
        Seq::empty()
    } else {
        let prev = languages_with(rows.drop_last(), which);
        let r = rows.last();
        match r.language {
            Some(l) => if l.len() > 0 && supported(l10n_column(r, which)) {
                prev.push(l)
            } else {
                prev
            },
            None => prev,
        }
    }
}

/// `None` for an empty list.
pub open spec fn non_empty(s: Seq<Seq<char>>) -> Option<Seq<Seq<char>>> {
    if s.len() == 0 {
        None
    } else {
        Some(s)
    }
}

pub open spec fn opt_list_view(o: Option<Vec<String>>) -> Option<Seq<Seq<char>>> {
    match o {
        Some(v) => Some(views_of_strings(v@)),
        None => None,
    }
}

fn is_supported(v: &Option<String>) -> (b: bool)
    ensures
        b == supported(opt_view(*v)),
{
    match v {
        Some(s) => eq_str(s.as_str(), "true") || eq_str(s.as_str(), "hackable"),
        None => false,
    }
}

fn some_if_any(v: Vec<String>) -> (r: Option<Vec<String>>)
    ensures
        opt_list_view(r) == non_empty(views_of_strings(v@)),
{
    if v.len() == 0 {
        None
    } else {
        Some(v)
    }
}

/// The languages with interface, audio and subtitle support, each list `None` when
/// empty. A row counts only with a non-empty language; a column counts when it says
/// `true` or `hackable`.
pub fn parse_l10n_rows(rows: &Vec<L10nRow>) -> (r: (Option<Vec<String>>, Option<Vec<String>>, Option<Vec<String>>))
    ensures
        opt_list_view(r.0) == non_empty(languages_with(l10n_views(rows@), 0)),
        opt_list_view(r.1) == non_empty(languages_with(l10n_views(rows@), 1)),
        opt_list_view(r.2) == non_empty(languages_with(l10n_views(rows@), 2)),
{
    let ghost rv = l10n_views(rows@);
    let mut interface: Vec<String> = Vec::new();
    let mut audio: Vec<String> = Vec::new();
    let mut subtitles: Vec<String> = Vec::new();
    let mut i: usize = 0;
    assert(rv.take(0) =~= Seq::<L10nView>::empty());
    while i < rows.len()
        invariant
            i <= rows.len(),
            rv == l10n_views(rows@),
            views_of_strings(interface@) == languages_with(rv.take(i as int), 0),
            views_of_strings(audio@) == languages_with(rv.take(i as int), 1),
            views_of_strings(subtitles@) == languages_with(rv.take(i as int), 2),
        decreases rows.len() - i,
    {
        assert(rv.take(i + 1).drop_last() =~= rv.take(i as int));
        assert(rv.take(i + 1).last() == rows@[i as int]@);
        let row = &rows[i];
        match &row.language {
            Some(l) => {
                if l.as_str().unicode_len() > 0 {
                    if is_supported(&row.interface) {
                        let ghost before = views_of_strings(interface@);
                        interface.push(l.clone());
                        assert(views_of_strings(interface@) =~= before.push(l@));
                    }
                    if is_supported(&row.audio) {
                        let ghost before = views_of_strings(audio@);
                        audio.push(l.clone());
                        assert(views_of_strings(audio@) =~= before.push(l@));
                    }
                    if is_supported(&row.subtitles) {
                        let ghost before = views_of_strings(subtitles@);
                        subtitles.push(l.clone());
                        assert(views_of_strings(subtitles@) =~= before.push(l@));
                    }
                }
            },
            None => {},
        }
        i = i + 1;
    }
    assert(rv.take(rows.len() as int) =~= rv);
    (some_if_any(interface), some_if_any(audio), some_if_any(subtitles))
}

/// One row of the game data table: the text of its `path`, `os` and `store` columns.
pub struct GameDataRow {
    pub path: Option<String>,
    pub os: Option<String>,
    pub store: Option<String>,
}

pub struct GameDataRowView {
    pub path: Option<Seq<char>>,
    pub os: Option<Seq<char>>,
    pub store: Option<Seq<char>>,
}

impl View for GameDataRow {
    type V = GameDataRowView;

    open spec fn view(&self) -> GameDataRowView {
        GameDataRowView { path: opt_view(self.path), os: opt_view(self.os), store: opt_view(self.store) }
    }
}

pub open spec fn data_row_views(v: Seq<GameDataRow>) -> Seq<GameDataRowView> {
    v.map_values(|r: GameDataRow| r@)
}

/// Lower-cased text of a column, empty when absent.
pub open spec fn lower_or_empty(v: Option<Seq<char>>) -> Seq<char> {
    lowercase_of(
        match v {
            Some(s) => s,
            None => Seq::empty(),
        },
    )
}

/// The save path on Windows and Linux and the config path on Windows and Linux seen so far.
pub type DataPaths = (Option<Seq<char>>, Option<Seq<char>>, Option<Seq<char>>, Option<Seq<char>>);

/// One row read into the four paths: a save row fills its OS's save path, else a config
/// or settings row fills its OS's config path, each only while still empty; rows without
/// a path are skipped.
pub open spec fn data_row_step(st: DataPaths, r: GameDataRowView) -> DataPaths {
    match r.path {
        None => st,
        Some(p) => if p.len() == 0 {
            st
        } else {
            let os = lower_or_empty(r.os);
            let store = lower_or_empty(r.store);
            let save = contains_seq(store, "save"@);
            let config = contains_seq(store, "config"@) || contains_seq(store, "setting"@);
            if save && os == "windows"@ && st.0 is None {
                (Some(p), st.1, st.2, st.3)
            } else if save && os == "linux"@ && st.1 is None {
                (st.0, Some(p), st.2, st.3)
            } else if config && os == "windows"@ && st.2 is None {
                (st.0, st.1, Some(p), st.3)
            } else if config && os == "linux"@ && st.3 is None {
                (st.0, st.1, st.2, Some(p))
            } else {
                st
            }
        },
    }
}

pub open spec fn data_rows_fold(rows: Seq<GameDataRowView>) -> DataPaths
    decreases rows.len(),
{
    if rows.len() == 0 {
        (None, None, None, None)
    } else {
        data_row_step(data_rows_fold(rows.drop_last()), rows.last())
    }
}

fn lower_text(v: &Option<String>) -> (r: Vec<char>)
    ensures
        r@ == lower_or_empty(opt_view(*v)),
{
    match v {
        Some(s) => chars_of(to_lowercase(s.as_str()).as_str()),
        None => {
            let l = to_lowercase("");
            proof {
                reveal_strlit("");
            }
            assert(""@ =~= Seq::<char>::empty());
            chars_of(l.as_str())
        },
    }
}

/// The first save path and the first config path found for Windows and for Linux in the
/// game data rows, in that order: save Windows, save Linux, config Windows, config Linux.
pub fn parse_game_data_rows(rows: &Vec<GameDataRow>) -> (r: (Option<String>, Option<String>, Option<String>, Option<String>))
    ensures
        (opt_view(r.0), opt_view(r.1), opt_view(r.2), opt_view(r.3)) == data_rows_fold(data_row_views(rows@)),
{
    let ghost rv = data_row_views(rows@);
    let mut sw: Option<String> = None;
    let mut sl: Option<String> = None;
    let mut cw: Option<String> = None;
    let mut cl: Option<String> = None;
    let save_k = chars_of("save");
    let config_k = chars_of("config");
    let setting_k = chars_of("setting");
    let mut i: usize = 0;
    assert(rv.take(0) =~= Seq::<GameDataRowView>::empty());
    while i < rows.len()
        invariant
            i <= rows.len(),
            rv == data_row_views(rows@),
            save_k@ == "save"@,
            config_k@ == "config"@,
            setting_k@ == "setting"@,
            (opt_view(sw), opt_view(sl), opt_view(cw), opt_view(cl)) == data_rows_fold(rv.take(i as int)),
        decreases rows.len() - i,
    {
        assert(rv.take(i + 1).drop_last() =~= rv.take(i as int));
        assert(rv.take(i + 1).last() == rows@[i as int]@);
        let row = &rows[i];
        match &row.path {
            Some(p) => {
                if p.as_str().unicode_len() > 0 {
                    let os = lower_text(&row.os);
                    let store = lower_text(&row.store);
                    let save = crate::text::contains_vec(&store, &save_k);
                    let config = crate::text::contains_vec(&store, &config_k) || crate::text::contains_vec(&store, &setting_k);
                    let os_s = string_from(&os);
                    let win = eq_str(os_s.as_str(), "windows");
                    let lin = eq_str(os_s.as_str(), "linux");
                    if save && win && sw.is_none() {
                        sw = Some(p.clone());
                    } else if save && lin && sl.is_none() {
                        sl = Some(p.clone());
                    } else if config && win && cw.is_none() {
                        cw = Some(p.clone());
                    } else if config && lin && cl.is_none() {
                        cl = Some(p.clone());
                    }
                }
            },
            None => {},
        }
        i = i + 1;
    }
    assert(rv.take(rows.len() as int) =~= rv);
    (sw, sl, cw, cl)
}

/// A text field of the first result: trimmed, `None` when empty or absent.
pub fn extract_field(value: Option<String>) -> (r: Option<String>)
    ensures
        opt_view(r) == match opt_view(value) {
            Some(v) => if trim_seq(v).len() > 0 {
                Some(trim_seq(v))
            } else {
                None
            },
            None => None,
        },
{
    match value {
        Some(v) => {
            let t = trim(v.as_str());
            if t.as_str().unicode_len() > 0 {
                Some(t)
            } else {
                None
            }
        },
        None => None,
    }
}

/// A yes/no style value of the wiki (`true`, `false`, `hackable`, `unknown`, `n/a`)
/// lower-cased; `None` when absent or empty.
pub fn normalize_bool_field(value: Option<String>) -> (r: Option<String>)
    ensures
        opt_view(r) == match opt_view(value) {
            Some(v) => if lowercase_of(v).len() > 0 {
                Some(lowercase_of(v))
            } else {
                None
            },
            None => None,
        },
{
    match value {
        Some(v) => {
            let l = to_lowercase(v.as_str());
            if l.as_str().unicode_len() > 0 {
                Some(l)
            } else {
                None
            }
        },
        None => None,
    }
}


// ---------------------------------------------------------------------------
// A scraped page
// ---------------------------------------------------------------------------

/// A page found by a search: its id and name.
pub struct PcgwSearchResult {
    pub page_id: String,
    pub page_name: String,
}

/// What a page's wikitext yields: requirement entries and save/config paths.
pub struct PcgwScrapedData {
    pub system_requirements: Vec<SystemRequirements>,
    pub game_data_paths: Vec<GameDataPath>,
}

/// The requirement entries and the save and config paths of a page's wikitext.
pub fn scrape_wikitext(wikitext: &str) -> (r: PcgwScrapedData)
    ensures
        req_views(r.system_requirements@) == all_block_reqs(template_blocks_spec(wikitext@, "System requirements"@)),
        path_views(r.game_data_paths@) == paths_spec(game_data_captures(wikitext@)),
{
    PcgwScrapedData {
        system_requirements: parse_system_requirements(wikitext),
        game_data_paths: parse_game_data_paths(wikitext),
    }
}

} // verus!
