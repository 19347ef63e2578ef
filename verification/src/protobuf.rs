//! Minimal protobuf wire-format reader for the Battle.net Agent's `product.db`.
//!
//! `product.db` is a root message whose repeated field 1 holds one `InstalledProductInfo`
//! per installed product: field 1 = internal id, field 2 = product id, field 3 = a `Data`
//! sub-message whose field 1 is the install path. Only as much of the wire format as is
//! needed to walk over every field is read: varint, 64-bit, length-delimited and 32-bit values.
use vstd::prelude::*;
use vstd::arithmetic::power2::{pow2, lemma2_to64, lemma2_to64_rest};
use vstd::bits::lemma_u64_shl_is_mul;
use vstd::utf8::{valid_utf8, decode_utf8};

verus! {

// ---------------------------------------------------------------------------
// Varints
// ---------------------------------------------------------------------------

/// `data[pos..pos + n]` is a complete varint of `n` bytes: every byte but the last has its
/// continuation bit set, and at most 10 bytes are read.
pub open spec fn varint_at(data: Seq<u8>, pos: int, n: int) -> bool {
    &&& 1 <= n <= 10
    &&& 0 <= pos
    &&& pos + n <= data.len()
    &&& data[pos + n - 1] < 128
    &&& forall|j: int| pos <= j < pos + n - 1 ==> #[trigger] data[j] >= 128
}

/// Sum of the 7-bit payloads of `data[pos..pos + n]`, least significant group first.
pub open spec fn varint_sum(data: Seq<u8>, pos: int, n: nat) -> nat
    decreases n,
{
    if n == 0 {
        0
    } else {
        varint_sum(data, pos, (n - 1) as nat) + (data[pos + n - 1] % 128) as nat * pow2(
            (7 * (n - 1)) as nat,
        )
    }
}

/// The varint that starts at `pos`, as a value (wrapped to 64 bits) and the position after it.
pub open spec fn spec_read_varint(data: Seq<u8>, pos: int) -> Option<(u64, int)> {
    if exists|n: int| varint_at(data, pos, n) {
        let n = choose|n: int| varint_at(data, pos, n);
        Some(((varint_sum(data, pos, n as nat) % pow2(64)) as u64, pos + n))
    } else {
        None
    }
}

proof fn lemma_varint_unique(data: Seq<u8>, pos: int, n1: int, n2: int)
    requires
        varint_at(data, pos, n1),
        varint_at(data, pos, n2),
    ensures
        n1 == n2,
{
    if n1 < n2 {
        assert(data[pos + (n1 - 1)] >= 128);
    } else if n2 < n1 {
        assert(data[pos + (n2 - 1)] >= 128);
    }
}

/// One step of the varint accumulation: OR-ing a payload group into a partial value that
/// only has lower bits set is the same as adding it at its weight (modulo 2^64).
proof fn lemma_varint_step(acc: u64, c: u64, n: nat)
    requires
        n <= 9,
        c < 128,
        acc < pow2(7 * n),
    ensures
        (acc | (c << ((7 * n) as u64))) as nat == ((acc + c * pow2(7 * n)) as nat) % pow2(64),
        n < 9 ==> (acc | (c << ((7 * n) as u64))) < pow2(7 * (n + 1)),
        n < 9 ==> (acc | (c << ((7 * n) as u64))) as nat == acc + c * pow2(7 * n),
{
    lemma2_to64();
    lemma2_to64_rest();
    let s: u64 = (7 * n) as u64;
    if n < 9 {
        assert(s <= 56);
        lemma_u64_shl_is_mul(1, s);
        lemma_u64_shl_is_mul(1, (s + 7) as u64);
        assert((acc | (c << s)) == acc + (c << s) && acc + (c << s) < (1u64 << (s + 7) as u64)
            && (c << s) == c * (1u64 << s)) by (bit_vector)
            requires
                acc < (1u64 << s),
                s <= 56,
                c < 128,
        ;
        assert(acc + c * pow2(7 * n) < pow2(64)) by {
            assert(pow2(7 * (n + 1)) <= pow2(63));
        }
        vstd::arithmetic::div_mod::lemma_small_mod((acc + c * pow2(7 * n)) as nat, pow2(64));
    } else {
        assert(s == 63);
        assert((acc | (c << s)) == acc + (c % 2) * 0x8000000000000000u64) by (bit_vector)
            requires
                acc < 0x8000000000000000u64,
                s == 63,
                c < 128,
        ;
        let half = c / 2;
        assert(c * pow2(63) == (c % 2) * pow2(63) + half * pow2(64)) by (nonlinear_arith)
            requires
                pow2(64) == 2 * pow2(63),
                half == c / 2,
        ;
        vstd::arithmetic::div_mod::lemma_mod_multiples_vanish(
            half as int,
            (acc + (c % 2) * pow2(63)) as int,
            pow2(64) as int,
        );
        vstd::arithmetic::div_mod::lemma_small_mod((acc + (c % 2) * pow2(63)) as nat, pow2(64));
    }
}

/// Reads a varint (LEB128, least significant group first) at `pos`; returns the value and
/// the position after it, or `None` when the input ends first or the varint has more
/// than 10 bytes.
pub fn read_varint(data: &[u8], pos: usize) -> (r: Option<(u64, usize)>)
    ensures
        match r {
            Some((v, np)) => spec_read_varint(data@, pos as int) == Some((v, np as int)),
            None => spec_read_varint(data@, pos as int) is None,
        },
{
    let mut result: u64 = 0;
    let mut shift: u64 = 0;
    let mut p: usize = pos;
    let ghost mut n: nat = 0;
    proof {
        lemma2_to64();
    }
    loop
        invariant
            p == pos + n,
            n <= 9,
            shift == 7 * n,
            result as nat == varint_sum(data@, pos as int, n),
            result < pow2(7 * n),
            forall|j: int| pos <= j < pos + n ==> #[trigger] data@[j] >= 128,
        decreases 10 - n,
    {
        if p >= data.len() {
            proof {
                assert forall|m: int| !varint_at(data@, pos as int, m) by {
                    if varint_at(data@, pos as int, m) && m <= n {
                        assert(data@[pos + (m - 1)] >= 128);
                    }
                }
            }
            return None;
        }
        let byte = data[p];
        p = p + 1;
        let c: u64 = (byte & 0x7F) as u64;
        assert(c == byte % 128 && (byte & 0x80 == 0) == (byte < 128)) by (bit_vector)
            requires
                c == (byte & 0x7F) as u64,
        ;
        proof {
            lemma_varint_step(result, c, n);
        }
        let ghost old_n = n;
        result = result | (c << shift);
        proof {
            n = n + 1;
            assert(varint_sum(data@, pos as int, n) == varint_sum(data@, pos as int, old_n) + (
            data@[pos + n - 1] % 128) as nat * pow2(7 * old_n));
        }
        if byte & 0x80 == 0 {
            proof {
                assert(varint_at(data@, pos as int, n as int));
                let m = choose|m: int| varint_at(data@, pos as int, m);
                lemma_varint_unique(data@, pos as int, m, n as int);
            }
            return Some((result, p));
        }
        shift = shift + 7;
        if shift >= 64 {
            proof {
                assert forall|m: int| !varint_at(data@, pos as int, m) by {
                    if varint_at(data@, pos as int, m) {
                        assert(data@[pos + (m - 1)] >= 128);
                    }
                }
            }
            return None;
        }
        proof {
            assert(pow2(7 * old_n) <= pow2(7 * n)) by {
                vstd::arithmetic::power2::lemma_pow2_strictly_increases(7 * old_n, 7 * n);
            }
        }
    }
}


// ---------------------------------------------------------------------------
// Fields
// ---------------------------------------------------------------------------

/// A decoded field: number, wire type, and the bytes of a length-delimited value.
pub type FieldView = (u32, u8, Option<Seq<u8>>);

/// The tag at `pos`: field number, wire type and the position after the tag.
pub open spec fn spec_read_tag(data: Seq<u8>, pos: int) -> Option<(u32, u8, int)> {
    match spec_read_varint(data, pos) {
        Some((v, np)) => Some(((v >> 3u64) as u32, (v & 7u64) as u8, np)),
        None => None,
    }
}

/// The value of a field with wire type `wire` at `pos`: its bytes when it is
/// length-delimited, and the position after it.
pub open spec fn spec_read_field_value(data: Seq<u8>, pos: int, wire: u8) -> Option<
    (Option<Seq<u8>>, int),
> {
    if wire == 0 {
        match spec_read_varint(data, pos) {
            Some((_, np)) => Some((None, np)),
            None => None,
        }
    } else if wire == 1 {
        if pos + 8 <= data.len() {
            Some((None, pos + 8))
        } else {
            None
        }
    } else if wire == 2 {
        match spec_read_varint(data, pos) {
            Some((len, np)) => if np + (len as usize) <= data.len() {
                Some((Some(data.subrange(np, np + (len as usize))), np + (len as usize)))
            } else {
                None
            },
            None => None,
        }
    } else if wire == 5 {
        if pos + 4 <= data.len() {
            Some((None, pos + 4))
        } else {
            None
        }
    } else {
        None
    }
}

/// The whole field at `pos` and the position after it.
pub open spec fn spec_read_field(data: Seq<u8>, pos: int) -> Option<(FieldView, int)> {
    match spec_read_tag(data, pos) {
        Some((f, w, tag_end)) => match spec_read_field_value(data, tag_end, w) {
            Some((v, np)) => Some(((f, w, v), np)),
            None => None,
        },
        None => None,
    }
}

/// All fields of a message from `pos` to the end, or `None` if one of them is unreadable.
pub open spec fn spec_fields(data: Seq<u8>, pos: int) -> Option<Seq<FieldView>>
    decreases data.len() - pos,
{
    if pos >= data.len() {
        Some(seq![])
    } else {
        match spec_read_field(data, pos) {
            Some((f, np)) => if np > pos {
                match spec_fields(data, np) {
                    Some(rest) => Some(seq![f] + rest),
                    None => None,
                }
            } else {
                None
            },
            None => None,
        }
    }
}

/// The fields of a message from `pos` up to the first unreadable one.
pub open spec fn spec_fields_prefix(data: Seq<u8>, pos: int) -> Seq<FieldView>
    decreases data.len() - pos,
{
    if pos >= data.len() {
        seq![]
    } else {
        match spec_read_field(data, pos) {
            Some((f, np)) => if np > pos {
                seq![f] + spec_fields_prefix(data, np)
            } else {
                seq![]
            },
            None => seq![],
        }
    }
}

/// The last length-delimited value of field `k`, if there is one.
pub open spec fn last_value(fs: Seq<FieldView>, k: u32) -> Option<Seq<u8>>
    decreases fs.len(),
{
    if fs.len() == 0 {
        None
    } else if fs.last().0 == k && fs.last().2 is Some {
        fs.last().2
    } else {
        last_value(fs.drop_last(), k)
    }
}

pub open spec fn prepend_fields(fs: Seq<FieldView>, rest: Option<Seq<FieldView>>) -> Option<
    Seq<FieldView>,
> {
    match rest {
        Some(r) => Some(fs + r),
        None => None,
    }
}

/// Reads the tag of a field at `pos`: field number, wire type and the position after it.
pub fn read_tag(data: &[u8], pos: usize) -> (r: Option<(u32, u8, usize)>)
    ensures
        match r {
            Some((f, w, np)) => spec_read_tag(data@, pos as int) == Some((f, w, np as int)),
            None => spec_read_tag(data@, pos as int) is None,
        },
{
    let (tag, new_pos) = read_varint(data, pos)?;
    let field_number = (tag >> 3) as u32;
    let wire_type = (tag & 0x07) as u8;
    Some((field_number, wire_type, new_pos))
}

/// Reads the value of a field of wire type `wire_type` at `pos`, moving past it also when
/// it will be ignored. A length-delimited value is handed back as a slice.
pub fn read_field_value(data: &[u8], pos: usize, wire_type: u8) -> (r: Option<
    (Option<&[u8]>, usize),
>)
    ensures
        match r {
            Some((v, np)) => spec_read_field_value(data@, pos as int, wire_type) == Some(
                (
                    match v {
                        Some(b) => Some(b@),
                        None => None,
                    },
                    np as int,
                ),
            ),
            None => spec_read_field_value(data@, pos as int, wire_type) is None,
        },
{
    if wire_type == 0 {
        let (_, new_pos) = read_varint(data, pos)?;
        Some((None, new_pos))
    } else if wire_type == 1 {
        let dlen = data.len();
        let new_pos = match pos.checked_add(8) {
            Some(x) => x,
            None => {
                assert(data@.len() == dlen);
                return None;
            },
        };
        if new_pos <= data.len() {
            Some((None, new_pos))
        } else {
            None
        }
    } else if wire_type == 2 {
        let (len, new_pos) = read_varint(data, pos)?;
        let len = #[verifier::truncate] (len as usize);
        let dlen = data.len();
        let end = match new_pos.checked_add(len) {
            Some(x) => x,
            None => {
                assert(data@.len() == dlen);
                return None;
            },
        };
        if end <= data.len() {
            Some((Some(&data[new_pos..end]), end))
        } else {
            None
        }
    } else if wire_type == 5 {
        let dlen = data.len();
        let new_pos = match pos.checked_add(4) {
            Some(x) => x,
            None => {
                assert(data@.len() == dlen);
                return None;
            },
        };
        if new_pos <= data.len() {
            Some((None, new_pos))
        } else {
            None
        }
    } else {
        None
    }
}


proof fn lemma_read_varint_bounds(data: Seq<u8>, pos: int)
    requires
        spec_read_varint(data, pos) is Some,
    ensures
        pos < (spec_read_varint(data, pos)->0).1 <= data.len(),
{
    let n = choose|n: int| varint_at(data, pos, n);
}

proof fn lemma_read_field_bounds(data: Seq<u8>, pos: int)
    requires
        spec_read_field(data, pos) is Some,
    ensures
        pos < (spec_read_field(data, pos)->0).1 <= data.len(),
{
    lemma_read_varint_bounds(data, pos);
    let tag_end = (spec_read_tag(data, pos)->0).2;
    let w = (spec_read_tag(data, pos)->0).1;
    if w == 0 || w == 2 {
        lemma_read_varint_bounds(data, tag_end);
    }
}

// ---------------------------------------------------------------------------
// product.db entries
// ---------------------------------------------------------------------------

/// What `String::from_utf8_lossy` returns for a byte sequence.
pub uninterp spec fn utf8_lossy(bytes: Seq<u8>) -> Seq<char>;

/// `String::from_utf8_lossy`: decodes UTF-8, replacing invalid sequences with U+FFFD.
/// The result is named; the documented fact that valid UTF-8 is decoded unchanged is stated.
#[verifier::external_body]
pub(crate) fn string_from_utf8_lossy(bytes: &[u8]) -> (s: String)
    ensures
        s@ == utf8_lossy(bytes@),
        valid_utf8(bytes@) ==> s@ == decode_utf8(bytes@),
{
    String::from_utf8_lossy(bytes).into_owned()
}

/// An entry of `product.db`.
pub struct ProductDbEntry {
    pub internal_id: String,
    pub product_id: String,
    pub install_path: Option<String>,
}

pub struct ProductDbEntryView {
    pub internal_id: Seq<char>,
    pub product_id: Seq<char>,
    pub install_path: Option<Seq<char>>,
}

pub open spec fn opt_string_view(o: Option<String>) -> Option<Seq<char>> {
    match o {
        Some(s) => Some(s@),
        None => None,
    }
}

impl View for ProductDbEntry {
    type V = ProductDbEntryView;

    open spec fn view(&self) -> ProductDbEntryView {
        ProductDbEntryView {
            internal_id: self.internal_id@,
            product_id: self.product_id@,
            install_path: opt_string_view(self.install_path),
        }
    }
}

pub open spec fn lossy_opt(b: Option<Seq<u8>>) -> Option<Seq<char>> {
    match b {
        Some(bytes) => Some(utf8_lossy(bytes)),
        None => None,
    }
}

/// The install path held by a `Data` message: its last field 1.
pub open spec fn spec_parse_install_data(data: Seq<u8>) -> Option<Seq<char>> {
    match spec_fields(data, 0) {
        Some(fs) => lossy_opt(last_value(fs, 1)),
        None => None,
    }
}

/// An `InstalledProductInfo` message: it needs a product id (field 2); the internal id
/// (field 1) defaults to empty and the install path comes from the last `Data` (field 3).
pub open spec fn spec_parse_product_info(data: Seq<u8>) -> Option<ProductDbEntryView> {
    match spec_fields(data, 0) {
        Some(fs) => match last_value(fs, 2) {
            Some(pid) => Some(
                ProductDbEntryView {
                    internal_id: match last_value(fs, 1) {
                        Some(b) => utf8_lossy(b),
                        None => seq![],
                    },
                    product_id: utf8_lossy(pid),
                    install_path: match last_value(fs, 3) {
                        Some(b) => spec_parse_install_data(b),
                        None => None,
                    },
                },
            ),
            None => None,
        },
        None => None,
    }
}

/// `fs[i]` is the last length-delimited field with number `k`.
pub open spec fn last_ld_at(fs: Seq<FieldView>, k: u32, i: int) -> bool {
    &&& 0 <= i < fs.len()
    &&& fs[i].0 == k
    &&& fs[i].2 is Some
    &&& forall|j: int| i < j < fs.len() ==> !((#[trigger] fs[j]).0 == k && fs[j].2 is Some)
}

/// No field with number `k` is length-delimited.
pub open spec fn no_ld(fs: Seq<FieldView>, k: u32) -> bool {
    forall|j: int| 0 <= j < fs.len() ==> !((#[trigger] fs[j]).0 == k && fs[j].2 is Some)
}

proof fn lemma_last_value_at(fs: Seq<FieldView>, k: u32)
    ensures
        no_ld(fs, k) ==> last_value(fs, k) is None,
        forall|i: int| #[trigger] last_ld_at(fs, k, i) ==> last_value(fs, k) == fs[i].2,
        last_value(fs, k) is Some ==> exists|i: int| #[trigger] last_ld_at(fs, k, i),
    decreases fs.len(),
{
    if fs.len() > 0 {
        let d = fs.drop_last();
        lemma_last_value_at(d, k);
        if no_ld(fs, k) {
            assert forall|j: int| 0 <= j < d.len() implies !((#[trigger] d[j]).0 == k && d[j].2 is Some) by {
                assert(d[j] == fs[j]);
            }
        }
        assert forall|i: int| #[trigger] last_ld_at(fs, k, i) implies last_value(fs, k) == fs[i].2 by {
            if i < fs.len() - 1 {
                assert(!(fs.last().0 == k && fs.last().2 is Some));
                assert(d[i] == fs[i]);
                assert forall|j: int| i < j < d.len() implies !((#[trigger] d[j]).0 == k && d[j].2 is Some) by {
                    assert(d[j] == fs[j]);
                }
                assert(last_ld_at(d, k, i));
            }
        }
        if last_value(fs, k) is Some {
            if fs.last().0 == k && fs.last().2 is Some {
                assert(last_ld_at(fs, k, fs.len() - 1));
            } else {
                let i = choose|i: int| #[trigger] last_ld_at(d, k, i);
                assert(d[i] == fs[i]);
                assert forall|j: int| i < j < fs.len() implies !((#[trigger] fs[j]).0 == k && fs[j].2 is Some) by {
                    if j < fs.len() - 1 {
                        assert(d[j] == fs[j]);
                    }
                }
                assert(last_ld_at(fs, k, i));
            }
        }
    }
}

/// An `InstalledProductInfo` message reads, against its wire-format fields: an entry
/// exactly when some field 2 is length-delimited; its product id is the (lossily
/// decoded) last length-delimited field 2, its internal id the last length-delimited
/// field 1 (empty without one), and its install path comes from the last
/// length-delimited field 3 (none without one); a message whose fields cannot all be
/// read gives no entry.
pub proof fn lemma_product_info_law(data: Seq<u8>)
    ensures
        spec_fields(data, 0) is None ==> spec_parse_product_info(data) is None,
        spec_fields(data, 0) matches Some(fs) ==> {
            &&& (no_ld(fs, 2u32) ==> spec_parse_product_info(data) is None)
            &&& forall|i: int| #[trigger] last_ld_at(fs, 2u32, i) ==> {
                &&& spec_parse_product_info(data) is Some
                &&& spec_parse_product_info(data)->0.product_id == utf8_lossy(fs[i].2->0)
                &&& (no_ld(fs, 1u32) ==> spec_parse_product_info(data)->0.internal_id == Seq::<char>::empty())
                &&& forall|j: int| #[trigger] last_ld_at(fs, 1u32, j) ==> spec_parse_product_info(data)->0.internal_id
                    == utf8_lossy(fs[j].2->0)
                &&& (no_ld(fs, 3u32) ==> spec_parse_product_info(data)->0.install_path is None)
                &&& forall|j: int| #[trigger] last_ld_at(fs, 3u32, j) ==> spec_parse_product_info(data)->0.install_path
                    == spec_parse_install_data(fs[j].2->0)
            }
        },
{
    match spec_fields(data, 0) {
        Some(fs) => {
            lemma_last_value_at(fs, 1u32);
            lemma_last_value_at(fs, 2u32);
            lemma_last_value_at(fs, 3u32);
        },
        None => {},
    }
}

/// The entries held by the root fields: every length-delimited field 1 that decodes.
pub open spec fn spec_product_entries(fs: Seq<FieldView>) -> Seq<ProductDbEntryView>
    decreases fs.len(),
{
    if fs.len() == 0 {
        seq![]
    } else {
        let prev = spec_product_entries(fs.drop_last());
        let f = fs.last();
        if f.0 == 1 && f.1 == 2 && f.2 is Some {
            match spec_parse_product_info(f.2->0) {
                Some(e) => prev.push(e),
                None => prev,
            }
        } else {
            prev
        }
    }
}

/// All entries of a `product.db` file, up to the first unreadable root field.
pub open spec fn spec_parse_product_db(data: Seq<u8>) -> Seq<ProductDbEntryView> {
    spec_product_entries(spec_fields_prefix(data, 0))
}

proof fn lemma_fields_step(data: Seq<u8>, pos: int, fields: Seq<FieldView>)
    requires
        0 <= pos < data.len(),
        spec_read_field(data, pos) is Some,
        spec_fields(data, 0) == prepend_fields(fields, spec_fields(data, pos)),
    ensures
        spec_fields(data, 0) == prepend_fields(
            fields.push((spec_read_field(data, pos)->0).0),
            spec_fields(data, (spec_read_field(data, pos)->0).1),
        ),
{
    lemma_read_field_bounds(data, pos);
    let (f, np) = spec_read_field(data, pos)->0;
    match spec_fields(data, np) {
        Some(rest) => {
            assert(fields + (seq![f] + rest) =~= fields.push(f) + rest);
        },
        None => {},
    }
}

proof fn lemma_last_value_push(fs: Seq<FieldView>, f: FieldView, k: u32)
    ensures
        last_value(fs.push(f), k) == if f.0 == k && f.2 is Some {
            f.2
        } else {
            last_value(fs, k)
        },
{
    assert(fs.push(f).drop_last() =~= fs);
}

/// Decodes a `Data` sub-message: field 1 is the install path.
pub fn parse_install_data(data: &[u8]) -> (r: Option<String>)
    ensures
        opt_string_view(r) == spec_parse_install_data(data@),
{
    let mut path: Option<String> = None;
    let mut pos: usize = 0;
    let ghost mut fields: Seq<FieldView> = seq![];
    while pos < data.len()
        invariant
            pos <= data@.len(),
            spec_fields(data@, 0) == prepend_fields(fields, spec_fields(data@, pos as int)),
            opt_string_view(path) == lossy_opt(last_value(fields, 1)),
        decreases data@.len() - pos,
    {
        let (field_number, wire_type, tag_end) = match read_tag(data, pos) {
            Some(t) => t,
            None => {
                return None;
            },
        };
        let (value, new_pos) = match read_field_value(data, tag_end, wire_type) {
            Some(v) => v,
            None => {
                return None;
            },
        };
        proof {
            lemma_fields_step(data@, pos as int, fields);
            lemma_last_value_push(fields, (spec_read_field(data@, pos as int)->0).0, 1);
            fields = fields.push((spec_read_field(data@, pos as int)->0).0);
            lemma_read_field_bounds(data@, pos as int);
        }
        if field_number == 1 {
            if let Some(bytes) = value {
                path = Some(string_from_utf8_lossy(bytes));
            }
        }
        pos = new_pos;
    }
    proof {
        assert(fields + seq![] =~= fields);
    }
    path
}


/// Decodes an `InstalledProductInfo` message: field 1 = internal id, field 2 = product id,
/// field 3 = `Data` with the install path. `None` when a field is unreadable or there is no
/// product id.
pub fn parse_installed_product_info(data: &[u8]) -> (r: Option<ProductDbEntry>)
    ensures
        match r {
            Some(e) => spec_parse_product_info(data@) == Some(e@),
            None => spec_parse_product_info(data@) is None,
        },
{
    let mut internal_id: Option<String> = None;
    let mut product_id: Option<String> = None;
    let mut install_path: Option<String> = None;
    let ghost mut has_data: bool = false;
    let mut pos: usize = 0;
    let ghost mut fields: Seq<FieldView> = seq![];
    while pos < data.len()
        invariant
            pos <= data@.len(),
            spec_fields(data@, 0) == prepend_fields(fields, spec_fields(data@, pos as int)),
            opt_string_view(internal_id) == lossy_opt(last_value(fields, 1)),
            opt_string_view(product_id) == lossy_opt(last_value(fields, 2)),
            opt_string_view(install_path) == match last_value(fields, 3) {
                Some(b) => spec_parse_install_data(b),
                None => None,
            },
        decreases data@.len() - pos,
    {
        let (field_number, wire_type, tag_end) = match read_tag(data, pos) {
            Some(t) => t,
            None => {
                return None;
            },
        };
        let (value, new_pos) = match read_field_value(data, tag_end, wire_type) {
            Some(v) => v,
            None => {
                return None;
            },
        };
        proof {
            let f = (spec_read_field(data@, pos as int)->0).0;
            lemma_fields_step(data@, pos as int, fields);
            lemma_last_value_push(fields, f, 1);
            lemma_last_value_push(fields, f, 2);
            lemma_last_value_push(fields, f, 3);
            fields = fields.push(f);
            lemma_read_field_bounds(data@, pos as int);
        }
        match value {
            Some(bytes) => {
                if field_number == 1 {
                    internal_id = Some(string_from_utf8_lossy(bytes));
                } else if field_number == 2 {
                    product_id = Some(string_from_utf8_lossy(bytes));
                } else if field_number == 3 {
                    install_path = parse_install_data(bytes);
                }
            },
            None => {},
        }
        pos = new_pos;
    }
    proof {
        assert(fields + seq![] =~= fields);
    }
    let product_id = match product_id {
        Some(p) => p,
        None => {
            return None;
        },
    };
    let internal_id = match internal_id {
        Some(i) => i,
        None => String::new(),
    };
    Some(ProductDbEntry { internal_id, product_id, install_path })
}

pub open spec fn entry_views(v: Seq<ProductDbEntry>) -> Seq<ProductDbEntryView> {
    v.map_values(|e: ProductDbEntry| e@)
}

proof fn lemma_prefix_step(data: Seq<u8>, pos: int, fields: Seq<FieldView>)
    requires
        0 <= pos < data.len(),
        spec_read_field(data, pos) is Some,
        spec_fields_prefix(data, 0) == fields + spec_fields_prefix(data, pos),
    ensures
        spec_fields_prefix(data, 0) == fields.push((spec_read_field(data, pos)->0).0)
            + spec_fields_prefix(data, (spec_read_field(data, pos)->0).1),
{
    lemma_read_field_bounds(data, pos);
    let (f, np) = spec_read_field(data, pos)->0;
    assert(fields + (seq![f] + spec_fields_prefix(data, np)) =~= fields.push(f)
        + spec_fields_prefix(data, np));
}

/// Decodes every entry of `product.db`. The root message holds the entries in its
/// repeated field 1. An unreadable tag or value ends the walk (the rest cannot be
/// resynchronised); an entry that does not decode is skipped.
pub fn parse_product_db(data: &[u8]) -> (r: Vec<ProductDbEntry>)
    ensures
        entry_views(r@) == spec_parse_product_db(data@),
{
    let mut entries: Vec<ProductDbEntry> = Vec::new();
    let mut pos: usize = 0;
    let ghost mut fields: Seq<FieldView> = seq![];
    while pos < data.len()
        invariant
            pos <= data@.len(),
            spec_fields_prefix(data@, 0) == fields + spec_fields_prefix(data@, pos as int),
            entry_views(entries@) == spec_product_entries(fields),
        ensures
            spec_fields_prefix(data@, 0) == fields,
            entry_views(entries@) == spec_product_entries(fields),
        decreases data@.len() - pos,
    {
        let (field_number, wire_type, tag_end) = match read_tag(data, pos) {
            Some(t) => t,
            None => {
                assert(spec_fields_prefix(data@, pos as int) =~= seq![]);
                assert(fields + spec_fields_prefix(data@, pos as int) =~= fields);
                break;
            },
        };
        let (value, new_pos) = match read_field_value(data, tag_end, wire_type) {
            Some(v) => v,
            None => {
                assert(spec_fields_prefix(data@, pos as int) =~= seq![]);
                assert(fields + spec_fields_prefix(data@, pos as int) =~= fields);
                break;
            },
        };
        let ghost f = (spec_read_field(data@, pos as int)->0).0;
        proof {
            lemma_prefix_step(data@, pos as int, fields);
            let old_fields = fields;
            fields = fields.push(f);
            assert(fields.drop_last() =~= old_fields);
            lemma_read_field_bounds(data@, pos as int);
        }
        if field_number == 1 && wire_type == 2 {
            if let Some(bytes) = value {
                match parse_installed_product_info(bytes) {
                    Some(entry) => {
                        let ghost old_entries = entries@;
                        entries.push(entry);
                        assert(entry_views(entries@) =~= entry_views(old_entries).push(entry@));
                    },
                    None => {},
                }
            }
        }
        pos = new_pos;
        if pos >= data.len() {
            assert(spec_fields_prefix(data@, pos as int) =~= seq![]);
            assert(fields + spec_fields_prefix(data@, pos as int) =~= fields);
        }
    }
    entries
}

} // verus!
