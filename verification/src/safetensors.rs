//! The safetensors reader used for rerank projector weights.
//!
//! A safetensors file is an 8-byte little-endian header length, a JSON header
//! of that many bytes, then the tensor data. The reader finds a tensor's entry
//! in the header the way the projector loader does (a textual scan for the
//! quoted tensor name, the object that follows it, and the `dtype`, `shape`
//! and `data_offsets` fields inside that object), checks it, and returns the
//! tensor's shape and its little-endian 32-bit words.

use vstd::prelude::*;
use vstd::slice::slice_subrange;
use vstd::utf8::{
    is_leading_byte_width_1, partial_valid_utf8, partial_valid_utf8_extend_ascii_block,
    valid_utf8, valid_utf8_concat,
};
use crate::bytes::{
    comma_list, find_bytes, is_digit, lemma_comma_list_bytes, find_from, lemma_find_from_first, lemma_find_from_found,
    lemma_parse_usize_list_decimal, occurs_at, opt_int, parse_usize_list, parse_usize_list_spec,
};
use crate::error::{Error, Result};

verus! {

/// `name` between double quotes.
pub open spec fn quoted(name: Seq<u8>) -> Seq<u8> {
    seq![34u8] + name + seq![34u8]
}

/// The end (exclusive) of the JSON object whose braces are being counted,
/// scanning from `pos` with `depth` braces open.
pub open spec fn object_close(h: Seq<u8>, pos: int, depth: int) -> Option<int>
    decreases h.len() + 1 - pos,
{
    if pos < 0 || pos >= h.len() {
        None
    } else if h[pos] == 123 {
        object_close(h, pos + 1, depth + 1)
    } else if h[pos] == 125 {
        if depth - 1 == 0 {
            Some(pos + 1)
        } else {
            object_close(h, pos + 1, depth - 1)
        }
    } else {
        object_close(h, pos + 1, depth)
    }
}

/// The byte range of the object that follows the quoted tensor name.
pub open spec fn tensor_section(h: Seq<u8>, name: Seq<u8>) -> Option<(int, int)> {
    match find_from(h, 0, quoted(name)) {
        None => None,
        Some(k) => match find_from(h, k + quoted(name).len(), seq![123u8]) {
            None => None,
            Some(os) => match object_close(h, os, 0) {
                None => None,
                Some(end) => Some((os, end)),
            },
        },
    }
}

/// The byte range of the string value of `field` in `sec`.
pub open spec fn string_field(sec: Seq<u8>, field: Seq<u8>) -> Option<(int, int)> {
    match find_from(sec, 0, quoted(field)) {
        None => None,
        Some(k) => match find_from(sec, k + quoted(field).len(), seq![58u8]) {
            None => None,
            Some(colon) => match find_from(sec, colon + 1, seq![34u8]) {
                None => None,
                Some(q) => match find_from(sec, q + 1, seq![34u8]) {
                    None => None,
                    Some(ve) => Some((q + 1, ve)),
                },
            },
        },
    }
}

/// The items of the decimal array value of `field` in `sec`.
pub open spec fn usize_array_field(sec: Seq<u8>, field: Seq<u8>) -> Option<Seq<usize>> {
    match find_from(sec, 0, quoted(field)) {
        None => None,
        Some(k) => match find_from(sec, k + quoted(field).len(), seq![91u8]) {
            None => None,
            Some(ab) => match find_from(sec, ab + 1, seq![93u8]) {
                None => None,
                Some(ae) => parse_usize_list_spec(sec.subrange(ab + 1, ae)),
            },
        },
    }
}

proof fn lemma_no_byte_no_occurrence(h: Seq<u8>, from: int, to: int, n: Seq<u8>)
    requires
        0 <= from <= to <= h.len(),
        n.len() > 0,
        forall|i: int| from <= i < to ==> h[i] != n[0],
    ensures
        forall|i: int| from <= i < to ==> !occurs_at(h, i, n),
{
    assert forall|i: int| from <= i < to implies !occurs_at(h, i, n) by {
        if occurs_at(h, i, n) {
            assert(h.subrange(i, i + n.len())[0] == h[i]);
        }
    }
}

/// A field written `"field":[n0,n1,...]`, at its first mention, reads as
/// exactly the numbers `n0, n1, ...` in order.
pub proof fn lemma_usize_array_field_reads_list(
    pre: Seq<u8>,
    field: Seq<u8>,
    ns: Seq<usize>,
    post: Seq<u8>,
)
    requires
        forall|i: int|
            0 <= i < pre.len() ==> !occurs_at(
                pre + quoted(field) + seq![58u8, 91u8] + comma_list(ns) + seq![93u8] + post,
                i,
                quoted(field),
            ),
    ensures
        usize_array_field(
            pre + quoted(field) + seq![58u8, 91u8] + comma_list(ns) + seq![93u8] + post,
            field,
        ) == Some(ns),
{
    let q = quoted(field);
    let list = comma_list(ns);
    let sec = pre + q + seq![58u8, 91u8] + list + seq![93u8] + post;
    let k = pre.len() as int;
    let ab = k + q.len() + 1;
    let ae = ab + 1 + list.len();
    assert(sec.subrange(k, k + q.len()) =~= q);
    lemma_find_from_first(sec, 0, q, k);
    assert(sec[k + q.len()] == 58u8);
    assert(sec.subrange(ab, ab + 1) =~= seq![91u8]);
    assert(!occurs_at(sec, k + q.len(), seq![91u8])) by {
        assert(sec.subrange(k + q.len(), k + q.len() + 1)[0] == 58u8);
    }
    lemma_find_from_first(sec, k + q.len(), seq![91u8], ab);
    lemma_comma_list_bytes(ns);
    assert forall|i: int| ab + 1 <= i < ae implies sec[i] != seq![93u8][0] by {
        assert(sec[i] == list[i - ab - 1]);
    }
    lemma_no_byte_no_occurrence(sec, ab + 1, ae, seq![93u8]);
    assert(sec.subrange(ae, ae + 1) =~= seq![93u8]);
    lemma_find_from_first(sec, ab + 1, seq![93u8], ae);
    assert(sec.subrange(ab + 1, ae) =~= list);
    lemma_parse_usize_list_decimal(ns);
}

/// A field written `"field":"value"`, at its first mention and with no quote
/// inside the value, reads as the range of the value.
pub proof fn lemma_string_field_reads_value(
    pre: Seq<u8>,
    field: Seq<u8>,
    value: Seq<u8>,
    post: Seq<u8>,
)
    requires
        forall|i: int|
            0 <= i < pre.len() ==> !occurs_at(
                pre + quoted(field) + seq![58u8, 34u8] + value + seq![34u8] + post,
                i,
                quoted(field),
            ),
        forall|i: int| 0 <= i < value.len() ==> value[i] != 34u8,
    ensures
        ({
            let start: int = pre.len() + quoted(field).len() + 2int;
            string_field(
                pre + quoted(field) + seq![58u8, 34u8] + value + seq![34u8] + post,
                field,
            ) == Some((start, start + value.len() as int))
        }),
{
    let q = quoted(field);
    let sec = pre + q + seq![58u8, 34u8] + value + seq![34u8] + post;
    let k = pre.len() as int;
    let colon = k + q.len();
    let open = colon + 1;
    let close = open + 1 + value.len();
    assert(sec.subrange(k, k + q.len()) =~= q);
    lemma_find_from_first(sec, 0, q, k);
    assert(sec.subrange(colon, colon + 1) =~= seq![58u8]);
    lemma_find_from_first(sec, colon, seq![58u8], colon);
    assert(sec.subrange(open, open + 1) =~= seq![34u8]);
    lemma_find_from_first(sec, open, seq![34u8], open);
    assert forall|i: int| open + 1 <= i < close implies sec[i] != seq![34u8][0] by {
        assert(sec[i] == value[i - open - 1]);
    }
    lemma_no_byte_no_occurrence(sec, open + 1, close, seq![34u8]);
    assert(sec.subrange(close, close + 1) =~= seq![34u8]);
    lemma_find_from_first(sec, open + 1, seq![34u8], close);
}

/// The entry of an `F32` tensor as a safetensors header writes it: its
/// dtype, its shape and the start and end of its data.
pub open spec fn f32_entry(shape: Seq<usize>, start: usize, end: usize) -> Seq<u8> {
    seq![123u8] + quoted(dtype_key()) + seq![58u8, 34u8] + f32_dtype() + seq![34u8, 44u8]
        + quoted(shape_key()) + seq![58u8, 91u8] + comma_list(shape) + seq![93u8, 44u8]
        + quoted(data_offsets_key()) + seq![58u8, 91u8] + comma_list(seq![start, end])
        + seq![93u8, 125u8]
}

proof fn lemma_f32_entry_dtype(shape: Seq<usize>, start: usize, end: usize)
    ensures
        string_field(f32_entry(shape, start, end), dtype_key()) == Some((10int, 13int)),
        f32_entry(shape, start, end).subrange(10, 13) == f32_dtype(),
{
    let sec = f32_entry(shape, start, end);
    let dpre = seq![123u8];
    let dpost = seq![44u8] + quoted(shape_key()) + seq![58u8, 91u8] + comma_list(shape) + seq![
        93u8,
        44u8,
    ] + quoted(data_offsets_key()) + seq![58u8, 91u8] + comma_list(seq![start, end]) + seq![
        93u8,
        125u8,
    ];
    assert(sec =~= dpre + quoted(dtype_key()) + seq![58u8, 34u8] + f32_dtype() + seq![34u8]
        + dpost);
    assert(!occurs_at(sec, 0, quoted(dtype_key()))) by {
        assert(sec.subrange(0, quoted(dtype_key()).len() as int)[0] == 123u8);
    }
    lemma_string_field_reads_value(dpre, dtype_key(), f32_dtype(), dpost);
    assert(sec.subrange(10, 13) =~= f32_dtype());
}

proof fn lemma_f32_entry_shape(shape: Seq<usize>, start: usize, end: usize)
    ensures
        usize_array_field(f32_entry(shape, start, end), shape_key()) == Some(shape),
{
    let sec = f32_entry(shape, start, end);
    let spre = seq![123u8] + quoted(dtype_key()) + seq![58u8, 34u8] + f32_dtype() + seq![
        34u8,
        44u8,
    ];
    let spost = seq![44u8] + quoted(data_offsets_key()) + seq![58u8, 91u8] + comma_list(
        seq![start, end],
    ) + seq![93u8, 125u8];
    assert(sec =~= spre + quoted(shape_key()) + seq![58u8, 91u8] + comma_list(shape) + seq![93u8]
        + spost);
    assert forall|i: int| 0 <= i < spre.len() implies !occurs_at(sec, i, quoted(shape_key())) by {
        if occurs_at(sec, i, quoted(shape_key())) {
            let w = sec.subrange(i, i + quoted(shape_key()).len());
            assert(w[0] == sec[i] && w[1] == sec[i + 1]);
            assert(w[0] == 34u8 && w[1] == 115u8);
        }
    }
    lemma_usize_array_field_reads_list(spre, shape_key(), shape, spost);
}

proof fn lemma_f32_entry_offsets(shape: Seq<usize>, start: usize, end: usize)
    ensures
        usize_array_field(f32_entry(shape, start, end), data_offsets_key()) == Some(
            seq![start, end],
        ),
{
    let sec = f32_entry(shape, start, end);
    let list = comma_list(shape);
    lemma_comma_list_bytes(shape);
    let spre = seq![123u8] + quoted(dtype_key()) + seq![58u8, 34u8] + f32_dtype() + seq![
        34u8,
        44u8,
    ];
    let opre = spre + quoted(shape_key()) + seq![58u8, 91u8] + list + seq![93u8, 44u8];
    let opost = seq![125u8];
    assert(sec =~= opre + quoted(data_offsets_key()) + seq![58u8, 91u8] + comma_list(
        seq![start, end],
    ) + seq![93u8] + opost);
    let base = spre.len() + quoted(shape_key()).len() + 2;
    assert forall|i: int| 0 <= i < opre.len() implies !occurs_at(
        sec,
        i,
        quoted(data_offsets_key()),
    ) by {
        if occurs_at(sec, i, quoted(data_offsets_key())) {
            let w = sec.subrange(i, i + quoted(data_offsets_key()).len());
            assert(w[0] == sec[i] && w[1] == sec[i + 1] && w[2] == sec[i + 2]);
            assert(w[0] == 34u8 && w[1] == 100u8 && w[2] == 97u8);
            if base <= i < base + list.len() {
                assert(sec[i] == list[i - base]);
            }
        }
    }
    lemma_usize_array_field_reads_list(opre, data_offsets_key(), seq![start, end], opost);
}

/// A well-formed `F32` entry reads successfully: with a non-empty shape
/// whose product fits in `usize`, and a data range inside the file exactly
/// four bytes per item long, the entry gives back its shape and the
/// little-endian words of that range.
pub proof fn lemma_f32_entry_reads(
    bytes: Seq<u8>,
    header_end: int,
    shape: Seq<usize>,
    start: usize,
    end: usize,
    count: nat,
)
    requires
        0 <= header_end,
        header_end + end <= bytes.len(),
        header_end + end <= usize::MAX,
        shape.len() > 0,
        checked_product(shape) == Some(count),
        start <= end,
        end - start == 4 * count,
    ensures
        read_entry(bytes, header_end, f32_entry(shape, start, end)) == Some(
            (shape, Seq::new(count, |i: int| le_u32_at(bytes, header_end + start + 4 * i))),
        ),
{
    lemma_f32_entry_dtype(shape, start, end);
    lemma_f32_entry_shape(shape, start, end);
    lemma_f32_entry_offsets(shape, start, end);
    let offsets = seq![start, end];
    assert(offsets[0] == start && offsets[1] == end && offsets.len() == 2);
}

/// Every byte of `s` is ASCII and none is a brace.
pub open spec fn plain_ascii(s: Seq<u8>) -> bool {
    forall|i: int| 0 <= i < s.len() ==> #[trigger] s[i] < 128 && s[i] != 123 && s[i] != 125
}

proof fn lemma_plain_ascii_concat(a: Seq<u8>, b: Seq<u8>)
    requires
        plain_ascii(a),
        plain_ascii(b),
    ensures
        plain_ascii(a + b),
{
    assert forall|i: int| 0 <= i < (a + b).len() implies #[trigger] (a + b)[i] < 128 && (a
        + b)[i] != 123 && (a + b)[i] != 125 by {
        if i < a.len() {
            assert((a + b)[i] == a[i]);
        } else {
            assert((a + b)[i] == b[i - a.len()]);
        }
    }
}

proof fn lemma_ascii_valid_utf8(s: Seq<u8>)
    requires
        forall|i: int| 0 <= i < s.len() ==> #[trigger] s[i] < 128,
    ensures
        valid_utf8(s),
{
    assert(s.subrange(0, 0) =~= Seq::<u8>::empty());
    assert(partial_valid_utf8(s, 0));
    assert forall|i: int| 0 <= 0 <= i < s.len() <= s.len() implies #[trigger] is_leading_byte_width_1(
        s[i],
    ) by {}
    partial_valid_utf8_extend_ascii_block(s, 0, s.len() as int);
    assert(s.subrange(0, s.len() as int) =~= s);
}

proof fn lemma_comma_list_plain(ns: Seq<usize>)
    ensures
        plain_ascii(comma_list(ns)),
{
    lemma_comma_list_bytes(ns);
    assert forall|i: int| 0 <= i < comma_list(ns).len() implies #[trigger] comma_list(ns)[i] < 128
        && comma_list(ns)[i] != 123 && comma_list(ns)[i] != 125 by {
        assert(is_digit(comma_list(ns)[i]) || comma_list(ns)[i] == 44u8);
    }
}

/// The bytes of an `F32` entry between its outer braces.
pub open spec fn f32_entry_inner(shape: Seq<usize>, start: usize, end: usize) -> Seq<u8> {
    quoted(dtype_key()) + seq![58u8, 34u8] + f32_dtype() + seq![34u8, 44u8] + quoted(shape_key())
        + seq![58u8, 91u8] + comma_list(shape) + seq![93u8, 44u8] + quoted(data_offsets_key())
        + seq![58u8, 91u8] + comma_list(seq![start, end]) + seq![93u8]
}

proof fn lemma_f32_entry_inner_plain(shape: Seq<usize>, start: usize, end: usize)
    ensures
        plain_ascii(f32_entry_inner(shape, start, end)),
        f32_entry(shape, start, end) == seq![123u8] + f32_entry_inner(shape, start, end) + seq![
            125u8,
        ],
{
    let p1 = quoted(dtype_key()) + seq![58u8, 34u8] + f32_dtype() + seq![34u8, 44u8] + quoted(
        shape_key(),
    ) + seq![58u8, 91u8];
    let p2 = seq![93u8, 44u8] + quoted(data_offsets_key()) + seq![58u8, 91u8];
    let p3 = seq![93u8];
    assert(plain_ascii(p1));
    assert(plain_ascii(p2));
    assert(plain_ascii(p3));
    lemma_comma_list_plain(shape);
    lemma_comma_list_plain(seq![start, end]);
    lemma_plain_ascii_concat(p1, comma_list(shape));
    lemma_plain_ascii_concat(p1 + comma_list(shape), p2);
    lemma_plain_ascii_concat(p1 + comma_list(shape) + p2, comma_list(seq![start, end]));
    lemma_plain_ascii_concat(p1 + comma_list(shape) + p2 + comma_list(seq![start, end]), p3);
    assert(f32_entry_inner(shape, start, end) =~= p1 + comma_list(shape) + p2 + comma_list(
        seq![start, end],
    ) + p3);
    assert(f32_entry(shape, start, end) =~= seq![123u8] + f32_entry_inner(shape, start, end)
        + seq![125u8]);
}

proof fn lemma_object_close_skip(h: Seq<u8>, pos: int, to: int, depth: int)
    requires
        0 <= pos <= to < h.len(),
        forall|i: int| pos <= i < to ==> h[i] != 123 && h[i] != 125,
    ensures
        object_close(h, pos, depth) == object_close(h, to, depth),
    decreases to - pos,
{
    if pos < to {
        lemma_object_close_skip(h, pos + 1, to, depth);
    }
}

/// The `k` low bytes of `n`, least significant first.
pub open spec fn le_bytes(n: nat, k: nat) -> Seq<u8>
    decreases k,
{
    if k == 0 {
        Seq::<u8>::empty()
    } else {
        seq![(n % 256) as u8] + le_bytes(n / 256, (k - 1) as nat)
    }
}

/// A number below 2^64 written as eight little-endian bytes reads back as
/// itself.
pub proof fn lemma_le_u64_round_trip(n: nat)
    requires
        n < 0x1_0000_0000_0000_0000,
    ensures
        le_bytes(n, 8).len() == 8,
        le_u64(le_bytes(n, 8)) == n,
{
    let q0 = n as int;
    let q1 = q0 / 256;
    let q2 = q1 / 256;
    let q3 = q2 / 256;
    let q4 = q3 / 256;
    let q5 = q4 / 256;
    let q6 = q5 / 256;
    let q7 = q6 / 256;
    let q8 = q7 / 256;
    vstd::arithmetic::div_mod::lemma_fundamental_div_mod(q0, 256);
    vstd::arithmetic::div_mod::lemma_fundamental_div_mod(q1, 256);
    vstd::arithmetic::div_mod::lemma_fundamental_div_mod(q2, 256);
    vstd::arithmetic::div_mod::lemma_fundamental_div_mod(q3, 256);
    vstd::arithmetic::div_mod::lemma_fundamental_div_mod(q4, 256);
    vstd::arithmetic::div_mod::lemma_fundamental_div_mod(q5, 256);
    vstd::arithmetic::div_mod::lemma_fundamental_div_mod(q6, 256);
    vstd::arithmetic::div_mod::lemma_fundamental_div_mod(q7, 256);
    assert(q8 == 0);
    let b = le_bytes(n, 8);
    reveal_with_fuel(le_bytes, 9);
    assert(b =~= seq![
        (q0 % 256) as u8,
        (q1 % 256) as u8,
        (q2 % 256) as u8,
        (q3 % 256) as u8,
        (q4 % 256) as u8,
        (q5 % 256) as u8,
        (q6 % 256) as u8,
        (q7 % 256) as u8,
    ]);
}

/// The header of a safetensors file that holds one `F32` tensor named
/// `name`, whose data is the first `data_len` bytes after the header.
pub open spec fn f32_header(name: Seq<u8>, shape: Seq<usize>, data_len: usize) -> Seq<u8> {
    seq![123u8] + quoted(name) + seq![58u8] + f32_entry(shape, 0, data_len) + seq![125u8]
}

/// A safetensors file that holds one `F32` tensor: the header's length as
/// eight little-endian bytes, the header, then the data.
pub open spec fn f32_file(name: Seq<u8>, shape: Seq<usize>, data: Seq<u8>) -> Seq<u8> {
    let header = f32_header(name, shape, data.len() as usize);
    le_bytes(header.len(), 8) + header + data
}

proof fn lemma_f32_header_section(name: Seq<u8>, shape: Seq<usize>, data_len: usize)
    ensures
        ({
            let header = f32_header(name, shape, data_len);
            let os = quoted(name).len() + 2;
            let end = os + f32_entry(shape, 0, data_len).len();
            &&& tensor_section(header, name) == Some((os as int, end as int))
            &&& header.subrange(os as int, end as int) == f32_entry(shape, 0, data_len)
        }),
{
    let header = f32_header(name, shape, data_len);
    let q = quoted(name);
    let entry = f32_entry(shape, 0, data_len);
    let inner = f32_entry_inner(shape, 0, data_len);
    lemma_f32_entry_inner_plain(shape, 0, data_len);
    let ql: int = q.len() as int;
    let os: int = ql + 2;
    let end: int = os + entry.len();
    assert(header =~= seq![123u8] + q + seq![58u8] + (seq![123u8] + inner + seq![125u8]) + seq![
        125u8,
    ]);
    assert(!occurs_at(header, 0, q)) by {
        assert(header.subrange(0, q.len() as int)[0] == 123u8);
    }
    assert(header.subrange(1, 1 + ql) =~= q);
    lemma_find_from_first(header, 0, q, 1);
    assert(!occurs_at(header, 1 + ql, seq![123u8])) by {
        assert(header.subrange(1 + ql, 2 + ql)[0] == 58u8);
    }
    assert(header.subrange(os, os + 1) =~= seq![123u8]);
    lemma_find_from_first(header, 1 + ql, seq![123u8], os);
    assert(header[os] == 123u8);
    let close = os + 1 + inner.len();
    assert forall|i: int| os + 1 <= i < close implies header[i] != 123 && header[i] != 125 by {
        assert(header[i] == inner[i - os - 1]);
    }
    lemma_object_close_skip(header, os + 1, close, 1);
    assert(header[close] == 125u8);
    assert(object_close(header, os, 0) == object_close(header, os + 1, 1));
    assert(object_close(header, close, 1) == Some(close + 1));
    assert(header.subrange(os, end) =~= entry);
}

proof fn lemma_f32_header_utf8(name: Seq<u8>, shape: Seq<usize>, data_len: usize)
    requires
        valid_utf8(name),
    ensures
        valid_utf8(f32_header(name, shape, data_len)),
{
    let entry = f32_entry(shape, 0, data_len);
    let inner = f32_entry_inner(shape, 0, data_len);
    lemma_f32_entry_inner_plain(shape, 0, data_len);
    assert forall|i: int| 0 <= i < entry.len() implies #[trigger] entry[i] < 128 by {
        if 0 < i < entry.len() - 1 {
            assert(entry[i] == inner[i - 1]);
        }
    }
    lemma_ascii_valid_utf8(entry);
    let a = seq![123u8, 34u8];
    let b = seq![34u8, 58u8];
    let c = seq![125u8];
    lemma_ascii_valid_utf8(a);
    lemma_ascii_valid_utf8(b);
    lemma_ascii_valid_utf8(c);
    valid_utf8_concat(a, name);
    valid_utf8_concat(a + name, b);
    valid_utf8_concat(a + name + b, entry);
    valid_utf8_concat(a + name + b + entry, c);
    assert(f32_header(name, shape, data_len) =~= a + name + b + entry + c);
}

/// A safetensors file written with one well-formed `F32` tensor reads back:
/// the tensor's shape, and its data as little-endian 32-bit words.
pub proof fn lemma_read_tensor_written(name: Seq<u8>, shape: Seq<usize>, data: Seq<u8>, count: nat)
    requires
        valid_utf8(name),
        shape.len() > 0,
        checked_product(shape) == Some(count),
        data.len() == 4 * count,
        f32_file(name, shape, data).len() <= usize::MAX,
    ensures
        read_tensor(f32_file(name, shape, data), name) == Some(
            (shape, Seq::new(count, |i: int| le_u32_at(data, 4 * i))),
        ),
{
    let file = f32_file(name, shape, data);
    let header = f32_header(name, shape, data.len() as usize);
    let h = header.len();
    lemma_le_u64_round_trip(h);
    let lb = le_bytes(h, 8);
    assert(file =~= lb + header + data);
    assert(file[0] == lb[0] && file[1] == lb[1] && file[2] == lb[2] && file[3] == lb[3]);
    assert(file[4] == lb[4] && file[5] == lb[5] && file[6] == lb[6] && file[7] == lb[7]);
    assert(le_u64(file) == h);
    let header_end: int = 8 + h as int;
    assert(file.subrange(8, header_end) =~= header);
    lemma_f32_header_utf8(name, shape, data.len() as usize);
    lemma_f32_header_section(name, shape, data.len() as usize);
    lemma_f32_entry_reads(file, header_end, shape, 0, data.len() as usize, count);
    let got = Seq::new(count, |i: int| le_u32_at(file, header_end + 0 + 4 * i));
    let want = Seq::new(count, |i: int| le_u32_at(data, 4 * i));
    assert forall|i: int| 0 <= i < count implies got[i] == want[i] by {
        assert(file[header_end + 4 * i] == data[4 * i]);
        assert(file[header_end + 4 * i + 1] == data[4 * i + 1]);
        assert(file[header_end + 4 * i + 2] == data[4 * i + 2]);
        assert(file[header_end + 4 * i + 3] == data[4 * i + 3]);
    }
    assert(got =~= want);
}

/// The product of `shape`, computed left to right, or `None` once a partial
/// product exceeds `usize::MAX`.
pub open spec fn checked_product(shape: Seq<usize>) -> Option<nat>
    decreases shape.len(),
{
    if shape.len() == 0 {
        Some(1)
    } else {
        match checked_product(shape.drop_last()) {
            None => None,
            Some(p) => if p * shape.last() > usize::MAX {
                None
            } else {
                Some((p * shape.last()) as nat)
            },
        }
    }
}

/// The little-endian 64-bit number in `b[0..8]`.
pub open spec fn le_u64(b: Seq<u8>) -> nat {
    (b[0] + b[1] * 0x100 + b[2] * 0x1_0000 + b[3] * 0x100_0000 + b[4] * 0x1_0000_0000 + b[5]
        * 0x100_0000_0000 + b[6] * 0x1_0000_0000_0000 + b[7] * 0x100_0000_0000_0000) as nat
}

/// The little-endian 32-bit word at `b[i..i + 4]`.
pub open spec fn le_u32_at(b: Seq<u8>, i: int) -> u32 {
    (b[i] + b[i + 1] * 0x100 + b[i + 2] * 0x1_0000 + b[i + 3] * 0x100_0000) as u32
}

pub open spec fn dtype_key() -> Seq<u8> {
    seq![100u8, 116u8, 121u8, 112u8, 101u8]
}

pub open spec fn shape_key() -> Seq<u8> {
    seq![115u8, 104u8, 97u8, 112u8, 101u8]
}

pub open spec fn data_offsets_key() -> Seq<u8> {
    seq![100u8, 97u8, 116u8, 97u8, 95u8, 111u8, 102u8, 102u8, 115u8, 101u8, 116u8, 115u8]
}

pub open spec fn f32_dtype() -> Seq<u8> {
    seq![70u8, 51u8, 50u8]
}

/// The checks on a tensor's entry once its header has been found: its dtype,
/// shape and data range, and its data as 32-bit words.
pub open spec fn read_entry(bytes: Seq<u8>, header_end: int, section: Seq<u8>) -> Option<
    (Seq<usize>, Seq<u32>),
> {
    match string_field(section, dtype_key()) {
        None => None,
        Some((a, b)) => if section.subrange(a, b) != f32_dtype() {
            None
        } else {
            match usize_array_field(section, shape_key()) {
                None => None,
                Some(shape) => match usize_array_field(section, data_offsets_key()) {
                    None => None,
                    Some(offsets) => if offsets.len() != 2 || shape.len() == 0 {
                        None
                    } else {
                        match checked_product(shape) {
                            None => None,
                            Some(count) => {
                                let data_start = header_end + offsets[0];
                                let data_end = header_end + offsets[1];
                                if data_start > usize::MAX || data_end > usize::MAX {
                                    None
                                } else if data_start > data_end || data_end > bytes.len()
                                    || data_end - data_start != count * 4 {
                                    None
                                } else {
                                    Some(
                                        (
                                            shape,
                                            Seq::new(
                                                count,
                                                |i: int| le_u32_at(bytes, data_start + 4 * i),
                                            ),
                                        ),
                                    )
                                }
                            },
                        }
                    },
                },
            }
        },
    }
}

/// The shape and the 32-bit little-endian words of the data of the tensor
/// `name` in the safetensors file `bytes`, or `None` where the file does not
/// hold a well-formed `F32` entry for it.
pub open spec fn read_tensor(bytes: Seq<u8>, name: Seq<u8>) -> Option<(Seq<usize>, Seq<u32>)> {
    if bytes.len() < 8 {
        None
    } else {
        let header_len = (le_u64(bytes) as u64) as usize;
        let header_end = 8 + header_len;
        if header_end > usize::MAX || header_end > bytes.len() {
            None
        } else {
            let header = bytes.subrange(8, header_end);
            if !valid_utf8(header) {
                None
            } else {
                match tensor_section(header, name) {
                    None => None,
                    Some((s, e)) => read_entry(bytes, header_end, header.subrange(s, e)),
                }
            }
        }
    }
}

/// A tensor that reads successfully has a non-empty shape and exactly as many
/// words as its shape's product.
pub proof fn lemma_read_tensor_sizes(bytes: Seq<u8>, name: Seq<u8>)
    ensures
        read_tensor(bytes, name) matches Some((shape, data)) ==> shape.len() > 0
            && checked_product(shape) == Some(data.len()),
{
}

/// Whether `bytes` is well-formed UTF-8 (`core::str::from_utf8` succeeds).
///
/// Trusted: the claim is that `from_utf8` accepts exactly the byte sequences
/// that vstd's `valid_utf8` describes, as the standard library documents.
#[verifier::external_body]
fn is_utf8(bytes: &[u8]) -> (r: bool)
    ensures
        r == valid_utf8(bytes@),
{
    core::str::from_utf8(bytes).is_ok()
}

fn quoted_key(name: &[u8]) -> (k: Vec<u8>)
    ensures
        k@ == quoted(name@),
{
    let mut k: Vec<u8> = Vec::new();
    k.push(34u8);
    let mut i: usize = 0;
    while i < name.len()
        invariant
            i <= name.len(),
            k@ == seq![34u8] + name@.take(i as int),
        decreases name.len() - i,
    {
        k.push(name[i]);
        assert(name@.take(i + 1) =~= name@.take(i as int).push(name@[i as int]));
        assert(k@ =~= seq![34u8] + name@.take(i + 1));
        i = i + 1;
    }
    k.push(34u8);
    assert(name@.take(name.len() as int) =~= name@);
    assert(k@ =~= quoted(name@));
    k
}

fn closing_brace(h: &[u8], os: usize) -> (r: Option<usize>)
    requires
        os < h.len(),
        h@[os as int] == 123,
    ensures
        opt_int(r) == object_close(h@, os as int, 0),
{
    let mut pos = os + 1;
    let mut depth: usize = 1;
    while pos < h.len()
        invariant
            os < pos <= h.len(),
            1 <= depth <= pos - os,
            object_close(h@, os as int, 0) == object_close(h@, pos as int, depth as int),
        decreases h.len() - pos,
    {
        let b = h[pos];
        if b == 123 {
            depth = depth + 1;
        } else if b == 125 {
            if depth == 1 {
                return Some(pos + 1);
            }
            depth = depth - 1;
        }
        pos = pos + 1;
    }
    None
}

fn safetensor_tensor_section(h: &[u8], name: &[u8]) -> (r: Option<(usize, usize)>)
    ensures
        match r {
            Some((a, b)) => tensor_section(h@, name@) == Some((a as int, b as int)) && a <= b
                <= h.len(),
            None => tensor_section(h@, name@) is None,
        },
{
    let key = quoted_key(name);
    let k = match find_bytes(h, 0, key.as_slice()) {
        Some(k) => k,
        None => return None,
    };
    proof {
        lemma_find_from_found(h@, 0, key@);
        assert(find_from(h@, 0, key@) == Some(k as int));
        assert(occurs_at(h@, k as int, key@));
        assert(k + key@.len() <= h@.len());
        assert(k + key.len() <= h.len());
    }
    let open_brace = vec![123u8];
    assert(open_brace@ =~= seq![123u8]);
    let os = match find_bytes(h, k + key.len(), open_brace.as_slice()) {
        Some(os) => os,
        None => return None,
    };
    proof {
        lemma_find_from_found(h@, k + key@.len(), seq![123u8]);
        assert(h@.subrange(os as int, os + 1)[0] == h@[os as int]);
    }
    match closing_brace(h, os) {
        Some(end) => {
            proof {
                lemma_object_close_bound(h@, os as int, 0);
            }
            Some((os, end))
        },
        None => None,
    }
}

proof fn lemma_object_close_bound(h: Seq<u8>, pos: int, depth: int)
    ensures
        object_close(h, pos, depth) matches Some(end) ==> pos < end <= h.len(),
    decreases h.len() + 1 - pos,
{
    if pos < 0 || pos >= h.len() {
    } else if h[pos] == 123 {
        lemma_object_close_bound(h, pos + 1, depth + 1);
    } else if h[pos] == 125 {
        if depth - 1 != 0 {
            lemma_object_close_bound(h, pos + 1, depth - 1);
        }
    } else {
        lemma_object_close_bound(h, pos + 1, depth);
    }
}


fn after_key(sec: &[u8], field: &[u8]) -> (r: Option<usize>)
    ensures
        match r {
            Some(ks) => find_from(sec@, 0, quoted(field@)) matches Some(k) && ks == k + quoted(
                field@,
            ).len() && ks <= sec.len(),
            None => find_from(sec@, 0, quoted(field@)) is None,
        },
{
    let key = quoted_key(field);
    match find_bytes(sec, 0, key.as_slice()) {
        Some(k) => {
            proof {
                lemma_find_from_found(sec@, 0, key@);
                assert(find_from(sec@, 0, key@) == Some(k as int));
                assert(occurs_at(sec@, k as int, key@));
                assert(k + key@.len() <= sec@.len());
                assert(k + key.len() <= sec.len());
            }
            Some(k + key.len())
        },
        None => None,
    }
}

fn find_one(h: &[u8], from: usize, b: u8) -> (r: Option<usize>)
    ensures
        opt_int(r) == find_from(h@, from as int, seq![b]),
        r matches Some(i) ==> from <= i < h.len(),
{
    let needle = vec![b];
    assert(needle@ =~= seq![b]);
    let r = find_bytes(h, from, needle.as_slice());
    proof {
        lemma_find_from_found(h@, from as int, seq![b]);
    }
    r
}

fn json_string_field(sec: &[u8], field: &[u8]) -> (r: Option<(usize, usize)>)
    ensures
        match r {
            Some((a, b)) => string_field(sec@, field@) == Some((a as int, b as int)) && a <= b
                <= sec.len(),
            None => string_field(sec@, field@) is None,
        },
{
    let ks = match after_key(sec, field) {
        Some(ks) => ks,
        None => return None,
    };
    let colon = match find_one(sec, ks, 58u8) {
        Some(c) => c,
        None => return None,
    };
    let q = match find_one(sec, colon + 1, 34u8) {
        Some(q) => q,
        None => return None,
    };
    let ve = match find_one(sec, q + 1, 34u8) {
        Some(v) => v,
        None => return None,
    };
    Some((q + 1, ve))
}

fn json_usize_array_field(sec: &[u8], field: &[u8]) -> (r: Option<Vec<usize>>)
    ensures
        match r {
            Some(v) => usize_array_field(sec@, field@) == Some(v@),
            None => usize_array_field(sec@, field@) is None,
        },
{
    let ks = match after_key(sec, field) {
        Some(ks) => ks,
        None => return None,
    };
    let ab = match find_one(sec, ks, 91u8) {
        Some(a) => a,
        None => return None,
    };
    let ae = match find_one(sec, ab + 1, 93u8) {
        Some(a) => a,
        None => return None,
    };
    parse_usize_list(sec, ab + 1, ae)
}

fn product(shape: &[usize]) -> (r: Option<usize>)
    ensures
        match r {
            Some(p) => checked_product(shape@) == Some(p as nat),
            None => checked_product(shape@) is None,
        },
{
    let mut acc: usize = 1;
    let mut i: usize = 0;
    assert(shape@.take(0) =~= Seq::<usize>::empty());
    while i < shape.len()
        invariant
            i <= shape.len(),
            checked_product(shape@.take(i as int)) == Some(acc as nat),
        decreases shape.len() - i,
    {
        let ghost t = shape@.take(i + 1);
        assert(t.drop_last() =~= shape@.take(i as int));
        assert(t.last() == shape@[i as int]);
        match acc.checked_mul(shape[i]) {
            Some(p) => {
                acc = p;
            },
            None => {
                proof {
                    lemma_product_none_prefix(shape@, i + 1);
                }
                return None;
            },
        }
        i = i + 1;
    }
    assert(shape@.take(shape.len() as int) =~= shape@);
    Some(acc)
}

proof fn lemma_product_none_prefix(s: Seq<usize>, k: int)
    requires
        0 <= k <= s.len(),
        checked_product(s.take(k)) is None,
    ensures
        checked_product(s) is None,
    decreases s.len() - k,
{
    if k == s.len() {
        assert(s.take(k) =~= s);
    } else {
        assert(s.take(k + 1).drop_last() =~= s.take(k));
        lemma_product_none_prefix(s, k + 1);
    }
}

fn byte_string(bytes: &[u8], a: usize, b: usize, expected: &[u8]) -> (r: bool)
    requires
        a <= b <= bytes.len(),
    ensures
        r == (bytes@.subrange(a as int, b as int) == expected@),
{
    if b - a != expected.len() {
        return false;
    }
    let mut i: usize = 0;
    while i < expected.len()
        invariant
            i <= expected.len(),
            b - a == expected.len(),
            a <= b <= bytes.len(),
            forall|j: int| 0 <= j < i ==> bytes@[a + j] == expected@[j],
        decreases expected.len() - i,
    {
        if bytes[a + i] != expected[i] {
            assert(bytes@.subrange(a as int, b as int)[i as int] != expected@[i as int]);
            return false;
        }
        i = i + 1;
    }
    assert(bytes@.subrange(a as int, b as int) =~= expected@);
    true
}

fn read_le_u64(bytes: &[u8]) -> (r: u64)
    requires
        bytes.len() >= 8,
    ensures
        r as nat == le_u64(bytes@),
{
    (bytes[0] as u64) + (bytes[1] as u64) * 0x100 + (bytes[2] as u64) * 0x1_0000 + (
    bytes[3] as u64) * 0x100_0000 + (bytes[4] as u64) * 0x1_0000_0000 + (bytes[5] as u64)
        * 0x100_0000_0000 + (bytes[6] as u64) * 0x1_0000_0000_0000 + (bytes[7] as u64)
        * 0x100_0000_0000_0000
}

fn read_le_u32(bytes: &[u8], i: usize) -> (r: u32)
    requires
        i + 4 <= bytes.len(),
    ensures
        r == le_u32_at(bytes@, i as int),
{
    (bytes[i] as u32) + (bytes[i + 1] as u32) * 0x100 + (bytes[i + 2] as u32) * 0x1_0000 + (
    bytes[i + 3] as u32) * 0x100_0000
}

/// Reads the `F32` tensor `name` from the safetensors file `bytes`: its shape,
/// and its data as the bit patterns of its little-endian 32-bit words.
pub fn read_safetensor_f32(bytes: &[u8], name: &[u8]) -> (r: Result<(Vec<usize>, Vec<u32>)>)
    ensures
        match r {
            Ok((shape, data)) => read_tensor(bytes@, name@) == Some((shape@, data@)),
            Err(e) => e == Error::ProjectorInvalid && read_tensor(bytes@, name@) is None,
        },
{
    if bytes.len() < 8 {
        return Err(Error::ProjectorInvalid);
    }
    let header_len = read_le_u64(bytes) as usize;
    let header_end = match 8usize.checked_add(header_len) {
        Some(e) => e,
        None => return Err(Error::ProjectorInvalid),
    };
    if header_end > bytes.len() {
        return Err(Error::ProjectorInvalid);
    }
    let header = slice_subrange(bytes, 8, header_end);
    if !is_utf8(header) {
        return Err(Error::ProjectorInvalid);
    }
    let (s, e) = match safetensor_tensor_section(header, name) {
        Some(b) => b,
        None => return Err(Error::ProjectorInvalid),
    };
    let section = slice_subrange(header, s, e);
    let ghost sec = section@;
    let dtype_name = vec![100u8, 116u8, 121u8, 112u8, 101u8];
    assert(dtype_name@ =~= dtype_key());
    let (da, db) = match json_string_field(section, dtype_name.as_slice()) {
        Some(b) => b,
        None => return Err(Error::ProjectorInvalid),
    };
    let f32_name = vec![70u8, 51u8, 50u8];
    assert(f32_name@ =~= f32_dtype());
    if !byte_string(section, da, db, f32_name.as_slice()) {
        return Err(Error::ProjectorInvalid);
    }
    let shape_name = vec![115u8, 104u8, 97u8, 112u8, 101u8];
    assert(shape_name@ =~= shape_key());
    let shape = match json_usize_array_field(section, shape_name.as_slice()) {
        Some(v) => v,
        None => return Err(Error::ProjectorInvalid),
    };
    let offsets_name = vec![100u8, 97u8, 116u8, 97u8, 95u8, 111u8, 102u8, 102u8, 115u8, 101u8, 116u8, 115u8];
    assert(offsets_name@ =~= data_offsets_key());
    let offsets = match json_usize_array_field(section, offsets_name.as_slice()) {
        Some(v) => v,
        None => return Err(Error::ProjectorInvalid),
    };
    if offsets.len() != 2 || shape.len() == 0 {
        return Err(Error::ProjectorInvalid);
    }
    let count = match product(shape.as_slice()) {
        Some(c) => c,
        None => return Err(Error::ProjectorInvalid),
    };
    let data_start = match header_end.checked_add(offsets[0]) {
        Some(v) => v,
        None => return Err(Error::ProjectorInvalid),
    };
    let data_end = match header_end.checked_add(offsets[1]) {
        Some(v) => v,
        None => return Err(Error::ProjectorInvalid),
    };
    if data_start > data_end || data_end > bytes.len() || count > (data_end - data_start) / 4
        || data_end - data_start != count * 4 {
        return Err(Error::ProjectorInvalid);
    }
    let mut data: Vec<u32> = Vec::with_capacity(count);
    let mut i: usize = 0;
    while i < count
        invariant
            i <= count,
            data_end - data_start == count * 4,
            data_start <= data_end <= bytes.len(),
            data@ =~= Seq::new(i as nat, |j: int| le_u32_at(bytes@, data_start + 4 * j)),
        decreases count - i,
    {
        let w = read_le_u32(bytes, data_start + 4 * i);
        data.push(w);
        i = i + 1;
    }
    proof {
        assert(header@ == bytes@.subrange(8, header_end as int));
        assert(sec == header@.subrange(s as int, e as int));
    }
    Ok((shape, data))
}


/// `a * b`, or `usize::MAX` when the product does not fit.
pub open spec fn saturating_product(a: usize, b: usize) -> int {
    if a * b > usize::MAX {
        usize::MAX as int
    } else {
        a * b
    }
}

/// The name of the first projector layer's weight tensor.
pub open spec fn first_layer_name() -> Seq<u8> {
    seq![
        112u8, 114u8, 111u8, 106u8, 101u8, 99u8, 116u8, 111u8, 114u8, 46u8, 48u8, 46u8, 119u8,
        101u8, 105u8, 103u8, 104u8, 116u8,
    ]
}

/// The name of the second projector layer's weight tensor.
pub open spec fn second_layer_name() -> Seq<u8> {
    seq![
        112u8, 114u8, 111u8, 106u8, 101u8, 99u8, 116u8, 111u8, 114u8, 46u8, 50u8, 46u8, 119u8,
        101u8, 105u8, 103u8, 104u8, 116u8,
    ]
}

/// The abstract projector: the first layer's weights, rows and columns, then
/// the second layer's.
pub type ProjectorModel = (Seq<u32>, usize, usize, Seq<u32>, usize, usize);

/// The projector that a safetensors file describes, or `None` where the file
/// does not hold two consistent matrices `projector.0.weight` and
/// `projector.2.weight`.
pub open spec fn projector_from(bytes: Seq<u8>) -> Option<ProjectorModel> {
    match read_tensor(bytes, first_layer_name()) {
        None => None,
        Some((s1, w1)) => match read_tensor(bytes, second_layer_name()) {
            None => None,
            Some((s2, w2)) => if s1.len() != 2 || s2.len() != 2 {
                None
            } else if s1[0] == 0 || s1[1] == 0 || s2[0] == 0 || s2[1] == 0 || w1.len()
                != saturating_product(s1[0], s1[1]) || w2.len() != saturating_product(s2[0], s2[1])
                || s2[1] != s1[0] {
                None
            } else {
                Some((w1, s1[0], s1[1], w2, s2[0], s2[1]))
            },
        },
    }
}

/// A projector is consistent: non-empty layers, weight counts that match the
/// shapes, and a second layer that reads the first layer's output.
pub open spec fn projector_consistent(m: ProjectorModel) -> bool {
    &&& m.1 > 0 && m.2 > 0 && m.4 > 0 && m.5 > 0
    &&& m.0.len() == m.1 * m.2
    &&& m.3.len() == m.4 * m.5
    &&& m.5 == m.1
}

/// The two-layer projector that maps a hidden state to a rerank embedding.
///
/// Weights are kept as the bit patterns of their `f32` values, row-major.
#[derive(Clone, Debug)]
pub struct JinaRerankProjector {
    linear1_weight: Vec<u32>,
    linear1_out: usize,
    linear1_in: usize,
    linear2_weight: Vec<u32>,
    linear2_out: usize,
    linear2_in: usize,
}

impl View for JinaRerankProjector {
    type V = ProjectorModel;

    closed spec fn view(&self) -> ProjectorModel {
        (
            self.linear1_weight@,
            self.linear1_out,
            self.linear1_in,
            self.linear2_weight@,
            self.linear2_out,
            self.linear2_in,
        )
    }
}

fn saturating_mul(a: usize, b: usize) -> (r: usize)
    ensures
        r as int == saturating_product(a, b),
{
    match a.checked_mul(b) {
        Some(p) => p,
        None => usize::MAX,
    }
}

impl JinaRerankProjector {
    /// Reads the projector from a safetensors file.
    pub fn from_safetensors(bytes: &[u8]) -> (r: Result<JinaRerankProjector>)
        ensures
            match r {
                Ok(p) => projector_from(bytes@) == Some(p@) && projector_consistent(p@),
                Err(e) => e == Error::ProjectorInvalid && projector_from(bytes@) is None,
            },
    {
        let first = vec![
            112u8, 114u8, 111u8, 106u8, 101u8, 99u8, 116u8, 111u8, 114u8, 46u8, 48u8, 46u8, 119u8,
            101u8, 105u8, 103u8, 104u8, 116u8,
        ];
        assert(first@ =~= first_layer_name());
        let second = vec![
            112u8, 114u8, 111u8, 106u8, 101u8, 99u8, 116u8, 111u8, 114u8, 46u8, 50u8, 46u8, 119u8,
            101u8, 105u8, 103u8, 104u8, 116u8,
        ];
        assert(second@ =~= second_layer_name());
        let (linear1_shape, linear1_weight) = read_safetensor_f32(bytes, first.as_slice())?;
        let (linear2_shape, linear2_weight) = read_safetensor_f32(bytes, second.as_slice())?;
        if linear1_shape.len() != 2 || linear2_shape.len() != 2 {
            return Err(Error::ProjectorInvalid);
        }
        let linear1_out = linear1_shape[0];
        let linear1_in = linear1_shape[1];
        let linear2_out = linear2_shape[0];
        let linear2_in = linear2_shape[1];
        if linear1_out == 0 || linear1_in == 0 || linear2_out == 0 || linear2_in == 0
            || linear1_weight.len() != saturating_mul(linear1_out, linear1_in)
            || linear2_weight.len() != saturating_mul(linear2_out, linear2_in) || linear2_in
            != linear1_out {
            return Err(Error::ProjectorInvalid);
        }
        let p = JinaRerankProjector {
            linear1_weight,
            linear1_out,
            linear1_in,
            linear2_weight,
            linear2_out,
            linear2_in,
        };
        Ok(p)
    }

    /// The length of the hidden states the projector reads.
    pub fn input_dim(&self) -> (d: usize)
        ensures
            d == self@.2,
    {
        self.linear1_in
    }

    /// The length of the embeddings the projector produces.
    pub fn output_dim(&self) -> (d: usize)
        ensures
            d == self@.4,
    {
        self.linear2_out
    }

    /// The first layer's weights (row-major bit patterns) and its row count.
    pub fn first_layer(&self) -> (r: (&[u32], usize))
        ensures
            r.0@ == self@.0,
            r.1 == self@.1,
    {
        (self.linear1_weight.as_slice(), self.linear1_out)
    }

    /// The second layer's weights (row-major bit patterns) and its row count.
    pub fn second_layer(&self) -> (r: (&[u32], usize))
        ensures
            r.0@ == self@.3,
            r.1 == self@.4,
    {
        (self.linear2_weight.as_slice(), self.linear2_out)
    }
}

} // verus!
