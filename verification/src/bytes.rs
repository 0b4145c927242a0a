//! Byte-level scanning: substring search, Unicode whitespace trimming and
//! decimal parsing over UTF-8 text held as bytes.

use vstd::prelude::*;
use vstd::slice::slice_subrange;

verus! {

/// `n` occurs in `h` starting at index `i`.
pub open spec fn occurs_at(h: Seq<u8>, i: int, n: Seq<u8>) -> bool {
    0 <= i && i + n.len() <= h.len() && h.subrange(i, i + n.len()) == n
}

/// The first index at or after `from` at which `n` occurs in `h`.
pub open spec fn find_from(h: Seq<u8>, from: int, n: Seq<u8>) -> Option<int>
    decreases h.len() + 1 - from,
{
    if from < 0 || from + n.len() > h.len() {
        None
    } else if occurs_at(h, from, n) {
        Some(from)
    } else {
        find_from(h, from + 1, n)
    }
}

/// An optional index widened to a mathematical integer.
pub open spec fn opt_int(o: Option<usize>) -> Option<int> {
    match o {
        Some(i) => Some(i as int),
        None => None,
    }
}

/// A search result lies in range and is an occurrence.
pub proof fn lemma_find_from_found(h: Seq<u8>, from: int, n: Seq<u8>)
    ensures
        find_from(h, from, n) matches Some(i) ==> from <= i && occurs_at(h, i, n),
    decreases h.len() + 1 - from,
{
    if from < 0 || from + n.len() > h.len() {
    } else if occurs_at(h, from, n) {
    } else {
        lemma_find_from_found(h, from + 1, n);
    }
}

/// The search finds the first occurrence at or after `from`.
pub proof fn lemma_find_from_first(h: Seq<u8>, from: int, n: Seq<u8>, t: int)
    requires
        0 <= from <= t,
        occurs_at(h, t, n),
        forall|i: int| from <= i < t ==> !occurs_at(h, i, n),
    ensures
        find_from(h, from, n) == Some(t),
    decreases t - from,
{
    if from < t {
        lemma_find_from_first(h, from + 1, n, t);
    }
}

/// The first index at or after `from` at which `n` occurs in `h`.
pub fn find_bytes(h: &[u8], from: usize, n: &[u8]) -> (r: Option<usize>)
    ensures
        opt_int(r) == find_from(h@, from as int, n@),
{
    let mut i = from;
    while i <= h.len() && n.len() <= h.len() - i
        invariant
            from <= i,
            find_from(h@, from as int, n@) == find_from(h@, i as int, n@),
        decreases h.len() + 1 - i,
    {
        let mut j: usize = 0;
        let mut same = true;
        while j < n.len()
            invariant
                i <= h.len(),
                i + n@.len() <= h@.len(),
                j <= n.len(),
                !same ==> j > 0,
                same ==> forall|k: int| 0 <= k < j ==> h@[i + k] == n@[k],
                !same ==> !occurs_at(h@, i as int, n@),
            decreases n.len() - j,
        {
            if h[i + j] != n[j] {
                if same {
                    assert(h@.subrange(i as int, i + n@.len())[j as int] != n@[j as int]);
                }
                same = false;
            }
            j = j + 1;
        }
        if same {
            assert(h@.subrange(i as int, i + n@.len()) =~= n@);
            return Some(i);
        }
        assert(n.len() >= 1);
        i = i + 1;
    }
    None
}

/// The first index of byte `b` in `s`, or the length of `s` when absent.
pub open spec fn index_of_byte(s: Seq<u8>, b: u8) -> int
    decreases s.len(),
{
    if s.len() == 0 {
        0
    } else if s[0] == b {
        0
    } else {
        1 + index_of_byte(s.skip(1), b)
    }
}

pub proof fn lemma_index_of_byte(s: Seq<u8>, b: u8)
    ensures
        0 <= index_of_byte(s, b) <= s.len(),
        index_of_byte(s, b) < s.len() ==> s[index_of_byte(s, b)] == b,
        forall|k: int| 0 <= k < index_of_byte(s, b) ==> s[k] != b,
    decreases s.len(),
{
    if s.len() > 0 && s[0] != b {
        lemma_index_of_byte(s.skip(1), b);
        assert forall|k: int| 0 <= k < index_of_byte(s, b) implies s[k] != b by {
            if k > 0 {
                assert(s[k] == s.skip(1)[k - 1]);
            }
        }
    }
}

/// The first index of byte `b` in `s`, or the length of `s` when absent.
pub fn find_byte_or_end(s: &[u8], b: u8) -> (r: usize)
    ensures
        r == index_of_byte(s@, b),
{
    let mut i: usize = 0;
    assert(s@.skip(0) =~= s@);
    while i < s.len()
        invariant
            i <= s.len(),
            index_of_byte(s@, b) == i + index_of_byte(s@.skip(i as int), b),
        decreases s.len() - i,
    {
        if s[i] == b {
            return i;
        }
        assert(s@.skip(i as int).skip(1) =~= s@.skip(i + 1));
        i = i + 1;
    }
    i
}

/// The byte length of the whitespace character that starts `b`, or zero.
///
/// Whitespace is the Unicode `White_Space` set (what `char::is_whitespace`
/// accepts), matched on its UTF-8 encodings: U+0009..U+000D, U+0020, U+0085,
/// U+00A0, U+1680, U+2000..U+200A, U+2028, U+2029, U+202F, U+205F, U+3000.
pub open spec fn ws_len_at_start(b: Seq<u8>) -> int {
    if b.len() >= 1 && ((9 <= b[0] <= 13) || b[0] == 32) {
        1
    } else if b.len() >= 2 && b[0] == 0xc2 && (b[1] == 0x85 || b[1] == 0xa0) {
        2
    } else if b.len() >= 3 && is_ws3(b[0], b[1], b[2]) {
        3
    } else {
        0
    }
}

/// The three-byte encodings of whitespace characters.
pub open spec fn is_ws3(x: u8, y: u8, z: u8) -> bool {
    ||| (x == 0xe1 && y == 0x9a && z == 0x80)
    ||| (x == 0xe2 && y == 0x80 && ((0x80 <= z <= 0x8a) || z == 0xa8 || z == 0xa9 || z == 0xaf))
    ||| (x == 0xe2 && y == 0x81 && z == 0x9f)
    ||| (x == 0xe3 && y == 0x80 && z == 0x80)
}

/// The byte length of the whitespace character that ends `b`, or zero.
pub open spec fn ws_len_at_end(b: Seq<u8>) -> int {
    let n = b.len() as int;
    if n >= 1 && ((9 <= b[n - 1] <= 13) || b[n - 1] == 32) {
        1
    } else if n >= 2 && b[n - 2] == 0xc2 && (b[n - 1] == 0x85 || b[n - 1] == 0xa0) {
        2
    } else if n >= 3 && is_ws3(b[n - 3], b[n - 2], b[n - 1]) {
        3
    } else {
        0
    }
}

/// `b` without its leading whitespace.
pub open spec fn trim_start(b: Seq<u8>) -> Seq<u8>
    decreases b.len(),
{
    let k = ws_len_at_start(b);
    if k == 0 {
        b
    } else {
        trim_start(b.skip(k))
    }
}

/// `b` without its trailing whitespace.
pub open spec fn trim_end(b: Seq<u8>) -> Seq<u8>
    decreases b.len(),
{
    let k = ws_len_at_end(b);
    if k == 0 {
        b
    } else {
        trim_end(b.take(b.len() - k))
    }
}

/// `b` without leading and trailing whitespace (`str::trim` on UTF-8 text).
pub open spec fn trim(b: Seq<u8>) -> Seq<u8> {
    trim_end(trim_start(b))
}

fn is_ws3_exec(x: u8, y: u8, z: u8) -> (r: bool)
    ensures
        r == is_ws3(x, y, z),
{
    (x == 0xe1 && y == 0x9a && z == 0x80) || (x == 0xe2 && y == 0x80 && ((0x80 <= z && z <= 0x8a)
        || z == 0xa8 || z == 0xa9 || z == 0xaf)) || (x == 0xe2 && y == 0x81 && z == 0x9f) || (x
        == 0xe3 && y == 0x80 && z == 0x80)
}

fn ws_len_at(s: &[u8], a: usize, e: usize) -> (r: usize)
    requires
        a <= e <= s.len(),
    ensures
        r as int == ws_len_at_start(s@.subrange(a as int, e as int)),
{
    let n = e - a;
    if n >= 1 && ((9 <= s[a] && s[a] <= 13) || s[a] == 32) {
        1
    } else if n >= 2 && s[a] == 0xc2 && (s[a + 1] == 0x85 || s[a + 1] == 0xa0) {
        2
    } else if n >= 3 && is_ws3_exec(s[a], s[a + 1], s[a + 2]) {
        3
    } else {
        0
    }
}

fn ws_len_before(s: &[u8], a: usize, e: usize) -> (r: usize)
    requires
        a <= e <= s.len(),
    ensures
        r as int == ws_len_at_end(s@.subrange(a as int, e as int)),
{
    let n = e - a;
    if n >= 1 && ((9 <= s[e - 1] && s[e - 1] <= 13) || s[e - 1] == 32) {
        1
    } else if n >= 2 && s[e - 2] == 0xc2 && (s[e - 1] == 0x85 || s[e - 1] == 0xa0) {
        2
    } else if n >= 3 && is_ws3_exec(s[e - 3], s[e - 2], s[e - 1]) {
        3
    } else {
        0
    }
}

/// The bounds of `s[a..e]` once leading and trailing whitespace is removed.
pub fn trim_bounds(s: &[u8], a: usize, e: usize) -> (r: (usize, usize))
    requires
        a <= e <= s.len(),
    ensures
        a <= r.0 <= r.1 <= e,
        s@.subrange(r.0 as int, r.1 as int) == trim(s@.subrange(a as int, e as int)),
{
    let mut start = a;
    while start < e
        invariant
            a <= start <= e <= s.len(),
            trim_start(s@.subrange(a as int, e as int)) == trim_start(
                s@.subrange(start as int, e as int),
            ),
        ensures
            a <= start <= e,
            trim_start(s@.subrange(a as int, e as int)) == s@.subrange(start as int, e as int),
        decreases e - start,
    {
        let k = ws_len_at(s, start, e);
        if k == 0 {
            break;
        }
        assert(s@.subrange(start as int, e as int).skip(k as int) =~= s@.subrange(
            start + k,
            e as int,
        ));
        start = start + k;
    }
    let ghost t = s@.subrange(start as int, e as int);
    let mut end = e;
    while end > start
        invariant
            a <= start <= end <= e <= s.len(),
            trim_end(t) == trim_end(s@.subrange(start as int, end as int)),
            t == s@.subrange(start as int, e as int),
        ensures
            start <= end <= e,
            trim_end(t) == s@.subrange(start as int, end as int),
        decreases end - start,
    {
        let k = ws_len_before(s, start, end);
        if k == 0 {
            break;
        }
        assert(s@.subrange(start as int, end as int).take(end - start - k) =~= s@.subrange(
            start as int,
            end - k,
        ));
        end = end - k;
    }
    (start, end)
}

/// An ASCII decimal digit.
pub open spec fn is_digit(b: u8) -> bool {
    48 <= b <= 57
}

/// Every byte of `d` is an ASCII decimal digit.
pub open spec fn all_digits(d: Seq<u8>) -> bool {
    forall|i: int| 0 <= i < d.len() ==> is_digit(#[trigger] d[i])
}

/// The value of a run of decimal digits.
pub open spec fn digits_value(d: Seq<u8>) -> nat
    decreases d.len(),
{
    if d.len() == 0 {
        0
    } else {
        digits_value(d.drop_last()) * 10 + (d.last() - 48) as nat
    }
}

/// What `usize::from_str` accepts: an optional `+`, then at least one digit,
/// with a value that fits in `usize`.
pub open spec fn parse_usize_spec(t: Seq<u8>) -> Option<usize> {
    let d = if t.len() > 0 && t[0] == 43 {
        t.skip(1)
    } else {
        t
    };
    if d.len() == 0 || !all_digits(d) || digits_value(d) > usize::MAX {
        None
    } else {
        Some(digits_value(d) as usize)
    }
}

/// A longer run of digits is worth at least as much as its prefix.
pub proof fn lemma_digits_value_prefix(d: Seq<u8>, k: int)
    requires
        0 <= k <= d.len(),
        all_digits(d),
    ensures
        digits_value(d.take(k)) <= digits_value(d),
    decreases d.len(),
{
    if k < d.len() {
        assert(d.take(d.len() as int) =~= d);
        let p = d.drop_last();
        assert(all_digits(p)) by {
            assert forall|i: int| 0 <= i < p.len() implies is_digit(#[trigger] p[i]) by {
                assert(p[i] == d[i]);
            }
        }
        lemma_digits_value_prefix(p, k);
        assert(p.take(k) =~= d.take(k));
    } else {
        assert(d.take(k) =~= d);
    }
}

/// Parses `s[a..e]` as `usize::from_str` does.
pub fn parse_usize(s: &[u8], a: usize, e: usize) -> (r: Option<usize>)
    requires
        a <= e <= s.len(),
    ensures
        r == parse_usize_spec(s@.subrange(a as int, e as int)),
{
    let ghost t = s@.subrange(a as int, e as int);
    let mut i = a;
    if a < e && s[a] == 43 {
        i = a + 1;
    }
    let start = i;
    let ghost d = s@.subrange(start as int, e as int);
    assert(d =~= (if t.len() > 0 && t[0] == 43 {
        t.skip(1)
    } else {
        t
    }));
    if start == e {
        return None;
    }
    let mut v: usize = 0;
    while i < e
        invariant
            a <= start <= i <= e <= s.len(),
            d == s@.subrange(start as int, e as int),
            t == s@.subrange(a as int, e as int),
            d == (if t.len() > 0 && t[0] == 43 {
                t.skip(1)
            } else {
                t
            }),
            all_digits(d.take(i - start)),
            v as nat == digits_value(d.take(i - start)),
        decreases e - i,
    {
        let b = s[i];
        if !(48 <= b && b <= 57) {
            assert(d[i - start] == b);
            assert(!is_digit(d[i - start]));
            return None;
        }
        let ghost p = d.take(i - start);
        let ghost q = d.take(i - start + 1);
        assert(q.drop_last() =~= p);
        assert(q.last() == b);
        assert(digits_value(q) == digits_value(p) * 10 + (b - 48) as nat);
        assert(all_digits(q)) by {
            assert forall|j: int| 0 <= j < q.len() implies is_digit(#[trigger] q[j]) by {
                if j < p.len() {
                    assert(q[j] == p[j]);
                }
            }
        }
        match v.checked_mul(10) {
            None => {
                proof {
                    assert(digits_value(q) >= v * 10);
                    prove_too_large(d, i - start + 1);
                }
                return None;
            },
            Some(m) => {
                match m.checked_add((b - 48) as usize) {
                    None => {
                        proof {
                            prove_too_large(d, i - start + 1);
                        }
                        return None;
                    },
                    Some(n) => {
                        v = n;
                    },
                }
            },
        }
        i = i + 1;
    }
    assert(d.take(e - start) =~= d);
    Some(v)
}

proof fn prove_too_large(d: Seq<u8>, k: int)
    requires
        0 <= k <= d.len(),
        all_digits(d.take(k)),
        digits_value(d.take(k)) > usize::MAX,
    ensures
        !all_digits(d) || digits_value(d) > usize::MAX,
{
    if all_digits(d) {
        lemma_digits_value_prefix(d, k);
    }
}

/// Parses the items of a comma-separated list of decimal numbers, as a
/// `split(',')` followed by `trim`, skipping empty items, does.
pub open spec fn parse_usize_list_spec(s: Seq<u8>) -> Option<Seq<usize>>
    decreases s.len(),
{
    let i = index_of_byte(s, 44);
    let part = trim(s.take(i));
    let rest = if 0 <= i < s.len() {
        parse_usize_list_spec(s.skip(i + 1))
    } else {
        Some(Seq::<usize>::empty())
    };
    if part.len() == 0 {
        rest
    } else {
        match parse_usize_spec(part) {
            None => None,
            Some(v) => match rest {
                None => None,
                Some(r) => Some(seq![v] + r),
            },
        }
    }
}

/// Prepends `acc` to an optional list.
pub open spec fn prepend_opt(acc: Seq<usize>, r: Option<Seq<usize>>) -> Option<Seq<usize>> {
    match r {
        None => None,
        Some(x) => Some(acc + x),
    }
}

/// Parses the comma-separated decimal list `s[a..e]`.
pub fn parse_usize_list(s: &[u8], a: usize, e: usize) -> (r: Option<Vec<usize>>)
    requires
        a <= e <= s.len(),
    ensures
        match r {
            Some(v) => parse_usize_list_spec(s@.subrange(a as int, e as int)) == Some(v@),
            None => parse_usize_list_spec(s@.subrange(a as int, e as int)) is None,
        },
{
    let mut out: Vec<usize> = Vec::new();
    let mut pos = a;
    loop
        invariant
            a <= pos <= e <= s.len(),
            parse_usize_list_spec(s@.subrange(a as int, e as int)) == prepend_opt(
                out@,
                parse_usize_list_spec(s@.subrange(pos as int, e as int)),
            ),
        decreases e - pos,
    {
        let ghost sub = s@.subrange(pos as int, e as int);
        let tail = slice_subrange(s, pos, e);
        let i = find_byte_or_end(tail, 44);
        proof {
            lemma_index_of_byte(sub, 44);
        }
        let (pa, pe) = trim_bounds(s, pos, pos + i);
        assert(s@.subrange(pos as int, pos + i) =~= sub.take(i as int));
        let ghost rest = if i < sub.len() {
            parse_usize_list_spec(sub.skip(i + 1))
        } else {
            Some(Seq::<usize>::empty())
        };
        if pa < pe {
            match parse_usize(s, pa, pe) {
                None => {
                    return None;
                },
                Some(v) => {
                    proof {
                        if rest is Some {
                            assert(out@.push(v) + rest->0 =~= out@ + (seq![v] + rest->0));
                        }
                    }
                    out.push(v);
                },
            }
        }
        if i < tail.len() {
            assert(sub.skip(i + 1) =~= s@.subrange(pos + i + 1, e as int));
            pos = pos + i + 1;
        } else {
            assert(out@ + Seq::<usize>::empty() =~= out@);
            return Some(out);
        }
    }
}


/// The ASCII decimal digits of `n`, without leading zeros.
pub open spec fn ascii_decimal(n: nat) -> Seq<u8>
    decreases n,
{
    if n < 10 {
        seq![(n + 48) as u8]
    } else {
        ascii_decimal(n / 10).push(((n % 10) + 48) as u8)
    }
}

proof fn lemma_ascii_decimal_value(n: nat)
    ensures
        ascii_decimal(n).len() > 0,
        all_digits(ascii_decimal(n)),
        digits_value(ascii_decimal(n)) == n,
    decreases n,
{
    if n >= 10 {
        lemma_ascii_decimal_value(n / 10);
        let s = ascii_decimal(n);
        assert(s.drop_last() =~= ascii_decimal(n / 10));
        assert forall|i: int| 0 <= i < s.len() implies is_digit(#[trigger] s[i]) by {
            if i < s.len() - 1 {
                assert(s[i] == ascii_decimal(n / 10)[i]);
            }
        }
        assert(s.last() == ((n % 10) + 48) as u8);
        assert((s.last() - 48) as nat == n % 10);
        assert(digits_value(s) == digits_value(s.drop_last()) * 10 + (s.last() - 48) as nat);
        assert(digits_value(s) == (n / 10) * 10 + n % 10);
        assert(n == (n / 10) * 10 + n % 10);
    } else {
        let s = ascii_decimal(n);
        assert(s.drop_last() =~= Seq::<u8>::empty());
        assert(digits_value(s) == digits_value(s.drop_last()) * 10 + (s.last() - 48) as nat);
        assert(digits_value(s.drop_last()) == 0);
        assert(s.last() == (n + 48) as u8);
    }
}

/// Every number that fits in `usize`, written in decimal, parses back to
/// that number.
pub proof fn lemma_parse_usize_decimal(n: usize)
    ensures
        parse_usize_spec(ascii_decimal(n as nat)) == Some(n),
{
    lemma_ascii_decimal_value(n as nat);
    assert(is_digit(ascii_decimal(n as nat)[0]));
}

/// A list of numbers written in decimal and separated by commas.
pub open spec fn comma_list(ns: Seq<usize>) -> Seq<u8>
    decreases ns.len(),
{
    if ns.len() == 0 {
        Seq::<u8>::empty()
    } else if ns.len() == 1 {
        ascii_decimal(ns[0] as nat)
    } else {
        ascii_decimal(ns[0] as nat) + seq![44u8] + comma_list(ns.skip(1))
    }
}

proof fn lemma_index_of_byte_after(x: Seq<u8>, y: Seq<u8>, b: u8)
    requires
        forall|k: int| 0 <= k < x.len() ==> x[k] != b,
    ensures
        index_of_byte(x + y, b) == x.len() + index_of_byte(y, b),
    decreases x.len(),
{
    if x.len() > 0 {
        assert((x + y).skip(1) =~= x.skip(1) + y);
        assert(x[0] != b);
        lemma_index_of_byte_after(x.skip(1), y, b);
    } else {
        assert(x + y =~= y);
    }
}

proof fn lemma_trim_digits(d: Seq<u8>)
    requires
        d.len() > 0,
        all_digits(d),
    ensures
        trim(d) == d,
{
    assert(is_digit(d[0]));
    assert(is_digit(d[d.len() - 1]));
    assert(ws_len_at_start(d) == 0);
    assert(ws_len_at_end(d) == 0);
}

/// A decimal list holds only digits and commas.
pub proof fn lemma_comma_list_bytes(ns: Seq<usize>)
    ensures
        forall|i: int|
            0 <= i < comma_list(ns).len() ==> is_digit(#[trigger] comma_list(ns)[i])
                || comma_list(ns)[i] == 44u8,
    decreases ns.len(),
{
    if ns.len() > 0 {
        lemma_ascii_decimal_value(ns[0] as nat);
        if ns.len() > 1 {
            lemma_comma_list_bytes(ns.skip(1));
            let d = ascii_decimal(ns[0] as nat);
            let rest = comma_list(ns.skip(1));
            assert forall|i: int| 0 <= i < comma_list(ns).len() implies is_digit(
                #[trigger] comma_list(ns)[i],
            ) || comma_list(ns)[i] == 44u8 by {
                if i < d.len() {
                    assert(comma_list(ns)[i] == d[i]);
                } else if i > d.len() {
                    assert(comma_list(ns)[i] == rest[i - d.len() - 1]);
                }
            }
        }
    }
}

/// A comma-separated list of numbers that fit in `usize`, each written in
/// decimal, parses to exactly those numbers, in order.
pub proof fn lemma_parse_usize_list_decimal(ns: Seq<usize>)
    ensures
        parse_usize_list_spec(comma_list(ns)) == Some(ns),
    decreases ns.len(),
{
    let s = comma_list(ns);
    if ns.len() == 0 {
        assert(index_of_byte(s, 44) == 0);
        assert(trim_start(s.take(0)) =~= s.take(0));
        assert(trim(s.take(0)).len() == 0);
        assert(ns =~= Seq::<usize>::empty());
    } else {
        let d = ascii_decimal(ns[0] as nat);
        lemma_ascii_decimal_value(ns[0] as nat);
        lemma_parse_usize_decimal(ns[0]);
        lemma_trim_digits(d);
        assert forall|k: int| 0 <= k < d.len() implies d[k] != 44u8 by {
            assert(is_digit(d[k]));
        }
        if ns.len() == 1 {
            lemma_index_of_byte_after(d, Seq::<u8>::empty(), 44);
            assert(d + Seq::<u8>::empty() =~= d);
            assert(s.take(d.len() as int) =~= d);
            assert(ns =~= seq![ns[0]] + Seq::<usize>::empty());
        } else {
            let rest = comma_list(ns.skip(1));
            lemma_index_of_byte_after(d, seq![44u8] + rest, 44);
            assert(s =~= d + (seq![44u8] + rest));
            assert(index_of_byte(seq![44u8] + rest, 44) == 0);
            assert(s.take(d.len() as int) =~= d);
            assert(s.skip(d.len() as int + 1) =~= rest);
            lemma_parse_usize_list_decimal(ns.skip(1));
            assert(ns =~= seq![ns[0]] + ns.skip(1));
        }
    }
}

} // verus!
