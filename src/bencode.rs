//! Bencode: the grammar as spec functions over bytes, and a verified scanner.
use vstd::prelude::*;
use crate::text::dec_digits;

verus! {

pub open spec fn is_digit(c: u8) -> bool {
    48 <= c && c <= 57
}

/// End of the run of ASCII digits that starts at `p`.
pub open spec fn digits_end(s: Seq<u8>, p: int) -> int
    decreases s.len() - p,
{
    if 0 <= p < s.len() && is_digit(s[p]) {
        digits_end(s, p + 1)
    } else {
        p
    }
}

/// Decimal value of the digits `s[p..q]`.
pub open spec fn digits_value(s: Seq<u8>, p: int, q: int) -> nat
    decreases q - p,
{
    if q <= p {
        0
    } else {
        digits_value(s, p, q - 1) * 10 + (s[q - 1] - 48) as nat
    }
}

/// A byte string `<len>:<bytes>` at `p`: its bytes and the position after it.
pub open spec fn string_at(s: Seq<u8>, p: int) -> Option<(Seq<u8>, int)> {
    let q = digits_end(s, p);
    if 0 <= p && p < q && q < s.len() && s[q] == 58 {
        let n = digits_value(s, p, q);
        if q + 1 + n <= s.len() {
            Some((s.subrange(q + 1, q + 1 + n), q + 1 + n))
        } else {
            None
        }
    } else {
        None
    }
}

/// An integer `i<digits>e` at `p` (no leading zero but in `0`, no `-0`):
/// its value and the position after it.
pub open spec fn int_at(s: Seq<u8>, p: int) -> Option<(int, int)> {
    if 0 <= p < s.len() && s[p] == 105 {
        let neg = p + 1 < s.len() && s[p + 1] == 45;
        let a = if neg { p + 2 } else { p + 1 };
        let q = digits_end(s, a);
        if a < q && q < s.len() && s[q] == 101 && (q == a + 1 || s[a] != 48) && !(neg
            && s[a] == 48) {
            let v = digits_value(s, a, q) as int;
            Some((if neg { -v } else { v }, q + 1))
        } else {
            None
        }
    } else {
        None
    }
}

/// The position after the value (integer, string, list or dictionary) at `p`.
pub open spec fn value_end(s: Seq<u8>, p: int) -> Option<int>
    decreases s.len() - p, 0int,
{
    if !(0 <= p < s.len()) {
        None
    } else if s[p] == 105 {
        match int_at(s, p) {
            Some((_, e)) => Some(e),
            None => None,
        }
    } else if s[p] == 108 {
        items_end(s, p + 1)
    } else if s[p] == 100 {
        entries_end(s, p + 1)
    } else {
        match string_at(s, p) {
            Some((_, e)) => Some(e),
            None => None,
        }
    }
}

/// The position after the list items that start at `p`, terminator included.
pub open spec fn items_end(s: Seq<u8>, p: int) -> Option<int>
    decreases s.len() - p, 1int,
{
    if !(0 <= p < s.len()) {
        None
    } else if s[p] == 101 {
        Some(p + 1)
    } else {
        match value_end(s, p) {
            Some(q) => if p < q <= s.len() {
                items_end(s, q)
            } else {
                None
            },
            None => None,
        }
    }
}

/// The position after the dictionary entries that start at `p`, terminator included.
pub open spec fn entries_end(s: Seq<u8>, p: int) -> Option<int>
    decreases s.len() - p, 1int,
{
    if !(0 <= p < s.len()) {
        None
    } else if s[p] == 101 {
        Some(p + 1)
    } else {
        match string_at(s, p) {
            Some((_, q)) => if p < q {
                match value_end(s, q) {
                    Some(r) => if q < r <= s.len() {
                        entries_end(s, r)
                    } else {
                        None
                    },
                    None => None,
                }
            } else {
                None
            },
            None => None,
        }
    }
}

/// Where the value of the first entry with key `key` stands, in the entries
/// that start at `p`.
pub open spec fn dict_lookup(s: Seq<u8>, p: int, key: Seq<u8>) -> Option<int>
    decreases s.len() - p,
{
    if !(0 <= p < s.len()) || s[p] == 101 {
        None
    } else {
        match string_at(s, p) {
            Some((k, q)) => if k == key {
                Some(q)
            } else {
                match value_end(s, q) {
                    Some(r) => if p < r <= s.len() {
                        dict_lookup(s, r, key)
                    } else {
                        None
                    },
                    None => None,
                }
            },
            None => None,
        }
    }
}

/// The whole input is one well-formed value.
pub open spec fn document_ok(s: Seq<u8>) -> bool {
    value_end(s, 0) == Some(s.len() as int)
}

/// A byte-string field of the dictionary whose entries start at `d`: `None`
/// where it holds another kind of value, or is missing though `required`.
pub open spec fn string_field(s: Seq<u8>, d: int, key: Seq<u8>, required: bool) -> Option<
    Seq<u8>,
> {
    match dict_lookup(s, d, key) {
        None => if required {
            None
        } else {
            Some(Seq::empty())
        },
        Some(a) => match string_at(s, a) {
            Some((b, _)) => Some(b),
            None => None,
        },
    }
}

/// An unsigned integer field (at most `u64::MAX`) of the dictionary whose
/// entries start at `d`; a missing one that is not `required` reads as zero.
pub open spec fn uint_field(s: Seq<u8>, d: int, key: Seq<u8>, required: bool) -> Option<int> {
    match dict_lookup(s, d, key) {
        None => if required {
            None
        } else {
            Some(0)
        },
        Some(a) => match int_at(s, a) {
            Some((v, _)) => if 0 <= v <= u64::MAX {
                Some(v)
            } else {
                None
            },
            None => None,
        },
    }
}

/// Where the entries of the dictionary held under `key` start.
pub open spec fn dict_field(s: Seq<u8>, d: int, key: Seq<u8>) -> Option<int> {
    match dict_lookup(s, d, key) {
        Some(a) => if 0 <= a < s.len() && s[a] == 100 {
            Some(a + 1)
        } else {
            None
        },
        None => None,
    }
}

/// Encoding of a byte string: its decimal length, `:`, the bytes.
pub open spec fn enc_string(b: Seq<u8>) -> Seq<u8> {
    dec_digits(b.len()) + seq![58u8] + b
}

/// Encoding of a non-negative integer: `i`, its decimal digits, `e`.
pub open spec fn enc_uint(n: nat) -> Seq<u8> {
    seq![105u8] + dec_digits(n) + seq![101u8]
}

proof fn lemma_digits_end_skip(s: Seq<u8>, p: int, q: int)
    requires
        0 <= p <= q <= s.len(),
        forall|j: int| p <= j < q ==> is_digit(#[trigger] s[j]),
    ensures
        digits_end(s, p) == digits_end(s, q),
    decreases q - p,
{
    if p < q {
        lemma_digits_end_skip(s, p + 1, q);
    }
}

proof fn lemma_dec_digits_shape(n: nat)
    ensures
        dec_digits(n).len() >= 1,
        forall|j: int| 0 <= j < dec_digits(n).len() ==> is_digit(#[trigger] dec_digits(n)[j]),
        n > 0 ==> dec_digits(n)[0] != 48,
        n == 0 ==> dec_digits(n).len() == 1,
    decreases n,
{
    if n >= 10 {
        lemma_dec_digits_shape(n / 10);
        let d = dec_digits(n / 10);
        assert(dec_digits(n) == d.push((48 + n % 10) as u8));
        assert forall|j: int| 0 <= j < dec_digits(n).len() implies is_digit(
            #[trigger] dec_digits(n)[j],
        ) by {
            if j < d.len() {
                assert(dec_digits(n)[j] == d[j]);
            }
        }
        assert(dec_digits(n)[0] == d[0]);
    }
}

proof fn lemma_digits_value_dec(s: Seq<u8>, p: int, n: nat)
    requires
        0 <= p,
        p + dec_digits(n).len() <= s.len(),
        s.subrange(p, p + dec_digits(n).len()) == dec_digits(n),
    ensures
        digits_value(s, p, p + dec_digits(n).len()) == n,
    decreases n,
{
    let k = dec_digits(n).len() as int;
    assert(s[p + k - 1] == s.subrange(p, p + k)[k - 1]);
    if n < 10 {
        assert(digits_value(s, p, p) == 0);
    } else {
        let d = dec_digits(n / 10);
        assert(dec_digits(n) == d.push((48 + n % 10) as u8));
        assert(s.subrange(p, p + d.len()) =~= s.subrange(p, p + k).subrange(0, d.len() as int));
        assert(d.push((48 + n % 10) as u8).subrange(0, d.len() as int) =~= d);
        lemma_digits_value_dec(s, p, n / 10);
    }
}

/// One dictionary entry, key `k` at `p` with its value ending at `r`: the
/// entries go on at `r`, and a lookup of another key goes on there too.
pub proof fn lemma_entry_step(s: Seq<u8>, p: int, k: Seq<u8>, q: int, r: int, key: Seq<u8>)
    requires
        0 <= p < q < r <= s.len(),
        is_digit(s[p]),
        string_at(s, p) == Some((k, q)),
        value_end(s, q) == Some(r),
    ensures
        entries_end(s, p) == entries_end(s, r),
        k == key ==> dict_lookup(s, p, key) == Some(q),
        k != key ==> dict_lookup(s, p, key) == dict_lookup(s, r, key),
{
}

/// The grammar reads an encoded byte string back.
pub proof fn lemma_string_at_enc(s: Seq<u8>, p: int, b: Seq<u8>)
    requires
        0 <= p,
        p + enc_string(b).len() <= s.len(),
        s.subrange(p, p + enc_string(b).len()) == enc_string(b),
    ensures
        string_at(s, p) == Some((b, p + enc_string(b).len())),
        value_end(s, p) == Some(p + enc_string(b).len()),
        is_digit(s[p]),
        enc_string(b).len() >= 2,
{
    let e = enc_string(b);
    let dd = dec_digits(b.len());
    let k = dd.len() as int;
    lemma_dec_digits_shape(b.len());
    assert forall|j: int| p <= j < p + k implies is_digit(#[trigger] s[j]) by {
        assert(s[j] == e[j - p]);
        assert(e[j - p] == dd[j - p]);
    }
    assert(s[p + k] == e[k]);
    lemma_digits_end_skip(s, p, p + k);
    assert(s.subrange(p, p + k) =~= e.subrange(0, k));
    assert(e.subrange(0, k) =~= dd);
    lemma_digits_value_dec(s, p, b.len());
    assert(s.subrange(p + k + 1, p + k + 1 + b.len()) =~= b) by {
        assert forall|j: int| 0 <= j < b.len() implies s[p + k + 1 + j] == b[j] by {
            assert(s[p + k + 1 + j] == e[k + 1 + j]);
        }
    }
    assert(is_digit(s[p]));
}

/// The grammar reads an encoded non-negative integer back.
pub proof fn lemma_int_at_enc(s: Seq<u8>, p: int, n: nat)
    requires
        0 <= p,
        p + enc_uint(n).len() <= s.len(),
        s.subrange(p, p + enc_uint(n).len()) == enc_uint(n),
    ensures
        int_at(s, p) == Some((n as int, p + enc_uint(n).len())),
        value_end(s, p) == Some(p + enc_uint(n).len()),
        enc_uint(n).len() >= 3,
{
    let e = enc_uint(n);
    let dd = dec_digits(n);
    let k = dd.len() as int;
    lemma_dec_digits_shape(n);
    assert(s[p] == e[0]);
    assert forall|j: int| p + 1 <= j < p + 1 + k implies is_digit(#[trigger] s[j]) by {
        assert(s[j] == e[j - p]);
        assert(e[j - p] == dd[j - p - 1]);
    }
    assert(s[p + 1] == e[1]);
    assert(s[p + 1 + k] == e[k + 1]);
    lemma_digits_end_skip(s, p + 1, p + 1 + k);
    assert(s.subrange(p + 1, p + 1 + k) =~= dd) by {
        assert forall|j: int| 0 <= j < k implies s[p + 1 + j] == dd[j] by {
            assert(s[p + 1 + j] == e[1 + j]);
        }
    }
    lemma_digits_value_dec(s, p + 1, n);
}

proof fn lemma_digits_value_mono(s: Seq<u8>, p: int, i: int, q: int)
    requires
        p <= i <= q,
    ensures
        digits_value(s, p, i) <= digits_value(s, p, q),
    decreases q - i,
{
    if i < q {
        lemma_digits_value_mono(s, p, i, q - 1);
    }
}

/// Scans the run of digits at `p`.
fn scan_digits(s: &[u8], p: usize) -> (q: usize)
    requires
        p <= s@.len(),
    ensures
        q as int == digits_end(s@, p as int),
        p <= q <= s@.len(),
        forall|j: int| p <= j < q ==> is_digit(#[trigger] s@[j]),
{
    let mut i: usize = p;
    while i < s.len() && s[i] >= 48 && s[i] <= 57
        invariant
            p <= i <= s@.len(),
            digits_end(s@, p as int) == digits_end(s@, i as int),
            forall|j: int| p <= j < i ==> is_digit(#[trigger] s@[j]),
        decreases s@.len() - i,
    {
        i = i + 1;
    }
    i
}

/// The value of the digits `s[p..q]` where it is at most `bound`.
fn digits_upto(s: &[u8], p: usize, q: usize, bound: u64) -> (r: Option<u64>)
    requires
        p <= q <= s@.len(),
        forall|j: int| p <= j < q ==> is_digit(#[trigger] s@[j]),
    ensures
        r is Some <==> digits_value(s@, p as int, q as int) <= bound,
        r matches Some(v) ==> v == digits_value(s@, p as int, q as int),
{
    let mut v: u64 = 0;
    let mut i: usize = p;
    while i < q
        invariant
            p <= i <= q <= s@.len(),
            forall|j: int| p <= j < q ==> is_digit(#[trigger] s@[j]),
            v == digits_value(s@, p as int, i as int),
            v <= bound,
        decreases q - i,
    {
        let d = s[i] - 48;
        let w: u128 = (v as u128) * 10 + (d as u128);
        i = i + 1;
        if w > bound as u128 {
            proof {
                lemma_digits_value_mono(s@, p as int, i as int, q as int);
            }
            return None;
        }
        v = w as u64;
    }
    Some(v)
}

/// Scans a byte string at `p`: where its bytes start, and where it ends.
pub fn scan_string(s: &[u8], p: usize) -> (r: Option<(usize, usize)>)
    requires
        p <= s@.len(),
    ensures
        r is Some <==> string_at(s@, p as int) is Some,
        r matches Some((a, e)) ==> a <= e <= s@.len() && p < e && string_at(s@, p as int) == Some(
            (s@.subrange(a as int, e as int), e as int),
        ),
{
    let q = scan_digits(s, p);
    if q == p || q >= s.len() || s[q] != 58 {
        return None;
    }
    let room = (s.len() - q - 1) as u64;
    match digits_upto(s, p, q, room) {
        Some(n) => {
            let a = q + 1;
            let e = a + n as usize;
            Some((a, e))
        },
        None => None,
    }
}

/// Scans an integer at `p`: where its digits stand, whether it is negative.
fn scan_int(s: &[u8], p: usize) -> (r: Option<(usize, usize, bool)>)
    requires
        p <= s@.len(),
    ensures
        r is Some <==> int_at(s@, p as int) is Some,
        r matches Some((a, q, neg)) ==> {
            &&& p < a < q < s@.len()
            &&& forall|j: int| a <= j < q ==> is_digit(#[trigger] s@[j])
            &&& int_at(s@, p as int) == Some(
                (
                    if neg {
                        -(digits_value(s@, a as int, q as int) as int)
                    } else {
                        digits_value(s@, a as int, q as int) as int
                    },
                    q + 1,
                ),
            )
            &&& (neg ==> digits_value(s@, a as int, q as int) > 0)
        },
{
    if p >= s.len() || s[p] != 105 {
        return None;
    }
    let neg = p + 1 < s.len() && s[p + 1] == 45;
    let a = if neg {
        p + 2
    } else {
        p + 1
    };
    if a > s.len() {
        return None;
    }
    let q = scan_digits(s, a);
    if a < q && q < s.len() && s[q] == 101 && (q == a + 1 || s[a] != 48) && !(neg && s[a]
        == 48) {
        proof {
            if neg {
                lemma_digits_value_mono(s@, a as int, a + 1, q as int);
            }
        }
        Some((a, q, neg))
    } else {
        None
    }
}

/// Scans an unsigned integer at `p` that fits `u64`.
pub fn scan_uint(s: &[u8], p: usize) -> (r: Option<(u64, usize)>)
    requires
        p <= s@.len(),
    ensures
        r is Some <==> (int_at(s@, p as int) matches Some((v, _)) && 0 <= v <= u64::MAX),
        r matches Some((v, e)) ==> int_at(s@, p as int) == Some((v as int, e as int)),
{
    match scan_int(s, p) {
        None => None,
        Some((a, q, neg)) => {
            if neg {
                None
            } else {
                let n = s.len();
                assert(q < n);
                let e = q + 1;
                match digits_upto(s, a, q, u64::MAX) {
                    Some(v) => Some((v, e)),
                    None => None,
                }
            }
        },
    }
}

/// Scans one value at `p` and returns the position after it.
pub fn skip_value(s: &[u8], p: usize) -> (r: Option<usize>)
    requires
        p <= s@.len(),
    ensures
        r is Some <==> value_end(s@, p as int) is Some,
        r matches Some(e) ==> p < e <= s@.len() && value_end(s@, p as int) == Some(e as int),
    decreases s@.len() - p, 0int,
{
    if p >= s.len() {
        None
    } else if s[p] == 105 {
        match scan_int(s, p) {
            Some((_, q, _)) => Some(q + 1),
            None => None,
        }
    } else if s[p] == 108 {
        skip_items(s, p + 1)
    } else if s[p] == 100 {
        skip_entries(s, p + 1)
    } else {
        match scan_string(s, p) {
            Some((_, e)) => Some(e),
            None => None,
        }
    }
}

/// Scans list items from `p` through the terminator.
fn skip_items(s: &[u8], p: usize) -> (r: Option<usize>)
    requires
        p <= s@.len(),
    ensures
        r is Some <==> items_end(s@, p as int) is Some,
        r matches Some(e) ==> p < e <= s@.len() && items_end(s@, p as int) == Some(e as int),
    decreases s@.len() - p, 1int,
{
    let mut i: usize = p;
    loop
        invariant
            p <= i <= s@.len(),
            items_end(s@, p as int) == items_end(s@, i as int),
        decreases s@.len() - i,
    {
        if i >= s.len() {
            return None;
        }
        if s[i] == 101 {
            return Some(i + 1);
        }
        match skip_value(s, i) {
            Some(q) => {
                i = q;
            },
            None => {
                return None;
            },
        }
    }
}

/// Scans dictionary entries from `p` through the terminator.
fn skip_entries(s: &[u8], p: usize) -> (r: Option<usize>)
    requires
        p <= s@.len(),
    ensures
        r is Some <==> entries_end(s@, p as int) is Some,
        r matches Some(e) ==> p < e <= s@.len() && entries_end(s@, p as int) == Some(e as int),
    decreases s@.len() - p, 1int,
{
    let mut i: usize = p;
    loop
        invariant
            p <= i <= s@.len(),
            entries_end(s@, p as int) == entries_end(s@, i as int),
        decreases s@.len() - i,
    {
        if i >= s.len() {
            return None;
        }
        if s[i] == 101 {
            return Some(i + 1);
        }
        match scan_string(s, i) {
            Some((_, q)) => {
                match skip_value(s, q) {
                    Some(r) => {
                        i = r;
                    },
                    None => {
                        return None;
                    },
                }
            },
            None => {
                return None;
            },
        }
    }
}

/// Whether the whole input is one well-formed value.
pub fn check_document(s: &[u8]) -> (r: bool)
    ensures
        r == document_ok(s@),
{
    match skip_value(s, 0) {
        Some(e) => e == s.len(),
        None => false,
    }
}

fn bytes_equal(s: &[u8], a: usize, e: usize, key: &[u8]) -> (r: bool)
    requires
        a <= e <= s@.len(),
    ensures
        r == (s@.subrange(a as int, e as int) == key@),
{
    if e - a != key.len() {
        proof {
            assert(s@.subrange(a as int, e as int).len() != key@.len());
        }
        return false;
    }
    let mut i: usize = 0;
    while i < key.len()
        invariant
            e - a == key@.len(),
            a <= e <= s@.len(),
            0 <= i <= key@.len(),
            forall|j: int| 0 <= j < i ==> s@[a + j] == key@[j],
        decreases key@.len() - i,
    {
        if s[a + i] != key[i] {
            proof {
                assert(s@.subrange(a as int, e as int)[i as int] != key@[i as int]);
            }
            return false;
        }
        i = i + 1;
    }
    proof {
        assert(s@.subrange(a as int, e as int) =~= key@);
    }
    true
}

/// Finds the value of the first entry with key `key` among the entries that start at `p`.
pub fn find_key(s: &[u8], p: usize, key: &[u8]) -> (r: Option<usize>)
    requires
        p <= s@.len(),
    ensures
        r is Some <==> dict_lookup(s@, p as int, key@) is Some,
        r matches Some(a) ==> a <= s@.len() && dict_lookup(s@, p as int, key@) == Some(a as int),
{
    let mut i: usize = p;
    loop
        invariant
            p <= i <= s@.len(),
            dict_lookup(s@, p as int, key@) == dict_lookup(s@, i as int, key@),
        decreases s@.len() - i,
    {
        if i >= s.len() || s[i] == 101 {
            return None;
        }
        match scan_string(s, i) {
            Some((a, q)) => {
                if bytes_equal(s, a, q, key) {
                    return Some(q);
                }
                match skip_value(s, q) {
                    Some(r) => {
                        i = r;
                    },
                    None => {
                        return None;
                    },
                }
            },
            None => {
                return None;
            },
        }
    }
}

} // verus!
