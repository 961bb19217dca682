//! Byte-sequence helpers shared by the framing and text modules.

use vstd::prelude::*;
use vstd::string::*;
use vstd::utf8::*;

verus! {

/// An optional machine index seen as a mathematical integer.
pub open spec fn opt_int(r: Option<usize>) -> Option<int> {
    match r {
        Some(i) => Some(i as int),
        None => None,
    }
}

/// Index of the first occurrence of `b` in `s` at or after `from`.
pub open spec fn first_index_from(s: Seq<u8>, b: u8, from: int) -> Option<int>
    decreases s.len() - from,
{
    if from < 0 || from >= s.len() {
        None
    } else if s[from] == b {
        Some(from)
    } else {
        first_index_from(s, b, from + 1)
    }
}

/// Characterises `first_index_from`: the index found holds `b`, and no
/// index between `from` and it does.
pub proof fn lemma_first_index_from(s: Seq<u8>, b: u8, from: int)
    requires
        0 <= from,
    ensures
        first_index_from(s, b, from) matches Some(i) ==> {
            &&& from <= i < s.len()
            &&& s[i] == b
            &&& forall|j: int| from <= j < i ==> s[j] != b
        },
        first_index_from(s, b, from) is None ==> forall|j: int| from <= j < s.len() ==> s[j] != b,
    decreases s.len() - from,
{
    if from < s.len() && s[from] != b {
        lemma_first_index_from(s, b, from + 1);
    }
}

/// Finds the first occurrence of `b` in `s` at or after `from`.
pub fn find_byte(s: &[u8], b: u8, from: usize) -> (r: Option<usize>)
    ensures
        opt_int(r) == first_index_from(s@, b, from as int),
{
    let mut i = from;
    while i < s.len()
        invariant
            from <= i,
            first_index_from(s@, b, from as int) == first_index_from(s@, b, i as int),
        decreases s@.len() - i,
    {
        if s[i] == b {
            return Some(i);
        }
        i += 1;
    }
    None
}

/// Copies `s[start..end]` into a new vector.
pub fn copy_range(s: &[u8], start: usize, end: usize) -> (r: Vec<u8>)
    requires
        start <= end <= s@.len(),
    ensures
        r@ == s@.subrange(start as int, end as int),
{
    let mut r: Vec<u8> = Vec::with_capacity(end - start);
    let mut i = start;
    while i < end
        invariant
            start <= i <= end <= s@.len(),
            r@ == s@.subrange(start as int, i as int),
        decreases end - i,
    {
        r.push(s[i]);
        i += 1;
    }
    r
}

/// Whether `pat` occurs in `s` at index `i`.
pub open spec fn match_at(s: Seq<u8>, pat: Seq<u8>, i: int) -> bool {
    &&& 0 <= i
    &&& i + pat.len() <= s.len()
    &&& s.subrange(i, i + pat.len()) == pat
}

/// Index of the first occurrence of `pat` in `s` at or after `from`.
pub open spec fn find_sub_from(s: Seq<u8>, pat: Seq<u8>, from: int) -> Option<int>
    decreases s.len() + 1 - from,
{
    if from < 0 || from + pat.len() > s.len() {
        None
    } else if match_at(s, pat, from) {
        Some(from)
    } else {
        find_sub_from(s, pat, from + 1)
    }
}

fn matches_at(s: &[u8], pat: &[u8], i: usize) -> (r: bool)
    requires
        i + pat@.len() <= s@.len(),
    ensures
        r == match_at(s@, pat@, i as int),
{
    let mut k: usize = 0;
    while k < pat.len()
        invariant
            k <= pat@.len(),
            i + pat@.len() <= s@.len(),
            s@.len() == s.len(),
            forall|j: int| 0 <= j < k ==> s@[i + j] == pat@[j],
        decreases pat@.len() - k,
    {
        if s[i + k] != pat[k] {
            assert(s@.subrange(i as int, i + pat@.len())[k as int] != pat@[k as int]);
            return false;
        }
        k += 1;
    }
    assert(s@.subrange(i as int, i + pat@.len()) =~= pat@);
    true
}

/// Finds the first occurrence of `pat` in `s`.
pub fn find_subslice(s: &[u8], pat: &[u8]) -> (r: Option<usize>)
    ensures
        opt_int(r) == find_sub_from(s@, pat@, 0),
{
    if pat.len() > s.len() {
        return None;
    }
    let last = s.len() - pat.len();
    let mut i: usize = 0;
    while i <= last
        invariant
            last + pat@.len() == s@.len(),
            find_sub_from(s@, pat@, 0) == find_sub_from(s@, pat@, i as int),
        decreases last + 1 - i,
    {
        if matches_at(s, pat, i) {
            return Some(i);
        }
        if i == last {
            return None;
        }
        i += 1;
    }
    None
}

/// Whether `b` is an ASCII whitespace character (tab, line feed, vertical
/// tab, form feed, carriage return, space).
pub open spec fn is_ascii_ws(b: u8) -> bool {
    b == 0x09 || b == 0x0a || b == 0x0b || b == 0x0c || b == 0x0d || b == 0x20
}

/// Whether `(a, b)` encodes U+0085 or U+00A0.
pub open spec fn is_ws2(a: u8, b: u8) -> bool {
    a == 0xc2 && (b == 0x85 || b == 0xa0)
}

/// Whether `(a, b, c)` encodes U+1680, U+2000 to U+200A, U+2028, U+2029,
/// U+202F, U+205F or U+3000.
pub open spec fn is_ws3(a: u8, b: u8, c: u8) -> bool {
    ||| (a == 0xe1 && b == 0x9a && c == 0x80)
    ||| (a == 0xe2 && b == 0x80 && ((0x80 <= c <= 0x8a) || c == 0xa8 || c == 0xa9 || c == 0xaf))
    ||| (a == 0xe2 && b == 0x81 && c == 0x9f)
    ||| (a == 0xe3 && b == 0x80 && c == 0x80)
}

/// Length of the UTF-8 encoding of a Unicode whitespace character that
/// starts at index `i` of `s`, or 0 when none does.
pub open spec fn ws_len_at(s: Seq<u8>, i: int) -> int {
    if 0 <= i < s.len() && is_ascii_ws(s[i]) {
        1
    } else if 0 <= i && i + 2 <= s.len() && is_ws2(s[i], s[i + 1]) {
        2
    } else if 0 <= i && i + 3 <= s.len() && is_ws3(s[i], s[i + 1], s[i + 2]) {
        3
    } else {
        0
    }
}

/// Length of the UTF-8 encoding of a Unicode whitespace character that
/// ends at index `e` of `s` and starts at or after `lo`, or 0.
pub open spec fn ws_len_before(s: Seq<u8>, lo: int, e: int) -> int {
    if lo <= e - 1 && 0 <= e - 1 < s.len() && is_ascii_ws(s[e - 1]) {
        1
    } else if lo <= e - 2 && 0 <= e - 2 && e <= s.len() && is_ws2(s[e - 2], s[e - 1]) {
        2
    } else if lo <= e - 3 && 0 <= e - 3 && e <= s.len() && is_ws3(s[e - 3], s[e - 2], s[e - 1]) {
        3
    } else {
        0
    }
}

/// The index reached from `i` by skipping leading whitespace.
pub open spec fn skip_ws(s: Seq<u8>, i: int) -> int
    decreases s.len() - i,
{
    if ws_len_at(s, i) > 0 {
        skip_ws(s, i + ws_len_at(s, i))
    } else {
        i
    }
}

/// The index reached from `e` by dropping trailing whitespace at or after
/// `lo`.
pub open spec fn trim_end_from(s: Seq<u8>, lo: int, e: int) -> int
    decreases e - lo,
{
    if ws_len_before(s, lo, e) > 0 {
        trim_end_from(s, lo, e - ws_len_before(s, lo, e))
    } else {
        e
    }
}

fn ws_len_at_exec(s: &[u8], i: usize) -> (r: usize)
    ensures
        r == ws_len_at(s@, i as int),
{
    let n = s.len();
    if i < n {
        let a = s[i];
        if a == 0x09 || a == 0x0a || a == 0x0b || a == 0x0c || a == 0x0d || a == 0x20 {
            return 1;
        }
        if i + 1 < n {
            let b = s[i + 1];
            if a == 0xc2 && (b == 0x85 || b == 0xa0) {
                return 2;
            }
            if i + 2 < n {
                let c = s[i + 2];
                if (a == 0xe1 && b == 0x9a && c == 0x80) || (a == 0xe2 && b == 0x80 && ((0x80 <= c
                    && c <= 0x8a) || c == 0xa8 || c == 0xa9 || c == 0xaf)) || (a == 0xe2 && b
                    == 0x81 && c == 0x9f) || (a == 0xe3 && b == 0x80 && c == 0x80) {
                    return 3;
                }
            }
        }
    }
    0
}

fn ws_len_before_exec(s: &[u8], lo: usize, e: usize) -> (r: usize)
    requires
        lo <= e <= s@.len(),
    ensures
        r == ws_len_before(s@, lo as int, e as int),
{
    if e - lo >= 1 {
        let z = s[e - 1];
        if z == 0x09 || z == 0x0a || z == 0x0b || z == 0x0c || z == 0x0d || z == 0x20 {
            return 1;
        }
        if e - lo >= 2 {
            let y = s[e - 2];
            if y == 0xc2 && (z == 0x85 || z == 0xa0) {
                return 2;
            }
            if e - lo >= 3 {
                let a = s[e - 3];
                let b = y;
                let c = z;
                if (a == 0xe1 && b == 0x9a && c == 0x80) || (a == 0xe2 && b == 0x80 && ((0x80 <= c
                    && c <= 0x8a) || c == 0xa8 || c == 0xa9 || c == 0xaf)) || (a == 0xe2 && b
                    == 0x81 && c == 0x9f) || (a == 0xe3 && b == 0x80 && c == 0x80) {
                    return 3;
                }
            }
        }
    }
    0
}

/// Skips the Unicode whitespace at the start of `s[from..]`.
pub fn skip_whitespace(s: &[u8], from: usize) -> (r: usize)
    requires
        from <= s@.len(),
    ensures
        r == skip_ws(s@, from as int),
        from <= r <= s@.len(),
{
    let mut i = from;
    loop
        invariant
            from <= i <= s@.len(),
            s@.len() == s.len(),
            skip_ws(s@, from as int) == skip_ws(s@, i as int),
        decreases s@.len() - i,
    {
        let w = ws_len_at_exec(s, i);
        if w == 0 {
            return i;
        }
        i = i + w;
    }
}

/// Drops the Unicode whitespace at the end of `s[lo..e]`.
pub fn trim_whitespace_end(s: &[u8], lo: usize, e: usize) -> (r: usize)
    requires
        lo <= e <= s@.len(),
    ensures
        r == trim_end_from(s@, lo as int, e as int),
        lo <= r <= e,
{
    let mut j = e;
    loop
        invariant
            lo <= j <= e <= s@.len(),
            trim_end_from(s@, lo as int, e as int) == trim_end_from(s@, lo as int, j as int),
        decreases j - lo,
    {
        let w = ws_len_before_exec(s, lo, j);
        if w == 0 {
            return j;
        }
        j = j - w;
    }
}

/// Decimal digits of `n`, most significant first, without leading zeros.
pub open spec fn decimal(n: nat) -> Seq<u8>
    decreases n,
{
    if n < 10 {
        seq![(48 + n) as u8]
    } else {
        decimal(n / 10).push((48 + n % 10) as u8)
    }
}

/// Every digit of `decimal(n)` is an ASCII digit.
pub proof fn lemma_decimal_digits(n: nat)
    ensures
        decimal(n).len() >= 1,
        forall|i: int| 0 <= i < decimal(n).len() ==> 48 <= #[trigger] decimal(n)[i] <= 57,
    decreases n,
{
    if n >= 10 {
        lemma_decimal_digits(n / 10);
    }
}

/// Appends the decimal digits of `n` to `out`.
pub fn push_decimal(out: &mut Vec<u8>, n: usize)
    ensures
        final(out)@ == old(out)@ + decimal(n as nat),
    decreases n,
{
    if n >= 10 {
        push_decimal(out, n / 10);
    }
    out.push(48u8 + (n % 10) as u8);
}

/// ASCII bytes are valid UTF-8.
pub proof fn lemma_ascii_valid_utf8(b: Seq<u8>)
    requires
        forall|i: int| 0 <= i < b.len() ==> b[i] < 0x80,
    ensures
        valid_utf8(b),
    decreases b.len(),
{
    if b.len() > 0 {
        let t = b.subrange(1, b.len() as int);
        lemma_ascii_valid_utf8(t);
        let b0 = b[0];
        assert((b0 & 0x7f) <= 0x7f) by (bit_vector);
        assert(valid_first_scalar(b));
        assert(pop_first_scalar(b) =~= t);
    }
}

/// `std::str::from_utf8`: the bytes as a string slice when they are valid
/// UTF-8. The contract claims that the call succeeds exactly on valid
/// UTF-8 and that the slice it returns has the same bytes.
#[verifier::external_body]
pub(crate) fn str_from_utf8(bytes: &[u8]) -> (r: Option<&str>)
    ensures
        r is Some <==> valid_utf8(bytes@),
        r matches Some(s) ==> s.spec_bytes() == bytes@,
{
    std::str::from_utf8(bytes).ok()
}

} // verus!
