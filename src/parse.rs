//! Byte-level helpers for reading numbers out of pseudo-file text.
use vstd::prelude::*;

verus! {

/// ASCII whitespace.
pub open spec fn is_space(b: u8) -> bool {
    b == 32 || b == 9 || b == 10 || b == 11 || b == 12 || b == 13
}

/// An ASCII decimal digit.
pub open spec fn is_digit(b: u8) -> bool {
    48 <= b <= 57
}

/// The first position at or after `i`, below `hi`, that is not whitespace
/// (`hi` if there is none).
pub open spec fn skip_space(s: Seq<u8>, i: int, hi: int) -> int
    decreases hi - i,
{
    if i < hi && is_space(s[i]) {
        skip_space(s, i + 1, hi)
    } else {
        i
    }
}

/// The end of `s[lo..j]` once trailing whitespace is dropped.
pub open spec fn back_space(s: Seq<u8>, lo: int, j: int) -> int
    decreases j - lo,
{
    if lo < j && is_space(s[j - 1]) {
        back_space(s, lo, j - 1)
    } else {
        j
    }
}

/// The first position at or after `i`, below `hi`, that holds `c`
/// (`hi` if there is none).
pub open spec fn find_byte(s: Seq<u8>, c: u8, i: int, hi: int) -> int
    decreases hi - i,
{
    if i < hi && s[i] != c {
        find_byte(s, c, i + 1, hi)
    } else {
        i
    }
}

/// The first whitespace position at or after `i`, below `hi`.
pub open spec fn find_space(s: Seq<u8>, i: int, hi: int) -> int
    decreases hi - i,
{
    if i < hi && !is_space(s[i]) {
        find_space(s, i + 1, hi)
    } else {
        i
    }
}

/// `s` without leading and trailing whitespace.
pub open spec fn trim(s: Seq<u8>) -> Seq<u8> {
    let lo = skip_space(s, 0, s.len() as int);
    s.subrange(lo, back_space(s, lo, s.len() as int))
}

/// The number that a string of decimal digits denotes.
pub open spec fn digits_value(s: Seq<u8>) -> nat
    decreases s.len(),
{
    if s.len() == 0 {
        0
    } else {
        digits_value(s.drop_last()) * 10 + (s.last() - 48) as nat
    }
}

/// `s` read as an unsigned 64-bit decimal: one or more digits, nothing
/// else, and a value that fits.
pub open spec fn parse_dec(s: Seq<u8>) -> Option<u64> {
    if s.len() > 0 && (forall|i: int| 0 <= i < s.len() ==> is_digit(s[i])) && digits_value(s)
        <= u64::MAX {
        Some(digits_value(s) as u64)
    } else {
        None
    }
}

/// A longer run of digits denotes at least as much as its prefix.
proof fn lemma_digits_monotone(s: Seq<u8>, k: int)
    requires
        0 <= k <= s.len(),
    ensures
        digits_value(s.subrange(0, k)) <= digits_value(s),
    decreases s.len() - k,
{
    if k < s.len() {
        lemma_digits_monotone(s, k + 1);
        let t = s.subrange(0, k + 1);
        assert(t.drop_last() =~= s.subrange(0, k));
    } else {
        assert(s.subrange(0, k) =~= s);
    }
}

/// Skips whitespace forward from `i` up to `hi`.
pub fn skip_space_exec(s: &[u8], i: usize, hi: usize) -> (r: usize)
    requires
        i <= hi <= s@.len(),
    ensures
        r == skip_space(s@, i as int, hi as int),
        i <= r <= hi,
{
    let mut k = i;
    while k < hi && is_space_exec(s[k])
        invariant
            i <= k <= hi <= s@.len(),
            skip_space(s@, k as int, hi as int) == skip_space(s@, i as int, hi as int),
        decreases hi - k,
    {
        k = k + 1;
    }
    k
}

/// Drops whitespace backward from `j` down to `lo`.
pub fn back_space_exec(s: &[u8], lo: usize, j: usize) -> (r: usize)
    requires
        lo <= j <= s@.len(),
    ensures
        r == back_space(s@, lo as int, j as int),
        lo <= r <= j,
{
    let mut k = j;
    while k > lo && is_space_exec(s[k - 1])
        invariant
            lo <= k <= j <= s@.len(),
            back_space(s@, lo as int, k as int) == back_space(s@, lo as int, j as int),
        decreases k - lo,
    {
        k = k - 1;
    }
    k
}

/// Finds the first `c` at or after `i`, below `hi`.
pub fn find_byte_exec(s: &[u8], c: u8, i: usize, hi: usize) -> (r: usize)
    requires
        i <= hi <= s@.len(),
    ensures
        r == find_byte(s@, c, i as int, hi as int),
        i <= r <= hi,
{
    let mut k = i;
    while k < hi && s[k] != c
        invariant
            i <= k <= hi <= s@.len(),
            find_byte(s@, c, k as int, hi as int) == find_byte(s@, c, i as int, hi as int),
        decreases hi - k,
    {
        k = k + 1;
    }
    k
}

/// Finds the first whitespace at or after `i`, below `hi`.
pub fn find_space_exec(s: &[u8], i: usize, hi: usize) -> (r: usize)
    requires
        i <= hi <= s@.len(),
    ensures
        r == find_space(s@, i as int, hi as int),
        i <= r <= hi,
{
    let mut k = i;
    while k < hi && !is_space_exec(s[k])
        invariant
            i <= k <= hi <= s@.len(),
            find_space(s@, k as int, hi as int) == find_space(s@, i as int, hi as int),
        decreases hi - k,
    {
        k = k + 1;
    }
    k
}

pub fn is_space_exec(b: u8) -> (r: bool)
    ensures
        r == is_space(b),
{
    b == 32 || b == 9 || b == 10 || b == 11 || b == 12 || b == 13
}

/// Reads `s[lo..hi]` as an unsigned 64-bit decimal.
pub fn parse_dec_exec(s: &[u8], lo: usize, hi: usize) -> (r: Option<u64>)
    requires
        lo <= hi <= s@.len(),
    ensures
        r == parse_dec(s@.subrange(lo as int, hi as int)),
{
    let ghost t = s@.subrange(lo as int, hi as int);
    if lo == hi {
        return None;
    }
    let mut v: u64 = 0;
    let mut k = lo;
    while k < hi
        invariant
            lo <= k <= hi <= s@.len(),
            t == s@.subrange(lo as int, hi as int),
            forall|i: int| 0 <= i < k - lo ==> is_digit(t[i]),
            v == digits_value(t.subrange(0, k - lo)),
        decreases hi - k,
    {
        let b = s[k];
        if b < 48 || b > 57 {
            assert(!is_digit(t[k - lo]));
            return None;
        }
        let d = (b - 48) as u64;
        let ghost p = t.subrange(0, k - lo + 1);
        assert(p.drop_last() =~= t.subrange(0, k - lo));
        if v > (u64::MAX - d) / 10 {
            proof {
                assert(digits_value(p) > u64::MAX) by (nonlinear_arith)
                    requires
                        digits_value(p) == v * 10 + d,
                        v > (u64::MAX - d) / 10,
                ;
                if forall|i: int| 0 <= i < t.len() ==> is_digit(t[i]) {
                    lemma_digits_monotone(t, k - lo + 1);
                }
            }
            return None;
        }
        assert(v * 10 + d <= u64::MAX) by (nonlinear_arith)
            requires
                v <= (u64::MAX - d) / 10,
        ;
        v = v * 10 + d;
        k = k + 1;
    }
    assert(t.subrange(0, k - lo) =~= t);
    Some(v)
}

} // verus!
