//! Small text and byte utilities shared by the configuration parser, the
//! transport framing, and the DOT renderer: decimal formatting and parsing,
//! byte-range scanning, and trimming.

use vstd::prelude::*;
use vstd::string::StringSliceAdditionalSpecFns;

verus! {

/// The character of decimal digit `d`.
pub open spec fn dec_digit(d: nat) -> char {
    ((48 + d % 10) as u8) as char
}

/// The decimal text of `n`, most significant digit first.
pub open spec fn dec_str(n: nat) -> Seq<char>
    decreases n,
{
    if n < 10 {
        seq![dec_digit(n)]
    } else {
        dec_str(n / 10).push(dec_digit(n % 10))
    }
}

fn digit_str(d: u64) -> (r: &'static str)
    requires
        d < 10,
    ensures
        r@ == seq![dec_digit(d as nat)],
{
    proof {
        reveal_strlit("0");
        reveal_strlit("1");
        reveal_strlit("2");
        reveal_strlit("3");
        reveal_strlit("4");
        reveal_strlit("5");
        reveal_strlit("6");
        reveal_strlit("7");
        reveal_strlit("8");
        reveal_strlit("9");
    }
    if d == 0 {
        "0"
    } else if d == 1 {
        "1"
    } else if d == 2 {
        "2"
    } else if d == 3 {
        "3"
    } else if d == 4 {
        "4"
    } else if d == 5 {
        "5"
    } else if d == 6 {
        "6"
    } else if d == 7 {
        "7"
    } else if d == 8 {
        "8"
    } else {
        "9"
    }
}

/// Append the decimal text of `n` to `s`.
pub fn push_u64_dec(s: &mut String, n: u64)
    ensures
        final(s)@ == old(s)@ + dec_str(n as nat),
    decreases n,
{
    if n < 10 {
        s.append(digit_str(n));
    } else {
        push_u64_dec(s, n / 10);
        s.append(digit_str(n % 10));
        proof {
            assert(final(s)@ =~= old(s)@ + dec_str(n as nat));
        }
    }
}

/// Append the decimal text of `n` to `s`.
pub fn push_usize_dec(s: &mut String, n: usize)
    ensures
        final(s)@ == old(s)@ + dec_str(n as nat),
{
    push_u64_dec(s, n as u64);
}

/// Every byte of `b` is a decimal digit.
pub open spec fn all_digits(b: Seq<u8>) -> bool {
    forall|i: int| 0 <= i < b.len() ==> 48 <= #[trigger] b[i] <= 57
}

/// The numeric value of decimal digit bytes, most significant first.
pub open spec fn dec_val(b: Seq<u8>) -> nat
    decreases b.len(),
{
    if b.len() == 0 {
        0
    } else {
        dec_val(b.drop_last()) * 10 + (b.last() - 48) as nat
    }
}

proof fn lemma_dec_val_prefix_mono(b: Seq<u8>, k: int)
    requires
        all_digits(b),
        0 <= k <= b.len(),
    ensures
        dec_val(b.take(k)) <= dec_val(b),
    decreases b.len() - k,
{
    if k < b.len() {
        lemma_dec_val_prefix_mono(b, k + 1);
        assert(b.take(k + 1).drop_last() =~= b.take(k));
        assert(dec_val(b.take(k + 1)) == dec_val(b.take(k)) * 10 + (b.take(k + 1).last()
            - 48) as nat);
    } else {
        assert(b.take(k) =~= b);
    }
}

/// Parse the bytes of `b` between `lo` and `hi` as a decimal number; empty
/// input, a non-digit, or a value beyond the largest `u64` is `None`.
pub fn parse_dec(b: &[u8], lo: usize, hi: usize) -> (r: Option<u64>)
    requires
        lo <= hi <= b@.len(),
    ensures
        ({
            let digits = b@.subrange(lo as int, hi as int);
            match r {
                Some(n) => hi - lo >= 1 && all_digits(digits) && n == dec_val(digits),
                None => !(hi - lo >= 1 && all_digits(digits) && dec_val(digits) <= u64::MAX),
            }
        }),
{
    let ghost digits = b@.subrange(lo as int, hi as int);
    if hi == lo {
        return None;
    }
    let mut acc: u64 = 0;
    let mut i: usize = lo;
    while i < hi
        invariant
            lo <= i <= hi <= b@.len(),
            digits == b@.subrange(lo as int, hi as int),
            all_digits(digits.take(i - lo)),
            acc == dec_val(digits.take(i - lo)),
        decreases hi - i,
    {
        let c = b[i];
        if c < 48 || c > 57 {
            proof {
                assert(digits[i - lo] == c);
                assert(!all_digits(digits));
            }
            return None;
        }
        let d = (c - 48) as u64;
        proof {
            assert(digits.take(i - lo + 1).drop_last() =~= digits.take(i - lo));
            assert(digits.take(i - lo + 1).last() == c);
        }
        if acc > (u64::MAX - d) / 10 {
            proof {
                // the prefix already exceeds the largest u64, and appending
                // digits never shrinks the value
                assert(((u64::MAX - d) / 10) * 10 <= u64::MAX - d);
                assert(dec_val(digits.take(i - lo + 1)) > u64::MAX);
                if all_digits(digits) {
                    lemma_dec_val_prefix_mono(digits, i - lo + 1);
                }
            }
            return None;
        }
        proof {
            assert(acc * 10 <= ((u64::MAX - d) / 10) * 10 <= u64::MAX - d);
        }
        acc = acc * 10 + d;
        i += 1;
    }
    proof {
        assert(digits.take(hi - lo) =~= digits);
    }
    Some(acc)
}

/// Is `c` a blank byte (space, tab, or carriage return)?
pub open spec fn is_space(c: u8) -> bool {
    c == 32 || c == 9 || c == 13
}

/// Is `c` a blank byte?
pub fn byte_is_space(c: u8) -> (r: bool)
    ensures
        r == is_space(c),
{
    c == 32 || c == 9 || c == 13
}

/// The sub-range of `[lo, hi)` with blank bytes removed from both ends.
pub fn trim_range(b: &[u8], lo: usize, hi: usize) -> (r: (usize, usize))
    requires
        lo <= hi <= b@.len(),
    ensures
        lo <= r.0 <= r.1 <= hi,
        forall|i: int| lo <= i < r.0 ==> is_space(#[trigger] b@[i]),
        forall|i: int| r.1 <= i < hi ==> is_space(#[trigger] b@[i]),
        r.0 < r.1 ==> !is_space(b@[r.0 as int]) && !is_space(b@[r.1 - 1]),
        r.0 == r.1 ==> r.0 == hi && (forall|i: int| lo <= i < hi ==> is_space(#[trigger] b@[i])),
{
    let mut s: usize = lo;
    while s < hi && byte_is_space(b[s])
        invariant
            lo <= s <= hi <= b@.len(),
            forall|i: int| lo <= i < s ==> is_space(#[trigger] b@[i]),
        decreases hi - s,
    {
        s += 1;
    }
    let mut e: usize = hi;
    while e > s && byte_is_space(b[e - 1])
        invariant
            s <= e <= hi <= b@.len(),
            forall|i: int| e <= i < hi ==> is_space(#[trigger] b@[i]),
        decreases e,
    {
        e -= 1;
    }
    (s, e)
}

/// The first position of byte `c` in `[lo, hi)`, if any.
pub fn find_byte(b: &[u8], lo: usize, hi: usize, c: u8) -> (r: Option<usize>)
    requires
        lo <= hi <= b@.len(),
    ensures
        match r {
            Some(p) => lo <= p < hi && b@[p as int] == c && (forall|i: int|
                lo <= i < p ==> #[trigger] b@[i] != c),
            None => forall|i: int| lo <= i < hi ==> #[trigger] b@[i] != c,
        },
{
    let mut i: usize = lo;
    while i < hi
        invariant
            lo <= i <= hi <= b@.len(),
            forall|j: int| lo <= j < i ==> #[trigger] b@[j] != c,
        decreases hi - i,
    {
        if b[i] == c {
            return Some(i);
        }
        i += 1;
    }
    None
}

/// Do the bytes of `b` between `lo` and `hi` spell exactly the text `lit`?
pub fn range_eq_str(b: &[u8], lo: usize, hi: usize, lit: &str) -> (r: bool)
    requires
        lo <= hi <= b@.len(),
    ensures
        r == (b@.subrange(lo as int, hi as int) == lit.spec_bytes()),
{
    let lb = lit.as_bytes();
    if hi - lo != lb.len() {
        proof {
            assert(b@.subrange(lo as int, hi as int).len() != lit.spec_bytes().len());
        }
        return false;
    }
    let mut i: usize = 0;
    while i < lb.len()
        invariant
            lo <= hi <= b@.len(),
            hi - lo == lb@.len(),
            lb@ == lit.spec_bytes(),
            i <= lb@.len(),
            forall|j: int| 0 <= j < i ==> b@[lo + j] == #[trigger] lb@[j],
        decreases lb@.len() - i,
    {
        if b[lo + i] != lb[i] {
            proof {
                assert(b@.subrange(lo as int, hi as int)[i as int] != lit.spec_bytes()[i as int]);
            }
            return false;
        }
        i += 1;
    }
    proof {
        assert(b@.subrange(lo as int, hi as int) =~= lit.spec_bytes());
    }
    true
}

} // verus!
