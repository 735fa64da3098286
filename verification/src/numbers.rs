//! Decimal digit sequences: their values, powers of ten, and the exec
//! loops that read them, all exact over mathematical integers.

use vstd::prelude::*;
use vstd::string::StrSliceExecFns;

verus! {

/// Is `c` a decimal digit?
pub open spec fn is_digit(c: char) -> bool {
    '0' <= c && c <= '9'
}

/// All characters of `s` are decimal digits.
pub open spec fn all_digits(s: Seq<char>) -> bool {
    forall|i: int| 0 <= i < s.len() ==> is_digit(#[trigger] s[i])
}

/// Value of the decimal digit `c`.
pub open spec fn digit_val(c: char) -> int {
    c as int - '0' as int
}

/// Value of `s` read as a big-endian sequence of decimal digits.
pub open spec fn digits_val(s: Seq<char>) -> int
    decreases s.len(),
{
    if s.len() == 0 {
        0
    } else {
        10 * digits_val(s.drop_last()) + digit_val(s.last())
    }
}

/// 10 to the power `n`.
pub open spec fn pow10(n: nat) -> int
    decreases n,
{
    if n == 0 {
        1
    } else {
        10 * pow10((n - 1) as nat)
    }
}

/// Powers of ten are positive and monotone.
pub proof fn lemma_pow10_monotone(a: nat, b: nat)
    requires
        a <= b,
    ensures
        1 <= pow10(a) <= pow10(b),
    decreases b,
{
    if a < b {
        lemma_pow10_monotone(a, (b - 1) as nat);
    } else if a > 0 {
        lemma_pow10_monotone((a - 1) as nat, (b - 1) as nat);
    }
}

/// Adjacent powers of ten multiply: `10^(a+b) == 10^a * 10^b`.
pub proof fn lemma_pow10_add(a: nat, b: nat)
    ensures
        pow10(a + b) == pow10(a) * pow10(b),
    decreases a,
{
    if a == 0 {
    } else {
        lemma_pow10_add((a - 1) as nat, b);
        assert(pow10(a + b) == 10 * pow10((a - 1) as nat + b));
        assert(10 * (pow10((a - 1) as nat) * pow10(b)) == (10 * pow10((a - 1) as nat)) * pow10(
            b,
        )) by (nonlinear_arith);
    }
}

/// A sequence of decimal digits reads as a value below 10^length.
pub proof fn lemma_digits_val_bound(s: Seq<char>)
    requires
        all_digits(s),
    ensures
        0 <= digits_val(s) < pow10(s.len()),
    decreases s.len(),
{
    if s.len() > 0 {
        lemma_digits_val_bound(s.drop_last());
    }
}

/// Splitting a digit sequence at `k` splits its value at the matching
/// power of ten.
pub proof fn lemma_digits_val_split(s: Seq<char>, k: int)
    requires
        0 <= k <= s.len(),
    ensures
        digits_val(s) == digits_val(s.subrange(0, k)) * pow10((s.len() - k) as nat)
            + digits_val(s.subrange(k, s.len() as int)),
    decreases s.len(),
{
    let a = digits_val(s.subrange(0, k));
    if k == s.len() {
        assert(s.subrange(0, k) =~= s);
        assert(s.subrange(k, s.len() as int) =~= Seq::empty());
        assert(a * pow10(0) == a) by (nonlinear_arith);
    } else {
        let s1 = s.drop_last();
        assert(s1.subrange(0, k) =~= s.subrange(0, k));
        lemma_digits_val_split(s1, k);
        let b1 = digits_val(s1.subrange(k, s1.len() as int));
        let p1 = pow10((s1.len() - k) as nat);
        assert(s.subrange(k, s.len() as int).drop_last() =~= s1.subrange(k, s1.len() as int));
        assert(s.subrange(k, s.len() as int).last() == s.last());
        let d = digit_val(s.last());
        assert(digits_val(s.subrange(k, s.len() as int)) == 10 * b1 + d);
        assert(digits_val(s) == 10 * (a * p1 + b1) + d);
        assert(10 * (a * p1 + b1) == a * (10 * p1) + 10 * b1) by (nonlinear_arith);
        assert(pow10((s.len() - k) as nat) == 10 * p1);
    }
}

/// `s` with its trailing `0` digits removed; the canonical form of a
/// fraction part.
pub open spec fn strip_zeros(s: Seq<char>) -> Seq<char>
    decreases s.len(),
{
    if s.len() > 0 && s.last() == '0' {
        strip_zeros(s.drop_last())
    } else {
        s
    }
}

/// Removing trailing zeros divides the value by the matching power of
/// ten, exactly.
pub proof fn lemma_strip_zeros_val(s: Seq<char>)
    requires
        all_digits(s),
    ensures
        all_digits(strip_zeros(s)),
        strip_zeros(s).len() <= s.len(),
        digits_val(s) == digits_val(strip_zeros(s)) * pow10((s.len() - strip_zeros(s).len()) as nat),
    decreases s.len(),
{
    if s.len() > 0 && s.last() == '0' {
        let s1 = s.drop_last();
        lemma_strip_zeros_val(s1);
        let v = digits_val(strip_zeros(s));
        let p1 = pow10((s1.len() - strip_zeros(s).len()) as nat);
        assert(digits_val(s) == 10 * (v * p1));
        assert(10 * (v * p1) == v * (10 * p1)) by (nonlinear_arith);
        assert(pow10((s.len() - strip_zeros(s).len()) as nat) == 10 * p1);
    } else {
        assert(pow10(0) == 1);
        assert(digits_val(s) * 1 == digits_val(s)) by (nonlinear_arith);
    }
}

/// The position where the trailing zeros of `s` start determines
/// `strip_zeros(s)`.
pub proof fn lemma_strip_zeros_determined(s: Seq<char>, e: int)
    requires
        0 <= e <= s.len(),
        forall|j: int| e <= j < s.len() ==> s[j] == '0',
        e > 0 ==> s[e - 1] != '0',
    ensures
        strip_zeros(s) == s.subrange(0, e),
    decreases s.len(),
{
    if s.len() > 0 && s.last() == '0' {
        assert(e < s.len());
        let s1 = s.drop_last();
        assert forall|j: int| e <= j < s1.len() implies s1[j] == '0' by {
            assert(s1[j] == s[j]);
        }
        lemma_strip_zeros_determined(s1, e);
        assert(s1.subrange(0, e) =~= s.subrange(0, e));
    } else {
        assert(e == s.len());
        assert(s.subrange(0, e) =~= s);
    }
}

/// Is every character of `s` a decimal digit?
pub fn check_all_digits(s: &str) -> (r: bool)
    ensures
        r == all_digits(s@),
{
    let n = s.unicode_len();
    let mut i: usize = 0;
    while i < n
        invariant
            0 <= i <= n,
            n == s@.len(),
            forall|j: int| 0 <= j < i ==> is_digit(#[trigger] s@[j]),
        decreases n - i,
    {
        let c = s.get_char(i);
        if !('0' <= c && c <= '9') {
            return false;
        }
        i = i + 1;
    }
    true
}

/// Reads a digit string; `None` when its value exceeds `usize::MAX`.
pub fn parse_int_digits(s: &str) -> (r: Option<u128>)
    requires
        all_digits(s@),
    ensures
        match r {
            Some(v) => v == digits_val(s@) && v <= usize::MAX,
            None => digits_val(s@) > usize::MAX,
        },
{
    let n = s.unicode_len();
    let mut acc: u128 = 0;
    let mut i: usize = 0;
    while i < n
        invariant
            0 <= i <= n,
            n == s@.len(),
            all_digits(s@),
            acc == digits_val(s@.subrange(0, i as int)),
            acc <= usize::MAX,
        decreases n - i,
    {
        let c = s.get_char(i);
        let d: u128 = (c as u32 - '0' as u32) as u128;
        proof {
            let p = s@.subrange(0, i as int);
            let q = s@.subrange(0, i + 1);
            assert(q.drop_last() =~= p);
            assert(is_digit(s@[i as int]));
        }
        let next: u128 = acc * 10 + d;
        if next > usize::MAX as u128 {
            proof {
                lemma_digits_val_split(s@, i + 1);
                let hd = s@.subrange(0, i + 1);
                let tl = s@.subrange(i + 1, s@.len() as int);
                assert forall|j: int| 0 <= j < hd.len() implies is_digit(#[trigger] hd[j]) by {
                    assert(hd[j] == s@[j]);
                }
                assert forall|j: int| 0 <= j < tl.len() implies is_digit(#[trigger] tl[j]) by {
                    assert(tl[j] == s@[j + i + 1]);
                }
                lemma_digits_val_bound(hd);
                lemma_digits_val_bound(tl);
                lemma_pow10_monotone(0, (s@.len() - i - 1) as nat);
                assert(digits_val(hd) <= digits_val(hd) * pow10((s@.len() - i - 1) as nat))
                    by (nonlinear_arith)
                    requires
                        digits_val(hd) >= 0,
                        pow10((s@.len() - i - 1) as nat) >= 1,
                ;
            }
            return None;
        }
        acc = next;
        i = i + 1;
    }
    proof {
        assert(s@.subrange(0, n as int) =~= s@);
    }
    Some(acc)
}

/// Reads a digit string of at most twenty digits.
pub fn parse_frac_digits(s: &str) -> (v: u128)
    requires
        all_digits(s@),
        s@.len() <= 20,
    ensures
        v == digits_val(s@),
{
    let n = s.unicode_len();
    let mut acc: u128 = 0;
    let mut i: usize = 0;
    while i < n
        invariant
            0 <= i <= n,
            n == s@.len() <= 20,
            all_digits(s@),
            acc == digits_val(s@.subrange(0, i as int)),
            acc < pow10(i as nat),
        decreases n - i,
    {
        let c = s.get_char(i);
        let d: u128 = (c as u32 - '0' as u32) as u128;
        proof {
            let p = s@.subrange(0, i as int);
            let q = s@.subrange(0, i + 1);
            assert(q.drop_last() =~= p);
            assert(is_digit(s@[i as int]));
            lemma_pow10_monotone(i as nat + 1, 20);
            assert(pow10(20) == 100_000_000_000_000_000_000) by {
                reveal_with_fuel(pow10, 21);
            }
        }
        acc = acc * 10 + d;
        i = i + 1;
    }
    proof {
        assert(s@.subrange(0, n as int) =~= s@);
    }
    acc
}

/// Are `a` and `b` within `maxdiff` of each other, either way round?
pub open spec fn within(maxdiff: u64, a: u64, b: u64) -> bool {
    if a > b {
        a - b < maxdiff
    } else {
        b - a < maxdiff
    }
}

/// Report whether two numbers are within `maxdiff` of each other (either
/// direction).
pub fn numbers_within(maxdiff: u64, a: u64, b: u64) -> (r: bool)
    ensures
        r == within(maxdiff, a, b),
{
    if a > b {
        a - b < maxdiff
    } else {
        b - a < maxdiff
    }
}

/// 10 to the power `k`, for `k` up to twenty.
pub fn pow10_u128(k: usize) -> (r: u128)
    requires
        k <= 20,
    ensures
        r == pow10(k as nat),
{
    let mut acc: u128 = 1;
    let mut i: usize = 0;
    while i < k
        invariant
            0 <= i <= k <= 20,
            acc == pow10(i as nat),
        decreases k - i,
    {
        proof {
            lemma_pow10_monotone(i as nat + 1, 20);
            assert(pow10(20) == 100_000_000_000_000_000_000) by {
                reveal_with_fuel(pow10, 21);
            }
        }
        acc = acc * 10;
        i = i + 1;
    }
    acc
}

} // verus!
