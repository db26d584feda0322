//! Binary floating point with 53 significant bits, by integers alone: which
//! number of that kind lies nearest to a given fraction.

use vstd::arithmetic::power2::*;
use vstd::prelude::*;

verus! {

/// The integer nearest to `num / den`, the even one of two that are equally near.
pub open spec fn round_even(num: nat, den: nat) -> nat {
    let q = num / den;
    let r = num % den;
    if 2 * r < den || (2 * r == den && q % 2 == 0) {
        q
    } else {
        q + 1
    }
}

/// Whether `a / b`, scaled up by `2` to the `k`, has 53 bits before the point.
pub open spec fn fits(a: nat, b: nat, k: int) -> bool {
    if k >= 0 {
        0x10_0000_0000_0000 * b <= a * pow2(k as nat) < 0x20_0000_0000_0000 * b
    } else {
        0x10_0000_0000_0000 * (b * pow2((-k) as nat)) <= a < 0x20_0000_0000_0000 * (b * pow2((-k) as nat))
    }
}

/// `a / b`, scaled up by `2` to the `k` and rounded to an integer.
pub open spec fn mantissa(a: nat, b: nat, k: int) -> nat {
    if k >= 0 {
        round_even(a * pow2(k as nat), b)
    } else {
        round_even(a, b * pow2((-k) as nat))
    }
}

/// The scale under which `a / b` has 53 bits before the point.
pub open spec fn scale(a: nat, b: nat) -> int {
    choose|k: int| fits(a, b, k)
}

/// A number with 53 significant bits: `m` divided by `2` to the `k`.
#[derive(Debug, Clone, Copy, PartialEq, Eq, Structural)]
pub struct Double {
    pub m: u64,
    pub k: i32,
}

/// Whether `d` is the number with 53 significant bits that lies nearest to the
/// positive fraction `a / b`.
pub open spec fn is_nearest(d: Double, a: nat, b: nat) -> bool {
    fits(a, b, d.k as int) && d.m == mantissa(a, b, d.k as int)
}

/// A fraction has one scale only.
pub proof fn lemma_scale_unique(a: nat, b: nat, j: int, k: int)
    requires
        b > 0,
        fits(a, b, j),
        fits(a, b, k),
    ensures
        j == k,
{
    if j < k {
        lemma_scale_below(a, b, j, k);
    } else if k < j {
        lemma_scale_below(a, b, k, j);
    }
}

proof fn lemma_scale_below(a: nat, b: nat, j: int, k: int)
    requires
        b > 0,
        j < k,
        fits(a, b, j),
    ensures
        !fits(a, b, k),
{
    if j >= 0 {
        let d = (k - j) as nat;
        lemma_pow2_adds(j as nat, d);
        lemma_pow2_pos(j as nat);
        lemma_two_at_least(d);
        let p = pow2(j as nat);
        let q = pow2(d);
        assert(a * (p * q) >= 2 * (a * p)) by (nonlinear_arith)
            requires
                q >= 2,
                a >= 0,
                p >= 0,
        ;
    } else if k >= 0 {
        let n = (-j) as nat;
        lemma_two_at_least(n);
        lemma_pow2_pos(k as nat);
        let p = pow2(n);
        let q = pow2(k as nat);
        assert(0x10_0000_0000_0000 * (b * p) >= 2 * (0x10_0000_0000_0000 * b)) by (nonlinear_arith)
            requires
                p >= 2,
                b >= 0,
        ;
        assert(a * q >= a) by (nonlinear_arith)
            requires
                q >= 1,
                a >= 0,
        ;
    } else {
        let n = (-k) as nat;
        let d = (k - j) as nat;
        lemma_pow2_adds(n, d);
        lemma_two_at_least(d);
        lemma_pow2_pos(n);
        let p = pow2(n);
        let q = pow2(d);
        assert(0x10_0000_0000_0000 * (b * (p * q)) >= 2 * (0x10_0000_0000_0000 * (b * p))) by (nonlinear_arith)
            requires
                q >= 2,
                b >= 0,
                p >= 0,
        ;
    }
}

proof fn lemma_two_at_least(d: nat)
    requires
        d > 0,
    ensures
        pow2(d) >= 2,
{
    lemma_pow2_unfold(d);
    lemma_pow2_pos((d - 1) as nat);
}

/// Rounds `num / den` to the nearest integer, ties to even.
pub fn rounded(num: u128, den: u128) -> (r: u128)
    requires
        den > 0,
        den <= 0x4000_0000_0000_0000_0000_0000_0000_0000,
        num < u128::MAX,
    ensures
        r == round_even(num as nat, den as nat),
{
    let q: u128 = num / den;
    let rest: u128 = num % den;
    if 2 * rest < den || (2 * rest == den && q % 2 == 0) {
        q
    } else {
        proof {
            assert(q <= num) by (nonlinear_arith)
                requires
                    q == num / den,
                    den > 0,
            ;
        }
        q + 1
    }
}

/// The number with 53 significant bits nearest to `a / b`.
pub fn quotient(a: u128, b: u128) -> (r: Double)
    requires
        0 < a <= 0x80_0000_0000_0000_0000,
        0 < b <= 0x80_0000_0000_0000_0000,
    ensures
        is_nearest(r, a as nat, b as nat),
        -19 <= r.k <= 124,
        0x10_0000_0000_0000 <= r.m <= 0x20_0000_0000_0000,
{
    let mut num: u128 = a;
    let mut den: u128 = b;
    let mut k: i32 = 0;
    proof {
        lemma2_to64();
        lemma2_to64_rest();
        lemma_pow2_adds(64, 59);
        assert(a as nat * pow2(0) == a as nat);
    }
    while num < 0x10_0000_0000_0000 * den
        invariant
            den == b,
            0 < b <= 0x80_0000_0000_0000_0000,
            0 < a <= 0x80_0000_0000_0000_0000,
            0 <= k <= 123,
            num == a as nat * pow2(k as nat),
            k > 0 ==> num < 0x20_0000_0000_0000 * den,
            num > 0,
            num <= 0x1000_0000_0000_0000_0000_0000_0000_0000,
            pow2(123) == 0x800_0000_0000_0000_0000_0000_0000_0000,
        decreases 0x20_0000_0000_0000 * den - num,
    {
        proof {
            if k == 123 {
                assert(a as nat * pow2(123) >= pow2(123)) by (nonlinear_arith)
                    requires
                        a >= 1,
                ;
            }
            lemma_pow2_unfold((k + 1) as nat);
            let p = pow2(k as nat);
            assert(a as nat * (2 * p) == 2 * (a as nat * p)) by (nonlinear_arith);
        }
        num = num * 2;
        k = k + 1;
    }
    if k == 0 {
        proof {
            assert(b as nat * pow2(0) == b as nat);
        }
        while num >= 0x20_0000_0000_0000 * den
            invariant
                num == a,
                0 < b <= 0x80_0000_0000_0000_0000,
                0 < a <= 0x80_0000_0000_0000_0000,
                -19 <= k <= 0,
                den == b as nat * pow2((-k) as nat),
                0 < den <= 0x80_0000_0000_0000_0000,
                num >= 0x10_0000_0000_0000 * den,
                pow2(19) == 0x8_0000,
            decreases num - den,
        {
            proof {
                if k == -19 {
                    assert(b as nat * pow2(19) >= pow2(19)) by (nonlinear_arith)
                        requires
                            b >= 1,
                    ;
                }
                lemma_pow2_unfold((1 - k) as nat);
                let p = pow2((-k) as nat);
                assert(b as nat * (2 * p) == 2 * (b as nat * p)) by (nonlinear_arith);
            }
            den = den * 2;
            k = k - 1;
        }
    }
    proof {
        assert(b as nat * pow2(0) == b as nat);
        assert(a as nat * pow2(0) == a as nat);
        lemma_round_even_between(num as nat, den as nat);
    }
    let m: u128 = rounded(num, den);
    Double { m: m as u64, k }
}

proof fn lemma_round_even_between(num: nat, den: nat)
    requires
        den > 0,
        0x10_0000_0000_0000 * den <= num < 0x20_0000_0000_0000 * den,
    ensures
        0x10_0000_0000_0000 <= round_even(num, den) <= 0x20_0000_0000_0000,
{
    let q = num / den;
    assert(0x10_0000_0000_0000 <= q < 0x20_0000_0000_0000) by (nonlinear_arith)
        requires
            q == num / den,
            den > 0,
            0x10_0000_0000_0000 * den <= num < 0x20_0000_0000_0000 * den,
    ;
}

/// The integer that `n` becomes when it is held with 53 significant bits.
pub open spec fn held(n: nat) -> nat {
    if n < 0x20_0000_0000_0000 {
        n
    } else {
        mantissa(n, 1, scale(n, 1)) * pow2((-scale(n, 1)) as nat)
    }
}

/// `n` times `2` to the `i`.
fn doubled(n: u64, i: u32) -> (r: u128)
    requires
        n <= 0x20_0000_0000_0000,
        i <= 18,
    ensures
        r == n as nat * pow2(i as nat),
        r <= 0x80_0000_0000_0000_0000,
{
    let mut r: u128 = n as u128;
    let mut j: u32 = 0;
    proof {
        lemma2_to64();
        assert(n as nat * pow2(0) == n);
    }
    while j < i
        invariant
            0 <= j <= i <= 18,
            r == n as nat * pow2(j as nat),
            n <= 0x20_0000_0000_0000,
            pow2(18) == 0x4_0000,
        decreases i - j,
    {
        proof {
            lemma_pow2_unfold((j + 1) as nat);
            lemma_pow2_strictly_increases(j as nat, 18);
            let p = pow2(j as nat);
            assert(n as nat * (2 * p) == 2 * (n as nat * p)) by (nonlinear_arith);
            assert(n as nat * p <= 0x20_0000_0000_0000 * 0x4_0000) by (nonlinear_arith)
                requires
                    n <= 0x20_0000_0000_0000,
                    p <= 0x4_0000,
            ;
        }
        r = r * 2;
        j = j + 1;
    }
    proof {
        let p = pow2(j as nat);
        if j < 18 {
            lemma_pow2_strictly_increases(j as nat, 18);
        }
        assert(n as nat * p <= 0x20_0000_0000_0000 * 0x4_0000) by (nonlinear_arith)
            requires
                n <= 0x20_0000_0000_0000,
                p <= 0x4_0000,
        ;
    }
    r
}

/// The integer that `n` becomes when it is held with 53 significant bits.
pub fn hold(n: u128) -> (r: u128)
    requires
        n < 0x80_0000_0000_0000_0000,
    ensures
        r == held(n as nat),
        r <= 0x80_0000_0000_0000_0000,
        n < 0x1_0000_0000_0000_0000 ==> r <= 0x1_0000_0000_0000_0000,
        n > 0 ==> r > 0,
{
    if n < 0x20_0000_0000_0000 {
        return n;
    }
    let d = quotient(n, 1);
    proof {
        lemma2_to64();
        lemma2_to64_rest();
        assert(1 * pow2(0) == 1);
        if d.k >= 0 {
            lemma_pow2_pos(d.k as nat);
            assert(n as nat * pow2(d.k as nat) >= n) by (nonlinear_arith)
                requires
                    pow2(d.k as nat) >= 1,
            ;
        }
        lemma_scale_unique(n as nat, 1, d.k as int, scale(n as nat, 1));
        if d.k <= -19 {
            let p = pow2((-d.k) as nat);
            assert(p == pow2(19));
            assert(0x10_0000_0000_0000 * (1 * p) <= n);
        }
        lemma_pow2_pos((-d.k) as nat);
        let p = pow2((-d.k) as nat);
        assert(d.m as nat * p > 0) by (nonlinear_arith)
            requires
                d.m > 0,
                p > 0,
        ;
        if n < 0x1_0000_0000_0000_0000 {
            if -d.k >= 12 {
                if -d.k > 12 {
                    lemma_pow2_strictly_increases(12, (-d.k) as nat);
                }
                assert(0x10_0000_0000_0000 * (1 * p) <= n);
            }
            if -d.k < 11 {
                lemma_pow2_strictly_increases((-d.k) as nat, 11);
            }
            assert(d.m as nat * p <= 0x20_0000_0000_0000 * 0x800) by (nonlinear_arith)
                requires
                    d.m <= 0x20_0000_0000_0000,
                    p <= 0x800,
            ;
        }
    }
    doubled(d.m, (-d.k) as u32)
}

/// The IEEE 754 encoding of the positive fraction `a / b`, rounded to nearest.
pub open spec fn encoding(a: nat, b: nat) -> int {
    (1074 - scale(a, b)) * 0x10_0000_0000_0000 + mantissa(a, b, scale(a, b))
}

/// The IEEE 754 encoding of `n`, rounded to nearest.
pub open spec fn encoded(n: nat) -> int {
    if n == 0 {
        0
    } else {
        encoding(n, 1)
    }
}

/// The IEEE 754 encoding of `a / b`, each held with 53 significant bits and the
/// quotient rounded to nearest.
pub open spec fn ratio_encoding(a: nat, b: nat) -> int {
    if a == 0 {
        0
    } else {
        encoding(held(a), held(b))
    }
}

/// Whether a non-negative number, by its encoding, is at least the double that
/// `bits` encodes. Nothing is at least a NaN.
pub open spec fn at_least(encoding: int, bits: u64) -> bool {
    if bits >= 0x8000_0000_0000_0000 {
        bits <= 0xFFF0_0000_0000_0000
    } else {
        bits <= 0x7FF0_0000_0000_0000 && encoding >= bits
    }
}

/// Whether the double that `bits` encodes is greater than zero.
pub open spec fn positive(bits: u64) -> bool {
    0 < bits <= 0x7FF0_0000_0000_0000
}

fn encode(d: Double) -> (r: u64)
    requires
        -19 <= d.k <= 124,
        d.m <= 0x20_0000_0000_0000,
    ensures
        r == (1074 - d.k) * 0x10_0000_0000_0000 + d.m,
        r < 0x8000_0000_0000_0000,
{
    ((1074 - d.k) as u64) * 0x10_0000_0000_0000 + d.m
}

/// The encoding of `n`.
pub fn double_of(n: u64) -> (r: u64)
    ensures
        r == encoded(n as nat),
        r < 0x8000_0000_0000_0000,
{
    if n == 0 {
        return 0;
    }
    let d = quotient(n as u128, 1);
    proof {
        lemma_scale_unique(n as nat, 1, d.k as int, scale(n as nat, 1));
    }
    encode(d)
}

/// Whether `a / b` in double precision is at least the double that `bits`
/// encodes.
pub fn ratio_at_least(a: u64, b: u64, bits: u64) -> (r: bool)
    requires
        b > 0,
    ensures
        r == at_least(ratio_encoding(a as nat, b as nat), bits),
{
    let ratio: u64 = if a == 0 {
        0
    } else {
        let x: u128 = hold(a as u128);
        let y: u128 = hold(b as u128);
        let d = quotient(x, y);
        proof {
            lemma_scale_unique(x as nat, y as nat, d.k as int, scale(x as nat, y as nat));
        }
        encode(d)
    };
    if bits >= 0x8000_0000_0000_0000 {
        bits <= 0xFFF0_0000_0000_0000
    } else {
        bits <= 0x7FF0_0000_0000_0000 && ratio >= bits
    }
}

/// `a / b`, rounded to 53 significant bits, in tenths, the even one of two that are
/// equally near.
pub open spec fn tenths_of(a: nat, b: nat) -> nat {
    let k = scale(a, b);
    let m = mantissa(a, b, k);
    if a == 0 {
        0
    } else if k >= 0 {
        round_even(10 * m, pow2(k as nat))
    } else {
        10 * (m * pow2((-k) as nat))
    }
}

/// `2` to the `k`.
fn power_of_two(k: u32) -> (r: u128)
    requires
        k <= 124,
    ensures
        r == pow2(k as nat),
        0 < r <= 0x1000_0000_0000_0000_0000_0000_0000_0000,
{
    let mut r: u128 = 1;
    let mut i: u32 = 0;
    proof {
        lemma2_to64();
        lemma2_to64_rest();
        lemma_pow2_adds(64, 60);
    }
    while i < k
        invariant
            0 <= i <= k <= 124,
            r == pow2(i as nat),
            pow2(124) == 0x1000_0000_0000_0000_0000_0000_0000_0000,
        decreases k - i,
    {
        proof {
            lemma_pow2_unfold((i + 1) as nat);
            lemma_pow2_strictly_increases(i as nat, 124);
        }
        r = r * 2;
        i = i + 1;
    }
    proof {
        lemma_pow2_pos(k as nat);
        if i < 124 {
            lemma_pow2_strictly_increases(i as nat, 124);
        }
    }
    r
}

/// `a / b`, rounded to 53 significant bits, in tenths.
pub fn tenths(a: u128, b: u128) -> (r: u128)
    requires
        a <= 0x80_0000_0000_0000_0000,
        0 < b <= 0x80_0000_0000_0000_0000,
    ensures
        r == tenths_of(a as nat, b as nat),
        r <= 0x1_0000_0000_0000_0000_0000,
{
    if a == 0 {
        return 0;
    }
    let d = quotient(a, b);
    proof {
        lemma_scale_unique(a as nat, b as nat, d.k as int, scale(a as nat, b as nat));
    }
    let m: u128 = d.m as u128;
    if d.k >= 0 {
        let den: u128 = power_of_two(d.k as u32);
        proof {
            let num = 10 * d.m as nat;
            assert(num / den as nat <= num) by (nonlinear_arith)
                requires
                    den > 0,
            ;
        }
        rounded(10 * m, den)
    } else {
        proof {
            lemma2_to64();
            lemma2_to64_rest();
            if d.k <= -19 {
                let p = pow2((-d.k) as nat);
                assert(p == pow2(19));
                assert(b as nat * p >= p) by (nonlinear_arith)
                    requires
                        b >= 1,
                ;
                assert(0x10_0000_0000_0000 * (b as nat * p) <= a);
            }
        }
        if d.k == -19 {
            // Only the largest quotient of all has this scale.
            return 10 * (m * 0x8_0000);
        }
        10 * doubled(d.m, (-d.k) as u32)
    }
}

} // verus!
