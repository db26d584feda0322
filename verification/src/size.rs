//! Sizes written as decimal numbers with a binary suffix, such as `1.5M`.

use vstd::arithmetic::div_mod::*;
use vstd::arithmetic::power2::*;
use vstd::prelude::*;

use crate::digits::{self, digits_value};
use crate::double;
use crate::text::{self, chars_of, same, sub_chars, text_of, trim_chars};

verus! {

/// `10` to the `d`.
pub open spec fn ten(d: nat) -> nat
    decreases d,
{
    if d == 0 {
        1
    } else {
        10 * ten((d - 1) as nat)
    }
}

/// The number that decimal digits, given by their values, stand for.
pub open spec fn digit_sum(s: Seq<u8>) -> nat
    decreases s.len(),
{
    if s.len() == 0 {
        0
    } else {
        s[0] as nat * ten((s.len() - 1) as nat) + digit_sum(s.skip(1))
    }
}

/// Whether every value is that of a decimal digit.
pub open spec fn decimal(s: Seq<u8>) -> bool {
    forall|i: int| 0 <= i < s.len() ==> (#[trigger] s[i]) <= 9
}

/// The positive fraction `a / b`, held with 53 significant bits, times `2` to
/// the `e`, without what stands behind the point.
pub open spec fn scaled_floor(a: nat, b: nat, e: nat) -> nat {
    if a == 0 {
        0
    } else {
        let k = double::scale(a, b);
        let m = double::mantissa(a, b, k);
        if k <= e {
            m * pow2((e - k) as nat)
        } else {
            m / pow2((k - e) as nat)
        }
    }
}

proof fn lemma_digit_sum_bound(s: Seq<u8>)
    requires
        decimal(s),
    ensures
        digit_sum(s) < ten(s.len()),
    decreases s.len(),
{
    if s.len() > 0 {
        lemma_digit_sum_bound(s.skip(1));
        let t = ten((s.len() - 1) as nat);
        let x = s[0] as nat;
        assert(x * t <= 9 * t) by (nonlinear_arith)
            requires
                x <= 9,
        ;
    }
}

/// Doubles the fraction that the digits stand for; what leaves at the front is
/// given back.
fn double_digits(s: &mut Vec<u8>) -> (carry: u8)
    requires
        decimal(old(s)@),
    ensures
        decimal(final(s)@),
        final(s)@.len() == old(s)@.len(),
        carry <= 1,
        2 * digit_sum(old(s)@) == carry * ten(old(s)@.len()) + digit_sum(final(s)@),
{
    let ghost before = s@;
    let ghost d = s@.len() as int;
    let mut carry: u8 = 0;
    let mut i: usize = s.len();
    while i > 0
        invariant
            i <= d,
            d == s@.len(),
            d == before.len(),
            carry <= 1,
            decimal(before),
            decimal(s@),
            forall|j: int| 0 <= j < i ==> s@[j] == before[j],
            2 * digit_sum(before.subrange(i as int, d)) == carry * ten((d - i) as nat) + digit_sum(
                s@.subrange(i as int, d),
            ),
        decreases i,
    {
        i -= 1;
        let x: u8 = s[i];
        let t: u8 = 2 * x + carry;
        let ghost c0 = carry;
        let ghost tail = s@.subrange(i + 1, d);
        s[i] = t % 10;
        carry = t / 10;
        proof {
            let w = ten((d - i - 1) as nat);
            assert(s@.subrange(i + 1, d) =~= tail);
            assert(before.subrange(i as int, d).skip(1) =~= before.subrange(i + 1, d));
            assert(s@.subrange(i as int, d).skip(1) =~= tail);
            let old_tail = digit_sum(before.subrange(i + 1, d));
            let new_tail = digit_sum(tail);
            let c1 = carry as nat;
            let y = (t % 10) as nat;
            assert(2 * (x as nat * w + old_tail) == c1 * (10 * w) + (y * w + new_tail))
                by (nonlinear_arith)
                requires
                    2 * old_tail == c0 as nat * w + new_tail,
                    2 * x as nat + c0 as nat == 10 * c1 + y,
            ;
        }
    }
    proof {
        assert(before.subrange(0, d) =~= before);
        assert(s@.subrange(0, d) =~= s@);
    }
    carry
}

/// Whether some digit is not zero.
fn any_left(s: &Vec<u8>) -> (r: bool)
    requires
        decimal(s@),
    ensures
        r == (digit_sum(s@) > 0),
{
    let ghost d = s@.len() as int;
    let mut i: usize = s.len();
    while i > 0
        invariant
            i <= d,
            d == s@.len(),
            digit_sum(s@.subrange(i as int, d)) == 0,
        decreases i,
    {
        i -= 1;
        proof {
            assert(s@.subrange(i as int, d).skip(1) =~= s@.subrange(i + 1, d));
            lemma_ten_pos((d - i - 1) as nat);
            let t = ten((d - i - 1) as nat);
            let x = s@[i as int] as nat;
            if x > 0 {
                assert(x * t > 0) by (nonlinear_arith)
                    requires
                        x > 0,
                        t > 0,
                ;
            } else {
                assert(x * t == 0) by (nonlinear_arith)
                    requires
                        x == 0,
                ;
            }
        }
        if s[i] != 0 {
            proof {
                lemma_digit_sum_front(s@, i as int);
            }
            return true;
        }
    }
    proof {
        assert(s@.subrange(0, d) =~= s@);
    }
    false
}

proof fn lemma_ten_pos(d: nat)
    ensures
        ten(d) > 0,
    decreases d,
{
    if d > 0 {
        lemma_ten_pos((d - 1) as nat);
    }
}

proof fn lemma_digit_sum_front(s: Seq<u8>, i: int)
    requires
        0 <= i <= s.len(),
    ensures
        digit_sum(s) >= digit_sum(s.subrange(i, s.len() as int)),
    decreases i,
{
    if i == 0 {
        assert(s.subrange(0, s.len() as int) =~= s);
    } else {
        let rest = s.skip(1);
        lemma_digit_sum_front(rest, i - 1);
        assert(rest.subrange(i - 1, rest.len() as int) =~= s.subrange(i, s.len() as int));
        assert(s[0] as nat * ten((s.len() - 1) as nat) >= 0) by (nonlinear_arith);
    }
}

/// Every positive fraction has a scale.
pub proof fn lemma_scale_exists(a: nat, b: nat)
    requires
        a > 0,
        b > 0,
    ensures
        double::fits(a, b, double::scale(a, b)),
{
    if a < 0x10_0000_0000_0000 * b {
        lemma_scale_up(a, b, a, 0);
    } else {
        assert(b * pow2(0) == b) by {
            lemma2_to64();
        }
        lemma_scale_down(a, b, b, 0);
    }
}

proof fn lemma_scale_up(a: nat, b: nat, num: nat, k: nat)
    requires
        a > 0,
        b > 0,
        num == a * pow2(k) || (k == 0 && num == a),
        num < 0x20_0000_0000_0000 * b,
    ensures
        exists|j: int| double::fits(a, b, j),
    decreases 0x20_0000_0000_0000 * b - num,
{
    lemma2_to64();
    assert(a * pow2(0) == a);
    if num >= 0x10_0000_0000_0000 * b {
        assert(double::fits(a, b, k as int));
    } else {
        lemma_pow2_unfold(k + 1);
        let p = pow2(k);
        assert(a * (2 * p) == 2 * (a * p)) by (nonlinear_arith);
        lemma_pow2_pos(k);
        assert(a * p > 0) by (nonlinear_arith)
            requires
                a > 0,
                p > 0,
        ;
        lemma_scale_up(a, b, 2 * num, k + 1);
    }
}

proof fn lemma_scale_down(a: nat, b: nat, den: nat, k: nat)
    requires
        a > 0,
        b > 0,
        den == b * pow2(k),
        den > 0,
        a >= 0x10_0000_0000_0000 * den,
    ensures
        exists|j: int| double::fits(a, b, j),
    decreases a - den,
{
    lemma2_to64();
    assert(a * pow2(0) == a);
    assert(b * pow2(0) == b);
    if a < 0x20_0000_0000_0000 * den {
        assert(double::fits(a, b, -(k as int)));
    } else {
        lemma_pow2_unfold(k + 1);
        let p = pow2(k);
        assert(b * (2 * p) == 2 * (b * p)) by (nonlinear_arith);
        lemma_scale_down(a, b, 2 * den, k + 1);
    }
}

/// A fraction of `2` to the `64` and more stays that large under every scale.
proof fn lemma_huge(a: nat, b: nat, e: nat)
    requires
        b > 0,
        a >= 0x1_0000_0000_0000_0000 * b,
    ensures
        scaled_floor(a, b, e) > u64::MAX,
{
    lemma_scale_exists(a, b);
    let k = double::scale(a, b);
    lemma2_to64();
    lemma2_to64_rest();
    if k >= 0 {
        lemma_pow2_pos(k as nat);
        let p = pow2(k as nat);
        assert(a * p >= a) by (nonlinear_arith)
            requires
                p >= 1,
        ;
    } else {
        let n = (-k) as nat;
        let p = pow2(n);
        if n < 12 {
            if n < 11 {
                lemma_pow2_strictly_increases(n, 11);
            }
            assert(b * p <= b * 0x800) by (nonlinear_arith)
                requires
                    p <= 0x800,
            ;
        } else {
            let m = double::mantissa(a, b, k);
            lemma_pow2_pos(n);
            assert(b * p > 0) by (nonlinear_arith)
                requires
                    b > 0,
                    p > 0,
            ;
            lemma_mantissa_bounds(a, b * p);
            let w = pow2((e - k) as nat);
            if e - k > 12 {
                lemma_pow2_strictly_increases(12, (e - k) as nat);
            }
            assert(m * w >= 0x10_0000_0000_0000 * 0x1000) by (nonlinear_arith)
                requires
                    m >= 0x10_0000_0000_0000,
                    w >= 0x1000,
            ;
        }
    }
}

proof fn lemma_mantissa_bounds(num: nat, den: nat)
    requires
        den > 0,
        0x10_0000_0000_0000 * den <= num < 0x20_0000_0000_0000 * den,
    ensures
        0x10_0000_0000_0000 <= double::round_even(num, den) <= 0x20_0000_0000_0000,
{
    let q = num / den;
    assert(0x10_0000_0000_0000 <= q < 0x20_0000_0000_0000) by (nonlinear_arith)
        requires
            q == num / den,
            den > 0,
            0x10_0000_0000_0000 * den <= num < 0x20_0000_0000_0000 * den,
    ;
}

/// A fraction below `2` to the `-41` vanishes under every scale up to `40`.
proof fn lemma_tiny(a: nat, b: nat, e: nat)
    requires
        b > 0,
        a * pow2(41) < b,
        e <= 40,
    ensures
        scaled_floor(a, b, e) == 0,
{
    if a > 0 {
        lemma_scale_exists(a, b);
        let k = double::scale(a, b);
        lemma2_to64();
        lemma2_to64_rest();
        let t = pow2(41);
        assert(a * t >= a) by (nonlinear_arith)
            requires
                t >= 1,
        ;
        if k < 0 {
            let p = pow2((-k) as nat);
            lemma_pow2_pos((-k) as nat);
            assert(b * p >= b) by (nonlinear_arith)
                requires
                    p >= 1,
            ;
        } else {
            let p = pow2(k as nat);
            if k <= 93 {
                lemma_pow2_adds(41, 52);
                if k < 93 {
                    lemma_pow2_strictly_increases(k as nat, 93);
                }
                let w = pow2(52);
                assert(a * p <= (a * t) * w) by (nonlinear_arith)
                    requires
                        p <= t * w,
                ;
                assert((a * t) * w <= b * w) by (nonlinear_arith)
                    requires
                        a * t < b,
                ;
                assert((a * t) * w < b * w) by (nonlinear_arith)
                    requires
                        a * t < b,
                        w > 0,
                ;
                assert(b * w == 0x10_0000_0000_0000 * b) by (nonlinear_arith)
                    requires
                        w == 0x10_0000_0000_0000,
                ;
            }
            lemma_mantissa_bounds(a * p, b);
            let m = double::mantissa(a, b, k);
            let n = (k - e) as nat;
            if n > 54 {
                lemma_pow2_strictly_increases(54, n);
            }
            lemma_basic_div(m as int, pow2(n) as int);
        }
    }
}

/// Rounds `whole + rest / b`, where `rest / b` is what the digits behind the
/// point stand for, to 53 significant bits, and scales it by `2` to the `e`.
fn scale_decimal(whole: u64, rest: Vec<u8>, e: u32) -> (r: u64)
    requires
        decimal(rest@),
        e <= 40,
    ensures
        ({
            let b = ten(rest@.len());
            let exact = scaled_floor(whole as nat * b + digit_sum(rest@), b, e as nat);
            r == if exact > u64::MAX {
                u64::MAX as nat
            } else {
                exact
            }
        }),
{
    let ghost b = ten(rest@.len());
    let ghost a = whole as nat * b + digit_sum(rest@);
    let mut rest = rest;
    let mut top: u128 = whole as u128;
    let mut k: u32 = 0;
    proof {
        lemma_ten_pos(rest@.len());
        lemma_digit_sum_bound(rest@);
        lemma2_to64();
        lemma2_to64_rest();
        assert(a * pow2(0) == a);
    }
    while top < 0x20_0000_0000_0000 && k < 95
        invariant
            decimal(rest@),
            b == ten(rest@.len()),
            b > 0,
            digit_sum(rest@) < b,
            a * pow2(k as nat) == top * b + digit_sum(rest@),
            k <= 95,
            k == 0 ==> top <= u64::MAX,
            k > 0 ==> top < 0x40_0000_0000_0000,
        decreases 95 - k,
    {
        let ghost r0 = digit_sum(rest@);
        let ghost t0 = top as nat;
        let c: u8 = double_digits(&mut rest);
        top = top * 2 + c as u128;
        k = k + 1;
        proof {
            lemma_digit_sum_bound(rest@);
            lemma_pow2_unfold(k as nat);
            let p = pow2((k - 1) as nat);
            let r1 = digit_sum(rest@);
            let t1 = top as nat;
            assert(a * (2 * p) == t1 * b + r1) by (nonlinear_arith)
                requires
                    a * p == t0 * b + r0,
                    2 * r0 == c as nat * b + r1,
                    t1 == 2 * t0 + c as nat,
            ;
        }
    }
    let ghost left = digit_sum(rest@);
    if top < 0x20_0000_0000_0000 {
        proof {
            lemma_pow2_adds(41, 54);
            let t = pow2(41);
            let w = pow2(54);
            assert(a * t < b) by (nonlinear_arith)
                requires
                    a * (t * w) == top * b + left,
                    left < b,
                    top < 0x20_0000_0000_0000,
                    w == 0x40_0000_0000_0000,
                    b > 0,
            ;
            lemma_tiny(a, b, e as nat);
        }
        return 0;
    }
    let sticky = any_left(&rest);
    let mut q: u128 = top;
    let mut unit: u128 = 1;
    let mut j: u32 = 0;
    while q >= 0x20_0000_0000_0000
        invariant
            unit == pow2(j as nat),
            unit > 0,
            j <= 11,
            q == top / unit,
            q >= 0x10_0000_0000_0000,
            q * unit <= top,
            0x20_0000_0000_0000 <= top <= u64::MAX,
            top < 0x40_0000_0000_0000 ==> j <= 1,
            j == 0 ==> q == top,
            pow2(11) == 0x800,
            pow2(1) == 2,
        decreases q,
    {
        proof {
            if j == 11 {
                assert(q * unit >= 0x20_0000_0000_0000 * 0x800) by (nonlinear_arith)
                    requires
                        q >= 0x20_0000_0000_0000,
                        unit == 0x800,
                ;
            }
            if j == 1 && top < 0x40_0000_0000_0000 {
                assert(q * unit >= 0x20_0000_0000_0000 * 2) by (nonlinear_arith)
                    requires
                        q >= 0x20_0000_0000_0000,
                        unit == 2,
                ;
            }
            lemma_pow2_unfold((j + 1) as nat);
            lemma_div_denominator(top as int, unit as int, 2);
            if j < 11 {
                lemma_pow2_strictly_increases(j as nat, 11);
            }
            lemma_fundamental_div_mod(q as int, 2);
            let half = q / 2;
            assert(half * (2 * unit) <= q * unit) by (nonlinear_arith)
                requires
                    2 * half <= q,
                    unit > 0,
            ;
        }
        q = q / 2;
        unit = unit * 2;
        j = j + 1;
    }
    let low: u128 = top % unit;
    let up = 2 * low > unit || (2 * low == unit && (sticky || q % 2 == 1));
    let m: u128 = if up {
        q + 1
    } else {
        q
    };
    proof {
        lemma_fundamental_div_mod(top as int, unit as int);
        lemma_rounding(a, b, k as nat, top as nat, left, unit as nat, j as nat, q as nat, low as nat);
        lemma_scale_exists(a, b);
        double::lemma_scale_unique(a, b, k - j, double::scale(a, b));
    }
    let shift: i32 = k as i32 - j as i32;
    finish(m, shift, e)
}

/// `m`, scaled by `2` to the `e - k`, without what stands behind the point.
fn finish(m: u128, k: i32, e: u32) -> (r: u64)
    requires
        m <= 0x20_0000_0000_0000,
        -11 <= k <= 95,
        e <= 40,
    ensures
        ({
            let exact = if k <= e {
                m as nat * pow2((e - k) as nat)
            } else {
                m as nat / pow2((k - e) as nat)
            };
            r == if exact > u64::MAX {
                u64::MAX as nat
            } else {
                exact
            }
        }),
{
    let mut v: u128 = m;
    let mut i: i32 = k;
    if i <= e as i32 {
        proof {
            lemma2_to64();
            lemma2_to64_rest();
            assert(m as nat * pow2(0) == m);
        }
        while i < e as i32
            invariant
                -11 <= k <= i <= e <= 40,
                v == m as nat * pow2((i - k) as nat),
                m <= 0x20_0000_0000_0000,
                pow2(51) == 0x8_0000_0000_0000,
            decreases e - i,
        {
            proof {
                lemma_pow2_unfold((i - k + 1) as nat);
                let p = pow2((i - k) as nat);
                if i - k < 51 {
                    lemma_pow2_strictly_increases((i - k) as nat, 51);
                }
                assert(m as nat * (2 * p) == 2 * (m as nat * p)) by (nonlinear_arith);
                assert(m as nat * p <= 0x20_0000_0000_0000 * 0x8_0000_0000_0000)
                    by (nonlinear_arith)
                    requires
                        m <= 0x20_0000_0000_0000,
                        p <= 0x8_0000_0000_0000,
                ;
            }
            v = v * 2;
            i = i + 1;
        }
        if v > u64::MAX as u128 {
            u64::MAX
        } else {
            v as u64
        }
    } else {
        proof {
            lemma2_to64();
            assert(m as nat / 1 == m as nat);
        }
        let mut n: i32 = 0;
        while n < k - e as i32
            invariant
                0 <= n <= k - e,
                k <= 95,
                e <= 40,
                v == m as nat / pow2(n as nat),
                m <= 0x20_0000_0000_0000,
            decreases k - e - n,
        {
            proof {
                lemma_pow2_unfold((n + 1) as nat);
                lemma_pow2_pos(n as nat);
                lemma_div_denominator(m as int, pow2(n as nat) as int, 2);
                assert(pow2(n as nat) * 2 == 2 * pow2(n as nat));
            }
            v = v / 2;
            n = n + 1;
        }
        proof {
            lemma_pow2_pos((k - e) as nat);
            lemma_div_is_ordered_by_denominator(m as int, 1, pow2((k - e) as nat) as int);
        }
        v as u64
    }
}

/// The leading bits of a fraction, and whether anything is left behind them,
/// decide how it rounds.
proof fn lemma_rounding(
    a: nat,
    b: nat,
    k: nat,
    top: nat,
    left: nat,
    unit: nat,
    j: nat,
    q: nat,
    low: nat,
)
    requires
        b > 0,
        left < b,
        a * pow2(k) == top * b + left,
        unit == pow2(j),
        j >= 1,
        k == 0 || j == 1,
        top == unit * q + low,
        low < unit,
        0x10_0000_0000_0000 <= q < 0x20_0000_0000_0000,
    ensures
        double::fits(a, b, k - j),
        a > 0,
        double::mantissa(a, b, k - j) == (if 2 * low > unit || (2 * low == unit && (left > 0 || q
            % 2 == 1)) {
            q + 1
        } else {
            q
        }),
        q + 1 <= 0x20_0000_0000_0000,
{
    lemma2_to64();
    lemma_pow2_unfold(j);
    lemma_pow2_pos((j - 1) as nat);
    let half = pow2((j - 1) as nat);
    assert(unit == 2 * half);
    let rest = (low * b + left) as nat;
    assert(a * pow2(k) == q * (unit * b) + rest) by (nonlinear_arith)
        requires
            a * pow2(k) == top * b + left,
            top == unit * q + low,
            rest == low * b + left,
    ;
    assert(rest < unit * b) by (nonlinear_arith)
        requires
            rest == low * b + left,
            left < b,
            low + 1 <= unit,
    ;
    assert(q * (unit * b) > 0) by (nonlinear_arith)
        requires
            q > 0,
            unit > 0,
            b > 0,
    ;
    assert(a > 0) by (nonlinear_arith)
        requires
            a * pow2(k) > 0,
    ;
    // how twice the rest compares with the unit
    if low < half {
        assert(2 * rest < unit * b) by (nonlinear_arith)
            requires
                rest == low * b + left,
                left < b,
                low + 1 <= half,
                unit == 2 * half,
        ;
    } else if low == half {
        assert(2 * rest == unit * b + 2 * left) by (nonlinear_arith)
            requires
                rest == low * b + left,
                low == half,
                unit == 2 * half,
        ;
    } else {
        assert(2 * rest > unit * b) by (nonlinear_arith)
            requires
                rest == low * b + left,
                low >= half + 1,
                unit == 2 * half,
                b > 0,
        ;
    }
    if k == 0 {
        assert(a * pow2(0) == a);
        assert(b * unit == unit * b) by (nonlinear_arith);
        lemma_fits_from(a, unit * b, q, rest);
        if j == 0 {
            assert(false);
        }
    } else {
        assert(unit == 2);
        lemma_pow2_unfold(k);
        let p = pow2((k - 1) as nat);
        let x = (a * p - q * b) as int;
        assert(a * pow2(k) == 2 * (a * p)) by (nonlinear_arith)
            requires
                pow2(k) == 2 * p,
        ;
        assert(q * (2 * b) == 2 * (q * b)) by (nonlinear_arith);
        assert(2 * x == rest);
        lemma_fits_from(a * p, b, q, x as nat);
    }
}

proof fn lemma_fits_from(num: nat, den: nat, q: nat, r: nat)
    requires
        den > 0,
        num == q * den + r,
        r < den,
        0x10_0000_0000_0000 <= q < 0x20_0000_0000_0000,
    ensures
        0x10_0000_0000_0000 * den <= num < 0x20_0000_0000_0000 * den,
        num / den == q,
        num % den == r,
{
    lemma_fundamental_div_mod_converse(num as int, den as int, q as int, r as int);
    assert(0x10_0000_0000_0000 * den <= q * den) by (nonlinear_arith)
        requires
            0x10_0000_0000_0000 <= q,
    ;
    assert(q * den + den <= 0x20_0000_0000_0000 * den) by (nonlinear_arith)
        requires
            q + 1 <= 0x20_0000_0000_0000,
    ;
}

/// A character that may stand in the number of a size.
pub open spec fn in_number(c: char) -> bool {
    digits::is_digit(c) || c == '.'
}

/// How many characters at the front of `s` may stand in a number.
pub open spec fn number_len(s: Seq<char>) -> int
    decreases s.len(),
{
    if s.len() > 0 && in_number(s[0]) {
        1 + number_len(s.skip(1))
    } else {
        0
    }
}

/// The power of two that a suffix, in upper case, multiplies by.
pub open spec fn suffix_power(suffix: Seq<char>) -> Option<nat> {
    if suffix == ""@ {
        Some(0)
    } else if suffix == "K"@ || suffix == "KB"@ || suffix == "KIB"@ {
        Some(10)
    } else if suffix == "M"@ || suffix == "MB"@ || suffix == "MIB"@ {
        Some(20)
    } else if suffix == "G"@ || suffix == "GB"@ || suffix == "GIB"@ {
        Some(30)
    } else if suffix == "T"@ || suffix == "TB"@ || suffix == "TIB"@ {
        Some(40)
    } else {
        None
    }
}

/// The size that the number `whole.frac` with the given power of two stands
/// for: the number in double precision, times the power, cut to an integer of
/// 64 bits.
pub open spec fn size_value(whole: Seq<char>, frac: Seq<char>, power: nat) -> nat {
    let b = ten(frac.len());
    let exact = scaled_floor(
        digits::dec_value(whole) * b + digits::dec_value(frac),
        b,
        power,
    );
    if exact > u64::MAX {
        u64::MAX as nat
    } else {
        exact
    }
}

/// The size written in `s`: digits with at most one point among them, then a
/// suffix. `None` where `s` is anything else.
pub open spec fn size(s: Seq<char>) -> Option<nat> {
    let t = text::trimmed(s);
    let number = t.take(number_len(t));
    let power = suffix_power(text::ascii_upper(text::trimmed(t.skip(number_len(t)))));
    let point = text::find(number, '.');
    let whole = number.take(point);
    let frac = if point < number.len() {
        number.skip(point + 1)
    } else {
        seq![]
    };
    if whole.len() + frac.len() > 0 && digits::all_digits(frac) && power is Some {
        Some(size_value(whole, frac, power->0))
    } else {
        None
    }
}

/// A suffix, if there is one, begins and ends with a letter.
proof fn lemma_suffix_letters(unit: Seq<char>)
    requires
        suffix_power(text::ascii_upper(unit)) is Some,
    ensures
        unit.len() > 0 ==> !in_number(unit[0]) && !text::spec_is_space(unit[0])
            && !text::spec_is_space(unit.last()),
{
    reveal_strlit("");
    reveal_strlit("K");
    reveal_strlit("KB");
    reveal_strlit("KIB");
    reveal_strlit("M");
    reveal_strlit("MB");
    reveal_strlit("MIB");
    reveal_strlit("G");
    reveal_strlit("GB");
    reveal_strlit("GIB");
    reveal_strlit("T");
    reveal_strlit("TB");
    reveal_strlit("TIB");
    let upper = text::ascii_upper(unit);
    if unit.len() > 0 {
        assert(upper[0] == text::upper_char(unit[0]));
        assert(upper.last() == text::upper_char(unit.last()));
        assert(upper[0] == 'K' || upper[0] == 'M' || upper[0] == 'G' || upper[0] == 'T');
        assert(upper.last() == 'K' || upper.last() == 'M' || upper.last() == 'G' || upper.last()
            == 'T' || upper.last() == 'B');
    }
}

/// A whole number of at most 53 bits is held exactly.
proof fn lemma_whole_floor(n: nat, e: nat)
    requires
        n <= 0x20_0000_0000_0000,
    ensures
        scaled_floor(n, 1, e) == n * pow2(e),
{
    if n > 0 {
        lemma2_to64();
        lemma2_to64_rest();
        lemma_scale_exists(n, 1);
        let k = double::scale(n, 1);
        let m = double::mantissa(n, 1, k);
        if n == 0x20_0000_0000_0000 {
            assert(double::fits(n, 1, -1));
            double::lemma_scale_unique(n, 1, -1, k);
            assert(1 * pow2(1) == 2);
            assert(double::round_even(0x20_0000_0000_0000, 2) == 0x10_0000_0000_0000);
            lemma_pow2_unfold(e + 1);
            let w = pow2(e);
            assert(0x10_0000_0000_0000 * (2 * w) == 0x20_0000_0000_0000 * w) by (nonlinear_arith);
        } else {
            if k < 0 {
                lemma_pow2_pos((-k) as nat);
                if -k > 1 {
                    lemma_pow2_strictly_increases(1, (-k) as nat);
                }
            }
            let p = pow2(k as nat);
            assert(m == n * p);
            if k <= e {
                let d = (e - k) as nat;
                lemma_pow2_adds(k as nat, d);
                let q = pow2(d);
                assert((n * p) * q == n * (p * q)) by (nonlinear_arith);
            } else {
                let d = (k - e) as nat;
                lemma_pow2_adds(e, d);
                lemma_pow2_pos(d);
                let q = pow2(d);
                let w = pow2(e);
                assert(n * (w * q) == (n * w) * q) by (nonlinear_arith);
                lemma_div_multiples_vanish((n * w) as int, q as int);
                assert(q * (n * w) == (n * w) * q) by (nonlinear_arith);
            }
        }
    }
}

/// A whole number of at most 53 bits, with or without a suffix in either case and
/// with blanks round it and before the suffix, is read as the number times the
/// suffix, up to the largest integer of 64 bits.
pub proof fn law_whole_size_is_read(
    front: Seq<char>,
    n: nat,
    gap: Seq<char>,
    unit: Seq<char>,
    back: Seq<char>,
)
    requires
        n <= 0x20_0000_0000_0000,
        text::blank(front),
        text::blank(gap),
        text::blank(back),
        suffix_power(text::ascii_upper(unit)) is Some,
    ensures
        ({
            let bytes = n * pow2(suffix_power(text::ascii_upper(unit))->0);
            size(front + digits::dec(n) + gap + unit + back) == Some(
                if bytes > u64::MAX {
                    u64::MAX as nat
                } else {
                    bytes
                },
            )
        }),
{
    let number = digits::dec(n);
    let s = front + number + gap + unit + back;
    let none = Seq::<char>::empty();
    let rest = if unit.len() == 0 {
        none
    } else {
        gap + unit
    };
    let t = number + rest;
    digits::lemma_dec(n);
    lemma_suffix_letters(unit);
    assert(digits::is_digit(number[0]));
    assert(digits::is_digit(number.last()));
    if unit.len() == 0 {
        assert(text::blank(gap + back));
        assert(s =~= front + t + (gap + back));
        assert(t =~= number);
        text::lemma_trimmed(front, t, gap + back);
        text::lemma_trimmed(none, none, none);
        assert(none + none + none =~= none);
        assert(unit =~= none);
    } else {
        assert(s =~= front + t + back);
        assert(t.last() == unit.last());
        assert(t[0] == number[0]);
        text::lemma_trimmed(front, t, back);
        text::lemma_trimmed(gap, unit, none);
        assert(gap + unit + none =~= rest);
        assert(rest[0] == if gap.len() > 0 {
            gap[0]
        } else {
            unit[0]
        });
        assert(gap.len() > 0 ==> text::spec_is_space(gap[0]));
    }
    assert forall|i: int| 0 <= i < number.len() implies in_number(#[trigger] t[i]) by {
        assert(t[i] == number[i]);
        assert(digits::is_digit(number[i]));
    }
    assert(rest.len() > 0 ==> t[number.len() as int] == rest[0]);
    lemma_number_len(t, number.len() as int);
    assert(t.take(number.len() as int) =~= number);
    assert(t.skip(number.len() as int) =~= rest);
    assert forall|j: int| 0 <= j < number.len() implies number[j] != '.' by {
        assert(digits::is_digit(number[j]));
    }
    text::lemma_find_is(number, '.', number.len() as int);
    assert(number.take(number.len() as int) =~= number);
    let power = suffix_power(text::ascii_upper(unit))->0;
    lemma_whole_floor(n, power);
    assert(digits::dec_value(number) * ten(0) + digits::dec_value(none) == n) by (nonlinear_arith)
        requires
            digits::dec_value(number) == n,
            ten(0) == 1,
            digits::dec_value(none) == 0,
    ;
}

pub proof fn lemma_number_len(s: Seq<char>, n: int)
    requires
        0 <= n <= s.len(),
        forall|i: int| 0 <= i < n ==> in_number(#[trigger] s[i]),
        n < s.len() ==> !in_number(s[n]),
    ensures
        number_len(s) == n,
    decreases s.len(),
{
    if n > 0 {
        let rest = s.skip(1);
        assert forall|i: int| 0 <= i < n - 1 implies in_number(#[trigger] rest[i]) by {
            assert(rest[i] == s[i + 1]);
        }
        assert(in_number(s[0]));
        lemma_number_len(rest, n - 1);
    }
}

proof fn lemma_digit_sum_push(s: Seq<u8>, x: u8)
    ensures
        digit_sum(s.push(x)) == digit_sum(s) * 10 + x,
    decreases s.len(),
{
    let t = s.push(x);
    if s.len() == 0 {
        assert(t.skip(1) =~= s);
        assert(digit_sum(t) == x as nat * ten(0) + digit_sum(s));
        assert(x as nat * ten(0) == x) by (nonlinear_arith)
            requires
                ten(0) == 1,
        ;
    } else {
        lemma_digit_sum_push(s.skip(1), x);
        assert(t.skip(1) =~= s.skip(1).push(x));
        let w = ten((s.len() - 1) as nat);
        let f = s[0] as nat;
        let r = digit_sum(s.skip(1));
        assert(f * (10 * w) + (r * 10 + x) == (f * w + r) * 10 + x) by (nonlinear_arith);
    }
}

/// The values of the digits `from..to` of `s`.
fn digit_values(s: &Vec<char>, from: usize, to: usize) -> (r: Vec<u8>)
    requires
        from <= to <= s@.len(),
        digits::all_digits(s@.subrange(from as int, to as int)),
    ensures
        decimal(r@),
        r@.len() == to - from,
        digit_sum(r@) == digits::dec_value(s@.subrange(from as int, to as int)),
{
    let ghost body = s@.subrange(from as int, to as int);
    let mut out: Vec<u8> = Vec::new();
    let mut i: usize = from;
    while i < to
        invariant
            from <= i <= to <= s@.len(),
            body == s@.subrange(from as int, to as int),
            digits::all_digits(body),
            decimal(out@),
            out@.len() == i - from,
            digit_sum(out@) == digits::dec_value(body.take(i - from)),
        decreases to - i,
    {
        proof {
            assert(body[i - from] == s@[i as int]);
            assert(digits::is_digit(body[i - from]));
            assert(body.take(i - from + 1).drop_last() =~= body.take(i - from));
        }
        let v: u8 = (s[i] as u32 - 48) as u8;
        proof {
            lemma_digit_sum_push(out@, v);
        }
        out.push(v);
        i += 1;
    }
    proof {
        assert(body.take(to - from) =~= body);
    }
    out
}

/// The power of two that a suffix multiplies by.
fn power_of(suffix: &str) -> (r: Option<u32>)
    ensures
        match r {
            Some(p) => suffix_power(suffix@) == Some(p as nat) && p <= 40,
            None => suffix_power(suffix@) is None,
        },
{
    if same(suffix, "") {
        Some(0)
    } else if same(suffix, "K") || same(suffix, "KB") || same(suffix, "KIB") {
        Some(10)
    } else if same(suffix, "M") || same(suffix, "MB") || same(suffix, "MIB") {
        Some(20)
    } else if same(suffix, "G") || same(suffix, "GB") || same(suffix, "GIB") {
        Some(30)
    } else if same(suffix, "T") || same(suffix, "TB") || same(suffix, "TIB") {
        Some(40)
    } else {
        None
    }
}

/// The size written in `s`, in bytes: a number, which may have a point, and a
/// suffix `K`, `M`, `G` or `T` in either case, with or without `B` or `iB`.
pub fn parse_size(s: &str) -> (r: Option<u64>)
    ensures
        match r {
            Some(v) => size(s@) == Some(v as nat),
            None => size(s@) is None,
        },
{
    let t = trim_chars(&chars_of(s));
    let mut n: usize = 0;
    while n < t.len() && ((t[n] >= '0' && t[n] <= '9') || t[n] == '.')
        invariant
            n <= t@.len(),
            forall|i: int| 0 <= i < n ==> in_number(#[trigger] t@[i]),
        decreases t@.len() - n,
    {
        n += 1;
    }
    proof {
        lemma_number_len(t@, n as int);
    }
    let number = sub_chars(&t, 0, n);
    let tail = text_of(&trim_chars(&sub_chars(&t, n, t.len())));
    let suffix = text::to_ascii_upper(tail.as_str());
    proof {
        assert(number@ =~= t@.take(n as int));
        assert(t@.subrange(n as int, t@.len() as int) =~= t@.skip(n as int));
        assert(number@.skip(0) =~= number@);
    }
    let power: u32 = match power_of(suffix.as_str()) {
        Some(p) => p,
        None => {
            return None;
        },
    };
    let point: usize = text::find_from(&number, '.', 0);
    let from: usize = if point < number.len() {
        point + 1
    } else {
        point
    };
    let ghost whole = number@.take(point as int);
    let ghost frac = number@.subrange(from as int, number@.len() as int);
    proof {
        assert(frac =~= if point < number@.len() {
            number@.skip(point + 1)
        } else {
            seq![]
        });
    }
    if point == 0 && from == number.len() {
        return None;
    }
    let second: usize = text::find_from(&number, '.', from);
    if second < number.len() {
        proof {
            assert(frac[second - from] == '.');
            assert(!digits::is_digit(frac[second - from]));
        }
        return None;
    }
    proof {
        assert forall|i: int| 0 <= i < frac.len() implies digits::is_digit(#[trigger] frac[i]) by {
            assert(frac[i] == number@[from + i]);
            assert(number@[from + i] == t@[from + i]);
            assert(in_number(t@[from + i]));
        }
        assert forall|i: int| 0 <= i < whole.len() implies digits::is_digit(
            #[trigger] whole[i],
        ) by {
            assert(whole[i] == number@[i]);
            assert(number@[i] == t@[i]);
            assert(in_number(t@[i]));
        }
        assert(number@.subrange(0, point as int) =~= whole);
    }
    let rest = digit_values(&number, from, number.len());
    match digits_value(&number, 0, point, u64::MAX) {
        Some(v) => Some(scale_decimal(v, rest, power)),
        None => {
            proof {
                let b = ten(frac.len());
                lemma_ten_pos(frac.len());
                let w = digits::dec_value(whole);
                assert(w * b >= 0x1_0000_0000_0000_0000 * b) by (nonlinear_arith)
                    requires
                        w >= 0x1_0000_0000_0000_0000,
                ;
                lemma_huge(w * b + digits::dec_value(frac), b, power as nat);
            }
            Some(u64::MAX)
        },
    }
}

} // verus!
