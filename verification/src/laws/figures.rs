//! Figures: numbers as they are written, sizes with their units, and the ratio at which
//! seeding ends.

use vstd::arithmetic::power2::*;
use vstd::prelude::*;

use crate::digits;
use crate::double;
use crate::engine;
use crate::json::Number;
use crate::options;
use crate::size;
use crate::text;

verus! {

/// Numbers are written in the decimal system: one digit for each below ten, and one more
/// digit for each factor of ten.
pub proof fn law_numbers_are_written_in_decimal(n: u64, d: u64, s: String, longer: String)
    requires
        d < 10,
        10 * n + d <= u64::MAX,
        call_ensures(digits::u64_text, (n,), s),
        call_ensures(digits::u64_text, ((10 * n + d) as u64,), longer),
    ensures
        n < 10 ==> s@ == seq![(48 + n) as char],
        n > 0 ==> longer@ == s@.push((48 + d) as char),
{
}

/// A negative number is written with a minus sign.
pub proof fn law_signs_are_written(n: i64, r: String, m: u64, s: String)
    requires
        call_ensures(digits::i64_text, (n,), r),
        n >= 0 ==> m == n,
        n < 0 ==> m == -n,
        call_ensures(digits::u64_text, (m,), s),
    ensures
        n >= 0 ==> r@ == s@,
        n < 0 ==> r@ == seq!['-'] + s@,
{
}

/// Whether a unit stands for `2` to the `e` bytes, in letters of either case.
pub open spec fn is_unit(unit: Seq<char>, e: nat) -> bool {
    let big = text::ascii_upper(unit);
    ||| e == 0 && unit.len() == 0
    ||| e == 10 && (big == seq!['K'] || big == seq!['K', 'B'] || big == seq!['K', 'I', 'B'])
    ||| e == 20 && (big == seq!['M'] || big == seq!['M', 'B'] || big == seq!['M', 'I', 'B'])
    ||| e == 30 && (big == seq!['G'] || big == seq!['G', 'B'] || big == seq!['G', 'I', 'B'])
    ||| e == 40 && (big == seq!['T'] || big == seq!['T', 'B'] || big == seq!['T', 'I', 'B'])
}

proof fn lemma_unit(unit: Seq<char>, e: nat)
    requires
        is_unit(unit, e),
    ensures
        size::suffix_power(text::ascii_upper(unit)) == Some(e),
        unit.len() > 0 ==> !text::spec_is_space(unit[0]) && !text::spec_is_space(unit.last()),
        unit.len() > 0 ==> !size::in_number(unit[0]),
{
    reveal_strlit("");
    reveal_strlit("K");
    reveal_strlit("KB");
    reveal_strlit("KIB");
    reveal_strlit("M");
    reveal_strlit("MB");
    reveal_strlit("MIB");
    reveal_strlit("G");
    reveal_strlit("GB");
    reveal_strlit("GIB");
    reveal_strlit("T");
    reveal_strlit("TB");
    reveal_strlit("TIB");
    let big = text::ascii_upper(unit);
    assert(""@ =~= seq![]);
    assert("K"@ =~= seq!['K'] && "KB"@ =~= seq!['K', 'B'] && "KIB"@ =~= seq!['K', 'I', 'B']);
    assert("M"@ =~= seq!['M'] && "MB"@ =~= seq!['M', 'B'] && "MIB"@ =~= seq!['M', 'I', 'B']);
    assert("G"@ =~= seq!['G'] && "GB"@ =~= seq!['G', 'B'] && "GIB"@ =~= seq!['G', 'I', 'B']);
    assert("T"@ =~= seq!['T'] && "TB"@ =~= seq!['T', 'B'] && "TIB"@ =~= seq!['T', 'I', 'B']);
    if unit.len() == 0 {
        assert(big =~= seq![]);
    } else {
        assert(big[0] == text::upper_char(unit[0]));
        assert(big.last() == text::upper_char(unit.last()));
        if e == 10 {
            assert(big[0] == 'K');
        } else if e == 20 {
            assert(big[0] == 'M');
        } else if e == 30 {
            assert(big[0] == 'G');
        } else {
            assert(big[0] == 'T');
        }
        assert(big.last() == big[0] || big.last() == 'B');
    }
}

/// A whole number of a unit is that many times its bytes, up to the largest number there
/// is, with blanks anywhere round number and unit.
pub proof fn law_whole_sizes_are_read(
    s: &str,
    n: u64,
    word: String,
    front: Seq<char>,
    gap: Seq<char>,
    unit: Seq<char>,
    back: Seq<char>,
    e: nat,
    r: Option<u64>,
)
    requires
        n <= 0x20_0000_0000_0000,
        text::blank(front) && text::blank(gap) && text::blank(back),
        is_unit(unit, e),
        call_ensures(digits::u64_text, (n,), word),
        s@ == front + word@ + gap + unit + back,
        call_ensures(size::parse_size, (s,), r),
    ensures
        n * pow2(e) <= u64::MAX ==> r == Some((n * pow2(e)) as u64),
        n * pow2(e) > u64::MAX ==> r == Some(u64::MAX),
        pow2(0) == 1 && pow2(10) == 1024 && pow2(20) == 1048576 && pow2(30) == 1073741824
            && pow2(40) == 1099511627776,
{
    lemma_unit(unit, e);
    size::law_whole_size_is_read(front, n as nat, gap, unit, back);
    lemma2_to64();
    lemma2_to64_rest();
}

/// A size with one digit behind the point is its bytes, cut to a whole number.
pub proof fn law_fractions_of_sizes_are_read(
    s: &str,
    n: u64,
    d: u64,
    word: String,
    unit: Seq<char>,
    e: nat,
    r: Option<u64>,
)
    requires
        d < 10,
        is_unit(unit, e),
        (10 * n + d) * pow2(e) < 10 * 0x2_0000_0000_0000,
        call_ensures(digits::u64_text, (n,), word),
        s@ == word@ + seq!['.', (48 + d) as char] + unit,
        call_ensures(size::parse_size, (s,), r),
    ensures
        r == Some(((10 * n + d) * pow2(e) / 10) as u64),
{
    lemma_unit(unit, e);
    digits::lemma_dec(n as nat);
    let whole = word@;
    let c = (48 + d) as char;
    let frac = seq![c];
    let number = whole + seq!['.', c];
    let t = s@;
    let len = number.len() as int;
    assert(digits::is_digit(whole[0]));
    assert(t[0] == whole[0]);
    let none = Seq::<char>::empty();
    assert(t.last() == if unit.len() > 0 {
        unit.last()
    } else {
        c
    });
    text::lemma_trimmed(none, t, none);
    assert(none + t + none =~= t);
    assert forall|i: int| 0 <= i < len implies size::in_number(#[trigger] t[i]) by {
        if i < whole.len() {
            assert(t[i] == whole[i]);
            assert(digits::is_digit(whole[i]));
        } else if i == whole.len() {
            assert(t[i] == '.');
        } else {
            assert(t[i] == c);
        }
    }
    if unit.len() > 0 {
        assert(t[len] == unit[0]);
    }
    size::lemma_number_len(t, len);
    assert(t.take(len) =~= number);
    assert(t.skip(len) =~= unit);
    text::lemma_trimmed(none, unit, none);
    assert(none + unit + none =~= unit);
    let point = whole.len() as int;
    assert forall|j: int| 0 <= j < point implies number[j] != '.' by {
        assert(number[j] == whole[j]);
        assert(digits::is_digit(whole[j]));
    }
    text::lemma_find_is(number, '.', point);
    assert(number.take(point) =~= whole);
    assert(number.skip(point + 1) =~= frac);
    assert(frac.drop_last() =~= none);
    assert(digits::dec_value(none) == 0);
    assert(digits::dec_value(frac) == d);
    assert(digits::all_digits(frac));
    assert(size::ten(1) == 10) by {
        reveal_with_fuel(size::ten, 2);
    }
    let a = (10 * n + d) as nat;
    lemma_floor_of_tenths(a, e);
    assert(digits::dec_value(whole) * 10 + d == a);
    assert(a * pow2(e) / 10 <= u64::MAX) by (nonlinear_arith)
        requires
            a * pow2(e) < 10 * 0x2_0000_0000_0000,
    ;
}

/// A number of tenths, in double precision and times a power of two, is cut as it is.
proof fn lemma_floor_of_tenths(a: nat, e: nat)
    requires
        a * pow2(e) < 10 * 0x2_0000_0000_0000,
    ensures
        size::scaled_floor(a, 10, e) == a * pow2(e) / 10,
{
    if a == 0 {
        assert(a * pow2(e) == 0) by (nonlinear_arith)
            requires
                a == 0,
        ;
    } else {
        size::lemma_scale_exists(a, 10);
        let k = double::scale(a, 10);
        lemma_pow2_pos(e);
        let w = pow2(e);
        assert(a <= a * w) by (nonlinear_arith)
            requires
                w >= 1,
        ;
        if k < 0 {
            lemma_pow2_pos((-k) as nat);
            assert(false);
        }
        let p = pow2(k as nat);
        let m = double::mantissa(a, 10, k);
        if k <= e {
            lemma_pow2_adds(k as nat, (e - k) as nat);
            lemma_pow2_pos((e - k) as nat);
            let x = pow2((e - k) as nat);
            assert(a * w >= a * p) by (nonlinear_arith)
                requires
                    w == p * x,
                    x >= 1,
            ;
            assert(false);
        }
        let f = (k - e) as nat;
        let q = pow2(f);
        lemma_pow2_adds(e, f);
        let v = a * w;
        assert(a * p == v * q) by (nonlinear_arith)
            requires
                p == w * q,
                v == a * w,
        ;
        assert(q >= 8) by {
            lemma2_to64();
            if f < 3 {
                lemma_pow2_strictly_increases(f, 3);
                assert(v * q < 10 * 0x10_0000_0000_0000) by (nonlinear_arith)
                    requires
                        v < 10 * 0x2_0000_0000_0000,
                        q < 8,
                ;
            } else if f > 3 {
                lemma_pow2_strictly_increases(3, f);
            }
        }
        lemma_cut(v, q);
    }
}

/// Rounding to a fine scale first changes nothing of what is cut.
proof fn lemma_cut(v: nat, q: nat)
    requires
        q >= 8,
    ensures
        double::round_even(v * q, 10) / q == v / 10,
{
    let m = double::round_even(v * q, 10);
    let t = v / 10;
    let s = v % 10;
    let x = v * q;
    assert(x == 10 * (t * q) + s * q) by (nonlinear_arith)
        requires
            x == v * q,
            v == 10 * t + s,
    ;
    assert(s * q <= 9 * q) by (nonlinear_arith)
        requires
            s <= 9,
    ;
    let low = t * q;
    if s == 0 {
        assert(s * q == 0) by (nonlinear_arith)
            requires
                s == 0,
        ;
        assert(m == low);
    } else {
        assert(s * q >= q) by (nonlinear_arith)
            requires
                s >= 1,
        ;
        assert(m >= low);
        assert(m < low + q);
    }
    assert(m / q == t) by (nonlinear_arith)
        requires
            low == t * q,
            low <= m < low + q,
            q > 0,
    ;
}

/// The scale of a whole number, and of a fraction of two numbers, of at most 53 bits.
proof fn lemma_scale_is_up(a: nat, b: nat)
    requires
        0 < a < 0x20_0000_0000_0000,
        b > 0,
    ensures
        double::fits(a, b, double::scale(a, b)),
        double::scale(a, b) >= 0,
{
    size::lemma_scale_exists(a, b);
    let k = double::scale(a, b);
    if k < 0 {
        lemma_pow2_unfold((-k) as nat);
        lemma_pow2_pos((-k - 1) as nat);
        let p = pow2((-k) as nat);
        assert(false) by (nonlinear_arith)
            requires
                p >= 2,
                b >= 1,
                0x10_0000_0000_0000 * (b * p) <= a,
                a < 0x20_0000_0000_0000,
        ;
    }
}

proof fn lemma_nearest(num: nat, den: nat)
    requires
        den > 0,
    ensures
        2 * (double::round_even(num, den) * den - num) <= den,
        2 * (num - double::round_even(num, den) * den) <= den,
        double::round_even(num, den) >= num / den,
{
    let q = num / den;
    let rest = num % den;
    assert(num == q * den + rest) by (nonlinear_arith)
        requires
            q == num / den,
            rest == num % den,
            den > 0,
    ;
    assert((q + 1) * den == q * den + den) by (nonlinear_arith);
}

/// The quotient of two numbers, in double precision, is at least a whole number exactly
/// where it is so of the numbers themselves.
proof fn lemma_ratio(a: nat, b: nat, n: nat)
    requires
        0 < a < 0x20_0000_0000_0000,
        0 < b,
        0 < n,
        n * b < 0x20_0000_0000_0000,
    ensures
        double::encoding(a, b) >= double::encoding(n, 1) <==> a >= n * b,
        0 < double::encoding(n, 1) < 0x7FF0_0000_0000_0000,
{
    assert(n <= n * b) by (nonlinear_arith)
        requires
            b >= 1,
    ;
    lemma_scale_is_up(a, b);
    lemma_scale_is_up(n, 1);
    let k = double::scale(a, b);
    let j = double::scale(n, 1);
    let p = pow2(k as nat);
    let q = pow2(j as nat);
    let w = n * q;
    let m = double::mantissa(a, b, k);
    assert(double::mantissa(n, 1, j) == w);
    lemma_nearest(a * p, b);
    assert(j <= 52) by {
        lemma2_to64_rest();
        if j > 52 {
            lemma_pow2_strictly_increases(52, j as nat);
            if j > 53 {
                lemma_pow2_strictly_increases(53, j as nat);
            }
            assert(w >= 0x20_0000_0000_0000) by (nonlinear_arith)
                requires
                    w == n * q,
                    n >= 1,
                    q >= 0x20_0000_0000_0000,
            ;
        }
    }
    let x = a * p;
    assert(0x10_0000_0000_0000 <= m <= 0x20_0000_0000_0000) by (nonlinear_arith)
        requires
            0x10_0000_0000_0000 * b <= x < 0x20_0000_0000_0000 * b,
            2 * (m * b - x) <= b,
            2 * (x - m * b) <= b,
            b > 0,
    ;
    assert(2 * q > b) by (nonlinear_arith)
        requires
            w == n * q,
            w >= 0x10_0000_0000_0000,
            n * b < 0x20_0000_0000_0000,
            n > 0,
    ;
    if k > j {
        let g = (k - j) as nat;
        lemma_pow2_adds(j as nat, g);
        lemma_pow2_unfold(g);
        lemma_pow2_pos((g - 1) as nat);
        let y = pow2(g);
        if a >= n * b {
            assert(false) by (nonlinear_arith)
                requires
                    p == q * y,
                    y >= 2,
                    a >= n * b,
                    w == n * q,
                    w >= 0x10_0000_0000_0000,
                    x == a * p,
                    x < 0x20_0000_0000_0000 * b,
                    b > 0,
                    n > 0,
            ;
        }
        if g == 1 {
            lemma2_to64();
            assert(y == 2);
            assert(m < 2 * w) by (nonlinear_arith)
                requires
                    p == q * y,
                    y == 2,
                    a <= n * b - 1,
                    x == a * p,
                    w == n * q,
                    2 * (m * b - x) <= b,
                    2 * q > b,
                    b > 0,
            ;
        }
    } else if k < j {
        let g = (j - k) as nat;
        lemma_pow2_adds(k as nat, g);
        lemma_pow2_unfold(g);
        lemma_pow2_pos((g - 1) as nat);
        let y = pow2(g);
        if a < n * b {
            assert(false) by (nonlinear_arith)
                requires
                    q == p * y,
                    y >= 2,
                    a < n * b,
                    w == n * q,
                    w < 0x20_0000_0000_0000,
                    x == a * p,
                    x >= 0x10_0000_0000_0000 * b,
                    b > 0,
                    q > 0,
            ;
        }
    } else {
        if a >= n * b {
            assert(x / b >= w) by (nonlinear_arith)
                requires
                    x == a * p,
                    w == n * p,
                    a >= n * b,
                    b > 0,
            ;
        } else {
            assert(m < w) by (nonlinear_arith)
                requires
                    x == a * p,
                    w == n * p,
                    a <= n * b - 1,
                    2 * (m * b - x) <= b,
                    2 * p > b,
                    b > 0,
            ;
        }
    }
}

/// Whether a ratio that is a whole number is reached is told by the numbers themselves.
pub proof fn lemma_whole_ratio(uploaded: u64, total: u64, n: u64, bits: u64)
    requires
        bits == double::encoded(n as nat),
        0 < n && 0 < total,
        n * total < 0x20_0000_0000_0000,
        uploaded < 0x20_0000_0000_0000,
    ensures
        double::at_least(double::ratio_encoding(uploaded as nat, total as nat), bits) <==> uploaded
            >= n * total,
{
    assert(total <= n * total && n <= n * total) by (nonlinear_arith)
        requires
            n >= 1,
            total >= 1,
    ;
    if uploaded > 0 {
        lemma_ratio(uploaded as nat, total as nat, n as nat);
    } else {
        lemma_ratio(1, total as nat, n as nat);
    }
}

/// Seeding ends at a ratio that is a whole number exactly as soon as so many times the
/// length has been uploaded.
pub proof fn law_seeding_ends_at_its_ratio(
    n: u64,
    bits: u64,
    uploaded: u64,
    total: u64,
    secs: u64,
    r: bool,
)
    requires
        call_ensures(double::double_of, (n,), bits),
        0 < n && 0 < total,
        n * total < 0x20_0000_0000_0000,
        uploaded < 0x20_0000_0000_0000,
        call_ensures(
            engine::seeding_limit_reached,
            (Some(bits), None::<u32>, uploaded, total, secs),
            r,
        ),
    ensures
        r <==> uploaded >= n * total,
{
    lemma_whole_ratio(uploaded, total, n, bits);
}

/// A whole number becomes the double of its value, with a sign where it is negative; a
/// double stays as it is.
pub proof fn law_numbers_become_doubles(n: u64, bits: u64, v: Number, r: u64)
    requires
        call_ensures(double::double_of, (n,), bits),
        call_ensures(options::double_from, (v,), r),
    ensures
        v == Number::Unsigned(n) ==> r == bits,
        v matches Number::Float(b) ==> r == b,
        (v matches Number::Negative(m) && m < 0 && -m == n) ==> r == bits + 0x8000_0000_0000_0000,
{
}

/// What holds no digit is no size, and neither is a number with another word behind it.
pub proof fn law_other_words_are_no_sizes(s: &str, r: Option<u64>, n: u64, word: String, c: char)
    requires
        call_ensures(size::parse_size, (s,), r),
        call_ensures(digits::u64_text, (n,), word),
        'a' <= c <= 'z' && c != 'k' && c != 'm' && c != 'g' && c != 't',
    ensures
        s@.len() == 0 ==> r is None,
        s@ == seq!['.'] ==> r is None,
        s@ == seq![c] ==> r is None,
        s@ == word@.push(c) ==> r is None,
{
    let t = s@;
    let none = Seq::<char>::empty();
    digits::lemma_dec(n as nat);
    assert(digits::is_digit(word@[0]));
    assert(none + t + none =~= t);
    if t.len() == 0 {
        text::lemma_trimmed(none, t, none);
        size::lemma_number_len(t, 0);
        assert(t.take(0) =~= none);
    }
    if t == seq!['.'] {
        text::lemma_trimmed(none, t, none);
        size::lemma_number_len(t, 1);
        assert(t.take(1) =~= t);
        text::lemma_find_is(t, '.', 0);
        assert(t.take(0) =~= none && t.skip(1) =~= none);
    }
    if t == seq![c] {
        text::lemma_trimmed(none, t, none);
        size::lemma_number_len(t, 0);
        assert(t.take(0) =~= none);
    }
    if t == word@.push(c) {
        assert(t[0] == word@[0]);
        text::lemma_trimmed(none, t, none);
        let k = word@.len() as int;
        assert forall|i: int| 0 <= i < k implies size::in_number(#[trigger] t[i]) by {
            assert(t[i] == word@[i]);
            assert(digits::is_digit(word@[i]));
        }
        size::lemma_number_len(t, k);
        assert(t.skip(k) =~= seq![c]);
        text::lemma_trimmed(none, seq![c], none);
        assert(none + seq![c] + none =~= seq![c]);
        lemma_no_unit(seq![c]);
    }
}

/// A letter that names no unit is none.
proof fn lemma_no_unit(unit: Seq<char>)
    requires
        unit.len() == 1,
        'a' <= unit[0] <= 'z' && unit[0] != 'k' && unit[0] != 'm' && unit[0] != 'g' && unit[0]
            != 't',
    ensures
        size::suffix_power(text::ascii_upper(unit)) is None,
{
    reveal_strlit("");
    reveal_strlit("K");
    reveal_strlit("KB");
    reveal_strlit("KIB");
    reveal_strlit("M");
    reveal_strlit("MB");
    reveal_strlit("MIB");
    reveal_strlit("G");
    reveal_strlit("GB");
    reveal_strlit("GIB");
    reveal_strlit("T");
    reveal_strlit("TB");
    reveal_strlit("TIB");
    let big = text::ascii_upper(unit);
    assert(big.len() == 1 && big[0] == text::upper_char(unit[0]));
    assert("K"@[0] == 'K' && "M"@[0] == 'M' && "G"@[0] == 'G' && "T"@[0] == 'T');
}

} // verus!
