//! Identifiers of tasks: sixteen hexadecimal digits.

use vstd::arithmetic::div_mod::*;
use vstd::prelude::*;

use crate::digits;

verus! {

/// `2` to the `64`.
pub open spec fn modulus() -> int {
    0x1_0000_0000_0000_0000
}

/// One step of the hash: mixes `v` in, then multiplies.
pub open spec fn mix(hash: u64, v: u64) -> int {
    ((hash ^ v) * 0x100_0000_01b3) % modulus()
}

/// The hash of the time alone.
pub open spec fn time_hash(micros: u128) -> u64 {
    let a = mix(0xcbf2_9ce4_8422_2325, (micros % 0x1_0000_0000_0000_0000) as u64) as u64;
    mix(a, ((micros / 0x1_0000_0000) % 0x1_0000_0000_0000_0000) as u64) as u64
}

/// The hash that an identifier shows.
pub open spec fn gid_hash(micros: u128, counter: u64, pid: u64) -> u64 {
    let c = mix(time_hash(micros), counter) as u64;
    mix(c, pid) as u64
}

/// An identifier.
pub open spec fn gid_text(micros: u128, counter: u64, pid: u64) -> Seq<char> {
    digits::hex(gid_hash(micros, counter, pid) as nat, 16)
}

/// A lower case hexadecimal digit.
pub open spec fn is_digit(c: char) -> bool {
    '0' <= c <= '9' || 'a' <= c <= 'f'
}

fn mix_in(hash: u64, v: u64) -> (r: u64)
    ensures
        r == mix(hash, v),
{
    let x: u64 = hash ^ v;
    let wide: u128 = (x as u128) * 0x100_0000_01b3;
    (wide % 0x1_0000_0000_0000_0000) as u64
}

/// An identifier: a hash of the time in microseconds, of a counter and of the
/// process number, in sixteen hexadecimal digits.
pub fn generate_gid(micros: u128, counter: u64, pid: u64) -> (r: String)
    ensures
        r@ == gid_text(micros, counter, pid),
        r@.len() == 16,
        forall|i: int| 0 <= i < 16 ==> is_digit(#[trigger] r@[i]),
{
    let low: u64 = (micros % 0x1_0000_0000_0000_0000) as u64;
    let high: u64 = ((micros / 0x1_0000_0000) % 0x1_0000_0000_0000_0000) as u64;
    let a: u64 = mix_in(0xcbf2_9ce4_8422_2325, low);
    let b: u64 = mix_in(a, high);
    let c: u64 = mix_in(b, counter);
    let hash: u64 = mix_in(c, pid);
    let mut out = String::new();
    digits::push_hex(&mut out, hash, 16);
    proof {
        assert(out@ =~= gid_text(micros, counter, pid));
        lemma_hex_len(hash as nat, 16);
    }
    out
}

/// A number has as many digits as it is given.
proof fn lemma_hex_len(n: nat, width: nat)
    ensures
        digits::hex(n, width).len() == width,
        forall|i: int| 0 <= i < width ==> is_digit(#[trigger] digits::hex(n, width)[i]),
    decreases width,
{
    if width > 0 {
        lemma_hex_len(n / 16, (width - 1) as nat);
    }
}

/// `16` to the `width`.
pub open spec fn sixteen(width: nat) -> nat
    decreases width,
{
    if width == 0 {
        1
    } else {
        16 * sixteen((width - 1) as nat)
    }
}

/// Different numbers have different digits.
proof fn lemma_hex_injective(a: nat, b: nat, width: nat)
    requires
        a < sixteen(width),
        b < sixteen(width),
        digits::hex(a, width) == digits::hex(b, width),
    ensures
        a == b,
    decreases width,
{
    if width > 0 {
        let w = (width - 1) as nat;
        let x = digits::hex(a, width);
        let y = digits::hex(b, width);
        assert(x.last() == digits::hex_char((a % 16) as int));
        assert(y.last() == digits::hex_char((b % 16) as int));
        assert(x.drop_last() =~= digits::hex(a / 16, w));
        assert(y.drop_last() =~= digits::hex(b / 16, w));
        lemma_hex_injective(a / 16, b / 16, w);
    }
}

/// The multiplier of the hash has an inverse, so that a step loses nothing.
proof fn lemma_mix_injective(hash: u64, v: u64, other_hash: u64, w: u64)
    requires
        mix(hash, v) == mix(other_hash, w),
    ensures
        hash ^ v == other_hash ^ w,
{
    let x = (hash ^ v) as int;
    let y = (other_hash ^ w) as int;
    let p = 0x100_0000_01b3int;
    let inverse = 0xce96_5057_aff6_957bint;
    let m = modulus();
    assert((p * inverse) % m == 1) by (nonlinear_arith)
        requires
            p == 0x100_0000_01b3,
            inverse == 0xce96_5057_aff6_957b,
            m == 0x1_0000_0000_0000_0000,
    ;
    lemma_unmix(x, p, inverse, m);
    lemma_unmix(y, p, inverse, m);
    lemma_small_mod(x as nat, m as nat);
    lemma_small_mod(y as nat, m as nat);
}

/// Multiplying by the inverse takes the multiplication back.
proof fn lemma_unmix(x: int, p: int, inverse: int, m: int)
    requires
        m > 0,
        (p * inverse) % m == 1int % m,
    ensures
        (((x * p) % m) * inverse) % m == x % m,
{
    lemma_mul_mod_noop_left(x * p, inverse, m);
    assert((x * p) * inverse == x * (p * inverse)) by (nonlinear_arith);
    lemma_mul_mod_noop_right(x, p * inverse, m);
    lemma_mul_mod_noop_right(x, 1, m);
}

/// Two identifiers that one process makes, at whatever times, are the same exactly
/// where the hashes of the times agree once the counters are mixed in.
pub proof fn law_gids_agree(micros: u128, later: u128, pid: u64, a: u64, b: u64)
    ensures
        gid_text(micros, a, pid) == gid_text(later, b, pid) <==> time_hash(micros) ^ a
            == time_hash(later) ^ b,
{
    if gid_text(micros, a, pid) == gid_text(later, b, pid) {
        let ca = mix(time_hash(micros), a) as u64;
        let cb = mix(time_hash(later), b) as u64;
        assert(sixteen(16) == 0x1_0000_0000_0000_0000) by {
            reveal_with_fuel(sixteen, 17);
        }
        lemma_hex_injective(
            gid_hash(micros, a, pid) as nat,
            gid_hash(later, b, pid) as nat,
            16,
        );
        lemma_mix_injective(ca, pid, cb, pid);
        assert(ca ^ pid == cb ^ pid ==> ca == cb) by (bit_vector);
        lemma_mix_injective(time_hash(micros), a, time_hash(later), b);
    }
}

/// Two identifiers that one process makes at the same time differ, as its counter
/// does; and so do two that it makes with the same counter at times whose hashes
/// differ.
pub proof fn law_gids_differ(micros: u128, later: u128, pid: u64, a: u64, b: u64)
    ensures
        a != b ==> gid_text(micros, a, pid) != gid_text(micros, b, pid),
        time_hash(micros) != time_hash(later) ==> gid_text(micros, a, pid) != gid_text(
            later,
            a,
            pid,
        ),
{
    let x = time_hash(micros);
    let y = time_hash(later);
    law_gids_agree(micros, micros, pid, a, b);
    assert(x ^ a == x ^ b ==> a == b) by (bit_vector);
    law_gids_agree(micros, later, pid, a, a);
    assert(x ^ a == y ^ a ==> x == y) by (bit_vector);
}

} // verus!
