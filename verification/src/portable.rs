//! Double and single precision numbers, held as their bit patterns.
//!
//! A host number is the `u64` that `f64::to_bits` gives, a device number the `u32` that
//! `f32::to_bits` gives. The functions here are the conversions and the few operations on them
//! that decide what is uploaded; each is stated over the numbers that the patterns stand for.
use crate::rounding::{power_of_two, round_magnitude, round_root};
use vstd::arithmetic::power2::lemma_pow2_adds;
use vstd::arithmetic::power2::lemma_pow2_pos;
use vstd::arithmetic::power2::pow2;
use vstd::prelude::*;

verus! {

/// Sign bit of a double.
pub const SIGN64: u64 = 0x8000_0000_0000_0000;

/// Magnitude of an infinite double; larger magnitudes are not numbers.
pub const INF64: u64 = 0x7ff0_0000_0000_0000;

/// Sign bit of a single.
pub const SIGN32: u32 = 0x8000_0000;

/// Magnitude of an infinite single; larger magnitudes are not numbers.
pub const INF32: u32 = 0x7f80_0000;

/// Magnitude of a double: its pattern without the sign bit.
pub open spec fn magnitude64(bits: u64) -> u64 {
    if bits >= SIGN64 {
        (bits - SIGN64) as u64
    } else {
        bits
    }
}

/// Magnitude of a single: its pattern without the sign bit.
pub open spec fn magnitude32(bits: u32) -> u32 {
    if bits >= SIGN32 {
        (bits - SIGN32) as u32
    } else {
        bits
    }
}

/// Whether the double is neither infinite nor not a number.
pub open spec fn finite64(bits: u64) -> bool {
    magnitude64(bits) < INF64
}

/// Whether the double is not a number.
pub open spec fn nan64(bits: u64) -> bool {
    magnitude64(bits) > INF64
}

/// Whether the single is neither infinite nor not a number.
pub open spec fn finite32(bits: u32) -> bool {
    magnitude32(bits) < INF32
}

/// Whether the single is not a number.
pub open spec fn nan32(bits: u32) -> bool {
    magnitude32(bits) > INF32
}

/// Size of a double, in units of the smallest positive double, `2^-1074`.
pub open spec fn units64(bits: u64) -> nat {
    crate::rounding::units(52, magnitude64(bits) as nat)
}

/// Size of a single, in units of the smallest positive single, `2^-149`.
pub open spec fn units32(bits: u32) -> nat {
    crate::rounding::units(23, magnitude32(bits) as nat)
}

/// Whether `r` is the single nearest to the double, ties to even, and infinite from half way
/// past the largest finite single on.
pub open spec fn narrows_to(bits: u64, r: u32) -> bool {
    &&& (r >= SIGN32) == (bits >= SIGN64)
    &&& crate::rounding::rounds_to(
        23,
        INF32 as nat,
        units64(bits),
        pow2(925),
        magnitude32(r) as nat,
    )
}

/// The single nearest to the double.
pub open spec fn narrowed(bits: u64) -> u32 {
    choose|r: u32| narrows_to(bits, r)
}

/// Whether `r` is the double that has the same value as the single.
pub open spec fn widens_to(bits: u32, r: u64) -> bool {
    &&& (r >= SIGN64) == (bits >= SIGN32)
    &&& if finite32(bits) {
        finite64(r) && units64(r) == units32(bits) * pow2(925)
    } else if nan32(bits) {
        nan64(r)
    } else {
        magnitude64(r) == INF64
    }
}

/// The double that has the value of a finite single.
pub open spec fn widened(bits: u32) -> u64 {
    choose|r: u64| widens_to(bits, r)
}

/// Whether `r` is the double nearest to the square of a double.
pub open spec fn squares_to(bits: u64, r: u64) -> bool {
    &&& r < SIGN64
    &&& crate::rounding::rounds_to(
        52,
        INF64 as nat,
        units64(bits) * units64(bits),
        pow2(1074),
        magnitude64(r) as nat,
    )
}

/// The double nearest to the square of a double.
pub open spec fn squared(bits: u64) -> u64 {
    choose|r: u64| squares_to(bits, r)
}

/// Whether `r` is the double nearest to the reciprocal of a double.
pub open spec fn inverts_to(bits: u64, r: u64) -> bool {
    &&& (r >= SIGN64) == (bits >= SIGN64)
    &&& crate::rounding::rounds_to(
        52,
        INF64 as nat,
        pow2(2148),
        units64(bits),
        magnitude64(r) as nat,
    )
}

/// The double nearest to the reciprocal of a double.
pub open spec fn inverted(bits: u64) -> u64 {
    choose|r: u64| inverts_to(bits, r)
}

/// Whether `r` is the double nearest to the square root of a double; zero keeps its sign.
pub open spec fn root_of(bits: u64, r: u64) -> bool {
    if magnitude64(bits) == 0 {
        r == bits
    } else {
        &&& r < SIGN64
        &&& crate::rounding::root_rounds_to(
            52,
            INF64 as nat,
            units64(bits) * pow2(1074),
            magnitude64(r) as nat,
        )
    }
}

/// The double nearest to the square root of a double.
pub open spec fn rooted(bits: u64) -> u64 {
    choose|r: u64| root_of(bits, r)
}

/// The single that has the value of a small integer.
pub open spec fn count_single(count: nat) -> u32 {
    choose|r: u32| r < SIGN32 && finite32(r) && units32(r) == count * pow2(149)
}

/// The integer nearest to a single that is a number, halves going up; zero for a negative one.
pub open spec fn nearest_count(bits: u32) -> nat {
    if bits >= SIGN32 {
        0
    } else {
        (2 * units32(bits) + pow2(149)) / pow2(150)
    }
}

/// Whether a single that is a number is smaller than one half.
pub open spec fn below_half(bits: u32) -> bool {
    bits >= SIGN32 || 2 * units32(bits) < pow2(149)
}

fn split64(bits: u64) -> (r: (bool, u64))
    ensures
        r.0 == (bits >= SIGN64),
        r.1 == magnitude64(bits),
        r.1 < SIGN64,
{
    if bits >= SIGN64 {
        (true, bits - SIGN64)
    } else {
        (false, bits)
    }
}

fn split32(bits: u32) -> (r: (bool, u32))
    ensures
        r.0 == (bits >= SIGN32),
        r.1 == magnitude32(bits),
        r.1 < SIGN32,
{
    if bits >= SIGN32 {
        (true, bits - SIGN32)
    } else {
        (false, bits)
    }
}

fn signed64(negative: bool, mag: u64) -> (r: u64)
    requires
        mag < SIGN64,
    ensures
        magnitude64(r) == mag,
        (r >= SIGN64) == negative,
{
    if negative {
        mag + SIGN64
    } else {
        mag
    }
}

fn signed32(negative: bool, mag: u32) -> (r: u32)
    requires
        mag < SIGN32,
    ensures
        magnitude32(r) == mag,
        (r >= SIGN32) == negative,
{
    if negative {
        mag + SIGN32
    } else {
        mag
    }
}

proof fn lemma_field_sizes()
    ensures
        pow2(0) == 1,
        pow2(1) == 2,
        pow2(23) == 0x80_0000,
        pow2(24) == 0x100_0000,
        pow2(29) == 0x2000_0000,
        pow2(52) == 0x10_0000_0000_0000,
        pow2(53) == 0x20_0000_0000_0000,
{
    vstd::arithmetic::power2::lemma2_to64();
    vstd::arithmetic::power2::lemma2_to64_rest();
}

/// Whether the double is neither infinite nor not a number.
pub fn is_finite64(bits: u64) -> (r: bool)
    ensures
        r == finite64(bits),
{
    split64(bits).1 < INF64
}

/// Whether the double is not a number.
pub fn is_nan64(bits: u64) -> (r: bool)
    ensures
        r == nan64(bits),
{
    split64(bits).1 > INF64
}

/// Whether the single is neither infinite nor not a number.
pub fn is_finite32(bits: u32) -> (r: bool)
    ensures
        r == finite32(bits),
{
    split32(bits).1 < INF32
}

/// Whether the single is not a number.
pub fn is_nan32(bits: u32) -> (r: bool)
    ensures
        r == nan32(bits),
{
    split32(bits).1 > INF32
}

/// The single nearest to a double.
pub fn narrow(bits: u64) -> (r: u32)
    requires
        !nan64(bits),
    ensures
        narrows_to(bits, r),
        r == narrowed(bits),
{
    let r: u32 = nearest_single(bits);
    proof {
        lemma_narrowed(bits, r);
    }
    r
}

/// A double narrows to one single.
pub proof fn lemma_narrowed(bits: u64, r: u32)
    requires
        narrows_to(bits, r),
    ensures
        r == narrowed(bits),
{
    let other = narrowed(bits);
    assert(narrows_to(bits, other));
    lemma_pow2_pos(925);
    crate::rounding::lemma_rounds_to_unique(
        23,
        INF32 as nat,
        units64(bits),
        pow2(925),
        magnitude32(r) as nat,
        magnitude32(other) as nat,
    );
}

#[verifier::spinoff_prover]
fn nearest_single(bits: u64) -> (r: u32)
    requires
        !nan64(bits),
    ensures
        narrows_to(bits, r),
{
    let (negative, mag) = split64(bits);
    let field: u64 = mag / 0x10_0000_0000_0000;
    let fraction: u64 = mag % 0x10_0000_0000_0000;
    proof {
        lemma_field_sizes();
    }
    if field == 0 {
        proof {
            crate::rounding::lemma_units_of_parts(23, 0, 0);
            crate::rounding::lemma_units_of_parts(23, 0, 1);
            assert(crate::rounding::units(23, 0) == 0);
            assert(crate::rounding::units(23, 1) == 1);
            vstd::arithmetic::power2::lemma_pow2_strictly_increases(53, 925);
            assert(2 * units64(bits) < pow2(925));
            assert(pow2(925) * (0nat + 1nat) == pow2(925)) by (nonlinear_arith);
        }
        return signed32(negative, 0);
    }
    let sig: u64 = 0x10_0000_0000_0000 + fraction;
    let q: i32 = field as i32 - 926;
    let rounded: u64 = round_magnitude(23, INF32 as u64, sig as u128, 53, q, false);
    proof {
        lemma_scaled(sig as nat, (field - 1) as nat, 925);
        assert(units64(bits) == sig as nat * pow2((field - 1) as nat));
        assert(crate::rounding::rounds_to(
            23,
            INF32 as nat,
            units64(bits),
            pow2(925),
            rounded as nat,
        ));
    }
    signed32(negative, rounded as u32)
}

/// `sig * 2^e / 2^n` units, written for the rounder.
proof fn lemma_scaled(sig: nat, e: nat, n: nat)
    ensures
        crate::rounding::truncates_to(sig * pow2(e), pow2(n), sig, e - n, false),
{
    let q = e - n;
    let a_exp = if q > 0 { q as nat } else { 0nat };
    let b_exp = if q < 0 { (-q) as nat } else { 0nat };
    lemma_pow2_pos(n);
    lemma_pow2_pos(a_exp);
    lemma_pow2_adds(a_exp, n);
    lemma_pow2_adds(e, b_exp);
    assert(a_exp + n == e + b_exp);
    let a = pow2(a_exp);
    let b = pow2(b_exp);
    assert((sig * a) * pow2(n) == (sig * pow2(e)) * b) by (nonlinear_arith)
        requires
            a * pow2(n) == pow2(e) * b,
    ;
    assert((sig * a) * pow2(n) < ((sig + 1) * a) * pow2(n)) by (nonlinear_arith)
        requires
            a > 0,
            pow2(n) > 0,
    ;
}

/// The double that has the value of a single.
pub fn widen(bits: u32) -> (r: u64)
    ensures
        widens_to(bits, r),
        finite32(bits) ==> r == widened(bits),
{
    let r: u64 = same_value(bits);
    proof {
        if finite32(bits) {
            lemma_widened(bits, r);
        }
    }
    r
}

#[verifier::spinoff_prover]
fn same_value(bits: u32) -> (r: u64)
    ensures
        widens_to(bits, r),
{
    let (negative, mag) = split32(bits);
    proof {
        lemma_field_sizes();
    }
    if mag >= INF32 {
        let payload: u64 = (mag - INF32) as u64;
        return signed64(negative, INF64 + payload * 0x2000_0000);
    }
    let field: u32 = mag / 0x80_0000;
    if field > 0 {
        let fraction: u32 = mag % 0x80_0000;
        let u: u64 = field as u64 + 895;
        let k: u64 = (0x80_0000 + fraction as u64) * 0x2000_0000;
        proof {
            let sig = 0x80_0000 + fraction as nat;
            crate::rounding::lemma_units_of_parts(52, u as nat, k as nat);
            lemma_pow2_adds((field - 1) as nat, 925);
            lemma_pow2_adds(29, u as nat);
            assert(k * pow2(u as nat) == (sig * pow2((field - 1) as nat)) * pow2(925))
                by (nonlinear_arith)
                requires
                    k == sig * 0x2000_0000,
                    0x2000_0000 * pow2(u as nat) == pow2((field - 1) as nat) * pow2(925),
            ;
        }
        return signed64(negative, u * 0x10_0000_0000_0000 + k);
    }
    if mag == 0 {
        proof {
            crate::rounding::lemma_units_of_parts(52, 0, 0);
            crate::rounding::lemma_units_of_parts(23, 0, 0);
            assert(crate::rounding::units(52, 0) == 0);
            assert(crate::rounding::units(23, 0) == 0);
            assert(0nat * pow2(925) == 0) by (nonlinear_arith);
        }
        return signed64(negative, 0);
    }
    let (k, shift) = normalize(mag as u64, 52);
    let u: u64 = 925 - shift as u64;
    proof {
        crate::rounding::lemma_units_of_parts(52, u as nat, k as nat);
        lemma_pow2_adds(shift as nat, u as nat);
        assert(k * pow2(u as nat) == mag * pow2(925)) by (nonlinear_arith)
            requires
                k == mag * pow2(shift as nat),
                pow2(shift as nat) * pow2(u as nat) == pow2(925),
        ;
    }
    signed64(negative, u * 0x10_0000_0000_0000 + k)
}

/// Shifts a positive number up until it has `f + 1` bits.
fn normalize(value: u64, f: u32) -> (r: (u64, u32))
    requires
        f <= 52,
        0 < value < 2 * pow2(f as nat),
    ensures
        r.0 == value * pow2(r.1 as nat),
        pow2(f as nat) <= r.0 < 2 * pow2(f as nat),
        r.1 <= f,
{
    let least: u64 = power_of_two(f) as u64;
    proof {
        lemma_field_sizes();
        if f < 52 {
            vstd::arithmetic::power2::lemma_pow2_strictly_increases(f as nat, 52);
        }
    }
    let mut k: u64 = value;
    let mut shift: u32 = 0;
    while k < least
        invariant
            least == pow2(f as nat),
            least <= 0x10_0000_0000_0000,
            f <= 52,
            shift <= f,
            pow2(shift as nat) <= k < 2 * least,
            k == value * pow2(shift as nat),
        decreases f - shift,
    {
        proof {
            if shift >= f {
                assert(shift == f);
            }
            vstd::arithmetic::power2::lemma_pow2_unfold((shift + 1) as nat);
            assert(value * (2 * pow2(shift as nat)) == 2 * (value * pow2(shift as nat)))
                by (nonlinear_arith);
        }
        k = k * 2;
        shift = shift + 1;
    }
    (k, shift)
}

/// The double nearest to the square of a finite double.
pub fn square(bits: u64) -> (r: u64)
    requires
        finite64(bits),
    ensures
        squares_to(bits, r),
        r == squared(bits),
{
    let r: u64 = nearest_square(bits);
    proof {
        lemma_squared(bits, r);
    }
    r
}

#[verifier::spinoff_prover]
fn nearest_square(bits: u64) -> (r: u64)
    requires
        finite64(bits),
    ensures
        squares_to(bits, r),
{
    let (_, mag) = split64(bits);
    let field: u64 = mag / 0x10_0000_0000_0000;
    let fraction: u64 = mag % 0x10_0000_0000_0000;
    proof {
        lemma_field_sizes();
        vstd::arithmetic::power2::lemma2_to64();
        vstd::arithmetic::power2::lemma2_to64_rest();
        lemma_pow2_adds(52, 52);
        lemma_pow2_adds(52, 53);
        lemma_pow2_adds(53, 53);
    }
    if field == 0 {
        proof {
            let small = units64(bits);
            crate::rounding::lemma_units_of_parts(52, 0, 0);
            crate::rounding::lemma_units_of_parts(52, 0, 1);
            assert(crate::rounding::units(52, 0) == 0);
            assert(crate::rounding::units(52, 1) == 1);
            vstd::arithmetic::power2::lemma_pow2_strictly_increases(105, 1074);
            assert(small * small <= pow2(52) * pow2(52)) by (nonlinear_arith)
                requires
                    small <= pow2(52),
            ;
            assert(2 * (pow2(52) * pow2(52)) == pow2(52) * pow2(53)) by (nonlinear_arith)
                requires
                    pow2(53) == 2 * pow2(52),
            ;
            assert(2 * (small * small) < pow2(1074));
            assert(pow2(1074) * (0nat + 1nat) == pow2(1074)) by (nonlinear_arith);
            assert(magnitude64(0) == 0);
        }
        return 0;
    }
    let k: u128 = 0x10_0000_0000_0000 + fraction as u128;
    assert(0x10_0000_0000_0000 * 0x10_0000_0000_0000 <= k * k < 0x20_0000_0000_0000
        * 0x20_0000_0000_0000) by (nonlinear_arith)
        requires
            0x10_0000_0000_0000 <= k < 0x20_0000_0000_0000,
    ;
    let sig: u128 = k * k;
    let len: u32 = if sig < 0x200_0000_0000_0000_0000_0000_0000 {
        105
    } else {
        106
    };
    let q: i32 = 2 * (field as i32 - 1) - 1074;
    let rounded: u64 = round_magnitude(52, INF64, sig, len, q, false);
    proof {
        let e = (field - 1) as nat;
        lemma_scaled(sig as nat, 2 * e, 1074);
        lemma_pow2_adds(e, e);
        let value = units64(bits);
        assert(value == k as nat * pow2(e));
        assert(value * value == sig as nat * pow2(2 * e)) by (nonlinear_arith)
            requires
                value == k as nat * pow2(e),
                sig == k * k,
                pow2(2 * e) == pow2(e) * pow2(e),
        ;
        assert(crate::rounding::rounds_to(
            52,
            INF64 as nat,
            value * value,
            pow2(1074),
            rounded as nat,
        ));
    }
    rounded
}

/// `2^2148 / (k * 2^e)` units, written for the rounder.
proof fn lemma_reciprocal(k: nat, e: nat, sig: nat, sticky: bool)
    requires
        0 < k,
        sig == pow2(127) / k,
        sticky == (pow2(127) % k != 0),
    ensures
        crate::rounding::truncates_to(pow2(2148), k * pow2(e), sig, 2021 - e, sticky),
{
    let q = 2021 - e;
    let a_exp = if q > 0 { q as nat } else { 0nat };
    let b_exp = if q < 0 { (-q) as nat } else { 0nat };
    let a = pow2(a_exp);
    let b = pow2(b_exp);
    let top = pow2(127);
    let factor = pow2(e) * a;
    lemma_pow2_pos(e);
    lemma_pow2_pos(a_exp);
    lemma_pow2_adds(e, a_exp);
    lemma_pow2_adds(e + a_exp, 127);
    lemma_pow2_adds(2148, b_exp);
    lemma_pow2_pos(e + a_exp);
    assert(factor * top == pow2(2148) * b);
    vstd::arithmetic::div_mod::lemma_fundamental_div_mod(top as int, k as int);
    let den = k * pow2(e);
    assert((sig * a) * den == (k * sig) * factor) by (nonlinear_arith)
        requires
            den == k * pow2(e),
            factor == pow2(e) * a,
    ;
    assert(((sig + 1) * a) * den == (k * sig + k) * factor) by (nonlinear_arith)
        requires
            den == k * pow2(e),
            factor == pow2(e) * a,
    ;
    assert((k * sig) * factor <= top * factor) by (nonlinear_arith)
        requires
            k * sig <= top,
    ;
    assert(top * factor < (k * sig + k) * factor) by (nonlinear_arith)
        requires
            top < k * sig + k,
            factor > 0,
    ;
    assert(factor * top == top * factor) by (nonlinear_arith);
    if sticky {
        assert((k * sig) * factor < top * factor) by (nonlinear_arith)
            requires
                k * sig < top,
                factor > 0,
        ;
    }
    assert(den > 0) by (nonlinear_arith)
        requires
            den == k * pow2(e),
            k > 0,
            pow2(e) > 0,
    ;
}

/// The double nearest to the reciprocal of a finite double that is no smaller than the smallest
/// normal number.
#[verifier::spinoff_prover]
pub fn reciprocal(bits: u64) -> (r: u64)
    requires
        0x10_0000_0000_0000 <= magnitude64(bits) < INF64,
    ensures
        inverts_to(bits, r),
        r == inverted(bits),
{
    let (negative, mag) = split64(bits);
    let field: u64 = mag / 0x10_0000_0000_0000;
    let fraction: u64 = mag % 0x10_0000_0000_0000;
    let k: u128 = 0x10_0000_0000_0000 + fraction as u128;
    let top: u128 = power_of_two(127);
    let sig: u128 = top / k;
    let sticky: bool = top % k != 0;
    let len: u32 = if fraction == 0 {
        76
    } else {
        75
    };
    let q: i32 = 2022 - field as i32;
    proof {
        lemma_field_sizes();
        lemma_pow2_adds(75, 52);
        lemma_pow2_adds(74, 53);
        lemma_pow2_adds(76, 52);
        vstd::arithmetic::power2::lemma_pow2_unfold(75);
        vstd::arithmetic::power2::lemma_pow2_unfold(76);
        vstd::arithmetic::div_mod::lemma_fundamental_div_mod(top as int, k as int);
        lemma_pow2_pos(74);
        assert(pow2(74) <= sig <= pow2(75)) by (nonlinear_arith)
            requires
                top < k * sig + k,
                k * sig <= top,
                0x10_0000_0000_0000 <= k < 0x20_0000_0000_0000,
                top == pow2(75) * 0x10_0000_0000_0000,
                top == pow2(74) * 0x20_0000_0000_0000,
        ;
        if fraction == 0 {
            assert(sig == pow2(75)) by (nonlinear_arith)
                requires
                    top < k * sig + k,
                    k * sig <= top,
                    k == 0x10_0000_0000_0000,
                    top == pow2(75) * 0x10_0000_0000_0000,
            ;
        } else {
            assert(sig < pow2(75)) by (nonlinear_arith)
                requires
                    k * sig <= top,
                    k > 0x10_0000_0000_0000,
                    top == pow2(75) * 0x10_0000_0000_0000,
                    pow2(75) > 0,
            ;
        }
        lemma_reciprocal(k as nat, (field - 1) as nat, sig as nat, sticky);
        assert(units64(bits) == k as nat * pow2((field - 1) as nat));
    }
    let rounded: u64 = round_magnitude(52, INF64, sig, len, q, sticky);
    assert(crate::rounding::rounds_to(
        52,
        INF64 as nat,
        pow2(2148),
        units64(bits),
        rounded as nat,
    ));
    let r: u64 = signed64(negative, rounded);
    proof {
        crate::rounding::lemma_units_increase(52, 0, mag as nat);
        lemma_inverted(bits, r);
    }
    r
}

/// The double nearest to the square root of a finite double that is not negative.
pub fn square_root(bits: u64) -> (r: u64)
    requires
        finite64(bits),
        bits < SIGN64 || magnitude64(bits) == 0,
    ensures
        root_of(bits, r),
        r == rooted(bits),
{
    let r: u64 = nearest_root(bits);
    proof {
        lemma_rooted(bits, r);
    }
    r
}

#[verifier::spinoff_prover]
fn nearest_root(bits: u64) -> (r: u64)
    requires
        finite64(bits),
        bits < SIGN64 || magnitude64(bits) == 0,
    ensures
        root_of(bits, r),
{
    let (_, mag) = split64(bits);
    if mag == 0 {
        return bits;
    }
    let field: u64 = mag / 0x10_0000_0000_0000;
    proof {
        lemma_field_sizes();
    }
    let (k, exponent): (u64, u32) = if field == 0 {
        let (k, shift) = normalize(mag, 52);
        (k, 1074 - shift)
    } else {
        (0x10_0000_0000_0000 + mag % 0x10_0000_0000_0000, 1073 + field as u32)
    };
    let shift: u32 = if exponent % 2 == 0 {
        72
    } else {
        73
    };
    let q: u32 = (exponent - shift) / 2;
    proof {
        let num = units64(bits) * pow2(1074);
        if field == 0 {
            let s = (1074 - exponent) as nat;
            lemma_pow2_adds(s, exponent as nat);
            assert(mag as nat * pow2(1074) == k * pow2(exponent as nat)) by (nonlinear_arith)
                requires
                    k == mag * pow2(s),
                    pow2(s) * pow2(exponent as nat) == pow2(1074),
            ;
        } else {
            let e = (field - 1) as nat;
            lemma_pow2_adds(e, 1074);
            assert((k as nat * pow2(e)) * pow2(1074) == k * pow2(exponent as nat))
                by (nonlinear_arith)
                requires
                    pow2(e) * pow2(1074) == pow2(exponent as nat),
            ;
        }
        assert(num == k * pow2(exponent as nat));
        lemma_pow2_adds(shift as nat, 2 * (q as nat));
        assert(exponent as nat == shift as nat + 2 * (q as nat));
        let step = pow2(shift as nat);
        assert(k * pow2(exponent as nat) == (k as nat * step) * pow2(2 * (q as nat)))
            by (nonlinear_arith)
            requires
                pow2(exponent as nat) == step * pow2(2 * (q as nat)),
        ;
        lemma_pow2_adds(52, 72);
        lemma_pow2_adds(53, 73);
        vstd::arithmetic::power2::lemma_pow2_strictly_increases(72, 73);
        lemma_pow2_pos(72);
        vstd::arithmetic::mul::lemma_mul_upper_bound(
            pow2(52) as int,
            k as int,
            pow2(72) as int,
            step as int,
        );
        vstd::arithmetic::mul::lemma_mul_inequality(
            step as int,
            pow2(73) as int,
            k as int,
        );
        vstd::arithmetic::mul::lemma_mul_strict_inequality(
            k as int,
            pow2(53) as int,
            pow2(73) as int,
        );
        assert(step * k == k * step) by (nonlinear_arith);
        assert(pow2(73) * k == k * pow2(73)) by (nonlinear_arith);
        vstd::arithmetic::power2::lemma_pow2_strictly_increases(126, 127);
        lemma_pow2_127();
    }
    let value: u128 = k as u128 * power_of_two(shift);
    round_root(52, INF64, value, q as i32)
}

proof fn lemma_pow2_127()
    ensures
        pow2(127) <= u128::MAX,
{
    vstd::arithmetic::power2::lemma2_to64();
    vstd::arithmetic::power2::lemma2_to64_rest();
    lemma_pow2_adds(63, 64);
}

/// The single that has the value of a small integer.
pub fn single_from_count(count: u32) -> (r: u32)
    requires
        count <= 0x100_0000,
    ensures
        r < SIGN32,
        finite32(r),
        units32(r) == count * pow2(149),
        r == count_single(count as nat),
{
    let r: u32 = exact_single(count);
    proof {
        lemma_count_single(count as nat, r);
    }
    r
}

#[verifier::spinoff_prover]
fn exact_single(count: u32) -> (r: u32)
    requires
        count <= 0x100_0000,
    ensures
        r < SIGN32,
        finite32(r),
        units32(r) == count * pow2(149),
{
    proof {
        lemma_field_sizes();
    }
    if count == 0 {
        proof {
            crate::rounding::lemma_units_of_parts(23, 0, 0);
            assert(crate::rounding::units(23, 0) == 0);
            assert(0nat * pow2(149) == 0) by (nonlinear_arith);
        }
        return 0;
    }
    let (k, shift): (u64, u32) = if count == 0x100_0000 {
        assert(count as nat * pow2(0) == count) by (nonlinear_arith)
            requires
                pow2(0) == 1,
        ;
        (count as u64, 0)
    } else {
        normalize(count as u64, 23)
    };
    let u: u32 = 149 - shift;
    proof {
        crate::rounding::lemma_units_of_parts(23, u as nat, k as nat);
        lemma_pow2_adds(shift as nat, u as nat);
        assert(k * pow2(u as nat) == count * pow2(149)) by (nonlinear_arith)
            requires
                k == count * pow2(shift as nat),
                pow2(shift as nat) * pow2(u as nat) == pow2(149),
        ;
    }
    u * 0x80_0000 + k as u32
}

/// The integer nearest to a single, as far as a `usize` reaches.
#[verifier::spinoff_prover]
pub fn count_from_single(bits: u32) -> (r: usize)
    requires
        finite32(bits),
    ensures
        nearest_count(bits) <= usize::MAX ==> r == nearest_count(bits),
        nearest_count(bits) > usize::MAX ==> r == usize::MAX,
{
    let (negative, mag) = split32(bits);
    if negative {
        return 0;
    }
    let field: u32 = mag / 0x80_0000;
    let fraction: u32 = mag % 0x80_0000;
    proof {
        lemma_field_sizes();
    }
    if field < 126 {
        proof {
            if field == 0 {
                vstd::arithmetic::power2::lemma_pow2_strictly_increases(24, 149);
            } else {
                lemma_rounds_down_to_zero(0x80_0000 + fraction as nat, (field - 1) as nat);
            }
            lemma_pow2_pos(149);
            vstd::arithmetic::power2::lemma_pow2_unfold(150);
            vstd::arithmetic::div_mod::lemma_basic_div(
                (2 * units32(bits) + pow2(149)) as int,
                pow2(150) as int,
            );
        }
        return 0;
    }
    let k: u128 = 0x80_0000 + fraction as u128;
    let e: u32 = field - 1;
    if e < 149 {
        let d: u32 = 149 - e;
        let step: u128 = power_of_two(d);
        let half: u128 = power_of_two(d - 1);
        proof {
            lemma_nearest_of_parts(k as nat, e as nat);
            if d < 24 {
                vstd::arithmetic::power2::lemma_pow2_strictly_increases(d as nat, 24);
            }
            vstd::arithmetic::power2::lemma_pow2_unfold(d as nat);
            assert(k + half <= 0x200_0000);
            vstd::arithmetic::div_mod::lemma_div_nonincreasing((k + half) as int, step as int);
        }
        ((k + half) / step) as usize
    } else {
        let up: u32 = e - 149;
        proof {
            lemma_nearest_of_parts(k as nat, e as nat);
            vstd::arithmetic::power2::lemma2_to64();
            vstd::arithmetic::power2::lemma2_to64_rest();
        }
        if up >= 41 {
            proof {
                if up > 41 {
                    vstd::arithmetic::power2::lemma_pow2_strictly_increases(41, up as nat);
                }
                assert(k * pow2(up as nat) >= 0x80_0000 * pow2(41)) by (nonlinear_arith)
                    requires
                        k >= 0x80_0000,
                        pow2(up as nat) >= pow2(41),
                ;
            }
            return usize::MAX;
        }
        proof {
            vstd::arithmetic::power2::lemma_pow2_strictly_increases(up as nat, 41);
            assert(k * pow2(up as nat) <= 0x100_0000 * pow2(41)) by (nonlinear_arith)
                requires
                    k <= 0x100_0000,
                    pow2(up as nat) <= pow2(41),
            ;
        }
        let value: u128 = k * power_of_two(up);
        if value > usize::MAX as u128 {
            usize::MAX
        } else {
            value as usize
        }
    }
}

proof fn lemma_rounds_down_to_zero(k: nat, e: nat)
    requires
        k < 0x100_0000,
        e < 125,
    ensures
        2 * (k * pow2(e)) < pow2(149),
{
    lemma_field_sizes();
    lemma_pow2_pos(e);
    lemma_pow2_adds(24, e);
    vstd::arithmetic::power2::lemma_pow2_unfold(e + 25);
    if e + 25 < 149 {
        vstd::arithmetic::power2::lemma_pow2_strictly_increases(e + 25, 149);
    }
    assert(k * pow2(e) < 0x100_0000 * pow2(e)) by (nonlinear_arith)
        requires
            k < 0x100_0000,
            pow2(e) > 0,
    ;
}

/// The integer nearest to `k * 2^(e - 149)`.
proof fn lemma_nearest_of_parts(k: nat, e: nat)
    ensures
        e < 149 ==> (2 * (k * pow2(e)) + pow2(149)) / pow2(150) == (k + pow2(
            (148 - e) as nat,
        )) / pow2((149 - e) as nat),
        e >= 149 ==> (2 * (k * pow2(e)) + pow2(149)) / pow2(150) == k * pow2((e - 149) as nat),
{
    let whole = pow2(150);
    let numerator = 2 * (k * pow2(e)) + pow2(149);
    lemma_pow2_pos(149);
    vstd::arithmetic::power2::lemma_pow2_unfold(150);
    vstd::arithmetic::power2::lemma_pow2_unfold(e + 1);
    if e < 149 {
        let d = (149 - e) as nat;
        let low = pow2(e + 1);
        lemma_pow2_pos(e + 1);
        lemma_pow2_pos(d);
        lemma_pow2_adds((148 - e) as nat, e + 1);
        lemma_pow2_adds(d, e + 1);
        let x = k + pow2((148 - e) as nat);
        assert(numerator == x * low) by (nonlinear_arith)
            requires
                low == 2 * pow2(e),
                numerator == 2 * (k * pow2(e)) + pow2(149),
                pow2(149) == pow2((148 - e) as nat) * low,
                x == k + pow2((148 - e) as nat),
        ;
        assert(whole == low * pow2(d)) by (nonlinear_arith)
            requires
                whole == pow2(d) * low,
        ;
        vstd::arithmetic::div_mod::lemma_div_denominator(
            numerator as int,
            low as int,
            pow2(d) as int,
        );
        vstd::arithmetic::div_mod::lemma_div_by_multiple(x as int, low as int);
    } else {
        let up = (e - 149) as nat;
        let value = k * pow2(up);
        lemma_pow2_adds(up, 150);
        assert(numerator == value * whole + pow2(149)) by (nonlinear_arith)
            requires
                numerator == 2 * (k * pow2(e)) + pow2(149),
                pow2(e + 1) == 2 * pow2(e),
                pow2(e + 1) == pow2(up) * whole,
                value == k * pow2(up),
        ;
        vstd::arithmetic::div_mod::lemma_fundamental_div_mod_converse(
            numerator as int,
            whole as int,
            value as int,
            pow2(149) as int,
        );
    }
}

/// Whether a single is smaller than one half.
pub fn is_below_half(bits: u32) -> (r: bool)
    requires
        finite32(bits),
    ensures
        r == below_half(bits),
{
    let (negative, mag) = split32(bits);
    proof {
        lemma_field_sizes();
        let half = 0x3f00_0000nat;
        crate::rounding::lemma_units_of_parts(23, 125, 0x80_0000);
        lemma_pow2_adds(23, 125);
        vstd::arithmetic::power2::lemma_pow2_unfold(149);
        assert(crate::rounding::units(23, half) == pow2(148));
        if (mag as nat) < half {
            crate::rounding::lemma_units_increase(23, mag as nat, half);
        } else if half < mag as nat {
            crate::rounding::lemma_units_increase(23, half, mag as nat);
        }
    }
    negative || mag < 0x3f00_0000
}

proof fn lemma_same_units(f: nat, a: nat, b: nat)
    requires
        crate::rounding::units(f, a) == crate::rounding::units(f, b),
    ensures
        a == b,
{
    if a < b {
        crate::rounding::lemma_units_increase(f, a, b);
    } else if b < a {
        crate::rounding::lemma_units_increase(f, b, a);
    }
}

/// A finite single widens to one double.
pub proof fn lemma_widened(bits: u32, r: u64)
    requires
        finite32(bits),
        widens_to(bits, r),
    ensures
        r == widened(bits),
{
    assert(widens_to(bits, widened(bits)));
    lemma_same_units(52, magnitude64(r) as nat, magnitude64(widened(bits)) as nat);
}

/// The square of a double rounds to one double.
pub proof fn lemma_squared(bits: u64, r: u64)
    requires
        squares_to(bits, r),
    ensures
        r == squared(bits),
{
    let other = squared(bits);
    assert(squares_to(bits, other));
    lemma_pow2_pos(1074);
    crate::rounding::lemma_rounds_to_unique(
        52,
        INF64 as nat,
        units64(bits) * units64(bits),
        pow2(1074),
        r as nat,
        other as nat,
    );
}

/// The reciprocal of a nonzero double rounds to one double.
pub proof fn lemma_inverted(bits: u64, r: u64)
    requires
        units64(bits) > 0,
        inverts_to(bits, r),
    ensures
        r == inverted(bits),
{
    let other = inverted(bits);
    assert(inverts_to(bits, other));
    crate::rounding::lemma_rounds_to_unique(
        52,
        INF64 as nat,
        pow2(2148),
        units64(bits),
        magnitude64(r) as nat,
        magnitude64(other) as nat,
    );
}

/// The square root of a double rounds to one double.
pub proof fn lemma_rooted(bits: u64, r: u64)
    requires
        root_of(bits, r),
    ensures
        r == rooted(bits),
{
    let other = rooted(bits);
    assert(root_of(bits, other));
    if magnitude64(bits) != 0 {
        crate::rounding::lemma_root_rounds_to_unique(
            52,
            INF64 as nat,
            units64(bits) * pow2(1074),
            r as nat,
            other as nat,
        );
    }
}

/// A small integer has one single.
pub proof fn lemma_count_single(count: nat, r: u32)
    requires
        r < SIGN32,
        finite32(r),
        units32(r) == count * pow2(149),
    ensures
        r == count_single(count),
{
    lemma_same_units(23, r as nat, count_single(count) as nat);
}

/// Narrowing a widened single gives the single back.
pub proof fn law_narrow_undoes_widen(bits: u32, wide: u64)
    requires
        finite32(bits),
        widens_to(bits, wide),
    ensures
        narrowed(wide) == bits,
{
    let mag = magnitude32(bits) as nat;
    let value = units32(bits);
    let den = pow2(925);
    lemma_pow2_pos(925);
    let num = units64(wide);
    assert(num == value * den);
    if mag > 0 {
        let below = crate::rounding::units(23, (mag - 1) as nat);
        crate::rounding::lemma_units_increase(23, (mag - 1) as nat, mag);
        assert(den * (below + value) < 2 * (value * den)) by (nonlinear_arith)
            requires
                below < value,
                den > 0,
        ;
    }
    let above = crate::rounding::units(23, mag + 1);
    crate::rounding::lemma_units_increase(23, mag, mag + 1);
    assert(2 * (value * den) < den * (value + above)) by (nonlinear_arith)
        requires
            value < above,
            den > 0,
    ;
    assert(narrows_to(wide, bits));
    lemma_narrowed(wide, bits);
}

/// Every double has a nearest single, and it is a number.
pub proof fn lemma_narrows(bits: u64)
    ensures
        narrows_to(bits, narrowed(bits)),
        !nan32(narrowed(bits)),
{
    let mag = crate::rounding::lemma_rounds_to_some(
        23,
        INF32 as nat,
        units64(bits),
        pow2(925),
        0,
    );
    let r: u32 = if bits >= SIGN64 {
        (SIGN32 + mag) as u32
    } else {
        mag as u32
    };
    assert(narrows_to(bits, r));
}

/// Some single has the value of `k` units of `2^u`.
proof fn lemma_has_single(k: nat, u: nat) -> (r: u32)
    requires
        0 < k <= 0x100_0000,
        u <= 149,
    ensures
        r < SIGN32,
        finite32(r),
        units32(r) == k * pow2(u),
    decreases 0x100_0000 - k,
{
    lemma_field_sizes();
    if k < 0x80_0000 && u > 0 {
        let r = lemma_has_single(2 * k, (u - 1) as nat);
        vstd::arithmetic::power2::lemma_pow2_unfold(u);
        assert((2 * k) * pow2((u - 1) as nat) == k * pow2(u)) by (nonlinear_arith)
            requires
                pow2(u) == 2 * pow2((u - 1) as nat),
        ;
        r
    } else {
        let r = (u * 0x80_0000 + k) as u32;
        crate::rounding::lemma_units_of_parts(23, u, k);
        r
    }
}

/// A count that the device keeps has a single.
pub proof fn lemma_count_has_single(count: nat)
    requires
        count <= 0x100_0000,
    ensures
        count_single(count) < SIGN32,
        finite32(count_single(count)),
        units32(count_single(count)) == count * pow2(149),
{
    lemma_field_sizes();
    let single: u32 = if count == 0 {
        crate::rounding::lemma_units_of_parts(23, 0, 0);
        assert(0nat * pow2(149) == 0) by (nonlinear_arith);
        0
    } else {
        lemma_has_single(count, 149)
    };
    lemma_count_single(count, single);
}

/// The single `1`.
pub proof fn lemma_one()
    ensures
        count_single(1) == 0x3f80_0000u32,
{
    lemma_field_sizes();
    crate::rounding::lemma_units_of_parts(23, 126, 0x80_0000);
    lemma_pow2_adds(23, 126);
    assert(units32(0x3f80_0000) == 1 * pow2(149));
    lemma_count_single(1, 0x3f80_0000);
}

/// Counts up to the largest one that the device keeps come back from their single precision form.
pub proof fn law_count_exact(count: nat)
    requires
        count <= 0x100_0000,
    ensures
        nearest_count(count_single(count)) == count,
{
    lemma_field_sizes();
    let single: u32 = if count == 0 {
        crate::rounding::lemma_units_of_parts(23, 0, 0);
        assert(0nat * pow2(149) == 0) by (nonlinear_arith);
        0
    } else {
        lemma_has_single(count, 149)
    };
    lemma_count_single(count, single);
    vstd::arithmetic::power2::lemma_pow2_unfold(150);
    lemma_pow2_pos(149);
    let half = pow2(149);
    assert((2 * (count * half) + half) / (2 * half) == count) by {
        assert(2 * (count * half) + half == count * (2 * half) + half) by (nonlinear_arith);
        vstd::arithmetic::div_mod::lemma_fundamental_div_mod_converse(
            (2 * (count * half) + half) as int,
            (2 * half) as int,
            count as int,
            half as int,
        );
    }
}

/// Every double has a nearest square.
pub proof fn lemma_squares(bits: u64)
    ensures
        squares_to(bits, squared(bits)),
{
    let units = units64(bits) * units64(bits);
    let mag = crate::rounding::lemma_rounds_to_some(52, INF64 as nat, units, pow2(1074), 0);
    assert(squares_to(bits, mag as u64));
}

/// Every double has a nearest reciprocal.
pub proof fn lemma_inverts(bits: u64)
    ensures
        inverts_to(bits, inverted(bits)),
{
    let mag = crate::rounding::lemma_rounds_to_some(
        52,
        INF64 as nat,
        pow2(2148),
        units64(bits),
        0,
    );
    let r: u64 = if bits >= SIGN64 {
        (SIGN64 + mag) as u64
    } else {
        mag as u64
    };
    assert(inverts_to(bits, r));
}

/// Every double has a nearest square root.
pub proof fn lemma_roots(bits: u64)
    ensures
        root_of(bits, rooted(bits)),
{
    if magnitude64(bits) == 0 {
        assert(root_of(bits, bits));
    } else {
        let mag = crate::rounding::lemma_root_rounds_to_some(
            52,
            INF64 as nat,
            units64(bits) * pow2(1074),
            0,
        );
        assert(root_of(bits, mag as u64));
    }
}

/// Some double has the value of `k` units of `2^u`.
proof fn lemma_has_double(k: nat, u: nat) -> (r: u64)
    requires
        k <= 0x20_0000_0000_0000,
        u <= 2000,
    ensures
        r < SIGN64,
        finite64(r),
        units64(r) == k * pow2(u),
    decreases 0x20_0000_0000_0000 - k, u,
{
    lemma_field_sizes();
    if k < 0x10_0000_0000_0000 && u > 0 {
        vstd::arithmetic::power2::lemma_pow2_unfold(u);
        assert((2 * k) * pow2((u - 1) as nat) == k * pow2(u)) by (nonlinear_arith)
            requires
                pow2(u) == 2 * pow2((u - 1) as nat),
        ;
        lemma_has_double(2 * k, (u - 1) as nat)
    } else {
        let r = (u * 0x10_0000_0000_0000 + k) as u64;
        crate::rounding::lemma_units_of_parts(52, u, k);
        r
    }
}

/// Every finite single has a double of the same value.
pub proof fn lemma_widens(bits: u32)
    requires
        finite32(bits),
    ensures
        widens_to(bits, widened(bits)),
{
    lemma_field_sizes();
    let mag = magnitude32(bits) as nat;
    let field = mag / 0x80_0000;
    let (k, u) = if field == 0 {
        (mag, 0nat)
    } else {
        (0x80_0000 + mag % 0x80_0000, (field - 1) as nat)
    };
    crate::rounding::lemma_units_of_parts(23, u, k);
    assert(mag == u * 0x80_0000 + k);
    lemma_pow2_adds(u, 925);
    assert(k * pow2(u + 925) == (k * pow2(u)) * pow2(925)) by (nonlinear_arith)
        requires
            pow2(u + 925) == pow2(u) * pow2(925),
    ;
    let size = lemma_has_double(k, u + 925);
    let r: u64 = if bits >= SIGN32 {
        (SIGN64 + size) as u64
    } else {
        size
    };
    assert(widens_to(bits, r));
}

/// The value of a double of either sign, in units of the smallest positive one: the fraction where
/// the exponent field is zero, and the fraction with its leading one, shifted by the exponent,
/// elsewhere. The sign bit does not count.
pub proof fn law_double_value(field: u64, fraction: u64, negative: bool)
    requires
        field < 0x800,
        fraction < 0x10_0000_0000_0000,
    ensures
        ({
            let mag = field * 0x10_0000_0000_0000 + fraction;
            let bits = if negative {
                (0x8000_0000_0000_0000 + mag) as u64
            } else {
                mag as u64
            };
            &&& units64(bits) == if field == 0 {
                fraction as nat
            } else {
                (0x10_0000_0000_0000 + fraction) as nat * pow2((field - 1) as nat)
            }
            &&& finite64(bits) == (field < 0x7ff)
            &&& nan64(bits) == (field == 0x7ff && fraction > 0)
        }),
{
    lemma_field_sizes();
    if field == 0 {
        crate::rounding::lemma_units_of_parts(52, 0, fraction as nat);
        vstd::arithmetic::power2::lemma2_to64();
        assert(fraction as nat * pow2(0) == fraction) by (nonlinear_arith)
            requires
                pow2(0) == 1,
        ;
    } else {
        let k = (0x10_0000_0000_0000 + fraction) as nat;
        crate::rounding::lemma_units_of_parts(52, (field - 1) as nat, k);
    }
}

/// The value of a single of either sign, in units of the smallest positive one.
pub proof fn law_single_value(field: u32, fraction: u32, negative: bool)
    requires
        field < 0x100,
        fraction < 0x80_0000,
    ensures
        ({
            let mag = field * 0x80_0000 + fraction;
            let bits = if negative {
                (0x8000_0000 + mag) as u32
            } else {
                mag as u32
            };
            &&& units32(bits) == if field == 0 {
                fraction as nat
            } else {
                (0x80_0000 + fraction) as nat * pow2((field - 1) as nat)
            }
            &&& finite32(bits) == (field < 0xff)
            &&& nan32(bits) == (field == 0xff && fraction > 0)
        }),
{
    lemma_field_sizes();
    if field == 0 {
        crate::rounding::lemma_units_of_parts(23, 0, fraction as nat);
        assert(fraction as nat * pow2(0) == fraction) by (nonlinear_arith)
            requires
                pow2(0) == 1,
        ;
    } else {
        let k = (0x80_0000 + fraction) as nat;
        crate::rounding::lemma_units_of_parts(23, (field - 1) as nat, k);
    }
}

/// Narrowing keeps the sign and takes the nearest single: no other finite one is nearer, and of two
/// that are equally near it takes the even one. The units of a single are `2^925` of those of a
/// double.
pub proof fn law_narrow_is_nearest(bits: u64, r: u32, other: u32)
    requires
        narrows_to(bits, r),
        finite32(other),
    ensures
        (r >= 0x8000_0000) == (bits >= 0x8000_0000_0000_0000),
        ({
            let here = crate::rounding::distance(units64(bits), pow2(925) * units32(r));
            let there = crate::rounding::distance(units64(bits), pow2(925) * units32(other));
            &&& here <= there
            &&& here == there && magnitude32(other) != magnitude32(r) ==> r % 2 == 0
        }),
{
    lemma_pow2_pos(925);
    crate::rounding::law_rounds_to_nearest(
        23,
        INF32 as nat,
        units64(bits),
        pow2(925),
        magnitude32(r) as nat,
        magnitude32(other) as nat,
    );
}

/// A double becomes infinite as a single exactly from half way past the largest finite single on.
pub proof fn law_narrow_overflows(bits: u64, r: u32)
    requires
        narrows_to(bits, r),
    ensures
        finite32(r) <==> bits < 0x47ef_ffff_f000_0000 || 0x8000_0000_0000_0000 <= bits
            < 0xc7ef_ffff_f000_0000,
        !nan32(r),
{
    lemma_field_sizes();
    let mag = magnitude64(bits) as nat;
    let edge = 0x47ef_ffff_f000_0000nat;
    let middle = crate::rounding::units(23, 0x7f7f_ffff) + crate::rounding::units(23, 0x7f80_0000);
    let k = 0x1ff_ffffnat;
    // the largest finite single and the next one
    crate::rounding::lemma_units_of_parts(23, 253, 0xff_ffff);
    crate::rounding::lemma_units_of_parts(23, 253, 0x100_0000);
    assert(253 * 0x80_0000 + 0xff_ffff == 0x7f7f_ffff);
    assert(253 * 0x80_0000 + 0x100_0000 == 0x7f80_0000);
    assert(middle == k * pow2(253)) by (nonlinear_arith)
        requires
            middle == 0xff_ffff * pow2(253) + 0x100_0000 * pow2(253),
            k == 0x1ff_ffff,
    ;
    // the double in their middle
    crate::rounding::lemma_units_of_parts(52, 1149, k * 0x1000_0000);
    assert(1149 * 0x10_0000_0000_0000 + k * 0x1000_0000 == edge);
    lemma_pow2_adds(28, 1149);
    lemma_pow2_adds(925, 253);
    vstd::arithmetic::power2::lemma_pow2_unfold(1178);
    vstd::arithmetic::power2::lemma2_to64();
    assert(pow2(28) == 0x1000_0000);
    let at_edge = crate::rounding::units(52, edge);
    assert(2 * at_edge == pow2(925) * middle) by (nonlinear_arith)
        requires
            at_edge == (k * 0x1000_0000) * pow2(1149),
            pow2(1177) == 0x1000_0000 * pow2(1149),
            pow2(1178) == 2 * pow2(1177),
            pow2(1178) == pow2(925) * pow2(253),
            middle == k * pow2(253),
    ;
    if mag < edge {
        crate::rounding::lemma_units_increase(52, mag, edge);
    } else if edge < mag {
        crate::rounding::lemma_units_increase(52, edge, mag);
    }
    lemma_pow2_pos(925);
    crate::rounding::law_rounding_overflows(
        23,
        INF32 as nat,
        units64(bits),
        pow2(925),
        magnitude32(r) as nat,
    );
}

/// Squaring gives the nearest double that is not negative: the square of a double, in units of the
/// smallest positive one, is the square of its units over `2^1074`.
pub proof fn law_square_is_nearest(bits: u64, r: u64, other: u64)
    requires
        squares_to(bits, r),
        finite64(other),
    ensures
        r <= 0x7ff0_0000_0000_0000,
        ({
            let square = units64(bits) * units64(bits);
            let here = crate::rounding::distance(square, pow2(1074) * units64(r));
            let there = crate::rounding::distance(square, pow2(1074) * units64(other));
            &&& here <= there
            &&& here == there && magnitude64(other) != r ==> r % 2 == 0
        }),
{
    lemma_pow2_pos(1074);
    crate::rounding::law_rounds_to_nearest(
        52,
        INF64 as nat,
        units64(bits) * units64(bits),
        pow2(1074),
        magnitude64(r) as nat,
        magnitude64(other) as nat,
    );
}

/// The reciprocal keeps the sign and is the nearest double: in units of the smallest positive one,
/// the reciprocal of a double is `2^2148` over its units.
pub proof fn law_reciprocal_is_nearest(bits: u64, r: u64, other: u64)
    requires
        inverts_to(bits, r),
        units64(bits) > 0,
        finite64(other),
    ensures
        (r >= 0x8000_0000_0000_0000) == (bits >= 0x8000_0000_0000_0000),
        ({
            let here = crate::rounding::distance(pow2(2148), units64(bits) * units64(r));
            let there = crate::rounding::distance(pow2(2148), units64(bits) * units64(other));
            &&& here <= there
            &&& here == there && magnitude64(other) != magnitude64(r) ==> r % 2 == 0
        }),
{
    crate::rounding::law_rounds_to_nearest(
        52,
        INF64 as nat,
        pow2(2148),
        units64(bits),
        magnitude64(r) as nat,
        magnitude64(other) as nat,
    );
}

/// The square root is the nearest double: in units of the smallest positive one, the square of the
/// root of a double is its units times `2^1074`, and that lies on the side of the result of the
/// middle between it and any other double. The root of a zero is that zero.
pub proof fn law_root_is_nearest(bits: u64, r: u64, other: u64)
    requires
        root_of(bits, r),
        finite64(other),
    ensures
        bits == 0 || bits == 0x8000_0000_0000_0000 ==> r == bits,
        bits != 0 && bits != 0x8000_0000_0000_0000 ==> {
            let square = units64(bits) * pow2(1074);
            let middle = units64(r) + units64(other);
            &&& r <= 0x7ff0_0000_0000_0000
            &&& magnitude64(other) < r ==> middle * middle <= 4 * square
            &&& magnitude64(other) > r ==> 4 * square <= middle * middle
            &&& magnitude64(other) != r && 4 * square == middle * middle ==> r % 2 == 0
        },
{
    if magnitude64(bits) != 0 {
        crate::rounding::law_root_rounds_to_nearest(
            52,
            INF64 as nat,
            units64(bits) * pow2(1074),
            magnitude64(r) as nat,
            magnitude64(other) as nat,
        );
    }
}

/// Widening keeps the value: a finite single becomes a finite double of the same sign and `2^925`
/// times as many of the smaller units; what is infinite stays so, and what is not a number too.
pub proof fn law_widen_keeps_the_value(bits: u32, r: u64)
    requires
        widens_to(bits, r),
    ensures
        (r >= 0x8000_0000_0000_0000) == (bits >= 0x8000_0000),
        finite32(bits) == finite64(r),
        nan32(bits) == nan64(r),
        finite32(bits) ==> units64(r) == units32(bits) * pow2(925),
{
}

/// A single that is not negative lies between the two half integers round its count.
proof fn lemma_count_at(bits: u32, low: u32, high: u32, count: nat)
    requires
        count > 0,
        bits < SIGN32,
        units32(low) == (2 * count - 1) * pow2(148),
        units32(high) == (2 * count + 1) * pow2(148),
        low < SIGN32,
        high < SIGN32,
    ensures
        nearest_count(bits) == count <==> low <= bits < high,
{
    vstd::arithmetic::power2::lemma_pow2_unfold(149);
    vstd::arithmetic::power2::lemma_pow2_unfold(150);
    lemma_pow2_pos(148);
    let p = pow2(148);
    let u = units32(bits);
    if bits < low {
        crate::rounding::lemma_units_increase(23, bits as nat, low as nat);
    } else if bits > low {
        crate::rounding::lemma_units_increase(23, low as nat, bits as nat);
    }
    if bits < high {
        crate::rounding::lemma_units_increase(23, bits as nat, high as nat);
    } else if bits > high {
        crate::rounding::lemma_units_increase(23, high as nat, bits as nat);
    }
    let q = (2 * u + 2 * p) / (4 * p);
    let rest = (2 * u + 2 * p) % (4 * p);
    vstd::arithmetic::div_mod::lemma_fundamental_div_mod(
        (2 * u + 2 * p) as int,
        (4 * p) as int,
    );
    vstd::arithmetic::div_mod::lemma_mod_bound((2 * u + 2 * p) as int, (4 * p) as int);
    assert(q == count <==> (2 * count - 1) * p <= u < (2 * count + 1) * p) by (nonlinear_arith)
        requires
            2 * u + 2 * p == (4 * p) * q + rest,
            0 <= rest < 4 * p,
            p > 0,
    ;
}

/// Counts are told apart at the half integers: which of the numbers from one to seven a single that
/// is not negative is nearest to, halves going up.
pub proof fn law_small_counts(bits: u32)
    requires
        bits < 0x8000_0000,
    ensures
        nearest_count(bits) == 1 <==> 0x3f00_0000 <= bits < 0x3fc0_0000,
        nearest_count(bits) == 2 <==> 0x3fc0_0000 <= bits < 0x4020_0000,
        nearest_count(bits) == 3 <==> 0x4020_0000 <= bits < 0x4060_0000,
        nearest_count(bits) == 4 <==> 0x4060_0000 <= bits < 0x4090_0000,
        nearest_count(bits) == 5 <==> 0x4090_0000 <= bits < 0x40b0_0000,
        nearest_count(bits) == 6 <==> 0x40b0_0000 <= bits < 0x40d0_0000,
        nearest_count(bits) == 7 <==> 0x40d0_0000 <= bits < 0x40f0_0000,
{
    vstd::arithmetic::power2::lemma2_to64();
    lemma_half(0x3f00_0000, 125, 0x80_0000, 1, 23);
    lemma_half(0x3fc0_0000, 126, 0xc0_0000, 3, 22);
    lemma_half(0x4020_0000, 127, 0xa0_0000, 5, 21);
    lemma_half(0x4060_0000, 127, 0xe0_0000, 7, 21);
    lemma_half(0x4090_0000, 128, 0x90_0000, 9, 20);
    lemma_half(0x40b0_0000, 128, 0xb0_0000, 11, 20);
    lemma_half(0x40d0_0000, 128, 0xd0_0000, 13, 20);
    lemma_half(0x40f0_0000, 128, 0xf0_0000, 15, 20);
    lemma_count_at(bits, 0x3f00_0000, 0x3fc0_0000, 1);
    lemma_count_at(bits, 0x3fc0_0000, 0x4020_0000, 2);
    lemma_count_at(bits, 0x4020_0000, 0x4060_0000, 3);
    lemma_count_at(bits, 0x4060_0000, 0x4090_0000, 4);
    lemma_count_at(bits, 0x4090_0000, 0x40b0_0000, 5);
    lemma_count_at(bits, 0x40b0_0000, 0x40d0_0000, 6);
    lemma_count_at(bits, 0x40d0_0000, 0x40f0_0000, 7);
}

/// The single of an odd number of halves.
proof fn lemma_half(bits: u32, u: nat, k: nat, odd: nat, shift: nat)
    requires
        0x80_0000 <= k <= 0x100_0000,
        bits == u * 0x80_0000 + k,
        bits < SIGN32,
        k == odd * pow2(shift),
        shift + u == 148,
    ensures
        units32(bits) == odd * pow2(148),
{
    lemma_field_sizes();
    crate::rounding::lemma_units_of_parts(23, u, k);
    lemma_pow2_adds(shift, u);
    assert((odd * pow2(shift)) * pow2(u) == odd * pow2(148)) by (nonlinear_arith)
        requires
            pow2(148) == pow2(shift) * pow2(u),
    ;
}

/// The count of a single is the integer next to it, halves going up: twice the single lies from
/// one below twice the count, in it, up to one above, not in it. A negative single counts as zero.
pub proof fn law_count_is_nearest(bits: u32)
    ensures
        bits >= 0x8000_0000 ==> nearest_count(bits) == 0,
        bits < 0x8000_0000 ==> {
            &&& 2 * nearest_count(bits) * pow2(149) <= 2 * units32(bits) + pow2(149)
            &&& 2 * units32(bits) + pow2(149) < 2 * (nearest_count(bits) + 1) * pow2(149)
        },
{
    if bits < SIGN32 {
        vstd::arithmetic::power2::lemma_pow2_unfold(150);
        lemma_pow2_pos(150);
        let p = pow2(149);
        let top = 2 * units32(bits) + p;
        let q = nearest_count(bits);
        vstd::arithmetic::div_mod::lemma_fundamental_div_mod(top as int, pow2(150) as int);
        vstd::arithmetic::div_mod::lemma_mod_bound(top as int, pow2(150) as int);
        let rest = top % pow2(150);
        assert(2 * q * p <= top && top < 2 * (q + 1) * p) by (nonlinear_arith)
            requires
                top == pow2(150) * q + rest,
                0 <= rest < pow2(150),
                pow2(150) == 2 * p,
        ;
    }
}

/// A finite single is below one half exactly where its sign bit is set or its pattern is below that
/// of one half.
pub proof fn law_below_half(bits: u32)
    ensures
        below_half(bits) <==> bits >= 0x8000_0000 || bits < 0x3f00_0000,
{
    vstd::arithmetic::power2::lemma2_to64();
    assert(1 * pow2(23) == 0x80_0000);
    lemma_half(0x3f00_0000, 125, 0x80_0000, 1, 23);
    vstd::arithmetic::power2::lemma_pow2_unfold(149);
    if bits < 0x3f00_0000 {
        crate::rounding::lemma_units_increase(23, bits as nat, 0x3f00_0000);
    } else if 0x3f00_0000 < bits < SIGN32 {
        crate::rounding::lemma_units_increase(23, 0x3f00_0000, bits as nat);
    }
}

} // verus!
