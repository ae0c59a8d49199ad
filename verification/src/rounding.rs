//! Correct rounding in a binary floating point format.
//!
//! A format is given by `f`, the width of its fraction field. The magnitude of a number is its
//! bit pattern without the sign; read as an integer it orders the numbers by size. All values
//! are measured in units of the smallest positive number of the format, so that every number of
//! the format is an integer.
use vstd::arithmetic::div_mod::lemma_fundamental_div_mod;
use vstd::arithmetic::div_mod::lemma_fundamental_div_mod_converse;
use vstd::arithmetic::power2::lemma_pow2_adds;
use vstd::arithmetic::power2::lemma_pow2_pos;
use vstd::arithmetic::power2::lemma_pow2_strictly_increases;
use vstd::arithmetic::power2::lemma_pow2_unfold;
use vstd::arithmetic::power2::pow2;
use vstd::prelude::*;

verus! {

/// Value of the magnitude `mag`, in units of the smallest positive number of the format.
///
/// The magnitude of infinity gets the value that the next larger exponent would have.
pub open spec fn units(f: nat, mag: nat) -> nat {
    let field = mag / pow2(f);
    let fraction = mag % pow2(f);
    if field == 0 {
        fraction
    } else {
        (pow2(f) + fraction) * pow2((field - 1) as nat)
    }
}

/// Whether `mag` is the magnitude nearest to `num / den` units, with ties going to the even
/// magnitude and everything from half way past the largest finite number going to `inf`.
pub open spec fn rounds_to(f: nat, inf: nat, num: nat, den: nat, mag: nat) -> bool {
    &&& mag <= inf
    &&& mag > 0 ==> {
        let middle = den * (units(f, (mag - 1) as nat) + units(f, mag));
        2 * num > middle || (2 * num == middle && mag % 2 == 0)
    }
    &&& mag < inf ==> {
        let middle = den * (units(f, mag) + units(f, mag + 1));
        2 * num < middle || (2 * num == middle && mag % 2 == 0)
    }
}

/// A magnitude written as `u * 2^f + k` with `k` in the range of a significand has the value
/// `k * 2^u`; the carry out of the significand included.
pub proof fn lemma_units_of_parts(f: nat, u: nat, k: nat)
    requires
        k <= 2 * pow2(f),
        u == 0 || pow2(f) <= k,
    ensures
        units(f, u * pow2(f) + k) == k * pow2(u),
{
    let p = pow2(f);
    lemma_pow2_pos(f);
    let mag = u * p + k;
    if k == 2 * p {
        assert(mag == (u + 2) * p + 0) by (nonlinear_arith)
            requires
                mag == u * p + k,
                k == 2 * p,
        ;
        lemma_fundamental_div_mod_converse(mag as int, p as int, (u + 2) as int, 0);
        lemma_pow2_unfold(u + 1);
        assert((p + 0) * (2 * pow2(u)) == (2 * p) * pow2(u)) by (nonlinear_arith);
    } else if k >= p {
        assert(mag == (u + 1) * p + (k - p)) by (nonlinear_arith)
            requires
                mag == u * p + k,
        ;
        lemma_fundamental_div_mod_converse(mag as int, p as int, (u + 1) as int, k - p);
    } else {
        assert(u * p == 0) by (nonlinear_arith)
            requires
                u == 0,
        ;
        lemma_fundamental_div_mod_converse(mag as int, p as int, 0, k as int);
        vstd::arithmetic::power2::lemma2_to64();
        assert(pow2(u) == 1);
        assert(k * pow2(u) == k) by (nonlinear_arith)
            requires
                pow2(u) == 1,
        ;
    }
}

/// A larger magnitude has a larger value.
pub proof fn lemma_units_increase(f: nat, a: nat, b: nat)
    requires
        a < b,
    ensures
        units(f, a) < units(f, b),
    decreases b - a,
{
    if a + 1 < b {
        lemma_units_increase(f, a, (b - 1) as nat);
        lemma_units_increase(f, (b - 1) as nat, b);
    } else {
        let p = pow2(f);
        lemma_pow2_pos(f);
        let field = a / p;
        let fraction = a % p;
        lemma_fundamental_div_mod(a as int, p as int);
        let u = if field == 0 { 0nat } else { (field - 1) as nat };
        let k = if field == 0 { fraction } else { p + fraction };
        assert(a == u * p + k) by (nonlinear_arith)
            requires
                a == p * field + fraction,
                field == 0 ==> u == 0 && k == fraction,
                field > 0 ==> u == field - 1 && k == p + fraction,
        ;
        lemma_units_of_parts(f, u, k);
        lemma_units_of_parts(f, u, k + 1);
        lemma_pow2_pos(u);
        assert(k * pow2(u) < (k + 1) * pow2(u)) by (nonlinear_arith)
            requires
                pow2(u) > 0,
        ;
    }
}

/// Rounding has one result.
pub proof fn lemma_rounds_to_unique(f: nat, inf: nat, num: nat, den: nat, a: nat, b: nat)
    requires
        den > 0,
        rounds_to(f, inf, num, den, a),
        rounds_to(f, inf, num, den, b),
    ensures
        a == b,
{
    lemma_rounds_to_at_most(f, inf, num, den, a, b);
    lemma_rounds_to_at_most(f, inf, num, den, b, a);
}

proof fn lemma_rounds_to_at_most(f: nat, inf: nat, num: nat, den: nat, a: nat, b: nat)
    requires
        den > 0,
        rounds_to(f, inf, num, den, a),
        rounds_to(f, inf, num, den, b),
    ensures
        b <= a,
{
    if a + 1 < b {
        let low = units(f, a) + units(f, a + 1);
        let high = units(f, (b - 1) as nat) + units(f, b);
        lemma_units_increase(f, a, (b - 1) as nat);
        lemma_units_increase(f, a + 1, b);
        assert(den * low < den * high) by (nonlinear_arith)
            requires
                den > 0,
                low < high,
        ;
    }
}

/// Whether `num / den` units lie in `[sig * 2^q, (sig + 1) * 2^q)`, on the lower end exactly
/// where `sticky` is false.
pub open spec fn truncates_to(num: nat, den: nat, sig: nat, q: int, sticky: bool) -> bool {
    let up = pow2(if q > 0 { q as nat } else { 0 });
    let down = pow2(if q < 0 { (-q) as nat } else { 0 });
    &&& den > 0
    &&& (sig * up) * den <= num * down
    &&& num * down < ((sig + 1) * up) * den
    &&& sticky == ((sig * up) * den < num * down)
}

spec fn carry(up: bool) -> nat {
    if up {
        1
    } else {
        0
    }
}

spec fn capped(inf: nat, mag: nat) -> nat {
    if mag < inf {
        mag
    } else {
        inf
    }
}

/// Rounding `num / den` between the neighbours `kept * 2^u` and `(kept + 1) * 2^u`.
proof fn lemma_round_between(f: nat, inf: nat, u: nat, kept: nat, up: bool, num: nat, den: nat)
    requires
        f > 0,
        den > 0,
        kept < 2 * pow2(f),
        u == 0 || pow2(f) <= kept,
        den * (kept * pow2(u)) <= num,
        num < den * ((kept + 1) * pow2(u)),
        !up ==> 2 * num <= den * ((2 * kept + 1) * pow2(u)),
        up ==> 2 * num >= den * ((2 * kept + 1) * pow2(u)),
        2 * num == den * ((2 * kept + 1) * pow2(u)) ==> up == (kept % 2 == 1),
    ensures
        rounds_to(f, inf, num, den, capped(inf, u * pow2(f) + kept + carry(up))),
{
    let p = pow2(f);
    let lower = u * p + kept;
    let mag = lower + carry(up);
    let scale = pow2(u);
    lemma_units_of_parts(f, u, kept);
    lemma_units_of_parts(f, u, kept + 1);
    assert(lower % 2 == kept % 2) by {
        lemma_pow2_unfold(f);
        assert(u * p == 2 * (u * pow2((f - 1) as nat))) by (nonlinear_arith)
            requires
                p == 2 * pow2((f - 1) as nat),
        ;
    }
    let middle = units(f, lower) + units(f, lower + 1);
    assert(middle == (2 * kept + 1) * scale) by (nonlinear_arith)
        requires
            middle == kept * scale + (kept + 1) * scale,
    ;
    if mag > 0 {
        let below = units(f, (mag - 1) as nat);
        lemma_units_increase(f, (mag - 1) as nat, mag);
        if !up {
            assert(den * (below + units(f, mag)) < 2 * (den * units(f, mag))) by (nonlinear_arith)
                requires
                    den > 0,
                    below < units(f, mag),
            ;
        }
        assert(2 * num > den * (below + units(f, mag)) || (2 * num == den * (below + units(f, mag))
            && mag % 2 == 0));
        if mag > inf && inf > 0 {
            lemma_units_increase(f, (inf - 1) as nat, (mag - 1) as nat);
            lemma_units_increase(f, inf, mag);
            assert(den * (units(f, (inf - 1) as nat) + units(f, inf)) < den * (below + units(
                f,
                mag,
            ))) by (nonlinear_arith)
                requires
                    den > 0,
                    units(f, (inf - 1) as nat) + units(f, inf) < below + units(f, mag),
            ;
        }
    }
    if up {
        lemma_units_increase(f, mag, mag + 1);
        assert(2 * (den * units(f, mag)) < den * (units(f, mag) + units(f, mag + 1)))
            by (nonlinear_arith)
            requires
                den > 0,
                units(f, mag) < units(f, mag + 1),
        ;
    }
}

/// Comparing `num / den` with half of `t * 2^u`, where `u == q + d`.
proof fn lemma_compare_with_half_steps(
    num: nat,
    den: nat,
    sig: nat,
    q: int,
    sticky: bool,
    d: nat,
    u: nat,
    t: nat,
)
    requires
        truncates_to(num, den, sig, q, sticky),
        u == q + d,
    ensures
        t * pow2(d) <= 2 * sig ==> den * (t * pow2(u)) <= 2 * num,
        t * pow2(d) < 2 * sig ==> den * (t * pow2(u)) < 2 * num,
        t * pow2(d) == 2 * sig && sticky ==> den * (t * pow2(u)) < 2 * num,
        t * pow2(d) == 2 * sig && !sticky ==> den * (t * pow2(u)) == 2 * num,
        2 * sig + 2 <= t * pow2(d) ==> 2 * num < den * (t * pow2(u)),
{
    let a_exp = if q > 0 { q as nat } else { 0nat };
    let b_exp = if q < 0 { (-q) as nat } else { 0nat };
    let a = pow2(a_exp);
    let b = pow2(b_exp);
    let dd = pow2(d);
    let uu = pow2(u);
    lemma_pow2_pos(a_exp);
    lemma_pow2_pos(b_exp);
    assert(dd * a == uu * b) by {
        lemma_pow2_adds(d, a_exp);
        lemma_pow2_adds(u, b_exp);
        assert(d + a_exp == u + b_exp);
    }
    let td = t * dd;
    let target = den * (t * uu);
    assert((td * a) * den == target * b) by (nonlinear_arith)
        requires
            td == t * dd,
            target == den * (t * uu),
            dd * a == uu * b,
    ;
    let low = (sig * a) * den;
    let high = ((sig + 1) * a) * den;
    assert((2 * sig * a) * den == 2 * low) by (nonlinear_arith)
        requires
            low == (sig * a) * den,
    ;
    assert(((2 * sig + 2) * a) * den == 2 * high) by (nonlinear_arith)
        requires
            high == ((sig + 1) * a) * den,
    ;
    if td <= 2 * sig {
        assert((td * a) * den <= (2 * sig * a) * den) by (nonlinear_arith)
            requires
                td <= 2 * sig,
        ;
        assert(target <= 2 * num) by (nonlinear_arith)
            requires
                target * b <= 2 * (num * b),
                b > 0,
        ;
    }
    if td < 2 * sig {
        assert((td * a) * den < (2 * sig * a) * den) by (nonlinear_arith)
            requires
                td < 2 * sig,
                a > 0,
                den > 0,
        ;
        assert(target < 2 * num) by (nonlinear_arith)
            requires
                target * b < 2 * (num * b),
                b > 0,
        ;
    }
    if td == 2 * sig {
        if sticky {
            assert(target < 2 * num) by (nonlinear_arith)
                requires
                    target * b < 2 * (num * b),
                    b > 0,
            ;
        } else {
            assert(target == 2 * num) by (nonlinear_arith)
                requires
                    target * b == 2 * (num * b),
                    b > 0,
            ;
        }
    }
    if 2 * sig + 2 <= td {
        assert(((2 * sig + 2) * a) * den <= (td * a) * den) by (nonlinear_arith)
            requires
                2 * sig + 2 <= td,
        ;
        assert(2 * num < target) by (nonlinear_arith)
            requires
                2 * (num * b) < target * b,
                b > 0,
        ;
    }
}

/// Rounding after the low `d` bits of `sig` have been dropped.
proof fn lemma_round_dropping(
    f: nat,
    inf: nat,
    num: nat,
    den: nat,
    sig: nat,
    q: int,
    sticky: bool,
    d: nat,
    u: nat,
    up: bool,
)
    requires
        f > 0,
        truncates_to(num, den, sig, q, sticky),
        d > 0,
        u == q + d,
        sig / pow2(d) < 2 * pow2(f),
        u == 0 || pow2(f) <= sig / pow2(d),
        up == (2 * (sig % pow2(d)) > pow2(d) || (2 * (sig % pow2(d)) == pow2(d) && (sticky || (sig
            / pow2(d)) % 2 == 1))),
    ensures
        rounds_to(f, inf, num, den, capped(inf, u * pow2(f) + sig / pow2(d) + carry(up))),
{
    let dd = pow2(d);
    let kept = sig / dd;
    let rest = sig % dd;
    lemma_pow2_pos(d);
    lemma_pow2_unfold(d);
    lemma_fundamental_div_mod(sig as int, dd as int);
    assert(dd * kept == kept * dd) by (nonlinear_arith);
    assert((2 * kept) * dd == 2 * (kept * dd)) by (nonlinear_arith);
    assert((2 * kept + 1) * dd == 2 * (kept * dd) + dd) by (nonlinear_arith);
    assert((2 * kept + 2) * dd == 2 * (kept * dd) + 2 * dd) by (nonlinear_arith);
    lemma_compare_with_half_steps(num, den, sig, q, sticky, d, u, 2 * kept);
    lemma_compare_with_half_steps(num, den, sig, q, sticky, d, u, 2 * kept + 1);
    lemma_compare_with_half_steps(num, den, sig, q, sticky, d, u, 2 * kept + 2);
    let scale = pow2(u);
    assert(den * ((2 * kept) * scale) == 2 * (den * (kept * scale))) by (nonlinear_arith);
    assert(den * ((2 * kept + 2) * scale) == 2 * (den * ((kept + 1) * scale)))
        by (nonlinear_arith);
    assert(2 * rest < dd ==> 2 * rest + 2 <= dd) by {
        assert(dd == 2 * pow2((d - 1) as nat));
    }
    lemma_round_between(f, inf, u, kept, up, num, den);
}

/// Rounding where nothing has to be dropped.
proof fn lemma_round_exact(
    f: nat,
    inf: nat,
    num: nat,
    den: nat,
    sig: nat,
    q: int,
    e: nat,
    u: nat,
    kept: nat,
)
    requires
        f > 0,
        truncates_to(num, den, sig, q, false),
        q == u + e,
        kept == sig * pow2(e),
        kept < 2 * pow2(f),
        u == 0 || pow2(f) <= kept,
    ensures
        rounds_to(f, inf, num, den, capped(inf, u * pow2(f) + kept)),
{
    let a = pow2(q as nat);
    vstd::arithmetic::power2::lemma2_to64();
    assert(pow2(0) == 1);
    lemma_pow2_adds(e, u);
    lemma_pow2_pos(u);
    let scale = pow2(u);
    assert(sig * a == kept * scale) by (nonlinear_arith)
        requires
            a == pow2(e) * scale,
            kept == sig * pow2(e),
    ;
    assert(num == (sig * a) * den) by (nonlinear_arith)
        requires
            num * 1 == (sig * a) * den,
    ;
    assert(num == den * (kept * scale)) by (nonlinear_arith)
        requires
            num == (sig * a) * den,
            sig * a == kept * scale,
    ;
    assert(den * (kept * scale) < den * ((kept + 1) * scale)) by (nonlinear_arith)
        requires
            den > 0,
            scale > 0,
    ;
    assert(2 * (den * (kept * scale)) < den * ((2 * kept + 1) * scale)) by (nonlinear_arith)
        requires
            den > 0,
            scale > 0,
    ;
    lemma_round_between(f, inf, u, kept, false, num, den);
}

const TOP_BIT: u128 = 0x8000_0000_0000_0000_0000_0000_0000_0000;

/// Two to the power `n`.
pub fn power_of_two(n: u32) -> (r: u128)
    requires
        n < 128,
    ensures
        r == pow2(n as nat),
        r > 0,
{
    let shift: u128 = 127 - n as u128;
    proof {
        lemma_top_bit();
        vstd::bits::lemma_u128_shr_is_div(TOP_BIT, shift);
        vstd::arithmetic::power2::lemma_pow2_subtracts(shift as nat, 127);
        lemma_pow2_pos(n as nat);
    }
    TOP_BIT >> shift
}

proof fn lemma_top_bit()
    ensures
        TOP_BIT == pow2(127),
{
    vstd::arithmetic::power2::lemma2_to64();
    vstd::arithmetic::power2::lemma2_to64_rest();
    lemma_pow2_adds(63, 64);
    assert(pow2(63) * pow2(64) == 0x8000_0000_0000_0000_0000_0000_0000_0000nat);
}

/// Dropping the low `d` bits of a number of `len` bits leaves at most `f + 1` bits, and exactly
/// that many where `d` is the least such number.
proof fn lemma_kept_bits(f: nat, sig: nat, len: nat, d: nat)
    requires
        0 < len,
        pow2((len - 1) as nat) <= sig < pow2(len),
        len <= f + 1 + d,
    ensures
        sig / pow2(d) < 2 * pow2(f),
        len == f + 1 + d ==> pow2(f) <= sig / pow2(d),
{
    let dd = pow2(d);
    let kept = sig / dd;
    lemma_pow2_pos(d);
    lemma_pow2_unfold(f + 1);
    lemma_fundamental_div_mod(sig as int, dd as int);
    lemma_pow2_adds(f + 1, d);
    lemma_pow2_adds(f, d);
    if len < f + 1 + d {
        lemma_pow2_strictly_increases(len, f + 1 + d);
    }
    assert(kept < 2 * pow2(f)) by (nonlinear_arith)
        requires
            dd * kept <= sig,
            sig < (2 * pow2(f)) * dd,
            dd > 0,
    ;
    if len == f + 1 + d {
        assert(pow2(f) <= kept) by (nonlinear_arith)
            requires
                sig < dd * kept + dd,
                pow2(f) * dd <= sig,
                dd > 0,
        ;
    }
}

/// The same for a number that is shifted up by `e` bits.
proof fn lemma_shifted_bits(f: nat, sig: nat, len: nat, e: nat)
    requires
        0 < len,
        pow2((len - 1) as nat) <= sig < pow2(len),
        len + e <= f + 1,
    ensures
        sig * pow2(e) < 2 * pow2(f),
        len + e == f + 1 ==> pow2(f) <= sig * pow2(e),
{
    lemma_pow2_pos(e);
    lemma_pow2_unfold(f + 1);
    lemma_pow2_adds((len - 1) as nat, e);
    lemma_pow2_adds(len, e);
    if len + e < f + 1 {
        lemma_pow2_strictly_increases(len + e, f + 1);
    }
    assert(pow2((len - 1) as nat) * pow2(e) <= sig * pow2(e)) by (nonlinear_arith)
        requires
            pow2((len - 1) as nat) <= sig,
    ;
    assert(sig * pow2(e) < pow2(len) * pow2(e)) by (nonlinear_arith)
        requires
            sig < pow2(len),
            pow2(e) > 0,
    ;
}

/// Rounds to the format with `f` fraction bits a value of which only the leading bits are known:
/// `sig * 2^q` units, or a little more where `sticky` is set.
///
/// `len` is the number of bits of `sig`.
#[verifier::spinoff_prover]
pub fn round_magnitude(f: u32, inf: u64, sig: u128, len: u32, q: i32, sticky: bool) -> (mag: u64)
    requires
        0 < f <= 52,
        0 < len < 128,
        pow2((len - 1) as nat) <= sig < pow2(len as nat),
        -4000 <= q <= 4000,
        sticky ==> len >= f + 2,
    ensures
        mag <= inf,
        forall|num: nat, den: nat|
            truncates_to(num, den, sig as nat, q as int, sticky) ==> #[trigger] rounds_to(
                f as nat,
                inf as nat,
                num,
                den,
                mag as nat,
            ),
{
    let top: i32 = q + len as i32 - (f as i32 + 1);
    let u: i32 = if top > 0 {
        top
    } else {
        0
    };
    let d: i32 = u - q;
    let (kept, up): (u128, bool) = if d <= 0 {
        let e: u32 = (-d) as u32;
        proof {
            lemma_shifted_bits(f as nat, sig as nat, len as nat, e as nat);
            lemma_small_powers(f as nat);
        }
        (sig * power_of_two(e), false)
    } else if d < 128 {
        let step: u128 = power_of_two(d as u32);
        let half: u128 = power_of_two((d - 1) as u32);
        proof {
            lemma_pow2_unfold(d as nat);
        }
        let kept: u128 = sig / step;
        let rest: u128 = sig % step;
        (kept, rest > half || (rest == half && (sticky || kept % 2 == 1)))
    } else {
        proof {
            lemma_pow2_strictly_increases(len as nat, d as nat);
            lemma_pow2_unfold(d as nat);
            if len < d - 1 {
                lemma_pow2_strictly_increases(len as nat, (d - 1) as nat);
            }
            vstd::arithmetic::div_mod::lemma_basic_div(sig as int, pow2(d as nat) as int);
            vstd::arithmetic::div_mod::lemma_small_mod(sig as nat, pow2(d as nat));
        }
        (0, false)
    };
    proof {
        lemma_small_powers(f as nat);
        if d > 0 {
            lemma_kept_bits(f as nat, sig as nat, len as nat, d as nat);
        }
        assert((u as nat) * pow2(f as nat) <= 4200 * 0x10_0000_0000_0000) by (nonlinear_arith)
            requires
                0 <= u <= 4200,
                pow2(f as nat) <= 0x10_0000_0000_0000,
        ;
    }
    let mag: u128 = u as u128 * power_of_two(f) + kept + if up {
        1
    } else {
        0
    };
    assert forall|num: nat, den: nat|
        truncates_to(num, den, sig as nat, q as int, sticky) implies #[trigger] rounds_to(
        f as nat,
        inf as nat,
        num,
        den,
        capped(inf as nat, mag as nat),
    ) by {
        if d <= 0 {
            lemma_round_exact(
                f as nat,
                inf as nat,
                num,
                den,
                sig as nat,
                q as int,
                (-d) as nat,
                u as nat,
                kept as nat,
            );
        } else {
            lemma_round_dropping(
                f as nat,
                inf as nat,
                num,
                den,
                sig as nat,
                q as int,
                sticky,
                d as nat,
                u as nat,
                up,
            );
        }
    }
    let result: u64 = if mag < inf as u128 {
        mag as u64
    } else {
        inf
    };
    assert(result as nat == capped(inf as nat, mag as nat));
    result
}

proof fn lemma_small_powers(f: nat)
    requires
        f <= 52,
    ensures
        pow2(f) <= 0x10_0000_0000_0000,
        pow2(f + 1) <= 0x20_0000_0000_0000,
{
    vstd::arithmetic::power2::lemma2_to64();
    vstd::arithmetic::power2::lemma2_to64_rest();
    if f < 52 {
        lemma_pow2_strictly_increases(f, 52);
        lemma_pow2_strictly_increases(f + 1, 53);
    }
}

/// Whether `mag` is the magnitude nearest to the square root of `num`, ties to even.
pub open spec fn root_rounds_to(f: nat, inf: nat, num: nat, mag: nat) -> bool {
    &&& mag <= inf
    &&& mag > 0 ==> {
        let middle = units(f, (mag - 1) as nat) + units(f, mag);
        4 * num > middle * middle || (4 * num == middle * middle && mag % 2 == 0)
    }
    &&& mag < inf ==> {
        let middle = units(f, mag) + units(f, mag + 1);
        4 * num < middle * middle || (4 * num == middle * middle && mag % 2 == 0)
    }
}

/// Rounding a square root has one result.
pub proof fn lemma_root_rounds_to_unique(f: nat, inf: nat, num: nat, a: nat, b: nat)
    requires
        root_rounds_to(f, inf, num, a),
        root_rounds_to(f, inf, num, b),
    ensures
        a == b,
{
    lemma_root_rounds_to_at_most(f, inf, num, a, b);
    lemma_root_rounds_to_at_most(f, inf, num, b, a);
}

proof fn lemma_root_rounds_to_at_most(f: nat, inf: nat, num: nat, a: nat, b: nat)
    requires
        root_rounds_to(f, inf, num, a),
        root_rounds_to(f, inf, num, b),
    ensures
        b <= a,
{
    if a + 1 < b {
        lemma_units_increase(f, a, (b - 1) as nat);
        lemma_units_increase(f, a + 1, b);
        lemma_compare_squares(
            units(f, a) + units(f, a + 1),
            units(f, (b - 1) as nat) + units(f, b),
        );
    }
}

/// The square root of `num` rounds as every number between the truncated root and its successor.
proof fn lemma_root_rounds(
    f: nat,
    inf: nat,
    num: nat,
    root: nat,
    q: nat,
    sticky: bool,
    mag: nat,
)
    requires
        (root * pow2(q)) * (root * pow2(q)) <= num,
        num < ((root + 1) * pow2(q)) * ((root + 1) * pow2(q)),
        sticky == ((root * pow2(q)) * (root * pow2(q)) < num),
        forall|n: nat, den: nat|
            truncates_to(n, den, root, q as int, sticky) ==> #[trigger] rounds_to(
                f,
                inf,
                n,
                den,
                mag,
            ),
    ensures
        root_rounds_to(f, inf, num, mag),
{
    let a = pow2(q);
    let low = root * a;
    let high = (root + 1) * a;
    lemma_pow2_pos(q);
    vstd::arithmetic::power2::lemma2_to64();
    assert(pow2(0) == 1);
    assert(high == low + a) by (nonlinear_arith)
        requires
            low == root * a,
            high == (root + 1) * a,
    ;
    let below = units(f, (mag - 1) as nat) + units(f, mag);
    let above = units(f, mag) + units(f, mag + 1);
    if sticky {
        let first = 4 * low + 1;
        let second = (4 * high - 1) as nat;
        assert(truncates_to(first, 4, root, q as int, true));
        assert(truncates_to(second, 4, root, q as int, true));
        assert(rounds_to(f, inf, first, 4, mag));
        assert(rounds_to(f, inf, second, 4, mag));
        if mag > 0 {
            assert(below <= 2 * low);
            assert(below * below <= 4 * (low * low)) by (nonlinear_arith)
                requires
                    below <= 2 * low,
            ;
        }
        if mag < inf {
            assert(2 * high <= above);
            assert(4 * (high * high) <= above * above) by (nonlinear_arith)
                requires
                    2 * high <= above,
            ;
        }
    } else {
        assert(truncates_to(low, 1, root, q as int, false));
        assert(rounds_to(f, inf, low, 1, mag));
        assert(4 * num == (2 * low) * (2 * low)) by (nonlinear_arith)
            requires
                num == low * low,
        ;
        if mag > 0 {
            lemma_compare_squares(below, 2 * low);
        }
        if mag < inf {
            lemma_compare_squares(2 * low, above);
        }
    }
}

proof fn lemma_compare_squares(x: nat, y: nat)
    ensures
        x < y ==> x * x < y * y,
        x == y ==> x * x == y * y,
{
    assert(x < y ==> x * x < y * y) by (nonlinear_arith);
}

/// Rounds the square root of `value * 4^q`, where `value` has 125 or 126 bits.
#[verifier::spinoff_prover]
pub fn round_root(f: u32, inf: u64, value: u128, q: i32) -> (mag: u64)
    requires
        0 < f <= 52,
        pow2(124) <= value < pow2(126),
        0 <= q <= 4000,
    ensures
        mag <= inf,
        root_rounds_to(f as nat, inf as nat, value as nat * pow2(2 * (q as nat)), mag as nat),
{
    let root: u128 = integer_root(value);
    let sticky: bool = root * root != value;
    proof {
        lemma_pow2_adds(62, 62);
        lemma_pow2_adds(63, 63);
        assert(pow2(62) <= root < pow2(63)) by (nonlinear_arith)
            requires
                root * root <= value,
                value < (root + 1) * (root + 1),
                pow2(62) * pow2(62) <= value,
                value < pow2(63) * pow2(63),
        ;
    }
    let mag: u64 = round_magnitude(f, inf, root, 63, q, sticky);
    proof {
        let a = pow2(q as nat);
        let num = value as nat * pow2(2 * (q as nat));
        lemma_pow2_adds(q as nat, q as nat);
        lemma_pow2_pos(q as nat);
        let low = root * a;
        let high = (root + 1) * a;
        assert(low * low == (root * root) * (a * a)) by (nonlinear_arith)
            requires
                low == root * a,
        ;
        assert(high * high == ((root + 1) * (root + 1)) * (a * a)) by (nonlinear_arith)
            requires
                high == (root + 1) * a,
        ;
        assert(num == value * (a * a));
        let aa = a * a;
        assert(aa > 0) by (nonlinear_arith)
            requires
                aa == a * a,
                a > 0,
        ;
        assert((root * root) * aa <= value * aa) by (nonlinear_arith)
            requires
                root * root <= value,
                aa > 0,
        ;
        assert(value * aa < ((root + 1) * (root + 1)) * aa) by (nonlinear_arith)
            requires
                value < (root + 1) * (root + 1),
                aa > 0,
        ;
        assert(root * root < value ==> (root * root) * aa < value * aa) by (nonlinear_arith)
            requires
                aa > 0,
        ;
        lemma_root_rounds(
            f as nat,
            inf as nat,
            num,
            root as nat,
            q as nat,
            sticky,
            mag as nat,
        );
    }
    mag
}

/// The integer part of a square root.
fn integer_root(value: u128) -> (r: u128)
    ensures
        r * r <= value,
        value < (r + 1) * (r + 1),
        r < 0x1_0000_0000_0000_0000,
{
    let mut low: u128 = 0;
    let mut high: u128 = 0x1_0000_0000_0000_0000;
    assert(0x1_0000_0000_0000_0000u128 * 0x1_0000_0000_0000_0000u128 > u128::MAX)
        by (nonlinear_arith);
    while high - low > 1
        invariant
            low < high <= 0x1_0000_0000_0000_0000,
            low * low <= value,
            value < high * high,
        decreases high - low,
    {
        let middle: u128 = low + (high - low) / 2;
        assert(middle * middle <= 0xffff_ffff_ffff_ffff * 0xffff_ffff_ffff_ffff)
            by (nonlinear_arith)
            requires
                0 <= middle <= 0xffff_ffff_ffff_ffff,
        ;
        if middle * middle <= value {
            low = middle;
        } else {
            high = middle;
        }
    }
    low
}

/// Every fraction rounds to some magnitude; the search goes up from one that is not too large.
pub proof fn lemma_rounds_to_some(f: nat, inf: nat, num: nat, den: nat, from: nat) -> (mag: nat)
    requires
        from <= inf,
        from > 0 ==> {
            let middle = den * (units(f, (from - 1) as nat) + units(f, from));
            2 * num > middle || (2 * num == middle && from % 2 == 0)
        },
    ensures
        rounds_to(f, inf, num, den, mag),
    decreases inf - from,
{
    if rounds_to(f, inf, num, den, from) {
        from
    } else {
        lemma_rounds_to_some(f, inf, num, den, from + 1)
    }
}

/// Every number has a root that rounds to some magnitude; the search goes up from one that is not
/// too large.
pub proof fn lemma_root_rounds_to_some(f: nat, inf: nat, num: nat, from: nat) -> (mag: nat)
    requires
        from <= inf,
        from > 0 ==> {
            let middle = units(f, (from - 1) as nat) + units(f, from);
            4 * num > middle * middle || (4 * num == middle * middle && from % 2 == 0)
        },
    ensures
        root_rounds_to(f, inf, num, mag),
    decreases inf - from,
{
    if root_rounds_to(f, inf, num, from) {
        from
    } else {
        lemma_root_rounds_to_some(f, inf, num, from + 1)
    }
}

/// How far two numbers are apart.
pub open spec fn distance(x: nat, y: nat) -> nat {
    if x <= y {
        (y - x) as nat
    } else {
        (x - y) as nat
    }
}

/// Rounding is to the nearest number: no other magnitude is nearer to `num / den` units, and of two
/// that are equally near it takes the even one.
pub proof fn law_rounds_to_nearest(
    f: nat,
    inf: nat,
    num: nat,
    den: nat,
    mag: nat,
    other: nat,
)
    requires
        den > 0,
        rounds_to(f, inf, num, den, mag),
        other <= inf,
    ensures
        distance(num, den * units(f, mag)) <= distance(num, den * units(f, other)),
        other != mag && distance(num, den * units(f, mag)) == distance(num, den * units(f, other))
            ==> mag % 2 == 0,
{
    let (u, v) = (units(f, mag), units(f, other));
    let (du, dv) = (den * u, den * v);
    if other < mag {
        let near = units(f, (mag - 1) as nat);
        if other < mag - 1 {
            lemma_units_increase(f, other, (mag - 1) as nat);
        }
        lemma_units_increase(f, other, mag);
        assert(den * (near + u) >= dv + du) by (nonlinear_arith)
            requires
                near >= v,
                dv == den * v,
                du == den * u,
        ;
        if near > v {
            assert(den * (near + u) > dv + du) by (nonlinear_arith)
                requires
                    near > v,
                    den > 0,
                    dv == den * v,
                    du == den * u,
            ;
        }
        assert(dv < du) by (nonlinear_arith)
            requires
                v < u,
                den > 0,
                dv == den * v,
                du == den * u,
        ;
    } else if other > mag {
        let near = units(f, mag + 1);
        if other > mag + 1 {
            lemma_units_increase(f, mag + 1, other);
        }
        lemma_units_increase(f, mag, other);
        assert(den * (u + near) <= du + dv) by (nonlinear_arith)
            requires
                near <= v,
                dv == den * v,
                du == den * u,
        ;
        if near < v {
            assert(den * (u + near) < du + dv) by (nonlinear_arith)
                requires
                    near < v,
                    den > 0,
                    dv == den * v,
                    du == den * u,
            ;
        }
        assert(du < dv) by (nonlinear_arith)
            requires
                u < v,
                den > 0,
                dv == den * v,
                du == den * u,
        ;
    }
}

/// Rounding keeps to the side of every number of the format.
pub proof fn law_rounding_is_bounded(
    f: nat,
    inf: nat,
    num: nat,
    den: nat,
    mag: nat,
    bound: nat,
)
    requires
        den > 0,
        rounds_to(f, inf, num, den, mag),
        bound <= inf,
    ensures
        num <= den * units(f, bound) ==> mag <= bound,
        num >= den * units(f, bound) ==> mag >= bound,
{
    let (u, v) = (units(f, mag), units(f, bound));
    let (du, dv) = (den * u, den * v);
    law_rounds_to_nearest(f, inf, num, den, mag, bound);
    if mag > bound {
        lemma_units_increase(f, bound, mag);
        assert(dv < du) by (nonlinear_arith)
            requires
                v < u,
                den > 0,
                dv == den * v,
                du == den * u,
        ;
    } else if mag < bound {
        lemma_units_increase(f, mag, bound);
        assert(du < dv) by (nonlinear_arith)
            requires
                u < v,
                den > 0,
                dv == den * v,
                du == den * u,
        ;
    }
}

/// Everything from half way past the largest finite number on, and nothing else, becomes infinite.
pub proof fn law_rounding_overflows(f: nat, inf: nat, num: nat, den: nat, mag: nat)
    requires
        den > 0,
        inf > 0,
        inf % 2 == 0,
        rounds_to(f, inf, num, den, mag),
    ensures
        mag == inf <==> 2 * num >= den * (units(f, (inf - 1) as nat) + units(f, inf)),
{
    let last = (inf - 1) as nat;
    let middle = den * (units(f, last) + units(f, inf));
    if mag < last {
        let (u, near) = (units(f, mag), units(f, mag + 1));
        lemma_units_increase(f, mag, last);
        lemma_units_increase(f, mag + 1, inf);
        let top = units(f, last) + units(f, inf);
        assert(den * (u + near) < den * top) by (nonlinear_arith)
            requires
                u + near < top,
                den > 0,
        ;
    }
}

/// Rounding a square root is to the nearest number: the root of `num` lies on the side of `mag` of
/// the middle between `mag` and any other magnitude, and on the middle itself `mag` is even.
pub proof fn law_root_rounds_to_nearest(f: nat, inf: nat, num: nat, mag: nat, other: nat)
    requires
        root_rounds_to(f, inf, num, mag),
        other <= inf,
    ensures
        ({
            let middle = units(f, mag) + units(f, other);
            &&& other < mag ==> middle * middle <= 4 * num
            &&& other > mag ==> 4 * num <= middle * middle
            &&& other != mag && 4 * num == middle * middle ==> mag % 2 == 0
        }),
{
    let (u, v) = (units(f, mag), units(f, other));
    let middle = u + v;
    if other < mag {
        let near = units(f, (mag - 1) as nat) + u;
        if other < mag - 1 {
            lemma_units_increase(f, other, (mag - 1) as nat);
            assert(middle * middle < near * near) by (nonlinear_arith)
                requires
                    middle < near,
            ;
        }
    } else if other > mag {
        let near = u + units(f, mag + 1);
        if other > mag + 1 {
            lemma_units_increase(f, mag + 1, other);
            assert(near * near < middle * middle) by (nonlinear_arith)
                requires
                    near < middle,
            ;
        }
    }
}

} // verus!
