//! IEEE 754 binary64 values, held as their bit patterns.
//!
//! A finite double is an integer multiple of 2^-1074, so its magnitude is
//! described here as a natural number of those units.  The non-negative
//! doubles, taken in order, have the consecutive bit patterns 0, 1, 2, ...;
//! `grid(p)` is the magnitude of the `p`-th of them.
use vstd::arithmetic::div_mod::{
    lemma_div_by_multiple, lemma_div_is_ordered, lemma_div_multiples_vanish_quotient, lemma_fundamental_div_mod,
    lemma_fundamental_div_mod_converse,
};
use vstd::arithmetic::mul::lemma_mul_strict_inequality;
use vstd::arithmetic::power2::{
    lemma2_to64, lemma2_to64_rest, lemma_pow2_adds, lemma_pow2_pos,
    lemma_pow2_strictly_increases, lemma_pow2_unfold, pow2,
};
use vstd::prelude::*;

verus! {

/// The weight of the implicit leading bit of a normal significand: 2^52.
pub const LEADING: u64 = 0x10_0000_0000_0000;

/// The bit that holds the sign: 2^63.
pub const SIGN: u64 = 0x8000_0000_0000_0000;

/// The bit pattern of positive infinity; larger payloads are NaNs.
pub const INFINITE: u64 = 0x7FF0_0000_0000_0000;

/// Whether the sign bit of `bits` is set.
pub open spec fn is_negative(bits: u64) -> bool {
    bits >= SIGN
}

/// The bits below the sign: the position of the magnitude among the
/// non-negative doubles.
pub open spec fn payload(bits: u64) -> u64 {
    if bits >= SIGN {
        (bits - SIGN) as u64
    } else {
        bits
    }
}

/// Whether `bits` is one of the patterns that stand for no number.
pub open spec fn is_nan(bits: u64) -> bool {
    payload(bits) > INFINITE
}

/// Whether `bits` stands for a number that is not infinite.
pub open spec fn is_finite(bits: u64) -> bool {
    payload(bits) < INFINITE
}

/// The number of units that make one: 2^1074.
pub open spec fn one() -> nat {
    pow2(1074)
}

/// The significand of the `p`-th non-negative double.
pub open spec fn significand(p: nat) -> nat {
    if p < LEADING {
        p
    } else {
        (LEADING + p % (LEADING as nat)) as nat
    }
}

/// The power of two, in units, that scales that significand.
pub open spec fn scale(p: nat) -> nat {
    if p < LEADING {
        0
    } else {
        (p / (LEADING as nat) - 1) as nat
    }
}

/// The position of the double with significand `k` at scale `e`.
pub open spec fn position(e: nat, k: nat) -> nat {
    e * (LEADING as nat) + k
}

/// The magnitude, in units, of the `p`-th non-negative double.
pub open spec fn grid(p: nat) -> nat {
    significand(p) * pow2(scale(p))
}

/// How far the `p`-th double lies from `num / den` units, times `den`.
pub open spec fn distance(p: nat, num: nat, den: nat) -> nat {
    if grid(p) * den >= num {
        (grid(p) * den - num) as nat
    } else {
        (num - grid(p) * den) as nat
    }
}

/// `p` is the finite double nearest to `num / den` units; of two equally near
/// ones it is the one with an even significand.
pub open spec fn rounds_to(p: nat, num: nat, den: nat) -> bool {
    &&& p < INFINITE
    &&& forall|q: nat|
        q < INFINITE ==> {
            &&& distance(p, num, den) <= #[trigger] distance(q, num, den)
            &&& q != p && distance(p, num, den) == distance(q, num, den) ==> p % 2 == 0
        }
}

/// The finite double nearest to `num / den` units, ties to even.
pub open spec fn nearest(num: nat, den: nat) -> nat {
    choose|p: nat| rounds_to(p, num, den)
}

/// The integer nearest to `units` units, halves away from zero.
pub open spec fn rounded(units: nat) -> nat {
    (units + pow2(1073)) / one()
}

proof fn lemma_powers()
    ensures
        pow2(6) == 64,
        pow2(7) == 128,
        pow2(52) == LEADING,
        pow2(53) == 2 * LEADING,
        pow2(54) == 4 * LEADING,
{
    lemma2_to64();
    lemma2_to64_rest();
}

/// A double with scale `e` and significand `k` stands at position
/// `e * 2^52 + k`, and a significand that has just outgrown its width stands
/// for the same magnitude one scale up.
proof fn lemma_grid(e: nat, k: nat)
    requires
        k <= 2 * LEADING,
        e == 0 || k >= LEADING,
    ensures
        grid(position(e, k)) == k * pow2(e),
{
    let p = position(e, k);
    let w: int = LEADING as int;
    if k < LEADING {
        assert(e * (LEADING as nat) == 0) by (nonlinear_arith)
            requires
                e == 0,
        ;
    } else if k < 2 * LEADING {
        assert(p == (e + 1) * w + (k - w)) by (nonlinear_arith)
            requires
                p == e * w + k,
        ;
        lemma_fundamental_div_mod_converse(p as int, w, (e + 1) as int, k - w);
        assert(p >= w) by (nonlinear_arith)
            requires
                p == e * w + k,
                k >= w,
                w > 0,
                e >= 0,
        ;
    } else {
        assert(p == (e + 2) * w) by (nonlinear_arith)
            requires
                p == e * w + k,
                k == 2 * w,
        ;
        lemma_fundamental_div_mod_converse(p as int, w, (e + 2) as int, 0);
        assert(p >= w) by (nonlinear_arith)
            requires
                p == e * w + k,
                k >= w,
                w > 0,
                e >= 0,
        ;
        lemma_pow2_unfold(e + 1);
        assert(w * (2 * pow2(e)) == (2 * w) * pow2(e)) by (nonlinear_arith);
    }
}

/// The inverse of `lemma_grid`: how a position splits into its scale and its
/// significand.
proof fn lemma_split(p: nat)
    ensures
        p == position(scale(p), significand(p)),
        significand(p) < 2 * LEADING,
        scale(p) == 0 || significand(p) >= LEADING,
        p < INFINITE ==> scale(p) <= 2045,
{
    let w: int = LEADING as int;
    if p >= LEADING {
        lemma_fundamental_div_mod(p as int, w);
        assert(p == (p / (LEADING as nat) - 1) * w + (w + p % (LEADING as nat))) by (nonlinear_arith)
            requires
                p == w * (p / (LEADING as nat)) + p % (LEADING as nat),
        ;
    }
}

proof fn lemma_grid_step(p: nat)
    ensures
        grid(p) < grid(p + 1),
{
    lemma_split(p);
    let e = scale(p);
    let k = significand(p);
    lemma_grid(e, k);
    lemma_grid(e, k + 1);
    lemma_pow2_pos(e);
    assert(k * pow2(e) < (k + 1) * pow2(e)) by (nonlinear_arith)
        requires
            pow2(e) > 0,
    ;
}

/// Doubles are ordered as their positions are.
pub proof fn grid_is_increasing(p: nat, q: nat)
    requires
        p < q,
    ensures
        grid(p) < grid(q),
    decreases q - p,
{
    lemma_grid_step(p);
    if p + 1 < q {
        grid_is_increasing(p + 1, q);
    }
}

/// At most one double is the nearest one.
pub proof fn rounding_is_unique(p: nat, q: nat, num: nat, den: nat)
    requires
        den > 0,
        rounds_to(p, num, den),
        rounds_to(q, num, den),
    ensures
        p == q,
{
    if p <= q {
        lemma_rounding_is_unique_upwards(p, q, num, den);
    } else {
        lemma_rounding_is_unique_upwards(q, p, num, den);
    }
}

proof fn lemma_rounding_is_unique_upwards(p: nat, q: nat, num: nat, den: nat)
    requires
        den > 0,
        rounds_to(p, num, den),
        rounds_to(q, num, den),
        p <= q,
    ensures
        p == q,
{
    if p < q {
        assert(distance(p, num, den) == distance(q, num, den));
        assert(p % 2 == 0 && q % 2 == 0);
        let m: nat = p + 1;
        assert(m < q);
        grid_is_increasing(p, m);
        grid_is_increasing(m, q);
        lemma_mul_strict_inequality(grid(p) as int, grid(m) as int, den as int);
        lemma_mul_strict_inequality(grid(m) as int, grid(q) as int, den as int);
        assert(distance(m, num, den) < distance(p, num, den));
    }
}

/// The nearest double to a value that lies between two adjacent doubles is the
/// nearer of the two, or the even one of two equally near ones.
proof fn lemma_nearer(p: nat, up: bool, num: nat, den: nat)
    requires
        den > 0,
        p + 1 < INFINITE,
        grid(p) * den <= num < grid(p + 1) * den,
        up == {
            ||| distance(p + 1, num, den) < distance(p, num, den)
            ||| distance(p + 1, num, den) == distance(p, num, den) && p % 2 == 1
        },
    ensures
        rounds_to(if up { p + 1 } else { p }, num, den),
{
    let r = if up { p + 1 } else { p };
    assert forall|q: nat| q < INFINITE implies {
        &&& distance(r, num, den) <= #[trigger] distance(q, num, den)
        &&& q != r && distance(r, num, den) == distance(q, num, den) ==> r % 2 == 0
    } by {
        if q < p {
            grid_is_increasing(q, p);
            lemma_mul_strict_inequality(grid(q) as int, grid(p) as int, den as int);
        } else if q > p + 1 {
            grid_is_increasing(p + 1, q);
            lemma_mul_strict_inequality(grid(p + 1) as int, grid(q) as int, den as int);
        }
    }
}

/// The same for two adjacent doubles that are given by their scale `e` and the
/// lower one's significand `k`.
proof fn lemma_rounds(e: nat, k: nat, up: bool, num: nat, den: nat)
    requires
        den > 0,
        k < 2 * LEADING,
        e == 0 || k >= LEADING,
        position(e, k) + 1 < INFINITE,
        k * pow2(e) * den <= num < (k + 1) * pow2(e) * den,
        up == {
            ||| 2 * (num - k * pow2(e) * den) > pow2(e) * den
            ||| 2 * (num - k * pow2(e) * den) == pow2(e) * den && k % 2 == 1
        },
    ensures
        rounds_to(position(e, k) + if up { 1nat } else { 0 }, num, den),
{
    let p = position(e, k);
    lemma_grid(e, k);
    lemma_grid(e, k + 1);
    let low = k * pow2(e) * den;
    let high = (k + 1) * pow2(e) * den;
    assert(high == low + pow2(e) * den) by (nonlinear_arith)
        requires
            low == k * pow2(e) * den,
            high == (k + 1) * pow2(e) * den,
    ;
    assert(p % 2 == k % 2) by {
        assert(e * (LEADING as nat) == 2 * (e * 0x8_0000_0000_0000nat)) by (nonlinear_arith);
    }
    assert(grid(p) * den == low);
    assert(grid(p + 1) * den == high);
    lemma_nearer(p, up, num, den);
}

/// Between zero and a double that exceeds it, every value has two adjacent
/// doubles around it.
proof fn lemma_bracket(top: nat, num: nat, den: nat) -> (p: nat)
    requires
        den > 0,
        num < grid(top) * den,
    ensures
        p < top,
        grid(p) * den <= num < grid(p + 1) * den,
    decreases top,
{
    if top == 0 {
        assert(significand(0) * pow2(scale(0)) == 0) by (nonlinear_arith)
            requires
                significand(0) == 0,
        ;
        assert(grid(0) * den == 0) by (nonlinear_arith)
            requires
                grid(0) == 0,
        ;
        0
    } else if num < grid((top - 1) as nat) * den {
        lemma_bracket((top - 1) as nat, num, den)
    } else {
        (top - 1) as nat
    }
}

/// Every value below a finite double has a nearest double.
pub proof fn nearest_exists(top: nat, num: nat, den: nat)
    requires
        den > 0,
        top < INFINITE,
        num < grid(top) * den,
    ensures
        rounds_to(nearest(num, den), num, den),
{
    let p = lemma_bracket(top, num, den);
    let up = distance(p + 1, num, den) < distance(p, num, den) || (distance(p + 1, num, den) == distance(
        p,
        num,
        den,
    ) && p % 2 == 1);
    lemma_nearer(p, up, num, den);
}

/// Rounding keeps order: a larger value never has a smaller nearest double.
pub proof fn rounding_is_monotone(p: nat, q: nat, a: nat, b: nat, den: nat)
    requires
        den > 0,
        a <= b,
        rounds_to(p, a, den),
        rounds_to(q, b, den),
    ensures
        p <= q,
{
    if p > q {
        grid_is_increasing(q, p);
        lemma_mul_strict_inequality(grid(q) as int, grid(p) as int, den as int);
        assert(distance(p, a, den) <= distance(q, a, den));
        assert(distance(q, b, den) <= distance(p, b, den));
        assert(a == b);
        rounding_is_unique(p, q, a, den);
    }
}

/// A magnitude that is itself a double is the nearest double to itself.
pub proof fn exact_values_round_to_themselves(p: nat)
    requires
        p < INFINITE,
    ensures
        rounds_to(p, grid(p), 1),
        nearest(grid(p), 1) == p,
{
    assert forall|q: nat| q < INFINITE implies {
        &&& distance(p, grid(p), 1) <= #[trigger] distance(q, grid(p), 1)
        &&& q != p && distance(p, grid(p), 1) == distance(q, grid(p), 1) ==> p % 2 == 0
    } by {
        if q < p {
            grid_is_increasing(q, p);
        } else if q > p {
            grid_is_increasing(p, q);
        }
    }
    assert(rounds_to(p, grid(p), 1));
    rounding_is_unique(p, nearest(grid(p), 1), grid(p), 1);
}

/// The first double is zero.
pub proof fn grid_starts_at_zero()
    ensures
        grid(0) == 0,
{
    assert(significand(0) * pow2(scale(0)) == 0) by (nonlinear_arith)
        requires
            significand(0) == 0,
    ;
}

/// A double whose significand, shifted, spells out an integer is that integer.
pub proof fn grid_of_integer(p: nat, n: nat)
    requires
        scale(p) <= 1074,
        significand(p) == n * pow2((1074 - scale(p)) as nat),
    ensures
        grid(p) == n * one(),
{
    let s: nat = (1074 - scale(p)) as nat;
    lemma_pow2_adds(s, scale(p));
    assert((n * pow2(s)) * pow2(scale(p)) == n * (pow2(s) * pow2(scale(p)))) by (nonlinear_arith);
}

/// Whatever fits in a significand, at any scale of the format, is a double.
pub proof fn small_multiples_are_doubles(k: nat, e: nat) -> (p: nat)
    requires
        k < 2 * LEADING,
        e <= 2045,
    ensures
        p < INFINITE,
        grid(p) == k * pow2(e),
    decreases e,
{
    if e == 0 || k >= LEADING {
        lemma_grid(e, k);
        assert(position(e, k) < INFINITE) by (nonlinear_arith)
            requires
                position(e, k) == e * (LEADING as nat) + k,
                e <= 2045,
                k < 2 * LEADING,
                INFINITE == 2047 * LEADING,
        ;
        position(e, k)
    } else {
        lemma_pow2_unfold(e);
        let half = pow2((e - 1) as nat);
        assert(k * (2 * half) == (2 * k) * half) by (nonlinear_arith);
        small_multiples_are_doubles(2 * k, (e - 1) as nat)
    }
}

/// An integer that is not too large is a double, and its own nearest one.
pub proof fn integers_are_doubles(n: nat)
    requires
        n < 2 * LEADING,
    ensures
        rounds_to(nearest(n * one(), 1), n * one(), 1),
        grid(nearest(n * one(), 1)) == n * one(),
{
    let p = small_multiples_are_doubles(n, 1074);
    exact_values_round_to_themselves(p);
}

/// Rounding to an integer keeps order.
pub proof fn rounded_is_monotone(a: nat, b: nat)
    requires
        a <= b,
    ensures
        rounded(a) <= rounded(b),
{
    lemma_pow2_pos(1074);
    lemma_div_is_ordered((a + pow2(1073)) as int, (b + pow2(1073)) as int, one() as int);
}

/// An integer is rounded to itself.
pub proof fn integers_round_to_themselves(n: nat)
    ensures
        rounded(n * one()) == n,
{
    lemma_pow2_pos(1073);
    lemma_pow2_unfold(1074);
    lemma_fundamental_div_mod_converse(
        (n * one() + pow2(1073)) as int,
        one() as int,
        n as int,
        pow2(1073) as int,
    );
}

/// Splits a position into the scale and the significand of its double.
fn split(p: u64) -> (r: (u64, u64))
    ensures
        r.0 == scale(p as nat),
        r.1 == significand(p as nat),
{
    if p < LEADING {
        (0, p)
    } else {
        (p / LEADING - 1, LEADING + p % LEADING)
    }
}

/// A double divided by one hundred: the double nearest to the quotient.
pub(crate) fn divide_by_hundred(p: u64) -> (r: u64)
    requires
        p < INFINITE,
    ensures
        r == nearest(grid(p as nat), 100),
        rounds_to(r as nat, grid(p as nat), 100),
{
    let (e, k) = split(p);
    proof {
        lemma_split(p as nat);
        lemma_powers();
    }
    let ghost num = grid(p as nat);
    // The value is n * 2^low units, and n / 100 fills a significand.
    let low: u64;
    let n: u64;
    if e >= 7 {
        if k * 128 / 100 < 2 * LEADING {
            low = e - 7;
            n = k * 128;
            proof {
                lemma_pow2_adds(7, low as nat);
                assert(k * (128 * pow2(low as nat)) == (k * 128) * pow2(low as nat)) by (nonlinear_arith);
            }
        } else {
            low = e - 6;
            n = k * 64;
            proof {
                lemma_pow2_adds(6, low as nat);
                assert(k * (64 * pow2(low as nat)) == (k * 64) * pow2(low as nat)) by (nonlinear_arith);
            }
        }
    } else {
        low = 0;
        let factor: u64 = power_of_two(e);
        proof {
            lemma2_to64();
            assert(1 <= factor <= 64);
            assert(k * factor <= k * 64) by (nonlinear_arith)
                requires
                    factor <= 64,
            ;
            assert(k * factor >= k) by (nonlinear_arith)
                requires
                    factor >= 1,
            ;
        }
        n = k * factor;
    }
    assert(num == n * pow2(low as nat));
    let q: u64 = n / 100;
    let rest: u64 = n % 100;
    let up: bool = 2 * rest > 100 || (2 * rest == 100 && q % 2 == 1);
    proof {
        let u = pow2(low as nat);
        lemma_pow2_pos(low as nat);
        assert(n == 100 * q + rest);
        assert(q * u * 100 <= n * u < (q + 1) * u * 100) by (nonlinear_arith)
            requires
                n == 100 * q + rest,
                0 <= rest < 100,
                u > 0,
        ;
        assert(n * u - q * u * 100 == rest * u) by (nonlinear_arith)
            requires
                n == 100 * q + rest,
        ;
        assert((2 * (rest * u) > u * 100) == (2 * rest > 100)) by (nonlinear_arith)
            requires
                u > 0,
        ;
        assert((2 * (rest * u) == u * 100) == (2 * rest == 100)) by (nonlinear_arith)
            requires
                u > 0,
        ;
        lemma_rounds(low as nat, q as nat, up, num, 100);
    }
    let r: u64 = low * LEADING + q + if up { 1 } else { 0 };
    proof {
        rounding_is_unique(r as nat, nearest(num, 100), num, 100);
    }
    r
}

/// A double times an integer: the double nearest to the product.
pub(crate) fn multiply(p: u64, factor: u32) -> (r: u64)
    requires
        p < INFINITE,
        scale(p as nat) <= 2000,
    ensures
        r == nearest((factor as nat) * grid(p as nat), 1),
        rounds_to(r as nat, (factor as nat) * grid(p as nat), 1),
{
    let (e, k) = split(p);
    let ghost num: nat = (factor as nat) * grid(p as nat);
    proof {
        lemma_split(p as nat);
        assert(k * factor <= k * 0x1_0000_0000) by (nonlinear_arith)
            requires
                factor <= 0x1_0000_0000,
        ;
        assert(num == (k * factor) * pow2(e as nat)) by (nonlinear_arith)
            requires
                num == factor * (k * pow2(e as nat)),
        ;
    }
    if factor == 0 {
        assert(num == 0) by (nonlinear_arith)
            requires
                num == (factor as nat) * grid(p as nat),
                factor == 0,
        ;
        proof {
            lemma_grid(0, 0);
            exact_values_round_to_themselves(0);
        }
        return 0;
    }
    let n: u128 = k as u128 * factor as u128;
    assert(n >= k) by (nonlinear_arith)
        requires
            n == k * factor,
            factor >= 1,
    ;
    let mut high: u128 = n;
    let mut unit: u128 = 1;
    let mut shift: u64 = 0;
    proof {
        lemma2_to64();
        assert(n == high * unit) by (nonlinear_arith)
            requires
                n == high,
                unit == 1,
        ;
    }
    while high >= 2 * LEADING as u128
        invariant
            n < 0x20_0000_0000_0000 * 0x1_0000_0000,
            unit == pow2(shift as nat),
            unit > 0,
            high * unit <= n < (high + 1) * unit,
            e > 0 ==> high >= LEADING,
            shift == 0 ==> high == n,
            shift > 0 ==> high >= LEADING,
            shift <= 33,
        decreases high,
    {
        proof {
            lemma_pow2_unfold((shift + 1) as nat);
            let h: int = high as int;
            let u: int = unit as int;
            assert(unit <= 0x1_0000_0000) by (nonlinear_arith)
                requires
                    high * unit <= n,
                    n < 0x20_0000_0000_0000 * 0x1_0000_0000,
                    high >= 0x20_0000_0000_0000,
            ;
            lemma2_to64();
            if shift >= 33 {
                lemma_pow2_strictly_increases(32, shift as nat);
            }
            assert((h / 2) * (2 * u) <= n) by (nonlinear_arith)
                requires
                    h * u <= n,
                    2 * (h / 2) <= h,
                    u > 0,
            ;
            assert(n < (h / 2 + 1) * (2 * u)) by (nonlinear_arith)
                requires
                    n < (h + 1) * u,
                    h + 1 <= 2 * (h / 2) + 2,
                    u > 0,
            ;
        }
        high = high / 2;
        unit = unit * 2;
        shift = shift + 1;
    }
    assert(high * unit <= n);
    let rest: u128 = n - high * unit;
    let up: bool = 2 * rest > unit || (2 * rest == unit && high % 2 == 1);
    proof {
        let low = pow2(e as nat);
        lemma_pow2_pos(e as nat);
        lemma_pow2_adds(shift as nat, e as nat);
        let u: int = unit as int;
        let h: int = high as int;
        let top: nat = (e + shift) as nat;
        assert(pow2(top) == u * low);
        assert(h * (u * low) * 1 == (h * u) * low) by (nonlinear_arith);
        assert((h + 1) * (u * low) * 1 == ((h + 1) * u) * low) by (nonlinear_arith);
        assert((h * u) * low <= n * low < ((h + 1) * u) * low) by (nonlinear_arith)
            requires
                h * u <= n < (h + 1) * u,
                low > 0,
        ;
        assert(n * low - (h * u) * low == rest * low) by (nonlinear_arith)
            requires
                rest == n - h * u,
        ;
        assert((2 * (rest * low) > u * low * 1) == (2 * rest > u)) by (nonlinear_arith)
            requires
                low > 0,
        ;
        assert((2 * (rest * low) == u * low * 1) == (2 * rest == u)) by (nonlinear_arith)
            requires
                low > 0,
        ;
        lemma_rounds(top, high as nat, up, num, 1);
    }
    let r: u64 = (e + shift) * LEADING + high as u64 + if up { 1 } else { 0 };
    proof {
        rounding_is_unique(r as nat, nearest(num, 1), num, 1);
    }
    r
}

/// The integer nearest to a magnitude, halves away from zero, or 2^31 where
/// that is smaller.
pub(crate) fn round_magnitude(p: u64) -> (r: u64)
    ensures
        r == if rounded(grid(p as nat)) <= 0x8000_0000 { rounded(grid(p as nat)) } else { 0x8000_0000 },
{
    let (e, k) = split(p);
    proof {
        lemma_split(p as nat);
        lemma_powers();
        lemma_pow2_pos(e as nat);
        lemma_pow2_pos(1074);
    }
    let ghost units = grid(p as nat);
    if e >= 1074 {
        proof {
            // The magnitude is at least 2^52.
            let extra: nat = (e - 1074) as nat;
            lemma_pow2_adds(extra, 1074);
            lemma_pow2_pos(extra);
            assert(units >= LEADING * one()) by (nonlinear_arith)
                requires
                    units == k * (pow2(extra) * one()),
                    k >= LEADING,
                    pow2(extra) >= 1,
                    one() >= 0,
            ;
            lemma_rounded_at_least(units, LEADING as nat);
        }
        return 0x8000_0000;
    }
    let shift: u64 = 1074 - e;
    if shift > 54 {
        proof {
            // The magnitude is below one quarter.
            lemma_pow2_adds(54, (1074 - 54) as nat);
            lemma_pow2_strictly_increases(e as nat, (1074 - 54) as nat);
            lemma_pow2_unfold(1074);
            let top = pow2((1074 - 54) as nat);
            assert(units <= 2 * LEADING * top) by (nonlinear_arith)
                requires
                    units == k * pow2(e as nat),
                    k <= 2 * LEADING,
                    pow2(e as nat) <= top,
            ;
            assert(2 * (2 * LEADING * top) == 4 * LEADING * top) by (nonlinear_arith);
            assert(units < 2 * LEADING * top) by (nonlinear_arith)
                requires
                    units == k * pow2(e as nat),
                    k < 2 * LEADING,
                    pow2(e as nat) <= top,
                    top > 0,
            ;
            lemma_fundamental_div_mod_converse((units + pow2(1073)) as int, one() as int, 0, (units + pow2(1073)) as int);
        }
        return 0;
    }
    let half: u64 = power_of_two(shift - 1);
    proof {
        let low = pow2(e as nat);
        lemma_pow2_unfold(shift as nat);
        lemma_pow2_adds(shift as nat, e as nat);
        lemma_pow2_adds((shift - 1) as nat, e as nat);
        if shift - 1 < 53 {
            lemma_pow2_strictly_increases((shift - 1) as nat, 53);
        }
        assert(units + pow2(1073) == low * (k + half)) by (nonlinear_arith)
            requires
                units == k * low,
                pow2(1073) == half * low,
        ;
        assert(one() == low * (2 * half)) by (nonlinear_arith)
            requires
                one() == (2 * half) * low,
        ;
        lemma_div_multiples_vanish_quotient(low as int, (k + half) as int, (2 * half) as int);
    }
    let r: u64 = (k + half) / (2 * half);
    assert(r == rounded(units));
    if r <= 0x8000_0000 {
        r
    } else {
        0x8000_0000
    }
}

/// Rounding keeps a magnitude above an integer that it is not below.
proof fn lemma_rounded_at_least(units: nat, n: nat)
    requires
        units >= n * one(),
    ensures
        rounded(units) >= n,
{
    lemma_pow2_pos(1074);
    lemma_div_is_ordered((n * one()) as int, (units + pow2(1073)) as int, one() as int);
    lemma_div_by_multiple(n as int, one() as int);
}

/// Two to the power of a small exponent.
fn power_of_two(e: u64) -> (r: u64)
    requires
        e < 64,
    ensures
        r == pow2(e as nat),
{
    let mut r: u64 = 1;
    let mut i: u64 = 0;
    proof {
        lemma2_to64();
    }
    while i < e
        invariant
            i <= e < 64,
            r == pow2(i as nat),
        decreases e - i,
    {
        proof {
            lemma_pow2_unfold((i + 1) as nat);
            lemma2_to64_rest();
            if i + 1 < 63 {
                lemma_pow2_strictly_increases((i + 1) as nat, 63);
            }
        }
        r = r * 2;
        i = i + 1;
    }
    r
}

} // verus!
