//! What clamping, rounding and drawing do to a percentage, said of the value
//! that it has.
use crate::double::{
    distance, grid, grid_is_increasing, grid_starts_at_zero, nearest, nearest_exists, one, payload, rounded,
    rounding_is_unique, rounds_to, small_multiples_are_doubles, INFINITE, LEADING, SIGN,
};
use crate::percent::{bar_stays_in_its_track, filled_part_fits, filled_part_grows, landmarks, Percent, HUNDRED};
use vstd::arithmetic::div_mod::lemma_fundamental_div_mod;
use vstd::arithmetic::mul::{lemma_mul_inequality, lemma_mul_is_commutative, lemma_mul_is_distributive_add};
use vstd::arithmetic::power2::{lemma2_to64, lemma2_to64_rest, lemma_pow2_adds, lemma_pow2_pos, lemma_pow2_unfold, pow2};
use vstd::prelude::*;

verus! {

/// The sign bit turns a value into its opposite, and values are ordered as the
/// bit patterns without it are.
pub proof fn values_are_signed(a: u64, b: u64)
    requires
        a < b <= INFINITE,
    ensures
        0 <= (Percent { bits: a }).value() < (Percent { bits: b }).value(),
        (Percent { bits: (b + SIGN) as u64 }).value() == -(Percent { bits: b }).value(),
        (Percent { bits: b }).is_number(),
        (Percent { bits: (b + SIGN) as u64 }).is_number(),
{
    grid_is_increasing(a as nat, b as nat);
}

/// Whatever lies beyond infinity, with either sign, is no number.
pub proof fn patterns_beyond_infinity_are_no_numbers(bits: u64)
    requires
        INFINITE < bits < SIGN,
    ensures
        !(Percent { bits }).is_number(),
        !(Percent { bits: (bits + SIGN) as u64 }).is_number(),
{
}

/// Clamping leaves alone what lies between 0 and 100, and takes anything else
/// to the end that it lies beyond; what is no number stays what it is.
pub proof fn clamping_moves_only_what_lies_outside(p: Percent)
    ensures
        p.is_number() && 0 <= p.value() <= 100 * one() ==> p.clamp_spec() == p,
        p.is_number() && p.value() < 0 ==> p.clamp_spec().is_number() && p.clamp_spec().value() == 0,
        p.is_number() && p.value() > 100 * one() ==> p.clamp_spec().is_number() && p.clamp_spec().value() == 100
            * one(),
        !p.is_number() ==> p.clamp_spec() == p,
{
    landmarks();
    grid_starts_at_zero();
}

/// `n` is the integer nearest to a value, and of two that are equally near the
/// one farther from zero.
pub open spec fn is_nearest_integer(n: int, value: int) -> bool {
    if value >= 0 {
        2 * (n * one()) - one() <= 2 * value < 2 * (n * one()) + one()
    } else {
        2 * (n * one()) - one() < 2 * value <= 2 * (n * one()) + one()
    }
}

/// There is only one such integer.
pub proof fn nearest_integer_is_unique(m: int, n: int, value: int)
    requires
        is_nearest_integer(m, value),
        is_nearest_integer(n, value),
    ensures
        m == n,
{
    lemma_pow2_pos(1074);
    if m < n {
        lemma_mul_inequality(m + 1, n, one() as int);
        lemma_mul_is_distributive_add(one() as int, m, 1);
        lemma_mul_is_commutative(one() as int, m + 1);
        lemma_mul_is_commutative(one() as int, m);
    } else if n < m {
        lemma_mul_inequality(n + 1, m, one() as int);
        lemma_mul_is_distributive_add(one() as int, n, 1);
        lemma_mul_is_commutative(one() as int, n + 1);
        lemma_mul_is_commutative(one() as int, n);
    }
}

proof fn lemma_rounded(units: nat)
    ensures
        is_nearest_integer(rounded(units) as int, units as int),
{
    lemma_pow2_pos(1073);
    lemma_pow2_unfold(1074);
    let x = (units + pow2(1073)) as int;
    lemma_fundamental_div_mod(x, one() as int);
    lemma_mul_is_commutative(one() as int, rounded(units) as int);
}

/// Rounding gives the nearest integer, halves away from zero, as far as an
/// `i32` reaches; values beyond that give its ends, and what is no number gives
/// zero.
pub proof fn rounding_gives_the_nearest_integer(p: Percent)
    ensures
        p.is_number() && i32::MIN * one() <= p.value() <= i32::MAX * one() ==> is_nearest_integer(
            p.rounded_spec(),
            p.value(),
        ),
        p.is_number() && p.value() > i32::MAX * one() ==> p.rounded_spec() == i32::MAX,
        p.is_number() && p.value() < i32::MIN * one() ==> p.rounded_spec() == i32::MIN,
        !p.is_number() ==> p.rounded_spec() == 0,
{
    if p.is_number() {
        let units = grid(payload(p.bits) as nat);
        let r = rounded(units) as int;
        let unit = one() as int;
        lemma_pow2_pos(1074);
        lemma_rounded(units);
        assert((-r) * unit == -(r * unit)) by (nonlinear_arith);
        assert(i32::MIN * unit == -(0x8000_0000 * unit)) by (nonlinear_arith);
        if r > 0 {
            lemma_mul_inequality(1, r, unit);
        }
        if r > i32::MAX {
            lemma_mul_inequality(0x8000_0000, r, unit);
        } else if r < i32::MAX {
            lemma_mul_inequality(r, 0x7FFF_FFFE, unit);
        }
        if r > 0x8000_0000 {
            lemma_mul_inequality(0x8000_0001, r, unit);
        }
    }
}

/// The nearest double is off by no more than a power of two at which the value
/// still fits in a significand.
proof fn lemma_rounding_error(p: nat, num: nat, den: nat, e: nat)
    requires
        rounds_to(p, num, den),
        den > 0,
        e <= 2045,
        num < (2 * LEADING) * (den * pow2(e)),
    ensures
        distance(p, num, den) < den * pow2(e),
{
    let step = (den * pow2(e)) as int;
    lemma_pow2_pos(e);
    assert(step > 0) by (nonlinear_arith)
        requires
            step == den * pow2(e),
            den > 0,
            pow2(e) > 0,
    ;
    let k = (num as int / step) as nat;
    lemma_fundamental_div_mod(num as int, step);
    lemma_mul_is_commutative(step, k as int);
    if k >= 2 * LEADING {
        lemma_mul_inequality((2 * LEADING) as int, k as int, step);
    }
    let q = small_multiples_are_doubles(k, e);
    assert((k * pow2(e)) * den == k * (den * pow2(e))) by (nonlinear_arith);
    assert(distance(p, num, den) <= distance(q, num, den));
}

proof fn lemma_position(p: Percent)
    requires
        p.in_range(),
    ensures
        payload(p.bits) <= HUNDRED,
        p.value() == grid(payload(p.bits) as nat),
        grid(payload(p.bits) as nat) <= 100 * one(),
{
    let at = payload(p.bits) as nat;
    landmarks();
    grid_starts_at_zero();
    if at > HUNDRED {
        grid_is_increasing(HUNDRED as nat, at);
        grid_is_increasing(0, at);
    }
}

/// A hundredth of the percentage, as a double.
proof fn lemma_share(p: Percent) -> (share: nat)
    requires
        p.in_range(),
    ensures
        rounds_to(share, grid(payload(p.bits) as nat), 100),
        share == nearest(grid(payload(p.bits) as nat), 100),
        grid(share) <= 2 * one(),
        distance(share, grid(payload(p.bits) as nat), 100) < 100 * pow2(1024),
{
    let g = grid(payload(p.bits) as nat);
    lemma_position(p);
    lemma2_to64();
    lemma2_to64_rest();
    lemma_pow2_pos(1024);
    lemma_pow2_adds(50, 1024);
    let top = small_multiples_are_doubles(2, 1074);
    nearest_exists(top, g, 100);
    let share = nearest(g, 100);
    assert(one() == 0x4_0000_0000_0000 * pow2(1024));
    lemma_rounding_error(share, g, 100, 1024);
    share
}

/// The product of the track and that share, as a double.
proof fn lemma_product(share: nat, track: nat) -> (product: nat)
    requires
        grid(share) <= 2 * one(),
        track <= 0x8000_0000,
    ensures
        rounds_to(product, track * grid(share), 1),
        product == nearest(track * grid(share), 1),
        distance(product, track * grid(share), 1) < pow2(1055),
{
    let num = track * grid(share);
    lemma2_to64();
    lemma2_to64_rest();
    lemma_pow2_pos(1055);
    lemma_pow2_adds(19, 1055);
    assert(one() == 0x8_0000 * pow2(1055));
    assert(num <= 0x8000_0000 * (2 * one())) by (nonlinear_arith)
        requires
            num == track * grid(share),
            grid(share) <= 2 * one(),
            track <= 0x8000_0000,
    ;
    let top = small_multiples_are_doubles(0x1_0000_0001, 1074);
    nearest_exists(top, num, 1);
    let product = nearest(num, 1);
    lemma_rounding_error(product, num, 1, 1055);
    product
}

/// The filled part of a bar is what comes of dividing the percentage by a
/// hundred and multiplying the outcome by the length of the track, each to the
/// nearest double, and of taking the nearest integer to that.
pub proof fn bar_follows_from_two_roundings(p: Percent, track: int, share: nat, product: nat)
    requires
        p.in_range(),
        0 <= track <= i32::MAX,
        rounds_to(share, p.value() as nat, 100),
        rounds_to(product, track as nat * grid(share), 1),
    ensures
        is_nearest_integer(p.fill_spec(track), grid(product) as int),
{
    lemma_position(p);
    let s = lemma_share(p);
    rounding_is_unique(s, share, p.value() as nat, 100);
    let q = lemma_product(s, track as nat);
    rounding_is_unique(q, product, track as nat * grid(share), 1);
    lemma_rounded(grid(product));
    filled_part_fits(track as nat, payload(p.bits) as nat);
}

/// The filled part of a bar is in proportion to the percentage, to within what
/// rounding to whole pixels takes: `p` percent of the track, off by at most half
/// a pixel and a hundredth of one.
pub proof fn bar_is_in_proportion(p: Percent, track: int)
    requires
        p.in_range(),
        0 <= track <= i32::MAX,
    ensures
        -(51 * one()) <= 100 * (p.fill_spec(track) * one()) - track * p.value() <= 51 * one(),
{
    lemma_position(p);
    let t = track as nat;
    let g = grid(payload(p.bits) as nat);
    let s = lemma_share(p);
    let q = lemma_product(s, t);
    bar_follows_from_two_roundings(p, track, s, q);
    let share = grid(s) as int;
    let product = grid(q) as int;
    let a = pow2(1024) as int;
    let b = pow2(1055) as int;
    lemma2_to64();
    lemma2_to64_rest();
    lemma_pow2_adds(31, 1024);
    lemma_pow2_adds(19, 1055);
    assert(b == 0x8000_0000 * a);
    assert(one() == 0x8_0000 * b);
    assert(-(100 * a) < share * 100 - g < 100 * a);
    assert(-b < product - track * share < b);
    assert(-(0x8000_0000 * (100 * a)) <= track * (share * 100 - g) <= 0x8000_0000 * (100 * a)) by (nonlinear_arith)
        requires
            0 <= track <= 0x8000_0000,
            -(100 * a) < share * 100 - g < 100 * a,
    ;
    assert(track * (share * 100 - g) == 100 * (track * share) - track * g) by (nonlinear_arith);
}

/// A track of negative length, as an overlay narrower than its margins has, is
/// filled as much the other way.
pub proof fn bars_are_mirrored(p: Percent, track: int)
    requires
        p.in_range(),
        0 <= track <= i32::MAX,
    ensures
        p.fill_spec(-track) == -p.fill_spec(track),
{
    lemma_position(p);
    filled_part_fits(track as nat, payload(p.bits) as nat);
}

/// A larger percentage never fills less of a bar.
pub proof fn bars_grow_with_the_percentage(p: Percent, q: Percent, track: int)
    requires
        p.in_range(),
        q.in_range(),
        p.value() <= q.value(),
        0 <= track <= i32::MAX,
    ensures
        0 <= p.fill_spec(track) <= q.fill_spec(track) <= track,
{
    lemma_position(p);
    lemma_position(q);
    let a = payload(p.bits) as nat;
    let b = payload(q.bits) as nat;
    if b < a {
        grid_is_increasing(b, a);
    }
    bar_stays_in_its_track(p, track);
    bar_stays_in_its_track(q, track);
    filled_part_grows(track as nat, a, b);
    filled_part_fits(track as nat, b);
}

/// What is no number fills no bar.
pub proof fn no_number_fills_no_bar(p: Percent, track: int)
    requires
        !p.is_number(),
    ensures
        p.fill_spec(track) == 0,
{
}

} // verus!
