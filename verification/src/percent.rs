//! How much of a quota is used, as a percentage.
use crate::double::{
    distance, divide_by_hundred, exact_values_round_to_themselves, grid, grid_is_increasing,
    grid_starts_at_zero, integers_are_doubles, integers_round_to_themselves, is_nan, is_negative,
    grid_of_integer, multiply, nearest, nearest_exists, one, payload, round_magnitude, rounded,
    rounded_is_monotone, rounding_is_monotone, rounds_to, small_multiples_are_doubles, INFINITE, SIGN,
};
use vstd::arithmetic::mul::{lemma_mul_inequality, lemma_mul_is_commutative};
use vstd::arithmetic::power2::{lemma2_to64_rest, lemma_pow2_pos};
use vstd::prelude::*;

verus! {

/// The bit pattern of 60.
pub const SIXTY: u64 = 0x404E_0000_0000_0000;

/// The bit pattern of 85.
pub const EIGHTY_FIVE: u64 = 0x4055_4000_0000_0000;

/// The bit pattern of 100.
pub const HUNDRED: u64 = 0x4059_0000_0000_0000;

/// A percentage, held as the bit pattern of an IEEE 754 double.
#[derive(Clone, Copy, Debug, PartialEq, Eq, Structural)]
pub struct Percent {
    /// The bits of the double.
    pub bits: u64,
}

/// `n` where it fits in an `i32`, else the end of that range that is nearer.
pub open spec fn saturated(n: int) -> int {
    if n < i32::MIN {
        i32::MIN as int
    } else if n > i32::MAX {
        i32::MAX as int
    } else {
        n
    }
}

/// The length of the filled part of a bar: `track` times a hundredth of the
/// percentage at position `p`, where the division and the product are each
/// rounded to the nearest double and the outcome to the nearest integer.
pub open spec fn fill_length(track: nat, p: nat) -> nat {
    rounded(grid(nearest(track * grid(nearest(grid(p), 100)), 1)))
}

impl Percent {
    /// Whether this is a number at all.
    pub open spec fn is_number(self) -> bool {
        !is_nan(self.bits)
    }

    /// The signed value in units of 2^-1074.
    pub open spec fn value(self) -> int {
        if is_negative(self.bits) {
            -(grid(payload(self.bits) as nat) as int)
        } else {
            grid(payload(self.bits) as nat) as int
        }
    }

    /// Whether the value is less than `n`; never so for what is no number.
    pub open spec fn below(self, n: nat) -> bool {
        self.is_number() && self.value() < n * one()
    }

    /// Whether the value lies between 0 and 100, both included.
    pub open spec fn in_range(self) -> bool {
        self.is_number() && 0 <= self.value() <= 100 * one()
    }

    /// The value moved into the range from 0 to 100; what is no number stays.
    pub open spec fn clamp_spec(self) -> Percent {
        if self.is_number() && self.value() < 0 {
            Percent { bits: 0 }
        } else if self.is_number() && self.value() > 100 * one() {
            Percent { bits: HUNDRED }
        } else {
            self
        }
    }

    /// The nearest integer, halves away from zero; 0 for what is no number.
    pub open spec fn rounded_spec(self) -> int {
        if !self.is_number() {
            0
        } else if is_negative(self.bits) {
            saturated(-(rounded(grid(payload(self.bits) as nat)) as int))
        } else {
            saturated(rounded(grid(payload(self.bits) as nat)) as int)
        }
    }

    /// How much of a bar of length `track` is filled.
    pub open spec fn fill_spec(self, track: int) -> int {
        if !self.is_number() {
            0
        } else if track < 0 {
            saturated(-(fill_length((-track) as nat, payload(self.bits) as nat) as int))
        } else {
            saturated(fill_length(track as nat, payload(self.bits) as nat) as int)
        }
    }

    fn position(self) -> (r: u64)
        ensures
            r == payload(self.bits),
    {
        if self.bits >= SIGN {
            self.bits - SIGN
        } else {
            self.bits
        }
    }

    /// Whether the value is less than the positive double with the bits `limit`.
    fn less_than(self, limit: u64) -> (r: bool)
        requires
            0 < limit < INFINITE,
        ensures
            r == (self.is_number() && self.value() < grid(limit as nat)),
    {
        let p: u64 = self.position();
        proof {
            grid_starts_at_zero();
            grid_is_increasing(0, limit as nat);
            if p < limit {
                grid_is_increasing(p as nat, limit as nat);
            } else if p > limit {
                grid_is_increasing(limit as nat, p as nat);
            }
        }
        p <= INFINITE && (self.bits >= SIGN || p < limit)
    }

    /// Whether the value is less than 60.
    pub fn below_sixty(self) -> (r: bool)
        ensures
            r == self.below(60),
    {
        proof {
            landmarks();
        }
        self.less_than(SIXTY)
    }

    /// Whether the value is less than 85.
    pub fn below_eighty_five(self) -> (r: bool)
        ensures
            r == self.below(85),
    {
        proof {
            landmarks();
        }
        self.less_than(EIGHTY_FIVE)
    }

    /// Moves the value into the range from 0 to 100.
    pub fn clamp(self) -> (r: Percent)
        ensures
            r == self.clamp_spec(),
            self.is_number() ==> r.in_range(),
            !self.is_number() ==> !r.is_number(),
    {
        let p: u64 = self.position();
        proof {
            landmarks();
            grid_starts_at_zero();
            if p > 0 {
                grid_is_increasing(0, p as nat);
            }
            if p < HUNDRED {
                grid_is_increasing(p as nat, HUNDRED as nat);
            } else if p > HUNDRED {
                grid_is_increasing(HUNDRED as nat, p as nat);
            }
        }
        if p > INFINITE {
            self
        } else if self.bits >= SIGN {
            if p > 0 {
                Percent { bits: 0 }
            } else {
                self
            }
        } else if p > HUNDRED {
            Percent { bits: HUNDRED }
        } else {
            self
        }
    }

    /// Rounds to the nearest integer, halves away from zero.
    pub fn round(self) -> (r: i32)
        ensures
            r == self.rounded_spec(),
    {
        let p: u64 = self.position();
        if p > INFINITE {
            return 0;
        }
        let magnitude: u64 = round_magnitude(p);
        if self.bits >= SIGN {
            (-(magnitude as i64)) as i32
        } else if magnitude <= i32::MAX as u64 {
            magnitude as i32
        } else {
            i32::MAX
        }
    }

    /// How much of a bar of length `track` is filled at this percentage.
    pub fn fill(self, track: i32) -> (r: i32)
        requires
            self.in_range() || !self.is_number(),
        ensures
            r == self.fill_spec(track as int),
    {
        let p: u64 = self.position();
        if p > INFINITE {
            return 0;
        }
        proof {
            lemma_position_in_range(self);
        }
        let length: u32 = if track < 0 {
            (-(track as i64)) as u32
        } else {
            track as u32
        };
        let share: u64 = divide_by_hundred(p);
        proof {
            lemma_share_is_small(p as nat, share as nat);
        }
        let product: u64 = multiply(share, length);
        let magnitude: u64 = round_magnitude(product);
        if track < 0 {
            (-(magnitude as i64)) as i32
        } else if magnitude <= i32::MAX as u64 {
            magnitude as i32
        } else {
            i32::MAX
        }
    }
}

/// Where the limits stand among the doubles.
pub proof fn landmarks()
    ensures
        grid(SIXTY as nat) == 60 * one(),
        grid(EIGHTY_FIVE as nat) == 85 * one(),
        grid(HUNDRED as nat) == 100 * one(),
{
    lemma2_to64_rest();
    grid_of_integer(SIXTY as nat, 60);
    grid_of_integer(EIGHTY_FIVE as nat, 85);
    grid_of_integer(HUNDRED as nat, 100);
}

/// A percentage in range stands no higher than 100.
proof fn lemma_position_in_range(p: Percent)
    requires
        p.in_range(),
    ensures
        payload(p.bits) <= HUNDRED,
{
    let at = payload(p.bits);
    landmarks();
    grid_starts_at_zero();
    if at > HUNDRED {
        grid_is_increasing(HUNDRED as nat, at as nat);
        grid_is_increasing(0, at as nat);
    }
}

/// A hundredth of a percentage of at most 100 is at most 1.
proof fn lemma_share_is_small(p: nat, share: nat)
    requires
        p <= HUNDRED,
        rounds_to(share, grid(p), 100),
    ensures
        grid(share) <= one(),
        share <= 0x3FF0_0000_0000_0000,
{
    let unit: nat = 0x3FF0_0000_0000_0000;
    lemma2_to64_rest();
    landmarks();
    grid_of_integer(unit, 1);
    if p < HUNDRED {
        grid_is_increasing(p, HUNDRED as nat);
    }
    assert(rounds_to(unit, 100 * one(), 100)) by {
        assert(distance(unit, 100 * one(), 100) == 0);
        assert forall|q: nat| q < INFINITE && q != unit implies #[trigger] distance(
            q,
            100 * one(),
            100,
        ) > 0 by {
            if q < unit {
                grid_is_increasing(q, unit);
            } else {
                grid_is_increasing(unit, q);
            }
        }
    }
    rounding_is_monotone(share, unit, grid(p), 100 * one(), 100);
    if share < unit {
        grid_is_increasing(share, unit);
    }
}

/// The two roundings behind `fill_length` have an outcome, and the product is
/// at most the track.
proof fn lemma_fill_steps(track: nat, p: nat)
    requires
        p <= HUNDRED,
        track <= 0x8000_0000,
    ensures
        rounds_to(nearest(grid(p), 100), grid(p), 100),
        grid(nearest(grid(p), 100)) <= one(),
        ({
            let num = track * grid(nearest(grid(p), 100));
            num <= track * one() && rounds_to(nearest(num, 1), num, 1)
        }),
{
    grid_is_increasing(p, (HUNDRED + 1) as nat);
    let beyond: nat = (HUNDRED + 1) as nat;
    assert(grid(p) < grid(beyond) * 100) by {
        assert(grid(beyond) <= grid(beyond) * 100);
    }
    nearest_exists(beyond, grid(p), 100);
    let share = nearest(grid(p), 100);
    lemma_share_is_small(p, share);
    let num = track * grid(share);
    lemma_mul_inequality(grid(share) as int, one() as int, track as int);
    lemma_mul_is_commutative(track as int, grid(share) as int);
    lemma_mul_is_commutative(track as int, one() as int);
    let top = small_multiples_are_doubles(track + 1, 1074);
    lemma_pow2_pos(1074);
    assert((track + 1) * one() == track * one() + one()) by (nonlinear_arith);
    nearest_exists(top, num, 1);
}

/// The filled part of a bar is never longer than the bar, an unused quota
/// leaves the bar empty, and a used-up one fills it.
pub proof fn filled_part_fits(track: nat, p: nat)
    requires
        p <= HUNDRED,
        track <= 0x8000_0000,
    ensures
        fill_length(track, p) <= track,
        fill_length(track, 0) == 0,
        fill_length(track, HUNDRED as nat) == track,
{
    lemma_fill_steps(track, p);
    let num = track * grid(nearest(grid(p), 100));
    integers_are_doubles(track);
    rounding_is_monotone(nearest(num, 1), nearest(track * one(), 1), num, track * one(), 1);
    lemma_grid_is_monotone(nearest(num, 1), nearest(track * one(), 1));
    rounded_is_monotone(grid(nearest(num, 1)), track * one());
    integers_round_to_themselves(track);

    grid_starts_at_zero();
    lemma_fill_steps(track, 0);
    let none = nearest(grid(0), 100);
    assert(none == 0) by {
        if none > 0 {
            grid_is_increasing(0, none);
            assert(distance(none, 0, 100) <= distance(0, 0, 100));
        }
    }
    assert(track * grid(none) == 0) by (nonlinear_arith)
        requires
            grid(none) == 0,
    ;
    exact_values_round_to_themselves(0);
    integers_round_to_themselves(0);
    assert(0 * one() == 0) by (nonlinear_arith);

    landmarks();
    lemma_fill_steps(track, HUNDRED as nat);
    let all = nearest(grid(HUNDRED as nat), 100);
    assert(grid(all) == one()) by {
        integers_are_doubles(1);
        assert(1 * one() == one());
        let unit = nearest(one(), 1);
        assert(distance(all, 100 * one(), 100) <= distance(unit, 100 * one(), 100));
    }
}

/// Clamping brings every number into the range from 0 to 100, and makes no
/// number of what is none.
pub proof fn clamped_is_in_range(p: Percent)
    ensures
        p.is_number() ==> p.clamp_spec().in_range(),
        !p.is_number() ==> !p.clamp_spec().is_number(),
{
    landmarks();
    grid_starts_at_zero();
}

/// Clamping a second time changes nothing.
pub proof fn clamping_twice_is_clamping_once(p: Percent)
    ensures
        p.clamp_spec().clamp_spec() == p.clamp_spec(),
{
    clamped_is_in_range(p);
}

/// Whole percentages are taken exactly: the double nearest to an integer of at
/// most 100 is that integer, needs no clamping, and is rounded to itself.
pub proof fn whole_percentages_are_exact(n: nat)
    requires
        n <= 100,
    ensures
        ({
            let p = Percent { bits: nearest(n * one(), 1) as u64 };
            &&& p.value() == n * one()
            &&& p.clamp_spec() == p
            &&& p.rounded_spec() == n
        }),
{
    integers_are_doubles(n);
    integers_round_to_themselves(n);
    lemma_mul_inequality(n as int, 100, one() as int);
}

/// The filled part of a bar lies within the bar.
pub proof fn bar_stays_in_its_track(p: Percent, track: int)
    requires
        p.in_range() || !p.is_number(),
        i32::MIN <= track <= i32::MAX,
    ensures
        track >= 0 ==> 0 <= p.fill_spec(track) <= track,
        track <= 0 ==> p.fill_spec(track) <= 0,
{
    if p.is_number() {
        lemma_position_in_range(p);
        if track >= 0 {
            filled_part_fits(track as nat, payload(p.bits) as nat);
        }
    }
}

/// A larger share of the quota never fills less of the bar.
pub proof fn filled_part_grows(track: nat, p: nat, q: nat)
    requires
        p <= q <= HUNDRED,
        track <= 0x8000_0000,
    ensures
        fill_length(track, p) <= fill_length(track, q),
{
    lemma_fill_steps(track, p);
    lemma_fill_steps(track, q);
    lemma_grid_is_monotone(p, q);
    let a = nearest(grid(p), 100);
    let b = nearest(grid(q), 100);
    rounding_is_monotone(a, b, grid(p), grid(q), 100);
    lemma_grid_is_monotone(a, b);
    lemma_mul_inequality(grid(a) as int, grid(b) as int, track as int);
    lemma_mul_is_commutative(track as int, grid(a) as int);
    lemma_mul_is_commutative(track as int, grid(b) as int);
    rounding_is_monotone(
        nearest(track * grid(a), 1),
        nearest(track * grid(b), 1),
        track * grid(a),
        track * grid(b),
        1,
    );
    lemma_grid_is_monotone(nearest(track * grid(a), 1), nearest(track * grid(b), 1));
    rounded_is_monotone(grid(nearest(track * grid(a), 1)), grid(nearest(track * grid(b), 1)));
}

proof fn lemma_grid_is_monotone(p: nat, q: nat)
    requires
        p <= q,
    ensures
        grid(p) <= grid(q),
{
    if p < q {
        grid_is_increasing(p, q);
    }
}

} // verus!
