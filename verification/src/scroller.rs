//! The fling: a scroll that goes on after the pointer has left, its
//! velocity decaying geometrically.
//!
//! A fling launched at velocity `v0` with deceleration rate `r` moves, after
//! `t` milliseconds, at `v0 * r^t` and has covered `v0 * (r^t - 1) / ln r`.
//! The two values that depend on `r` and `t` through an exponential and a
//! logarithm, `r^t` and `1 / ln r`, are handed to `Scroller::value` by the
//! caller; everything else is computed here.

use vstd::prelude::*;
use crate::constants::VELOCITY_THRESHOLD;
use crate::fixed::SCALE;
use crate::fixed::magnitude;
use crate::fixed::multiply;
use crate::fixed::saturate;
use crate::fixed::saturated;
use crate::fixed::scaled_product;
use vstd::arithmetic::div_mod::lemma_div_is_ordered;
use vstd::arithmetic::power::pow;

verus! {

/// The factor by which the velocity of a fling shrinks every millisecond,
/// in millionths. It is meant to lie strictly between 0 and 1; the scroller
/// holds whatever it is given and hands it back.
#[derive(Clone, Copy, Debug, PartialEq, Eq)]
pub struct DecelerationRate(pub i64);

/// The rate of an ordinary fling, 0.998.
pub const NORMAL: i64 = 998_000;

/// The rate of a fling that comes to rest quickly, 0.99.
pub const FAST: i64 = 990_000;

impl DecelerationRate {
    /// The rate of an ordinary fling.
    pub fn normal() -> (rate: Self)
        ensures
            rate == DecelerationRate(NORMAL),
            rate.in_range(),
    {
        DecelerationRate(NORMAL)
    }

    /// The rate of a fling that comes to rest quickly.
    pub fn fast() -> (rate: Self)
        ensures
            rate == DecelerationRate(FAST),
            rate.in_range(),
    {
        DecelerationRate(FAST)
    }

    /// Whether the rate lies strictly between 0 and 1.
    pub open spec fn in_range(self) -> bool {
        0 < self.0 < SCALE
    }

    /// Whether the rate lies strictly between 0 and 1.
    pub fn is_in_range(&self) -> (valid: bool)
        ensures
            valid == self.in_range(),
    {
        0 < self.0 && self.0 < SCALE
    }
}

impl Default for DecelerationRate {
    fn default() -> (rate: Self)
        ensures
            rate == DecelerationRate(NORMAL),
    {
        DecelerationRate(NORMAL)
    }
}

/// Where a fling is and how fast it moves.
#[derive(Clone, Copy, Debug, PartialEq, Eq)]
pub struct ScrollerValue {
    /// The distance covered since the fling was launched.
    pub offset: i64,
    /// The velocity that is left.
    pub velocity: i64,
}

/// A fling in progress, or none while the initial velocity is 0.
#[derive(Debug)]
pub struct Scroller {
    deceleration_rate: DecelerationRate,
    initial_velocity: i64,
}

/// The velocity left of `initial_velocity` once it has decayed by the
/// factor `coefficient`.
pub open spec fn velocity_left(initial_velocity: int, coefficient: int) -> int {
    saturated(scaled_product(initial_velocity, coefficient))
}

/// The distance covered: `initial_velocity * inverse_log_rate *
/// (coefficient - 1)`, with the product of the first two held inside the
/// 64-bit range before it is multiplied on.
pub open spec fn distance_covered(
    initial_velocity: int,
    coefficient: int,
    inverse_log_rate: int,
) -> int {
    saturated(
        scaled_product(
            saturated(scaled_product(initial_velocity, inverse_log_rate)),
            saturated(coefficient - SCALE),
        ),
    )
}

/// What a fling launched at `initial_velocity` reports once its velocity
/// has decayed by `coefficient`: nothing once the velocity left is below
/// the threshold, else the distance covered and the velocity left.
pub open spec fn fling_value(
    initial_velocity: int,
    coefficient: int,
    inverse_log_rate: int,
) -> Option<ScrollerValue> {
    let velocity = velocity_left(initial_velocity, coefficient);
    if magnitude(velocity) < VELOCITY_THRESHOLD {
        None
    } else {
        Some(
            ScrollerValue {
                offset: distance_covered(initial_velocity, coefficient, inverse_log_rate) as i64,
                velocity: velocity as i64,
            },
        )
    }
}

impl Scroller {
    /// The rate at which flings of this scroller decelerate.
    pub closed spec fn rate(self) -> DecelerationRate {
        self.deceleration_rate
    }

    /// The velocity at which the fling was launched, 0 where there is none.
    pub closed spec fn launched_at(self) -> i64 {
        self.initial_velocity
    }

    /// A scroller at rest whose flings will decelerate at `deceleration_rate`.
    pub fn new(deceleration_rate: DecelerationRate) -> (scroller: Self)
        ensures
            scroller.rate() == deceleration_rate,
            scroller.launched_at() == 0,
    {
        Scroller { deceleration_rate, initial_velocity: 0 }
    }

    /// The rate at which flings of this scroller decelerate.
    pub fn deceleration_rate(&self) -> (rate: DecelerationRate)
        ensures
            rate == self.rate(),
    {
        self.deceleration_rate
    }

    /// The velocity at which the fling was launched, 0 where there is none.
    pub fn initial_velocity(&self) -> (velocity: i64)
        ensures
            velocity == self.launched_at(),
    {
        self.initial_velocity
    }

    /// Changes the rate. A fling in progress goes on along the curve of the
    /// new rate: nothing of the old curve is kept.
    pub fn set_deceleration_rate(&mut self, deceleration_rate: DecelerationRate)
        ensures
            final(self).rate() == deceleration_rate,
            final(self).launched_at() == old(self).launched_at(),
    {
        self.deceleration_rate = deceleration_rate;
    }

    /// Launches a fling at `velocity`, in place of the one in progress.
    pub fn fling(&mut self, velocity: i64)
        ensures
            final(self).launched_at() == velocity,
            final(self).rate() == old(self).rate(),
    {
        self.initial_velocity = velocity;
    }

    /// Where the fling is and how fast it moves at the time for which the
    /// caller gives `coefficient`, the rate raised to the milliseconds
    /// since the launch, and `inverse_log_rate`, one over the natural
    /// logarithm of the rate. Nothing is returned once the fling has ended.
    pub fn value(&self, coefficient: i64, inverse_log_rate: i64) -> (value: Option<ScrollerValue>)
        ensures
            value == fling_value(
                self.launched_at() as int,
                coefficient as int,
                inverse_log_rate as int,
            ),
    {
        let velocity: i64 = saturate(multiply(self.initial_velocity, coefficient));
        let speed: i128 = if velocity < 0 {
            -(velocity as i128)
        } else {
            velocity as i128
        };
        if speed < VELOCITY_THRESHOLD as i128 {
            return None;
        }
        let reach: i64 = saturate(multiply(self.initial_velocity, inverse_log_rate));
        let decayed: i64 = saturate(coefficient as i128 - SCALE as i128);
        let offset: i64 = saturate(multiply(reach, decayed));
        Some(ScrollerValue { offset, velocity })
    }

    /// Ends the fling in progress.
    pub fn reset(&mut self)
        ensures
            final(self).launched_at() == 0,
            final(self).rate() == old(self).rate(),
    {
        self.initial_velocity = 0;
    }
}

impl Default for Scroller {
    fn default() -> (scroller: Self)
        ensures
            scroller.rate() == DecelerationRate(NORMAL),
            scroller.launched_at() == 0,
    {
        Scroller::new(DecelerationRate(NORMAL))
    }
}

/// A scroller at rest reports nothing, whatever the time: after `reset`, as
/// after `new`, there is no fling.
pub proof fn lemma_rest_reports_nothing(coefficient: i64, inverse_log_rate: i64)
    ensures
        fling_value(0, coefficient as int, inverse_log_rate as int) is None,
{
    assert(0 * coefficient == 0);
}

/// After `reset` a scroller reports what one that was just made reports:
/// nothing, whatever the time and whatever the rates of the two.
pub proof fn lemma_reset_is_fresh(
    after_reset: Scroller,
    fresh: Scroller,
    coefficient: i64,
    inverse_log_rate: i64,
)
    requires
        after_reset.launched_at() == 0,
        fresh.launched_at() == 0,
    ensures
        fling_value(after_reset.launched_at() as int, coefficient as int, inverse_log_rate as int)
            == fling_value(fresh.launched_at() as int, coefficient as int, inverse_log_rate as int),
        fling_value(
            after_reset.launched_at() as int,
            coefficient as int,
            inverse_log_rate as int,
        ) is None,
{
    lemma_rest_reports_nothing(coefficient, inverse_log_rate);
}

/// A fling is in progress from its launch on: at the launch itself, where
/// nothing has decayed, a fling of at least the threshold speed reports its
/// launch velocity and no distance covered.
pub proof fn lemma_fling_starts(initial_velocity: i64, inverse_log_rate: i64)
    requires
        magnitude(initial_velocity as int) >= VELOCITY_THRESHOLD,
    ensures
        fling_value(initial_velocity as int, SCALE as int, inverse_log_rate as int) == Some(
            ScrollerValue { offset: 0, velocity: initial_velocity },
        ),
{
    let product = initial_velocity * SCALE;
    assert(magnitude(product) == magnitude(initial_velocity as int) * SCALE);
    assert(magnitude(product) / (SCALE as int) == magnitude(initial_velocity as int));
    let reach = saturated(scaled_product(initial_velocity as int, inverse_log_rate as int));
    assert(reach * 0 == 0);
}

/// A fling has ended as soon as the decay has brought its velocity below
/// the threshold: for every launch velocity there are coefficients above 0
/// at which it reports nothing.
pub proof fn lemma_fling_ends(initial_velocity: i64, coefficient: i64, inverse_log_rate: i64)
    requires
        0 <= coefficient,
        magnitude(initial_velocity as int) * coefficient < VELOCITY_THRESHOLD * SCALE,
    ensures
        fling_value(initial_velocity as int, coefficient as int, inverse_log_rate as int) is None,
{
    let product = initial_velocity * coefficient;
    assert(magnitude(product) == magnitude(initial_velocity as int) * coefficient)
        by (nonlinear_arith)
        requires
            product == initial_velocity * coefficient,
            coefficient >= 0,
    ;
    lemma_div_is_ordered(magnitude(product), VELOCITY_THRESHOLD * SCALE - 1, SCALE as int);
}

/// A power of the scale outgrows the same power of a rate below one:
/// `scale^n * rate >= rate^n * (rate + n)`.
proof fn lemma_powers_part(rate: int, exponent: nat)
    requires
        0 < rate < SCALE,
    ensures
        pow(rate, exponent) > 0,
        pow(SCALE as int, exponent) > 0,
        pow(SCALE as int, exponent) * rate >= pow(rate, exponent) * (rate + exponent),
    decreases exponent,
{
    reveal(pow);
    if exponent > 0 {
        let before = (exponent - 1) as nat;
        lemma_powers_part(rate, before);
        let p = pow(rate, before);
        let q = pow(SCALE as int, before);
        assert(pow(rate, exponent) == rate * p);
        assert(pow(SCALE as int, exponent) == SCALE * q);
        assert(rate * p > 0 && SCALE * q > 0 && (SCALE * q) * rate >= (rate * p) * (rate + before
            + 1)) by (nonlinear_arith)
            requires
                p > 0,
                q > 0,
                0 < rate < SCALE,
                q * rate >= p * (rate + before),
                before >= 0,
        ;
    }
}

/// Every fling ends: once as many milliseconds have passed as the launch
/// speed times the rate comes to, the fling reports nothing, whatever the
/// launch velocity and whatever the rate below one. Here `coefficient` is
/// any count of millionths that does not exceed the rate raised to the
/// milliseconds passed.
pub proof fn lemma_fling_terminates(
    initial_velocity: i64,
    rate: DecelerationRate,
    milliseconds: nat,
    coefficient: i64,
    inverse_log_rate: i64,
)
    requires
        rate.in_range(),
        milliseconds >= magnitude(initial_velocity as int) * rate.0,
        0 <= coefficient,
        coefficient * pow(SCALE as int, milliseconds) <= SCALE * pow(rate.0 as int, milliseconds),
    ensures
        fling_value(initial_velocity as int, coefficient as int, inverse_log_rate as int) is None,
{
    let r = rate.0 as int;
    let p = pow(r, milliseconds);
    let q = pow(SCALE as int, milliseconds);
    let speed = magnitude(initial_velocity as int);
    let c = coefficient as int;
    lemma_powers_part(r, milliseconds);
    assert(speed * c < VELOCITY_THRESHOLD * SCALE) by (nonlinear_arith)
        requires
            p > 0,
            q > 0,
            0 < r,
            q * r >= p * (r + milliseconds),
            milliseconds >= speed * r,
            speed >= 0,
            c >= 0,
            c * q <= SCALE * p,
            VELOCITY_THRESHOLD == 10_000,
            SCALE == 1_000_000,
    ;
    lemma_fling_ends(initial_velocity, coefficient, inverse_log_rate);
}

/// The end of a fling is final: once it reports nothing, it reports
/// nothing at every later time, when the coefficient has decayed further.
pub proof fn lemma_fling_stays_ended(
    initial_velocity: i64,
    coefficient: i64,
    later_coefficient: i64,
    inverse_log_rate: i64,
)
    requires
        0 <= later_coefficient <= coefficient,
        fling_value(initial_velocity as int, coefficient as int, inverse_log_rate as int) is None,
    ensures
        fling_value(
            initial_velocity as int,
            later_coefficient as int,
            inverse_log_rate as int,
        ) is None,
{
    let product = initial_velocity * coefficient;
    let later = initial_velocity * later_coefficient;
    assert(magnitude(later) <= magnitude(product)) by (nonlinear_arith)
        requires
            product == initial_velocity * coefficient,
            later == initial_velocity * later_coefficient,
            0 <= later_coefficient <= coefficient,
    ;
    lemma_div_is_ordered(magnitude(later), magnitude(product), SCALE as int);
}

} // verus!
