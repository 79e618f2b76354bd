//! The spring that brings an overscrolled view back to its edge.
//!
//! A critically damped spring that has absorbed a velocity and a distance
//! is displaced, `t` seconds later, by `(c1 + c2 * t) * e^(-lambda * t)`.
//! The exponential is handed to `SpringBack::value` by the caller;
//! everything else is computed here.

use vstd::prelude::*;
use crate::constants::VALUE_THRESHOLD;
use crate::constants::VELOCITY_THRESHOLD;
use crate::fixed::SCALE;
use crate::fixed::divide;
use crate::fixed::magnitude;
use crate::fixed::multiply;
use crate::fixed::ratio;
use crate::fixed::saturate;
use crate::fixed::saturated;
use crate::fixed::scaled_product;

verus! {

/// The response of a spring where none is given, 0.575.
pub const DEFAULT_RESPONSE: i64 = 575_000;

/// Twice pi, the turn that relates a response to an angular frequency.
pub const TWO_PI: i64 = 6_283_185;

/// Milliseconds in a second. The spring works in seconds, its callers in
/// milliseconds.
pub const MILLISECONDS_PER_SECOND: i64 = 1_000;

/// A spring, at rest while its coefficients are 0.
#[derive(Debug, PartialEq, Eq)]
pub struct SpringBack {
    lambda: i64,
    c1: i64,
    c2: i64,
}

/// The coefficients of a spring.
pub struct Coefficients {
    /// The angular frequency, per second.
    pub lambda: int,
    /// The displacement absorbed.
    pub c1: int,
    /// The velocity absorbed, in points per second, plus `lambda * c1`.
    pub c2: int,
}

/// The angular frequency `2 * pi / response`. A response of 0 gives the
/// largest frequency there is.
pub open spec fn frequency(response: int) -> int {
    if response == 0 {
        i64::MAX as int
    } else {
        saturated(ratio(TWO_PI * SCALE, response))
    }
}

/// The coefficients of a spring that has absorbed `velocity`, in points per
/// millisecond, at the displacement `distance`.
pub open spec fn absorbed(velocity: int, distance: int, response: int) -> Coefficients {
    let lambda = frequency(response);
    Coefficients {
        lambda,
        c1: distance,
        c2: saturated(velocity * MILLISECONDS_PER_SECOND + scaled_product(lambda, distance)),
    }
}

/// `elapsed` milliseconds in seconds.
pub open spec fn seconds(elapsed: int) -> int {
    ratio(elapsed, MILLISECONDS_PER_SECOND as int)
}

/// The polynomial factor `c1 + c2 * t` of the displacement.
pub open spec fn stretch(spring: Coefficients, elapsed: int) -> int {
    saturated(spring.c1 + scaled_product(spring.c2, seconds(elapsed)))
}

/// The displacement `(c1 + c2 * t) * decay`.
pub open spec fn displacement(spring: Coefficients, elapsed: int, decay: int) -> int {
    saturated(scaled_product(stretch(spring, elapsed), decay))
}

/// The velocity `(c2 - lambda * (c1 + c2 * t)) * decay`, in points per
/// second.
pub open spec fn velocity_at(spring: Coefficients, elapsed: int, decay: int) -> int {
    saturated(
        scaled_product(
            saturated(spring.c2 - scaled_product(spring.lambda, stretch(spring, elapsed))),
            decay,
        ),
    )
}

/// Whether the spring has come to rest: whether its displacement and its
/// velocity, taken per millisecond, are both below their thresholds. One
/// alone is not enough: a spring passes through its rest position at speed,
/// and turns around at a distance.
pub open spec fn at_rest(spring: Coefficients, elapsed: int, decay: int) -> bool {
    &&& magnitude(displacement(spring, elapsed, decay)) < VALUE_THRESHOLD
    &&& magnitude(velocity_at(spring, elapsed, decay)) < VELOCITY_THRESHOLD
        * MILLISECONDS_PER_SECOND
}

/// What a spring reports: nothing once it is at rest, else its
/// displacement.
pub open spec fn spring_value(spring: Coefficients, elapsed: int, decay: int) -> Option<i64> {
    if at_rest(spring, elapsed, decay) {
        None
    } else {
        Some(displacement(spring, elapsed, decay) as i64)
    }
}

impl View for SpringBack {
    type V = Coefficients;

    closed spec fn view(&self) -> Coefficients {
        Coefficients { lambda: self.lambda as int, c1: self.c1 as int, c2: self.c2 as int }
    }
}

impl SpringBack {
    /// The coefficients of a spring at rest.
    pub open spec fn rest() -> Coefficients {
        Coefficients { lambda: 0, c1: 0, c2: 0 }
    }

    /// A spring at rest.
    pub fn new() -> (spring: SpringBack)
        ensures
            spring@ == Self::rest(),
    {
        SpringBack { lambda: 0, c1: 0, c2: 0 }
    }

    /// The angular frequency of the spring, which the caller needs for the
    /// decay `e^(-lambda * t)`.
    pub fn lambda(&self) -> (lambda: i64)
        ensures
            lambda == self@.lambda,
    {
        self.lambda
    }

    /// Takes up `velocity`, in points per millisecond, at the displacement
    /// `distance`, with the default response.
    pub fn absorb(&mut self, velocity: i64, distance: i64)
        ensures
            final(self)@ == absorbed(velocity as int, distance as int, DEFAULT_RESPONSE as int),
    {
        self.absorb_with_response(velocity, distance, DEFAULT_RESPONSE)
    }

    /// Takes up `velocity`, in points per millisecond, at the displacement
    /// `distance`, as a spring of the given `response`.
    pub fn absorb_with_response(&mut self, velocity: i64, distance: i64, response: i64)
        ensures
            final(self)@ == absorbed(velocity as int, distance as int, response as int),
    {
        assert(TWO_PI * SCALE == 6_283_185_000_000) by (nonlinear_arith)
            requires
                TWO_PI == 6_283_185,
                SCALE == 1_000_000,
        ;
        let lambda: i64 = if response == 0 {
            i64::MAX
        } else {
            saturate(divide((TWO_PI as i128) * (SCALE as i128), response as i128))
        };
        // The spring works in points per second.
        assert(-0x8000_0000_0000_0000 * 1_000 <= velocity * MILLISECONDS_PER_SECOND
            <= 0x8000_0000_0000_0000 * 1_000) by (nonlinear_arith)
            requires
                -0x8000_0000_0000_0000 <= velocity <= 0x8000_0000_0000_0000,
                MILLISECONDS_PER_SECOND == 1_000,
        ;
        let per_second: i128 = (velocity as i128) * (MILLISECONDS_PER_SECOND as i128);
        let pull: i128 = multiply(lambda, distance);
        proof {
            crate::fixed::lemma_scaled_product_bounded(lambda as int, distance as int);
        }
        self.lambda = lambda;
        self.c1 = distance;
        self.c2 = saturate(per_second + pull);
    }

    /// The displacement `elapsed` milliseconds after the spring was loaded,
    /// given `decay`, the exponential of minus `lambda` times the seconds
    /// elapsed. Nothing is returned once the spring is at rest.
    pub fn value(&self, elapsed: i64, decay: i64) -> (value: Option<i64>)
        ensures
            value == spring_value(self@, elapsed as int, decay as int),
    {
        // Convert time from milliseconds to seconds.
        let time: i64 = saturate(divide(elapsed as i128, MILLISECONDS_PER_SECOND as i128));
        proof {
            crate::fixed::lemma_scaled_product_bounded(self.c2 as int, time as int);
        }
        let stretch: i64 = saturate(self.c1 as i128 + multiply(self.c2, time));
        let offset: i64 = saturate(multiply(stretch, decay));
        proof {
            crate::fixed::lemma_scaled_product_bounded(self.lambda as int, stretch as int);
        }
        let slope: i64 = saturate(self.c2 as i128 - multiply(self.lambda, stretch));
        let velocity: i64 = saturate(multiply(slope, decay));
        let distance: i128 = if offset < 0 {
            -(offset as i128)
        } else {
            offset as i128
        };
        let speed: i128 = if velocity < 0 {
            -(velocity as i128)
        } else {
            velocity as i128
        };
        // The velocity threshold is in points per millisecond.
        if distance < VALUE_THRESHOLD as i128 && speed < (VELOCITY_THRESHOLD as i128) * (
        MILLISECONDS_PER_SECOND as i128) {
            None
        } else {
            Some(offset)
        }
    }

    /// Brings the spring to rest.
    pub fn reset(&mut self)
        ensures
            final(self)@ == Self::rest(),
    {
        self.lambda = 0;
        self.c1 = 0;
        self.c2 = 0;
    }
}

impl Default for SpringBack {
    fn default() -> (spring: SpringBack)
        ensures
            spring@ == Self::rest(),
    {
        SpringBack::new()
    }
}

/// A spring at rest reports nothing, whatever the time: after `reset`, as
/// after `new`, nothing moves.
pub proof fn lemma_rest_reports_nothing(elapsed: i64, decay: i64)
    ensures
        spring_value(SpringBack::rest(), elapsed as int, decay as int) is None,
{
    let t = seconds(elapsed as int);
    assert(0 * t == 0);
    assert(0 * decay == 0);
    assert(0 * 0 == 0);
}

/// A spring starts where it was loaded: at the moment it has absorbed a
/// distance of at least the threshold, where nothing has decayed, it
/// reports that distance.
pub proof fn lemma_spring_starts(velocity: i64, distance: i64, response: i64)
    requires
        magnitude(distance as int) >= VALUE_THRESHOLD,
    ensures
        spring_value(
            absorbed(velocity as int, distance as int, response as int),
            0,
            SCALE as int,
        ) == Some(distance),
{
    let spring = absorbed(velocity as int, distance as int, response as int);
    assert(spring.c2 * 0 == 0);
    assert(stretch(spring, 0) == distance);
    let product = distance * SCALE;
    assert(magnitude(product) == magnitude(distance as int) * SCALE);
    assert(magnitude(product) / (SCALE as int) == magnitude(distance as int));
}

/// After `reset` a spring reports what one that was just made reports:
/// nothing, whatever the time.
pub proof fn lemma_reset_is_fresh(
    after_reset: SpringBack,
    fresh: SpringBack,
    elapsed: i64,
    decay: i64,
)
    requires
        after_reset@ == SpringBack::rest(),
        fresh@ == SpringBack::rest(),
    ensures
        spring_value(after_reset@, elapsed as int, decay as int) == spring_value(
            fresh@,
            elapsed as int,
            decay as int,
        ),
        spring_value(after_reset@, elapsed as int, decay as int) is None,
{
    lemma_rest_reports_nothing(elapsed, decay);
}

} // verus!
