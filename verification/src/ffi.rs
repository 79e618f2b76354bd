//! What the queries report across a language boundary.
//!
//! A number cannot tell a displacement of 0 from no displacement at all, so
//! a query that may find its animation finished reports a flag beside its
//! value: 0 while the value stands, 1 once the animation has ended.

use vstd::prelude::*;
use crate::scroller::Scroller;
use crate::scroller::ScrollerValue;
use crate::scroller::fling_value;
use crate::spring_back::SpringBack;
use crate::spring_back::spring_value;

verus! {

/// The flag of a value that stands.
pub const RUNNING: i8 = 0;

/// The flag of an animation that has ended.
pub const STOPPED: i8 = 1;

/// The value and flag that stand for what a scroller reported.
pub open spec fn scroller_report(value: Option<ScrollerValue>) -> (ScrollerValue, i8) {
    match value {
        Some(found) => (found, RUNNING),
        None => (ScrollerValue { offset: 0, velocity: 0 }, STOPPED),
    }
}

/// The value and flag that stand for what a spring reported.
pub open spec fn spring_report(value: Option<i64>) -> (i64, i8) {
    match value {
        Some(found) => (found, RUNNING),
        None => (0, STOPPED),
    }
}

/// `Scroller::value` with its outcome as a value and a flag: the value of
/// the fling and `RUNNING`, or zeroes and `STOPPED` once it has ended.
pub fn fl_scroller_value(scroller: &Scroller, coefficient: i64, inverse_log_rate: i64) -> (report:
    (ScrollerValue, i8))
    ensures
        report == scroller_report(
            fling_value(
                scroller.launched_at() as int,
                coefficient as int,
                inverse_log_rate as int,
            ),
        ),
{
    match scroller.value(coefficient, inverse_log_rate) {
        Some(value) => (value, RUNNING),
        None => (ScrollerValue { offset: 0, velocity: 0 }, STOPPED),
    }
}

/// `SpringBack::value` with its outcome as a value and a flag: the
/// displacement and `RUNNING`, or 0 and `STOPPED` once the spring is at
/// rest.
pub fn fl_spring_back_value(spring_back: &SpringBack, elapsed: i64, decay: i64) -> (report: (
    i64,
    i8,
))
    ensures
        report == spring_report(spring_value(spring_back@, elapsed as int, decay as int)),
{
    match spring_back.value(elapsed, decay) {
        Some(value) => (value, RUNNING),
        None => (0, STOPPED),
    }
}

} // verus!
