use fluid_scroll::ffi::fl_scroller_value;
use fluid_scroll::ffi::fl_spring_back_value;
use fluid_scroll::ffi::RUNNING;
use fluid_scroll::ffi::STOPPED;
use fluid_scroll::poly_fit::fit_shape;
use fluid_scroll::poly_fit::FitError;
use fluid_scroll::poly_fit::FitShape;
use fluid_scroll::scroller::Scroller;
use fluid_scroll::scroller::ScrollerValue;
use fluid_scroll::spring_back::SpringBack;
use fluid_scroll::velocity_tracker::Strategy;

const UNIT: i64 = 1_000_000;

#[test]
fn flags() {
    assert_eq!(RUNNING, 0);
    assert_eq!(STOPPED, 1);
}

#[test]
fn scroller_reports_value_and_flag() {
    let mut scroller = Scroller::default();
    assert_eq!(
        fl_scroller_value(&scroller, UNIT, -499_499_833),
        (ScrollerValue { offset: 0, velocity: 0 }, 1)
    );
    scroller.fling(2 * UNIT);
    assert_eq!(
        fl_scroller_value(&scroller, 5_000, -499_499_833),
        (ScrollerValue { offset: 994_004_667, velocity: 10_000 }, 0)
    );
    assert_eq!(
        fl_scroller_value(&scroller, 4_999, -499_499_833),
        (ScrollerValue { offset: 0, velocity: 0 }, 1)
    );
}

#[test]
fn spring_reports_value_and_flag() {
    let mut spring = SpringBack::new();
    assert_eq!(fl_spring_back_value(&spring, 0, UNIT), (0, 1));
    spring.absorb(0, 10 * UNIT);
    assert_eq!(fl_spring_back_value(&spring, 0, UNIT), (10 * UNIT, 0));
    assert_eq!(fl_spring_back_value(&spring, 100 * UNIT, 335_301), (7_016_937, 0));
    assert_eq!(fl_spring_back_value(&spring, 5_000 * UNIT, 0), (0, 1));
}

#[test]
fn a_displacement_of_zero_is_not_the_end() {
    let mut spring = SpringBack::new();
    // At its rest position, still at speed.
    spring.absorb_with_response(UNIT, 0, i64::MAX);
    assert_eq!(fl_spring_back_value(&spring, 0, UNIT), (0, 0));
}

#[test]
fn strategy_codes() {
    assert_eq!(Strategy::Recurrence.code(), 0);
    assert_eq!(Strategy::Lsq2.code(), 1);
    assert_eq!(Strategy::from_code(0), Some(Strategy::Recurrence));
    assert_eq!(Strategy::from_code(1), Some(Strategy::Lsq2));
    assert_eq!(Strategy::from_code(2), None);
    assert_eq!(Strategy::from_code(255), None);
}

#[test]
fn fit_needs_a_positive_degree() {
    assert_eq!(fit_shape(5, 0), Err(FitError::DegreeNotPositive));
    assert_eq!(fit_shape(0, 0), Err(FitError::DegreeNotPositive));
}

#[test]
fn fit_needs_a_sample() {
    assert_eq!(fit_shape(0, 2), Err(FitError::NoSamples));
}

#[test]
fn fit_truncates_its_degree() {
    assert_eq!(fit_shape(4, 2), Ok(FitShape { samples: 4, coefficients: 3 }));
    assert_eq!(fit_shape(3, 2), Ok(FitShape { samples: 3, coefficients: 3 }));
    assert_eq!(fit_shape(2, 2), Ok(FitShape { samples: 2, coefficients: 2 }));
    assert_eq!(fit_shape(1, 2), Ok(FitShape { samples: 1, coefficients: 1 }));
    assert_eq!(fit_shape(20, 1), Ok(FitShape { samples: 20, coefficients: 2 }));
    assert_eq!(
        fit_shape(usize::MAX, usize::MAX),
        Ok(FitShape { samples: usize::MAX, coefficients: usize::MAX })
    );
}
