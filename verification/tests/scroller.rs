use fluid_scroll::scroller::DecelerationRate;
use fluid_scroll::scroller::Scroller;
use fluid_scroll::scroller::ScrollerValue;
use fluid_scroll::scroller::FAST;
use fluid_scroll::scroller::NORMAL;

const UNIT: i64 = 1_000_000;

fn fixed(x: f64) -> i64 {
    (x * UNIT as f64).round() as i64
}

fn coefficient(rate: DecelerationRate, elapsed: f64) -> i64 {
    fixed((rate.0 as f64 / UNIT as f64).powf(elapsed))
}

fn inverse_log(rate: DecelerationRate) -> i64 {
    fixed(1.0 / (rate.0 as f64 / UNIT as f64).ln())
}

#[test]
fn presets() {
    assert_eq!(NORMAL, 998_000);
    assert_eq!(FAST, 990_000);
    assert_eq!(DecelerationRate::normal(), DecelerationRate(998_000));
    assert_eq!(DecelerationRate::fast(), DecelerationRate(990_000));
    assert_eq!(DecelerationRate::default(), DecelerationRate::normal());
    assert_eq!(Scroller::default().deceleration_rate(), DecelerationRate::normal());
}

#[test]
fn rate_lies_strictly_between_zero_and_one() {
    assert!(DecelerationRate::normal().is_in_range());
    assert!(DecelerationRate(1).is_in_range());
    assert!(DecelerationRate(999_999).is_in_range());
    assert!(!DecelerationRate(0).is_in_range());
    assert!(!DecelerationRate(1_000_000).is_in_range());
    assert!(!DecelerationRate(-5).is_in_range());
}

#[test]
fn fling_after_a_hundred_milliseconds() {
    let rate = DecelerationRate::normal();
    let mut scroller = Scroller::new(rate);
    scroller.fling(2 * UNIT);
    assert_eq!(inverse_log(rate), -499_499_833);
    let value = scroller.value(coefficient(rate, 100.0), inverse_log(rate));
    assert_eq!(value, Some(ScrollerValue { offset: 181_251_506, velocity: 1_637_134 }));
    scroller.fling(-2 * UNIT);
    let value = scroller.value(coefficient(rate, 100.0), inverse_log(rate));
    assert_eq!(value, Some(ScrollerValue { offset: -181_251_506, velocity: -1_637_134 }));
}

#[test]
fn fling_at_launch() {
    let mut scroller = Scroller::default();
    scroller.fling(2 * UNIT);
    let value = scroller.value(UNIT, -499_499_833);
    assert_eq!(value, Some(ScrollerValue { offset: 0, velocity: 2 * UNIT }));
}

#[test]
fn fling_ends_below_the_threshold() {
    let mut scroller = Scroller::default();
    scroller.fling(2 * UNIT);
    assert_eq!(
        scroller.value(5_000, -499_499_833),
        Some(ScrollerValue { offset: 994_004_667, velocity: 10_000 })
    );
    assert_eq!(scroller.value(4_999, -499_499_833), None);
    scroller.fling(-2 * UNIT);
    assert_eq!(
        scroller.value(5_000, -499_499_833),
        Some(ScrollerValue { offset: -994_004_667, velocity: -10_000 })
    );
    assert_eq!(scroller.value(4_999, -499_499_833), None);
}

#[test]
fn fling_always_ends() {
    let rate = DecelerationRate::normal();
    let mut scroller = Scroller::new(rate);
    scroller.fling(2 * UNIT);
    let mut elapsed = 0;
    while scroller.value(coefficient(rate, elapsed as f64), inverse_log(rate)).is_some() {
        elapsed += 1;
        assert!(elapsed < 100_000);
    }
    assert_eq!(elapsed, 2_647);
    for later in elapsed..elapsed + 5_000 {
        assert_eq!(scroller.value(coefficient(rate, later as f64), inverse_log(rate)), None);
    }
    let rate = DecelerationRate::fast();
    let mut fast = Scroller::new(rate);
    fast.fling(2 * UNIT);
    let mut sooner = 0;
    while fast.value(coefficient(rate, sooner as f64), inverse_log(rate)).is_some() {
        sooner += 1;
        assert!(sooner < 100_000);
    }
    assert!(sooner < elapsed);
}

#[test]
fn no_fling_reports_nothing() {
    let scroller = Scroller::default();
    assert_eq!(scroller.initial_velocity(), 0);
    assert_eq!(scroller.value(UNIT, -499_499_833), None);
    assert_eq!(scroller.value(i64::MAX, i64::MIN), None);
}

#[test]
fn scroller_reset_is_like_new() {
    let mut scroller = Scroller::new(DecelerationRate::fast());
    scroller.fling(3 * UNIT);
    assert!(scroller.value(UNIT, -99_499_162).is_some());
    scroller.reset();
    let fresh = Scroller::new(DecelerationRate::fast());
    for coefficient in [0, 1, 5_000, UNIT, 2 * UNIT, i64::MAX, i64::MIN] {
        assert_eq!(
            scroller.value(coefficient, -99_499_162),
            fresh.value(coefficient, -99_499_162)
        );
        assert_eq!(scroller.value(coefficient, -99_499_162), None);
    }
    assert_eq!(scroller.deceleration_rate(), DecelerationRate::fast());
    scroller.fling(3 * UNIT);
    assert!(scroller.value(UNIT, -99_499_162).is_some());
}

#[test]
fn rate_can_change_during_a_fling() {
    let mut scroller = Scroller::default();
    scroller.fling(3 * UNIT);
    scroller.set_deceleration_rate(DecelerationRate::fast());
    assert_eq!(scroller.deceleration_rate(), DecelerationRate::fast());
    assert_eq!(scroller.initial_velocity(), 3 * UNIT);
}

#[test]
fn fling_saturates() {
    let mut scroller = Scroller::default();
    scroller.fling(i64::MAX);
    assert_eq!(
        scroller.value(i64::MAX, -499_499_833),
        Some(ScrollerValue { offset: i64::MIN, velocity: i64::MAX })
    );
    assert_eq!(
        scroller.value(UNIT, i64::MIN),
        Some(ScrollerValue { offset: 0, velocity: i64::MAX })
    );
}
