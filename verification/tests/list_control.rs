use fluid_scroll::list_control::overflow_offset;
use fluid_scroll::list_control::release;
use fluid_scroll::list_control::rubber_band_for_offset;
use fluid_scroll::list_control::spring_target;
use fluid_scroll::list_control::ListAnimationType;
use fluid_scroll::point::Point;

const POINT: i64 = 1_000_000;

#[test]
fn animation_is_idle_by_default() {
    assert_eq!(ListAnimationType::default(), ListAnimationType::Idle);
}

#[test]
fn overflow_is_the_distance_to_the_bounds() {
    assert_eq!(overflow_offset(-5, 0, 100), -5);
    assert_eq!(overflow_offset(0, 0, 100), 0);
    assert_eq!(overflow_offset(50, 0, 100), 0);
    assert_eq!(overflow_offset(100, 0, 100), 0);
    assert_eq!(overflow_offset(130, 0, 100), 30);
    assert_eq!(overflow_offset(i64::MIN, i64::MAX, i64::MAX), i64::MIN);
    assert_eq!(overflow_offset(i64::MAX, i64::MIN, i64::MIN), i64::MAX);
}

#[test]
fn spring_pulls_to_the_edge_that_was_left() {
    assert_eq!(spring_target(-5, 10, 100), 10);
    assert_eq!(spring_target(5, 10, 100), 100);
    assert_eq!(spring_target(0, 10, 100), 100);
}

#[test]
fn band_leaves_the_inside_alone() {
    for inv in [false, true] {
        assert_eq!(rubber_band_for_offset(0, 600 * POINT, 0, 1_000 * POINT, inv), 0);
        assert_eq!(
            rubber_band_for_offset(500 * POINT, 600 * POINT, 0, 1_000 * POINT, inv),
            500 * POINT
        );
        assert_eq!(
            rubber_band_for_offset(1_000 * POINT, 600 * POINT, 0, 1_000 * POINT, inv),
            1_000 * POINT
        );
    }
}

#[test]
fn band_compresses_past_either_edge() {
    assert_eq!(
        rubber_band_for_offset(-201 * POINT, 600 * POINT, 0, 1_000 * POINT, false),
        -93_350_221
    );
    assert_eq!(
        rubber_band_for_offset(1_201 * POINT, 600 * POINT, 0, 1_000 * POINT, false),
        1_093_350_221
    );
}

#[test]
fn band_expands_again() {
    assert_eq!(
        rubber_band_for_offset(-93_350_221, 600 * POINT, 0, 1_000 * POINT, true),
        -200_999_998
    );
    assert_eq!(
        rubber_band_for_offset(1_093_350_221, 600 * POINT, 0, 1_000 * POINT, true),
        1_200_999_998
    );
}

#[test]
fn band_of_odd_geometry() {
    // Content shorter than the view: the upper bound falls back on the lower.
    assert_eq!(rubber_band_for_offset(5 * POINT, 600 * POINT, 0, -10 * POINT, false), 2_737_453);
    // No extent at all: nothing to band against.
    assert_eq!(rubber_band_for_offset(-5 * POINT, 0, 0, 10 * POINT, false), -5 * POINT);
    assert_eq!(rubber_band_for_offset(-5 * POINT, -600 * POINT, 0, 10 * POINT, false), 0);
}

#[test]
fn release_inside_the_bounds() {
    assert_eq!(
        release(Point::new(0, -2 * POINT), 0),
        (ListAnimationType::Decelerate, 2 * POINT)
    );
    assert_eq!(release(Point::new(0, 100_000), 0), (ListAnimationType::Idle, 0));
    assert_eq!(release(Point::zero(), 0), (ListAnimationType::Idle, 0));
    assert_eq!(release(Point::new(3 * POINT, 0), 0), (ListAnimationType::Decelerate, 0));
}

#[test]
fn release_outside_the_bounds() {
    assert_eq!(
        release(Point::new(0, -2 * POINT), 50 * POINT),
        (ListAnimationType::SpringBack, 1_500_000)
    );
    assert_eq!(
        release(Point::new(0, 2 * POINT), 50 * POINT),
        (ListAnimationType::SpringBack, -500_000)
    );
    assert_eq!(
        release(Point::new(0, 2 * POINT), -50 * POINT),
        (ListAnimationType::SpringBack, -1_500_000)
    );
    assert_eq!(release(Point::zero(), -50 * POINT), (ListAnimationType::SpringBack, 500_000));
    assert_eq!(release(Point::zero(), 99), (ListAnimationType::SpringBack, 0));
}

#[test]
fn release_at_the_limits() {
    assert_eq!(
        release(Point::new(0, i64::MIN), 0),
        (ListAnimationType::Decelerate, i64::MAX)
    );
    assert_eq!(
        release(Point::new(0, i64::MAX), i64::MIN),
        (ListAnimationType::SpringBack, -9_131_138_316_486_228_049)
    );
}
