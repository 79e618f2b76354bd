use fluid_scroll::rubber_band::calculate_offset;
use fluid_scroll::rubber_band::calculate_offset_inv;
use fluid_scroll::rubber_band::from_fine;
use fluid_scroll::rubber_band::to_fine;
use fluid_scroll::rubber_band::FINE;
use fluid_scroll::rubber_band::TOLERANCE;

const POINT: i64 = 1_000_000;

#[test]
fn it_works() {
    let origin = 201 * POINT;
    let range = 600 * POINT;
    let offset = calculate_offset(origin, range);
    let inv = calculate_offset_inv(offset, range);
    assert!((origin - inv).abs() < 10_000);
}

#[test]
fn fine_units() {
    assert_eq!(FINE, 1_000_000_000_000_000);
    assert_eq!(to_fine(0), 0);
    assert_eq!(to_fine(7), 7_000_000_000_000_000);
    assert_eq!(to_fine(-7), -7_000_000_000_000_000);
    assert_eq!(to_fine(i64::MAX), 9_223_372_036_854_775_807_000_000_000_000_000);
    assert_eq!(from_fine(7_999_999_999_999_999), 7);
    assert_eq!(from_fine(-7_999_999_999_999_999), -7);
    assert_eq!(from_fine(to_fine(i64::MIN)), i64::MIN);
    assert_eq!(from_fine(i128::MAX), i64::MAX);
    assert_eq!(from_fine(i128::MIN), i64::MIN);
}

#[test]
fn compress_matches_the_formula() {
    assert_eq!(calculate_offset(201 * POINT, 600 * POINT), 93_350_221_659_278_024_065_864);
    assert_eq!(from_fine(calculate_offset(201 * POINT, 600 * POINT)), 93_350_221);
    assert_eq!(calculate_offset(600 * POINT, 600 * POINT), 212_903_225_806_451_612_903_225);
    assert_eq!(calculate_offset(0, 600 * POINT), 0);
}

#[test]
fn compress_rejects_what_lies_outside_its_domain() {
    assert_eq!(calculate_offset(-5, 600 * POINT), 0);
    assert_eq!(calculate_offset(5, 0), 0);
    assert_eq!(calculate_offset(5, -3), 0);
    assert_eq!(calculate_offset(i64::MIN, i64::MAX), 0);
}

#[test]
fn compress_takes_the_largest_arguments() {
    assert_eq!(
        calculate_offset(i64::MAX, i64::MAX),
        3_272_809_432_432_339_802_483_870_967_741_935
    );
}

#[test]
fn compress_is_monotonic_and_stays_below_range() {
    let range = 600 * POINT;
    let mut last = 0;
    let mut offset = 0;
    while offset <= 100_000 * POINT {
        let shown = calculate_offset(offset, range);
        assert!(shown >= last);
        assert!(shown < to_fine(range));
        assert!(shown <= to_fine(offset));
        last = shown;
        offset += 997 * POINT;
    }
    assert_eq!(calculate_offset(i64::MAX, range), 599_999_999_929_034_039_627_524);
    assert_eq!(from_fine(calculate_offset(i64::MAX, range)), range - 1);
}

#[test]
fn expand_matches_the_formula() {
    assert_eq!(calculate_offset_inv(93_350_221_659_278_024_065_864, 600 * POINT), 200_999_999);
    assert_eq!(calculate_offset_inv(to_fine(93_350_221), 600 * POINT), 200_999_998);
    assert_eq!(calculate_offset_inv(0, 600 * POINT), 0);
}

#[test]
fn expand_rejects_negative_arguments() {
    assert_eq!(calculate_offset_inv(-1, 600 * POINT), 0);
    assert_eq!(calculate_offset_inv(to_fine(5), -1), 0);
}

#[test]
fn expand_clamps_at_the_margin() {
    let range = 600 * POINT;
    let at_margin = calculate_offset_inv(to_fine(range - 10), range);
    assert_eq!(at_margin, 65_454_544_363_636_363);
    assert_eq!(calculate_offset_inv(to_fine(range), range), at_margin);
    assert_eq!(calculate_offset_inv(to_fine(2 * range), range), at_margin);
    assert_eq!(calculate_offset_inv(i128::MAX, range), at_margin);
}

#[test]
fn expand_of_a_range_below_the_margin() {
    assert_eq!(calculate_offset_inv(to_fine(5), 0), 0);
    assert_eq!(calculate_offset_inv(to_fine(3), 5), -4);
    assert_eq!(calculate_offset_inv(0, 5), -4);
    assert_eq!(calculate_offset_inv(i128::MAX, 5), -4);
}

#[test]
fn expand_saturates() {
    assert_eq!(calculate_offset_inv(to_fine(i64::MAX - 11), i64::MAX), i64::MAX);
    assert_eq!(calculate_offset_inv(i128::MAX, i64::MAX), i64::MAX);
}

#[test]
fn round_trip_stays_within_tolerance() {
    let range = 600 * POINT;
    let mut offset = 0;
    while offset <= 100 * range {
        let back = calculate_offset_inv(calculate_offset(offset, range), range);
        assert!(back <= offset);
        assert!(offset - back <= 1);
        offset += 1_234_567;
    }
}

#[test]
fn round_trip_of_a_long_drag_on_a_short_range() {
    let shown = calculate_offset(500 * POINT, POINT);
    assert_eq!(shown, 996_376_811_594_202_898_550);
    assert_eq!(from_fine(shown), 996_376);
    assert_eq!(calculate_offset_inv(shown, POINT), 499_999_999);
    let back = calculate_offset_inv(calculate_offset(1_000 * POINT, POINT), POINT);
    assert_eq!(back, 999_999_999);
}

#[test]
fn round_trip_clear_of_the_margin() {
    // As long as the compressed offset keeps the margin, the drag comes back,
    // on short ranges and on long ones.
    for range in [1, 7, 11, 1_000, POINT, 600 * POINT, 20_000 * POINT, 5_000_000 * POINT, i64::MAX] {
        let mut offset: i64 = 1;
        let mut checked = 0;
        while offset < i64::MAX / 3 {
            let shown = calculate_offset(offset, range);
            if shown <= to_fine(range - 10) {
                let back = calculate_offset_inv(shown, range);
                assert!(back <= offset);
                assert!(offset - back <= TOLERANCE);
                checked += 1;
            }
            offset = offset * 3 + 1;
        }
        assert!(range < 11 || checked > 0);
    }
}

#[test]
fn round_trip_through_millionths_loses_long_drags() {
    // Shown to the millionth, a compressed offset close to the range no
    // longer tells long drags apart.
    let shown = from_fine(calculate_offset(500 * POINT, POINT));
    assert_eq!(calculate_offset_inv(to_fine(shown), POINT), 499_887_617);
}
