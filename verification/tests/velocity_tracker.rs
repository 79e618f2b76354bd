use fluid_scroll::velocity_tracker::calculate_recurrence_relation_velocity;
use fluid_scroll::velocity_tracker::DataPoint;
use fluid_scroll::velocity_tracker::QuadraticFit;
use fluid_scroll::velocity_tracker::RecurrenceError;
use fluid_scroll::velocity_tracker::Strategy;
use fluid_scroll::velocity_tracker::VelocityTracker;

const UNIT: i64 = 1_000_000;

fn fixed(x: f64) -> i64 {
    (x * UNIT as f64).round() as i64
}

// Least squares by Gram-Schmidt on the samples, whose times are relative to
// the newest.
fn fit(samples: &[DataPoint]) -> Option<QuadraticFit> {
    let m = samples.len();
    if m < 3 {
        return None;
    }
    let x: Vec<f64> = samples.iter().map(|p| p.time as f64 / UNIT as f64).collect();
    let y: Vec<f64> = samples.iter().map(|p| p.value as f64 / UNIT as f64).collect();
    let n = 3;
    let mut a = vec![vec![0.0_f64; m]; n];
    for h in 0..m {
        a[0][h] = 1.0;
        for i in 1..n {
            a[i][h] = a[i - 1][h] * x[h];
        }
    }
    let dot = |u: &Vec<f64>, v: &Vec<f64>| u.iter().zip(v.iter()).map(|(p, q)| p * q).sum::<f64>();
    let mut q = vec![vec![0.0_f64; m]; n];
    let mut r = vec![vec![0.0_f64; n]; n];
    for j in 0..n {
        q[j] = a[j].clone();
        for i in 0..j {
            let d = dot(&q[j], &q[i]);
            for h in 0..m {
                q[j][h] -= d * q[i][h];
            }
        }
        let norm = dot(&q[j], &q[j]).sqrt();
        if norm < 1e-6 {
            return None;
        }
        for h in 0..m {
            q[j][h] /= norm;
        }
        for i in 0..n {
            r[j][i] = if i < j { 0.0 } else { dot(&q[j], &a[i]) };
        }
    }
    let mut b = [0.0_f64; 3];
    for i in (0..n).rev() {
        b[i] = dot(&q[i], &y);
        for j in (i + 1..n).rev() {
            b[i] -= r[i][j] * b[j];
        }
        b[i] /= r[i][i];
    }
    Some(QuadraticFit { offset: fixed(b[0]), slope: fixed(b[1]), curvature: fixed(b[2]) })
}

#[test]
fn test_lsq2() {
    let mut velocity_tracker = VelocityTracker::with_strategy(Strategy::Lsq2);
    velocity_tracker.add_data_point(0, 0);
    velocity_tracker.add_data_point(10 * UNIT, 20 * UNIT);
    velocity_tracker.add_data_point(20 * UNIT, 30 * UNIT);
    velocity_tracker.add_data_point(30 * UNIT, 40 * UNIT);
    let found = fit(&velocity_tracker.fit_samples());
    let velocity = velocity_tracker.calculate(found);
    assert!((velocity - 550_000).abs() < 1_000)
}

#[test]
fn test_instantaneous() {
    let mut velocity_tracker = VelocityTracker::with_strategy(Strategy::Recurrence);
    velocity_tracker.add_data_point(fixed(1.53283), 0);
    velocity_tracker.add_data_point(fixed(3.27537), 376 * UNIT);
    velocity_tracker.add_data_point(fixed(5.27733), 276 * UNIT);
    velocity_tracker.add_data_point(fixed(22.2795), fixed(153.5));
    velocity_tracker.add_data_point(fixed(58.22), fixed(151.5));
    let velocity = velocity_tracker.calculate(None);
    assert!((velocity + 55_647).abs() < 1_000)
}

#[test]
fn recurrence_on_uniform_samples() {
    let mut tracker = VelocityTracker::with_strategy(Strategy::Recurrence);
    tracker.add_data_point(0, 0);
    tracker.add_data_point(10 * UNIT, 20 * UNIT);
    tracker.add_data_point(20 * UNIT, 30 * UNIT);
    tracker.add_data_point(30 * UNIT, 40 * UNIT);
    assert_eq!(tracker.calculate(None), 1_760_000);
}

#[test]
fn no_sample_gives_zero() {
    assert_eq!(VelocityTracker::new().calculate(None), 0);
    let fit = Some(QuadraticFit { offset: 1, slope: 2, curvature: 3 });
    assert_eq!(VelocityTracker::with_strategy(Strategy::Lsq2).calculate(fit), 0);
}

#[test]
fn one_sample_gives_zero() {
    let mut tracker = VelocityTracker::new();
    tracker.add_data_point(5 * UNIT, 7 * UNIT);
    assert_eq!(tracker.calculate(None), 0);
    let mut tracker = VelocityTracker::with_strategy(Strategy::Lsq2);
    tracker.add_data_point(5 * UNIT, 7 * UNIT);
    let fit = Some(QuadraticFit { offset: 1, slope: 2, curvature: 3 });
    assert_eq!(tracker.calculate(fit), 0);
}

#[test]
fn two_samples_give_their_velocity() {
    let mut tracker = VelocityTracker::new();
    tracker.add_data_point(0, 0);
    tracker.add_data_point(4 * UNIT, 10 * UNIT);
    assert_eq!(tracker.calculate(None), 2_500_000);
}

#[test]
fn least_squares_needs_three_samples() {
    let mut tracker = VelocityTracker::with_strategy(Strategy::Lsq2);
    tracker.add_data_point(0, 0);
    tracker.add_data_point(4 * UNIT, 10 * UNIT);
    let fit = Some(QuadraticFit { offset: 0, slope: 2_500_000, curvature: 0 });
    assert_eq!(tracker.calculate(fit), 0);
    tracker.add_data_point(8 * UNIT, 20 * UNIT);
    assert_eq!(tracker.calculate(fit), 2_500_000);
    assert_eq!(tracker.calculate(None), 0);
}

#[test]
fn default_strategy_is_recurrence() {
    assert_eq!(Strategy::default(), Strategy::Recurrence);
    assert_eq!(VelocityTracker::default().min_sample_size(), 2);
    assert_eq!(VelocityTracker::with_strategy(Strategy::Lsq2).min_sample_size(), 3);
}

#[test]
fn window_is_newest_first() {
    let mut tracker = VelocityTracker::with_strategy(Strategy::Lsq2);
    assert!(tracker.window().is_empty());
    tracker.add_data_point(1, 10);
    tracker.add_data_point(2, 20);
    tracker.add_data_point(3, 30);
    assert_eq!(
        tracker.window(),
        vec![
            DataPoint { time: 3, value: 30 },
            DataPoint { time: 2, value: 20 },
            DataPoint { time: 1, value: 10 },
        ]
    );
}

#[test]
fn fit_samples_count_time_from_the_newest() {
    let mut tracker = VelocityTracker::with_strategy(Strategy::Lsq2);
    assert!(tracker.fit_samples().is_empty());
    tracker.add_data_point(100, 10);
    tracker.add_data_point(250, 20);
    tracker.add_data_point(300, 30);
    assert_eq!(
        tracker.fit_samples(),
        vec![
            DataPoint { time: 0, value: 30 },
            DataPoint { time: -50, value: 20 },
            DataPoint { time: -200, value: 10 },
        ]
    );
    tracker.add_data_point(i64::MAX, 40);
    tracker.add_data_point(i64::MIN, 50);
    assert_eq!(tracker.fit_samples()[1], DataPoint { time: i64::MAX, value: 40 });
    tracker.add_data_point(i64::MAX, 60);
    assert_eq!(tracker.fit_samples()[1], DataPoint { time: i64::MIN, value: 50 });
}

#[test]
fn ring_keeps_the_twenty_newest() {
    let mut tracker = VelocityTracker::with_strategy(Strategy::Lsq2);
    for i in 0..45_i64 {
        tracker.add_data_point(i, 100 + i);
    }
    let window = tracker.window();
    assert_eq!(window.len(), 20);
    for k in 0..20_usize {
        assert_eq!(window[k], DataPoint { time: 44 - k as i64, value: 144 - k as i64 });
    }
}

#[test]
fn a_sample_of_zero_is_a_sample() {
    let mut tracker = VelocityTracker::with_strategy(Strategy::Lsq2);
    tracker.add_data_point(0, 0);
    tracker.add_data_point(0, 0);
    assert_eq!(tracker.window().len(), 2);
}

#[test]
fn recurrence_stops_past_the_horizon() {
    let mut tracker = VelocityTracker::new();
    tracker.add_data_point(0, 0);
    tracker.add_data_point(50 * UNIT, 10 * UNIT);
    tracker.add_data_point(100 * UNIT, 20 * UNIT);
    tracker.add_data_point(150 * UNIT, 30 * UNIT);
    tracker.add_data_point(200 * UNIT, 40 * UNIT);
    // The sample at 100 ms is exactly 100 ms old and still counts.
    assert_eq!(tracker.window().len(), 3);
    tracker.add_data_point(200 * UNIT + 1, 40 * UNIT);
    assert_eq!(tracker.window().len(), 3);
    assert_eq!(tracker.window()[2], DataPoint { time: 150 * UNIT, value: 30 * UNIT });
}

#[test]
fn recurrence_stops_at_a_jump() {
    let mut tracker = VelocityTracker::new();
    tracker.add_data_point(0, 0);
    tracker.add_data_point(10 * UNIT, 100 * UNIT);
    tracker.add_data_point(20 * UNIT, 140 * UNIT);
    tracker.add_data_point(30 * UNIT, 150 * UNIT);
    // 100 to 140 is a jump of exactly 40 and still counts; 0 to 100 does not.
    assert_eq!(tracker.window().len(), 3);
    assert_eq!(tracker.calculate(None), 3_850_000);
}

#[test]
fn least_squares_ignores_horizon_and_jumps() {
    let mut tracker = VelocityTracker::with_strategy(Strategy::Lsq2);
    tracker.add_data_point(0, 0);
    tracker.add_data_point(500 * UNIT, 1_000 * UNIT);
    tracker.add_data_point(1_000 * UNIT, 0);
    assert_eq!(tracker.window().len(), 3);
}

#[test]
fn tracker_reset_is_like_new() {
    let mut tracker = VelocityTracker::new();
    for i in 0..30_i64 {
        tracker.add_data_point(i * UNIT, i * UNIT);
    }
    assert_eq!(tracker.calculate(None), 1_000_000);
    tracker.reset();
    assert_eq!(tracker.calculate(None), VelocityTracker::new().calculate(None));
    assert!(tracker.window().is_empty());
    tracker.add_data_point(0, 0);
    tracker.add_data_point(2 * UNIT, 6 * UNIT);
    let mut fresh = VelocityTracker::new();
    fresh.add_data_point(0, 0);
    fresh.add_data_point(2 * UNIT, 6 * UNIT);
    assert_eq!(tracker.calculate(None), fresh.calculate(None));
    assert_eq!(tracker.calculate(None), 3_000_000);
}

#[test]
fn reset_keeps_the_strategy() {
    let mut tracker = VelocityTracker::with_strategy(Strategy::Lsq2);
    tracker.add_data_point(0, 0);
    tracker.reset();
    assert_eq!(tracker.min_sample_size(), 3);
}

#[test]
fn recurrence_skips_pairs_taken_at_the_same_time() {
    let points = vec![
        DataPoint { time: 10 * UNIT, value: 30 * UNIT },
        DataPoint { time: 10 * UNIT, value: 20 * UNIT },
        DataPoint { time: 0, value: 0 },
    ];
    assert_eq!(calculate_recurrence_relation_velocity(&points, 4), Ok(2_000_000));
    let still = vec![DataPoint { time: 5, value: 1 }, DataPoint { time: 5, value: 9 }];
    assert_eq!(calculate_recurrence_relation_velocity(&still, 4), Ok(0));
}

#[test]
fn recurrence_needs_two_points() {
    let one = vec![DataPoint { time: 5, value: 1 }];
    assert_eq!(
        calculate_recurrence_relation_velocity(&one, 4),
        Err(RecurrenceError::TooFewPoints)
    );
    let two = vec![DataPoint { time: 5, value: 1 }, DataPoint { time: 4, value: 0 }];
    assert_eq!(
        calculate_recurrence_relation_velocity(&two, 1),
        Err(RecurrenceError::TooFewPoints)
    );
    assert_eq!(calculate_recurrence_relation_velocity(&two, 2), Ok(1_000_000));
}

#[test]
fn recurrence_looks_at_the_newest_points_only() {
    let points = vec![
        DataPoint { time: 30 * UNIT, value: 40 * UNIT },
        DataPoint { time: 20 * UNIT, value: 30 * UNIT },
        DataPoint { time: 10 * UNIT, value: 20 * UNIT },
        DataPoint { time: 0, value: 0 },
        DataPoint { time: -10 * UNIT, value: -5_000 * UNIT },
    ];
    assert_eq!(calculate_recurrence_relation_velocity(&points, 4), Ok(1_760_000));
    assert_eq!(calculate_recurrence_relation_velocity(&points, 3), Ok(1_000_000));
}

#[test]
fn recurrence_rounds_toward_zero_and_saturates() {
    let points = vec![DataPoint { time: 3, value: -1 }, DataPoint { time: 0, value: 0 }];
    assert_eq!(calculate_recurrence_relation_velocity(&points, 2), Ok(-333_333));
    let wild = vec![
        DataPoint { time: 1, value: i64::MAX },
        DataPoint { time: 0, value: i64::MIN },
    ];
    assert_eq!(calculate_recurrence_relation_velocity(&wild, 2), Ok(i64::MAX));
}

#[test]
fn approaching_halt_below_a_quarter_point_per_millisecond() {
    assert!(VelocityTracker::approaching_halt(200_000, 100_000));
    assert!(!VelocityTracker::approaching_halt(300_000, 300_000));
    assert!(VelocityTracker::approaching_halt(0, 0));
    assert!(VelocityTracker::approaching_halt(249_999, 0));
    assert!(!VelocityTracker::approaching_halt(250_000, 0));
    assert!(!VelocityTracker::approaching_halt(0, -250_000));
    assert!(VelocityTracker::approaching_halt(-150_000, 199_999));
    assert!(!VelocityTracker::approaching_halt(-150_000, 200_000));
    assert!(!VelocityTracker::approaching_halt(i64::MIN, i64::MIN));
}
