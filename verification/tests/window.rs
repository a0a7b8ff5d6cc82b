use sensor_qc::consist::ConsistWindow;

#[test]
fn window_seeds_on_first_sample() {
    let mut w = ConsistWindow::new(600);
    assert!(!w.check_insert(0, Some(200), 20));
    assert_eq!(w.max_q, vec![(0, 200)]);
    assert_eq!(w.min_q, vec![(0, 200)]);
}

#[test]
fn window_deques_stay_monotonic() {
    let mut w = ConsistWindow::new(1000);
    let _ = w.check_insert(0, Some(5), i64::MAX);
    let _ = w.check_insert(10, Some(3), i64::MAX);
    let _ = w.check_insert(20, Some(4), i64::MAX);
    // The max-deque is non-increasing front to back, its front the
    // windowed maximum; the min-deque is non-decreasing, its front the
    // windowed minimum.
    assert_eq!(w.max_q, vec![(0, 5), (20, 4)]);
    assert_eq!(w.min_q, vec![(10, 3), (20, 4)]);
}

#[test]
fn window_prunes_old_samples() {
    let mut w = ConsistWindow::new(100);
    let _ = w.check_insert(0, Some(900), i64::MAX);
    let _ = w.check_insert(100, Some(100), i64::MAX);
    // 900 at time 0 falls out of the window ending at 160.
    let _ = w.check_insert(160, Some(500), i64::MAX);
    assert_eq!(w.max_q, vec![(160, 500)]);
    assert_eq!(w.min_q, vec![(100, 100), (160, 500)]);
}

#[test]
fn drift_scenario_fails_at_spread_five() {
    // Rule {duration 600 s, difference 2.0} at a fixed-point scale of
    // 10: five samples at 20.0 spaced 100 s apart, then 25.0 at 550 s.
    let mut w = ConsistWindow::new(600);
    for k in 0..5i64 {
        assert!(!w.check_insert(k * 100, Some(200), 20));
    }
    assert!(w.check_insert(550, Some(250), 20));
}

#[test]
fn small_drift_passes() {
    let mut w = ConsistWindow::new(600);
    for k in 0..5i64 {
        assert!(!w.check_insert(k * 100, Some(200), 20));
    }
    // The oldest retained extremum candidate sits at 400 s, so the
    // allowance at 550 s is 2.0 scaled by 150/600: spread 0.2 passes,
    // spread 1.0 would not.
    assert!(!w.check_insert(550, Some(202), 20));
}

#[test]
fn non_number_fails_and_never_joins() {
    let mut w = ConsistWindow::new(600);
    assert!(!w.check_insert(0, Some(200), 20));
    assert!(w.check_insert(100, None, 20));
    assert_eq!(w.max_q, vec![(0, 200)]);
    assert_eq!(w.min_q, vec![(0, 200)]);
}
