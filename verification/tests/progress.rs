use captcha_keyspace::progress::ProgressTracker;

#[test]
fn new_tracker_interval_is_about_one_percent() {
    let t = ProgressTracker::new(1000, 10_000);
    assert_eq!(t.completed, 0);
    assert_eq!(t.total, 1000);
    assert_eq!(t.report_interval, 10);
}

#[test]
fn new_tracker_interval_is_at_least_one() {
    let t = ProgressTracker::new(4, 10_000);
    assert_eq!(t.report_interval, 1);
}

#[test]
fn new_tracker_interval_is_capped() {
    let t = ProgressTracker::new(10_000_000, 10_000);
    assert_eq!(t.report_interval, 10_000);
}

#[test]
fn advance_counts_and_saturates() {
    let mut t = ProgressTracker::new(5, 10_000);
    assert_eq!(t.advance(3), 3);
    assert_eq!(t.completed, 3);
    assert_eq!(t.advance(10), 5);
    assert_eq!(t.completed, 5);
    assert_eq!(t.advance(1), 5);
    assert!(t.completed <= t.total);
}

#[test]
fn should_report_on_interval_multiples() {
    let t = ProgressTracker::new(1000, 10);
    assert_eq!(t.report_interval, 10);
    assert!(t.should_report(20));
    assert!(!t.should_report(25));
    assert!(t.should_report(0));
}

#[test]
fn report_line_at_completion() {
    let mut t = ProgressTracker::new(4, 10_000);
    t.advance(4);
    assert_eq!(t.report_line(), "Progress: 100.00% (4/4)");
}

#[test]
fn report_line_rounds_down_to_hundredths() {
    let mut t = ProgressTracker::new(3, 10_000);
    t.advance(1);
    assert_eq!(t.report_line(), "Progress: 33.33% (1/3)");
}

#[test]
fn report_line_pads_fraction_to_two_digits() {
    let mut t = ProgressTracker::new(8, 10_000);
    t.advance(1);
    assert_eq!(t.report_line(), "Progress: 12.50% (1/8)");
    let mut small = ProgressTracker::new(1000, 10_000);
    small.advance(1);
    assert_eq!(small.report_line(), "Progress: 0.10% (1/1000)");
}

#[test]
fn report_line_at_start() {
    let t = ProgressTracker::new(4, 10_000);
    assert_eq!(t.report_line(), "Progress: 0.00% (0/4)");
}
