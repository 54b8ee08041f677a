use quip_solver_core::CancelToken;

#[test]
fn marks_watermarks_at_or_below_the_cancel_point() {
    let mut t = CancelToken::default();
    assert!(!t.is_cancelled(Some(5))); // nothing cancelled yet
    t.cancel_through(5);
    assert!(t.is_cancelled(Some(5)));
    assert!(t.is_cancelled(Some(4)));
    assert!(!t.is_cancelled(Some(6)));
}

#[test]
fn a_job_with_no_watermark_is_never_cancelled() {
    let mut t = CancelToken::default();
    t.cancel_through(u64::MAX);
    assert!(!t.is_cancelled(None));
}

#[test]
fn the_cancel_point_is_monotonic() {
    let mut t = CancelToken::default();
    t.cancel_through(7);
    t.cancel_through(3); // a lower value must not lower the cancel point
    assert!(t.is_cancelled(Some(7)));
    assert!(t.is_cancelled(Some(4)));
}

#[test]
fn a_fresh_token_cancels_nothing_at_all() {
    // The zero sentinel must not read as "watermark 0 is cancelled".
    let t = CancelToken::default();
    assert!(!t.is_cancelled(Some(0)));
    assert!(!t.is_cancelled(Some(1)));
}

#[test]
fn cancels_repeat_and_commute() {
    let mut a = CancelToken::default();
    a.cancel_through(3);
    a.cancel_through(9);
    a.cancel_through(9);
    let mut b = CancelToken::default();
    b.cancel_through(9);
    b.cancel_through(3);
    assert_eq!(a.abandoned(), 9);
    assert_eq!(b.abandoned(), 9);
}
