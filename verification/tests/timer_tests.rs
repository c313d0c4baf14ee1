use zellij_template_render::timer::RefreshTimer;

const MS: u128 = 1_000_000;

#[test]
fn faster_refresh_supersedes_armed_timer() {
    let mut timer = RefreshTimer::new();
    assert_eq!(timer.schedule(Some(60_000 * MS)), Some(60_010 * MS));
    assert_eq!(timer.schedule(Some(100 * MS)), Some(110 * MS));
    assert_eq!(timer.schedule(Some(500 * MS)), None);
    assert_eq!(timer.active, Some(110 * MS));
}

#[test]
fn superseded_timer_does_not_start_second_render_loop() {
    let mut timer = RefreshTimer::new();
    timer.schedule(Some(60_000 * MS));
    timer.schedule(Some(100 * MS));
    assert!(!timer.expired(Some(60_010 * MS)));
    assert_eq!(timer.active, Some(110 * MS));
    assert!(timer.expired(Some(110 * MS)));
    assert_eq!(timer.active, None);
}

#[test]
fn equal_refresh_does_not_arm_duplicate_timer() {
    let mut timer = RefreshTimer::new();
    assert!(timer.schedule(Some(100 * MS)).is_some());
    assert_eq!(timer.schedule(Some(100 * MS)), None);
}

#[test]
fn no_request_arms_nothing() {
    let mut timer = RefreshTimer::new();
    assert_eq!(timer.schedule(None), None);
    assert_eq!(timer.active, None);
    assert!(!timer.expired(None));
}

#[test]
fn stray_timer_without_live_one_is_forgotten() {
    let mut timer = RefreshTimer::new();
    timer.schedule(Some(1_000 * MS));
    timer.schedule(Some(10 * MS));
    assert!(timer.expired(Some(20 * MS)));
    assert_eq!(timer.superseded, vec![1_010 * MS]);
    assert!(!timer.expired(Some(1_010 * MS)));
    assert!(timer.superseded.is_empty());
}

#[test]
fn requests_near_the_largest_duration_cannot_be_padded() {
    assert!(RefreshTimer::can_schedule(None));
    assert!(RefreshTimer::can_schedule(Some(5 * MS)));
    assert!(!RefreshTimer::can_schedule(Some(u128::MAX)));
}
