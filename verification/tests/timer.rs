use ospf_core::timer::Timer;

#[test]
fn a_new_timer_is_stopped() {
    let t = Timer::new(10);
    assert!(!t.is_up());
    assert_eq!(t.period(), 10);
}

#[test]
fn start_and_stop_set_and_clear_the_active_bit() {
    let mut t = Timer::new(10);
    t.start();
    assert!(t.is_up());
    t.stop();
    assert!(!t.is_up());
    t.start_imm();
    assert!(t.is_up());
    assert_eq!(t.period(), 10);
}

#[test]
fn a_started_timer_with_a_long_interval_has_not_expired() {
    let mut t = Timer::new(1_000_000);
    t.start();
    assert!(!t.is_expired());
    assert!(t.elapsed() < 1_000_000);
}

#[test]
fn a_timer_started_with_start_imm_has_expired_at_once() {
    let mut t = Timer::new(1_000_000);
    t.start_imm();
    assert!(t.is_expired());
    assert!(t.elapsed() >= 1_000_000);
    assert!(t.elapsed() < 1_000_100);
}

#[test]
fn start_after_start_imm_takes_the_lead_away() {
    let mut t = Timer::new(1_000_000);
    t.start_imm();
    t.start();
    assert!(!t.is_expired());
    assert!(t.elapsed() < 100);
}

#[test]
fn a_timer_with_interval_zero_expires_at_once() {
    let mut t = Timer::new(0);
    t.start();
    assert!(t.is_expired());
}

#[test]
fn expiry_is_reached_when_the_seconds_shown_reach_the_interval() {
    let mut t = Timer::new(40);
    t.start();
    assert!(!t.is_expired_at(0));
    assert!(!t.is_expired_at(39));
    assert!(t.is_expired_at(40));
    assert!(t.is_expired_at(41));
    assert_eq!(t.elapsed_at(7), 7);
    t.start_imm();
    assert!(t.is_expired_at(0));
    assert_eq!(t.elapsed_at(7), 47);
    assert_eq!(t.elapsed_at(u64::MAX), u64::MAX);
}

#[test]
fn a_copy_of_a_timer_shows_what_the_timer_shows() {
    let mut t = Timer::new(40);
    t.start_imm();
    let c = t.clone();
    assert!(c.is_up());
    assert_eq!(c.period(), 40);
    assert_eq!(c.elapsed_at(1), 41);
    t.stop();
    assert!(c.is_up());
}
