use vault_core::lockout::{LockoutState, LOCKOUT_SECS, MAX_ATTEMPTS};
use vault_core::VaultError;

#[test]
fn three_failures_arm_the_lockout() {
    let mut s = LockoutState::default();
    let t = 1_000_000;
    assert!(matches!(s.record_failure(t), VaultError::WrongPassword { attempts_left: 2 }));
    assert!(matches!(s.record_failure(t), VaultError::WrongPassword { attempts_left: 1 }));
    match s.record_failure(t) {
        VaultError::LockedOut { until_unix } => assert_eq!(until_unix, t + LOCKOUT_SECS),
        e => panic!("expected lockout, got {e:?}"),
    }
    assert!(s.check(t + LOCKOUT_SECS - 1).is_err());
    assert!(s.check(t + LOCKOUT_SECS).is_ok());
}

#[test]
fn clock_rollback_does_not_shorten_the_lockout() {
    let mut s = LockoutState::default();
    let t = 1_800_000_000; // realistic unix time
    for _ in 0..3 {
        s.record_failure(t);
    }
    // attacker sets the clock back a year -> still locked
    assert!(s.check(t - 31_536_000).is_err());
}

#[test]
fn expired_lockout_starts_a_fresh_window() {
    let mut s = LockoutState::default();
    let t = 1_000_000;
    for _ in 0..3 {
        s.record_failure(t);
    }
    let later = t + LOCKOUT_SECS + 5;
    assert!(s.check(later).is_ok());
    assert!(matches!(s.record_failure(later), VaultError::WrongPassword { attempts_left: 2 }));
}

#[test]
fn reset_clears_state() {
    let mut s = LockoutState::default();
    s.record_failure(10);
    s.reset();
    assert_eq!(s, LockoutState::default());
}

#[test]
fn armed_lockout_state_after_three_failures() {
    let mut s = LockoutState::default();
    let t = 5_000;
    for _ in 0..MAX_ATTEMPTS {
        s.record_failure(t);
    }
    assert_eq!(s, LockoutState { fail_count: 3, locked_until: t + 86_400 });
    // refused at the arming instant and just before the deadline, even at time 0
    assert!(matches!(s.check(t), Err(VaultError::LockedOut { until_unix }) if until_unix == t + 86_400));
    assert!(s.check(0).is_err());
    assert!(s.check(t + 86_399).is_err());
    assert!(s.check(t + 86_400).is_ok());
}

#[test]
fn unarmed_state_never_refuses() {
    let s = LockoutState { fail_count: 2, locked_until: 0 };
    assert!(s.check(0).is_ok());
    assert!(s.check(u64::MAX).is_ok());
}

#[test]
fn failure_count_goes_on_inside_the_window() {
    // two failures, then one more later on: still counts up and arms
    let mut s = LockoutState::default();
    assert!(matches!(s.record_failure(100), VaultError::WrongPassword { attempts_left: 2 }));
    assert!(matches!(s.record_failure(200), VaultError::WrongPassword { attempts_left: 1 }));
    assert!(matches!(s.record_failure(300), VaultError::LockedOut { until_unix: 86_700 }));
}

#[test]
fn counter_and_deadline_stop_at_their_limits() {
    let mut s = LockoutState { fail_count: u32::MAX, locked_until: 0 };
    assert!(matches!(s.record_failure(7), VaultError::LockedOut { until_unix: 86_407 }));
    assert_eq!(s, LockoutState { fail_count: u32::MAX, locked_until: 86_407 });
    let mut t = LockoutState { fail_count: 2, locked_until: 0 };
    assert!(matches!(t.record_failure(u64::MAX - 1), VaultError::LockedOut { until_unix: u64::MAX }));
}

#[test]
fn a_deadline_comes_only_with_the_limit() {
    let mut s = LockoutState::default();
    for t in [10u64, 20] {
        s.record_failure(t);
        assert_eq!(s.locked_until, 0);
        assert!(s.check(0).is_ok());
    }
    s.record_failure(30);
    assert!(s.fail_count >= MAX_ATTEMPTS && s.locked_until != 0);
    s.reset();
    assert_eq!(s.locked_until, 0);
}

#[test]
fn any_run_of_events_keeps_the_deadline_with_the_limit() {
    let mut s = LockoutState::default();
    let events = [Some(10u64), None, Some(20), Some(30), Some(40), Some(90_000), None, Some(5)];
    for ev in events {
        match ev {
            Some(t) => {
                s.record_failure(t);
            }
            None => s.reset(),
        }
        assert!(s.locked_until == 0 || s.fail_count >= MAX_ATTEMPTS);
        if s.fail_count < MAX_ATTEMPTS {
            assert!(s.check(0).is_ok() && s.check(u64::MAX).is_ok());
        }
    }
    assert_eq!(s, LockoutState { fail_count: 1, locked_until: 0 });
}
