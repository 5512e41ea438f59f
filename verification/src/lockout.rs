//! 3-attempts / 24-hour lockout state machine.
//!
//! Pure logic over the header's lockout fields; persisting them is the
//! caller's job.

use vstd::prelude::*;

use crate::VaultError;

verus! {

pub const MAX_ATTEMPTS: u32 = 3;
pub const LOCKOUT_SECS: u64 = 24 * 60 * 60;

#[derive(Clone, Copy, Debug, PartialEq, Eq, Structural)]
pub struct LockoutState {
    pub fail_count: u32,
    /// Unix seconds; 0 = not locked.
    pub locked_until: u64,
}

impl Default for LockoutState {
    fn default() -> (s: Self)
        ensures
            s.fail_count == 0,
            s.locked_until == 0,
    {
        LockoutState { fail_count: 0, locked_until: 0 }
    }
}

/// The state a fresh container starts from (and a successful unlock returns to).
pub open spec fn cleared() -> LockoutState {
    LockoutState { fail_count: 0, locked_until: 0 }
}

/// `n + 1`, stopping at `u32::MAX`.
pub open spec fn spec_saturating_inc(n: u32) -> u32 {
    if n < u32::MAX { (n + 1) as u32 } else { u32::MAX }
}

/// The end of a lockout armed at `now`: 24 hours later, stopping at
/// `u64::MAX`.
pub open spec fn spec_deadline(now: u64) -> u64 {
    if now <= u64::MAX - LOCKOUT_SECS { (now + LOCKOUT_SECS) as u64 } else { u64::MAX }
}

impl LockoutState {
    /// Password entry is refused at `now`.
    pub open spec fn spec_is_locked(self, now: u64) -> bool {
        self.locked_until != 0 && now < self.locked_until
    }

    /// A lockout was armed and its window has run out.
    pub open spec fn spec_expired(self, now: u64) -> bool {
        self.locked_until != 0 && now >= self.locked_until
    }

    /// The counter value a failure starts from: an expired window starts fresh.
    pub open spec fn spec_base_count(self, now: u64) -> u32 {
        if self.spec_expired(now) { 0 } else { self.fail_count }
    }

    /// The lockout deadline a failure starts from.
    pub open spec fn spec_base_until(self, now: u64) -> u64 {
        if self.spec_expired(now) { 0 } else { self.locked_until }
    }

    /// The state after one wrong password at `now`. The counter stops at
    /// `u32::MAX` (an untrusted header may carry any count) and the deadline
    /// at `u64::MAX`.
    pub open spec fn spec_after_failure(self, now: u64) -> LockoutState {
        let count = spec_saturating_inc(self.spec_base_count(now));
        if count >= MAX_ATTEMPTS {
            LockoutState { fail_count: count, locked_until: spec_deadline(now) }
        } else {
            LockoutState { fail_count: count, locked_until: self.spec_base_until(now) }
        }
    }

    /// The error reported for one wrong password at `now`.
    pub open spec fn spec_failure_error(self, now: u64) -> VaultError {
        let next = self.spec_after_failure(now);
        if next.fail_count >= MAX_ATTEMPTS {
            VaultError::LockedOut { until_unix: next.locked_until }
        } else {
            VaultError::WrongPassword { attempts_left: (MAX_ATTEMPTS - next.fail_count) as u32 }
        }
    }

    /// May password entry proceed right now?
    pub fn check(&self, now_unix: u64) -> (r: Result<(), VaultError>)
        ensures
            r is Err <==> self.spec_is_locked(now_unix),
            r matches Err(e) ==> e == (VaultError::LockedOut { until_unix: self.locked_until }),
    {
        if self.locked_until != 0 && now_unix < self.locked_until {
            return Err(VaultError::LockedOut { until_unix: self.locked_until });
        }
        Ok(())
    }

    /// Record a wrong password. Returns the error the caller should surface;
    /// the caller must persist the mutated state before returning it.
    pub fn record_failure(&mut self, now_unix: u64) -> (e: VaultError)
        ensures
            *final(self) == old(self).spec_after_failure(now_unix),
            e == old(self).spec_failure_error(now_unix),
    {
        // A lockout that expired without a successful unlock starts a fresh window.
        if self.locked_until != 0 && now_unix >= self.locked_until {
            self.fail_count = 0;
            self.locked_until = 0;
        }
        if self.fail_count < u32::MAX {
            self.fail_count = self.fail_count + 1;
        }
        if self.fail_count >= MAX_ATTEMPTS {
            self.locked_until = if now_unix <= u64::MAX - LOCKOUT_SECS { now_unix + LOCKOUT_SECS } else { u64::MAX };
            VaultError::LockedOut { until_unix: self.locked_until }
        } else {
            VaultError::WrongPassword { attempts_left: MAX_ATTEMPTS - self.fail_count }
        }
    }

    /// Successful unlock (password or master key) clears everything.
    pub fn reset(&mut self)
        ensures
            *final(self) == cleared(),
    {
        self.fail_count = 0;
        self.locked_until = 0;
    }
}

/// Three wrong passwords in a row from a clean state arm the lockout: two
/// attempts left, then one, then locked out for 24 hours from the third
/// failure (whenever the three happen).
pub proof fn lemma_three_failures_arm_lockout(t1: u64, t2: u64, t3: u64)
    requires
        t3 + LOCKOUT_SECS <= u64::MAX,
    ensures
        cleared().spec_failure_error(t1) == (VaultError::WrongPassword { attempts_left: 2 }),
        cleared().spec_after_failure(t1).spec_failure_error(t2) == (VaultError::WrongPassword { attempts_left: 1 }),
        cleared().spec_after_failure(t1).spec_after_failure(t2).spec_failure_error(t3)
            == (VaultError::LockedOut { until_unix: (t3 + LOCKOUT_SECS) as u64 }),
        cleared().spec_after_failure(t1).spec_after_failure(t2).spec_after_failure(t3)
            == (LockoutState { fail_count: 3, locked_until: (t3 + LOCKOUT_SECS) as u64 }),
{
}

/// An armed lockout refuses password entry at every time before its
/// deadline and at none after it: setting the clock back does not end it
/// early.
pub proof fn lemma_armed_lockout_holds_until_deadline(s: LockoutState, t: u64, now: u64)
    requires
        t + LOCKOUT_SECS <= u64::MAX,
        s.spec_after_failure(t).fail_count >= MAX_ATTEMPTS,
    ensures
        s.spec_after_failure(t).spec_is_locked(now) <==> now < t + LOCKOUT_SECS,
{
}

/// A lockout whose window has run out starts counting afresh: the next
/// wrong password leaves two attempts.
pub proof fn lemma_expired_lockout_starts_fresh(s: LockoutState, now: u64)
    requires
        s.spec_expired(now),
    ensures
        !s.spec_is_locked(now),
        s.spec_after_failure(now) == (LockoutState { fail_count: 1, locked_until: 0 }),
        s.spec_failure_error(now) == (VaultError::WrongPassword { attempts_left: 2 }),
{
}

/// A lockout state as the counter keeps it: a deadline is set only once
/// the limit of failures has been reached.
pub open spec fn spec_consistent(s: LockoutState) -> bool {
    s.locked_until != 0 ==> s.fail_count >= MAX_ATTEMPTS
}

/// Every state reachable from a clean one by failures and resets is
/// consistent: a clean state is, a failure keeps it so, and a reset gives a
/// clean state.
pub proof fn lemma_failures_keep_consistent(s: LockoutState, now: u64)
    requires
        spec_consistent(s),
    ensures
        spec_consistent(cleared()),
        spec_consistent(s.spec_after_failure(now)),
{
}

/// So while fewer failures than the limit are counted, password entry is
/// never refused, whatever the time.
pub proof fn lemma_consistent_below_limit_is_open(s: LockoutState, now: u64)
    requires
        spec_consistent(s),
        s.fail_count < MAX_ATTEMPTS,
    ensures
        !s.spec_is_locked(now),
{
}

/// The state a run of events leaves, starting from a clean one: `Some(t)`
/// is a wrong password at time `t` (`record_failure`), `None` a successful
/// unlock (`reset`).
pub open spec fn spec_replay_events(events: Seq<Option<u64>>) -> LockoutState
    decreases events.len(),
{
    if events.len() == 0 {
        cleared()
    } else {
        match events.last() {
            Some(t) => spec_replay_events(events.drop_last()).spec_after_failure(t),
            None => cleared(),
        }
    }
}

/// Every state reachable from a clean one by wrong passwords and successful
/// unlocks, in any order and at any times, is consistent; so while fewer
/// failures than the limit are counted, password entry is never refused.
pub proof fn lemma_reachable_states_consistent(events: Seq<Option<u64>>, now: u64)
    ensures
        spec_consistent(spec_replay_events(events)),
        spec_replay_events(events).fail_count < MAX_ATTEMPTS ==> !spec_replay_events(events).spec_is_locked(now),
    decreases events.len(),
{
    if events.len() > 0 {
        lemma_reachable_states_consistent(events.drop_last(), now);
    }
}

} // verus!
