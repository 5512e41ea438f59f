//! The decisions of the front-ends: what the password dialog asks for and
//! accepts, the lockout countdown, progress, and the command-line exit
//! codes.

use vstd::prelude::*;

use crate::lockout::{LockoutState, MAX_ATTEMPTS};
use crate::VaultError;

verus! {

/// What the password dialog is for.
pub enum Mode {
    /// Password + confirm -> encrypt folder.
    Lock { src: String },
    /// Password (or recovery code) -> decrypt container.
    Unlock { container: String },
    /// Password (or recovery code) -> recycle the container (no extraction).
    Delete { container: String },
    /// Show the one-time recovery code.
    Setup { code: String },
}

impl Mode {
    /// The label of the dialog's primary button.
    pub fn primary_label(&self) -> (s: &'static str)
        ensures
            self is Lock ==> s@ == "Lock"@,
            self is Unlock ==> s@ == "Unlock"@,
            self is Delete ==> s@ == "Delete"@,
            self is Setup ==> s@ == "I saved it"@,
    {
        match self {
            Mode::Lock { .. } => "Lock",
            Mode::Unlock { .. } => "Unlock",
            Mode::Delete { .. } => "Delete",
            Mode::Setup { .. } => "I saved it",
        }
    }
}

/// The shortest password a lock accepts, in bytes.
pub const MIN_PASSWORD_LEN: usize = 6;

/// Why a new password is refused.
#[derive(Clone, Copy, Debug, PartialEq, Eq, Structural)]
pub enum PasswordProblem {
    Empty,
    TooShort,
    Mismatch,
}

impl PasswordProblem {
    /// The status line the dialog shows.
    pub fn message(&self) -> (s: &'static str)
        ensures
            *self == PasswordProblem::Empty ==> s@ == "Enter a password"@,
            *self == PasswordProblem::TooShort ==> s@ == "Use at least 6 characters"@,
            *self == PasswordProblem::Mismatch ==> s@ == "Passwords do not match"@,
    {
        match self {
            PasswordProblem::Empty => "Enter a password",
            PasswordProblem::TooShort => "Use at least 6 characters",
            PasswordProblem::Mismatch => "Passwords do not match",
        }
    }
}

/// Check a new password and its confirmation before a lock: not empty, at
/// least six bytes long (UTF-8), and typed the same twice — in that order.
pub fn check_new_password(password: &str, confirm: &str) -> (r: Result<(), PasswordProblem>)
    ensures
        password.len() == 0 ==> r == Err::<(), PasswordProblem>(PasswordProblem::Empty),
        0 < password.len() < MIN_PASSWORD_LEN ==> r == Err::<(), PasswordProblem>(PasswordProblem::TooShort),
        password.len() >= MIN_PASSWORD_LEN && password@ != confirm@
            ==> r == Err::<(), PasswordProblem>(PasswordProblem::Mismatch),
        password.len() >= MIN_PASSWORD_LEN && password@ == confirm@ ==> r is Ok,
{
    let n = password.len();
    if n == 0 {
        return Err(PasswordProblem::Empty);
    }
    if n < MIN_PASSWORD_LEN {
        return Err(PasswordProblem::TooShort);
    }
    if !crate::paths::text_eq(password, confirm) {
        return Err(PasswordProblem::Mismatch);
    }
    Ok(())
}

/// What is left of a lockout at `now`, as hours, minutes and seconds;
/// `None` once it has run out.
pub fn lockout_countdown(until_unix: u64, now_unix: u64) -> (r: Option<(u64, u64, u64)>)
    ensures
        now_unix >= until_unix ==> r is None,
        now_unix < until_unix ==> (r matches Some((h, m, s)) && {
            &&& h * 3600 + m * 60 + s == until_unix - now_unix
            &&& m < 60
            &&& s < 60
        }),
{
    if now_unix >= until_unix {
        return None;
    }
    let left = until_unix - now_unix;
    let h = left / 3600;
    let m = (left % 3600) / 60;
    let s = left % 60;
    assert(h * 3600 + m * 60 + s == left) by (nonlinear_arith)
        requires
            h == left / 3600,
            m == (left % 3600) / 60,
            s == left % 60,
    ;
    Some((h, m, s))
}

/// The whole percentage of `done` out of `total`; `None` when there is
/// nothing to count. Saturates at `u64::MAX` (only reachable when `done`
/// far exceeds `total`).
pub fn progress_percent(done: u64, total: u64) -> (r: Option<u64>)
    ensures
        total == 0 ==> r is None,
        total > 0 && done as int * 100 / total as int <= u64::MAX
            ==> r == Some((done as int * 100 / total as int) as u64),
        total > 0 && done as int * 100 / total as int > u64::MAX ==> r == Some(u64::MAX),
{
    if total == 0 {
        return None;
    }
    let scaled: u128 = (done as u128) * 100;
    let pct: u128 = scaled / (total as u128);
    if pct > u64::MAX as u128 {
        return Some(u64::MAX);
    }
    Some(pct as u64)
}

/// The command-line exit code of a failure: 3 wrong password, 4 locked
/// out, 5 tampered or not a container, 1 anything else.
pub fn exit_code(e: &VaultError) -> (code: i32)
    ensures
        e is WrongPassword ==> code == 3,
        e is LockedOut ==> code == 4,
        (e is Tampered || e is BadMagic || e is BadVersion) ==> code == 5,
        (e is Exists || e is Unsupported || e is Other) ==> code == 1,
{
    match e {
        VaultError::WrongPassword { .. } => 3,
        VaultError::LockedOut { .. } => 4,
        VaultError::Tampered | VaultError::BadMagic | VaultError::BadVersion(_) => 5,
        _ => 1,
    }
}

/// The master key first-run setup leaves enrolled. The public key is kept
/// only after the user confirmed saving the one-time code and it was
/// stored; a dismissed dialog enrolls nothing (a later run offers setup
/// again with a fresh code).
pub fn setup_enrollment(public: [u8; 32], confirmed: bool, saved: bool) -> (r: Option<[u8; 32]>)
    ensures
        r == (if confirmed && saved { Some(public) } else { None::<[u8; 32]> }),
{
    if confirmed && saved {
        Some(public)
    } else {
        None
    }
}

/// Password attempts left after `fail_count` failures (none once the
/// count has reached the limit).
pub open spec fn spec_attempts_left(fail_count: u32) -> u32 {
    if fail_count < MAX_ATTEMPTS { (MAX_ATTEMPTS - fail_count) as u32 } else { 0 }
}

pub fn attempts_left(fail_count: u32) -> (n: u32)
    ensures
        n == spec_attempts_left(fail_count),
        fail_count < MAX_ATTEMPTS ==> n + fail_count == MAX_ATTEMPTS,
        fail_count >= MAX_ATTEMPTS ==> n == 0,
{
    proof {
        lemma_attempts_left_complements_failures(fail_count);
    }
    if fail_count < MAX_ATTEMPTS { MAX_ATTEMPTS - fail_count } else { 0 }
}

/// Below the limit, the attempts left and the failures counted add up to
/// the limit; at or past it none are left.
pub proof fn lemma_attempts_left_complements_failures(fail_count: u32)
    ensures
        fail_count < MAX_ATTEMPTS ==> spec_attempts_left(fail_count) + fail_count == MAX_ATTEMPTS,
        fail_count >= MAX_ATTEMPTS ==> spec_attempts_left(fail_count) == 0,
{
}

/// The dialog shows, after a wrong password, the same number of attempts
/// left that the error reported for it, counted from the failures the
/// lockout state then holds.
pub proof fn lemma_attempts_left_agrees_with_error(s: LockoutState, now: u64)
    ensures
        s.spec_failure_error(now) matches VaultError::WrongPassword { attempts_left: n }
            ==> spec_attempts_left(s.spec_after_failure(now).fail_count) == n,
        s.spec_failure_error(now) is LockedOut ==> spec_attempts_left(s.spec_after_failure(now).fail_count) == 0,
{
}

/// What the unlock dialog shows of a container's lockout when it opens.
#[derive(Clone, Copy, Debug, PartialEq, Eq, Structural)]
pub struct LockoutView {
    /// Failures counted so far (an unauthenticated header counts as one
    /// attempt left).
    pub fail_count: u32,
    /// The deadline, while a lockout runs.
    pub locked_until: Option<u64>,
}

/// The lockout view of a header: its counter when the header authenticates
/// (the limit less one otherwise), and its deadline while that is ahead.
pub fn lockout_view(fail_count: u32, locked_until: u64, hmac_ok: bool, now_unix: u64) -> (v: LockoutView)
    ensures
        v.fail_count == (if hmac_ok { fail_count } else { (MAX_ATTEMPTS - 1) as u32 }),
        v.locked_until == (if locked_until > now_unix { Some(locked_until) } else { None::<u64> }),
{
    LockoutView {
        fail_count: if hmac_ok { fail_count } else { MAX_ATTEMPTS - 1 },
        locked_until: if locked_until > now_unix { Some(locked_until) } else { None },
    }
}

/// The failure count the dialog shows after an attempt failed with `e`:
/// what the attempts left imply, all of them once locked out, and no change
/// for any other error.
pub fn fail_count_after(e: &VaultError) -> (r: Option<u32>)
    ensures
        e matches VaultError::WrongPassword { attempts_left: left }
            ==> r == Some((if *left <= MAX_ATTEMPTS { MAX_ATTEMPTS - *left } else { 0 }) as u32),
        e is LockedOut ==> r == Some(MAX_ATTEMPTS),
        !(e is WrongPassword) && !(e is LockedOut) ==> r is None,
{
    match e {
        VaultError::WrongPassword { attempts_left: left } => {
            Some(if *left <= MAX_ATTEMPTS { MAX_ATTEMPTS - *left } else { 0 })
        },
        VaultError::LockedOut { .. } => Some(MAX_ATTEMPTS),
        _ => None,
    }
}

/// Whether the dialog may close (X / Esc): never while a lock, unlock or
/// delete runs, so an in-flight file-system operation is never cut short.
pub fn may_close(busy: bool) -> (r: bool)
    ensures
        r == !busy,
{
    !busy
}

} // verus!
