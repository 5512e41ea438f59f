//! Crash-recovery journal.
//!
//! Lock and unlock both follow "stage -> rename -> delete the other copy".
//! The only dangerous window is between the rename and the delete: a crash
//! there leaves BOTH copies on disk (never zero copies). A journal record is
//! written just before the rename and removed after the delete; replaying a
//! leftover record finishes (or tidies up) the interrupted step.
//!
//! This module decides; the application reads the record files, looks at
//! the disk and carries the decision out.

use vstd::prelude::*;

use crate::bytes::{hex, spec_hex};
use crate::paths::{chars_of, push_chars, spec_root_prefix};
use crate::primitives::push_char;

verus! {

#[derive(Clone, Copy, Debug, PartialEq, Eq, Structural)]
pub enum OpKind {
    Lock,
    Unlock,
}

#[derive(Clone, Debug)]
pub struct Record {
    pub op: OpKind,
    /// The plaintext folder (lock: source being consumed; unlock: destination).
    pub folder: String,
    /// The .fvlt container involved.
    pub container: String,
    /// The staging path (.fvlt.tmp or .__restoring) of the op.
    pub staging: String,
}

/// The directory the record files live in (the app uses
/// `%LOCALAPPDATA%\FolderVault\journal`).
pub struct Journal {
    dir: String,
}

#[derive(Debug, PartialEq, Eq)]
pub enum RecoveryAction {
    /// Lock had fully written the container; removed the leftover source folder.
    FinishedLock(String),
    /// Lock never completed; removed its staging file (source untouched).
    RolledBackLock(String),
    /// Unlock had fully restored the folder; removed the leftover container.
    FinishedUnlock(String),
    /// Unlock never completed; removed its staging folder (container untouched).
    RolledBackUnlock(String),
}

/// The file name of the record of the operation on container `uuid`.
pub open spec fn spec_record_name(uuid: Seq<u8>) -> Seq<char> {
    spec_hex(uuid) + seq!['.', 'j', 'r', 'e', 'c']
}

impl Journal {
    pub closed spec fn spec_dir(&self) -> Seq<char> {
        self.dir@
    }

    /// A journal kept in `dir` (which the caller has created).
    pub fn new(dir: String) -> (j: Self)
        ensures
            j.spec_dir() == dir@,
    {
        Journal { dir }
    }

    pub fn dir(&self) -> (d: &str)
        ensures
            d@ == self.spec_dir(),
    {
        self.dir.as_str()
    }

    /// Where the record of the operation on container `uuid` is written:
    /// the hex uuid with the `.jrec` extension, inside the journal directory.
    pub fn record_path(&self, uuid: &[u8; 16]) -> (p: String)
        ensures
            p@ == spec_root_prefix(self.spec_dir()) + spec_record_name(uuid@),
    {
        let dir_chars = chars_of(self.dir.as_str());
        let mut out = String::new();
        push_chars(&mut out, &dir_chars);
        assert(out@ =~= self.dir@);
        if dir_chars.len() > 0 {
            let last = dir_chars[dir_chars.len() - 1];
            if !(last == '/' || last == '\\') {
                push_char(&mut out, '/');
            }
        }
        let ghost prefix = out@;
        let name = hex(uuid);
        let name_chars = chars_of(name.as_str());
        push_chars(&mut out, &name_chars);
        push_char(&mut out, '.');
        push_char(&mut out, 'j');
        push_char(&mut out, 'r');
        push_char(&mut out, 'e');
        push_char(&mut out, 'c');
        assert(out@ =~= prefix + spec_record_name(uuid@));
        out
    }
}

/// What replaying one record asks of the disk.
#[derive(Debug, PartialEq, Eq)]
pub enum ReplayStep {
    /// The commit rename never ran: remove the staging leftover (a file for
    /// a lock, a folder for an unlock) and report `action`, whether or not
    /// the removal succeeded. The other copy is the source of truth.
    RollBack { staging: String, staging_is_dir: bool, action: RecoveryAction },
    /// A lock was renamed into place but its source survived: if the
    /// container passes a structural verify, recycle the source folder, and
    /// report `action` once that worked.
    FinishLock { container: String, folder: String, action: RecoveryAction },
    /// An unlock was renamed into place but its container survived: clear
    /// the container's read-only flag, recycle it, and report `action` once
    /// that worked.
    FinishUnlock { container: String, action: RecoveryAction },
    /// Nothing is left to do.
    Nothing,
}

/// Decide how to replay a leftover record from what exists on disk.
///
/// If the STAGING path still exists, the commit rename never ran, so the
/// pre-rename copy is the source of truth and only the staging leftover may
/// be removed. Removing "the other copy" is allowed only once staging is
/// gone (the rename provably happened) and both copies exist — and for a
/// lock, only after the container passes a structural verify.
pub fn plan_replay(rec: &Record, staging_exists: bool, folder_exists: bool, container_exists: bool) -> (step: ReplayStep)
    ensures
        staging_exists ==> step == (ReplayStep::RollBack {
            staging: rec.staging,
            staging_is_dir: rec.op is Unlock,
            action: if rec.op is Lock {
                RecoveryAction::RolledBackLock(rec.staging)
            } else {
                RecoveryAction::RolledBackUnlock(rec.staging)
            },
        }),
        !staging_exists && folder_exists && container_exists && rec.op is Lock ==> step == (ReplayStep::FinishLock {
            container: rec.container,
            folder: rec.folder,
            action: RecoveryAction::FinishedLock(rec.folder),
        }),
        !staging_exists && folder_exists && container_exists && rec.op is Unlock ==> step == (ReplayStep::FinishUnlock {
            container: rec.container,
            action: RecoveryAction::FinishedUnlock(rec.container),
        }),
        !staging_exists && !(folder_exists && container_exists) ==> step == ReplayStep::Nothing,
{
    if staging_exists {
        let staging = rec.staging.clone();
        let path = rec.staging.clone();
        return match rec.op {
            OpKind::Lock => ReplayStep::RollBack {
                staging: path,
                staging_is_dir: false,
                action: RecoveryAction::RolledBackLock(staging),
            },
            OpKind::Unlock => ReplayStep::RollBack {
                staging: path,
                staging_is_dir: true,
                action: RecoveryAction::RolledBackUnlock(staging),
            },
        };
    }
    if !(folder_exists && container_exists) {
        return ReplayStep::Nothing;
    }
    match rec.op {
        OpKind::Lock => ReplayStep::FinishLock {
            container: rec.container.clone(),
            folder: rec.folder.clone(),
            action: RecoveryAction::FinishedLock(rec.folder.clone()),
        },
        OpKind::Unlock => ReplayStep::FinishUnlock {
            container: rec.container.clone(),
            action: RecoveryAction::FinishedUnlock(rec.container.clone()),
        },
    }
}

} // verus!
