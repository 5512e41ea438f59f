//! vault_core — container format, crypto, and lockout logic for FolderVault.
//!
//! Every function here is verified: file-system work, the Win32 shell and the
//! dialogs live in the application crate, which hands this library plain
//! values and acts on what it returns.

pub mod bytes;
pub mod crypto;
pub mod dialog;
pub mod format;
pub mod journal;
pub mod lockout;
pub mod paths;
pub mod primitives;
pub mod recovery;
pub mod secrets;
pub mod shell;
pub mod stream;
pub mod walk;

use vstd::prelude::*;

verus! {

/// Plaintext chunk size for streaming encryption.
pub const CHUNK_SIZE: usize = 1024 * 1024;

/// Container magic "FVLT".
pub const MAGIC: [u8; 4] = [0x46, 0x56, 0x4C, 0x54];

/// Container format version.
pub const VERSION: u32 = 1;

/// Every way an operation of this library can fail.
#[derive(Debug, Clone, PartialEq, Eq)]
pub enum VaultError {
    WrongPassword { attempts_left: u32 },
    LockedOut { until_unix: u64 },
    Tampered,
    BadMagic,
    BadVersion(u32),
    Exists(String),
    Unsupported(String),
    Other(String),
}

} // verus!
