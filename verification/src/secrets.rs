//! At-rest framing of the per-install secret files (install.key,
//! master.pub).
//!
//! On Windows the application wraps the bytes with DPAPI, scoped to the
//! current user account. Files are tagged with a 4-byte magic so a DPAPI
//! blob can be told from a legacy raw file and migrated transparently.
//! Reading, writing and the DPAPI calls themselves belong to the
//! application; this module frames and classifies the bytes.

use vstd::prelude::*;

verus! {

/// "FVP1": FolderVault Protected v1.
pub const PROTECTED_MAGIC: [u8; 4] = [0x46, 0x56, 0x50, 0x31];

/// What a secret file holds.
#[derive(Debug, PartialEq, Eq)]
pub enum StoredSecret {
    /// A protected blob (the bytes after the magic), to be unprotected.
    Protected(Vec<u8>),
    /// A legacy raw file, accepted as it is (and rewritten protected on the
    /// next create).
    Raw(Vec<u8>),
}

/// The file starts with the protection magic.
pub open spec fn spec_is_protected(raw: Seq<u8>) -> bool {
    raw.len() >= 4 && raw.subrange(0, 4) == PROTECTED_MAGIC@
}

/// Tell a protected blob from a legacy raw file.
pub fn classify_stored(raw: &[u8]) -> (r: StoredSecret)
    ensures
        spec_is_protected(raw@) ==> (r matches StoredSecret::Protected(b) && b@ == raw@.subrange(4, raw@.len() as int)),
        !spec_is_protected(raw@) ==> (r matches StoredSecret::Raw(b) && b@ == raw@),
{
    let n = raw.len();
    if n >= 4 && raw[0] == PROTECTED_MAGIC[0] && raw[1] == PROTECTED_MAGIC[1] && raw[2] == PROTECTED_MAGIC[2]
        && raw[3] == PROTECTED_MAGIC[3] {
        assert(raw@.subrange(0, 4) =~= PROTECTED_MAGIC@);
        let mut blob: Vec<u8> = Vec::new();
        let mut i: usize = 4;
        while i < n
            invariant
                4 <= i <= n,
                n == raw@.len(),
                blob@ == raw@.subrange(4, i as int),
            decreases n - i,
        {
            blob.push(raw[i]);
            assert(blob@ =~= raw@.subrange(4, i + 1));
            i = i + 1;
        }
        StoredSecret::Protected(blob)
    } else {
        proof {
            if spec_is_protected(raw@) {
                assert(raw@[0] == raw@.subrange(0, 4)[0]);
                assert(raw@[1] == raw@.subrange(0, 4)[1]);
                assert(raw@[2] == raw@.subrange(0, 4)[2]);
                assert(raw@[3] == raw@.subrange(0, 4)[3]);
            }
        }
        let mut copy: Vec<u8> = Vec::new();
        copy.extend_from_slice(raw);
        StoredSecret::Raw(copy)
    }
}

/// The bytes of a protected secret file: the magic, then the blob.
pub fn frame_protected(blob: &[u8]) -> (f: Vec<u8>)
    ensures
        f@ == PROTECTED_MAGIC@ + blob@,
{
    let mut out: Vec<u8> = Vec::new();
    out.extend_from_slice(&PROTECTED_MAGIC);
    out.extend_from_slice(blob);
    out
}

/// A protected file reads back as the blob it was framed from.
pub proof fn lemma_protected_frame_roundtrip(blob: Seq<u8>)
    ensures
        spec_is_protected(PROTECTED_MAGIC@ + blob),
        (PROTECTED_MAGIC@ + blob).subrange(4, 4 + blob.len() as int) == blob,
{
    assert((PROTECTED_MAGIC@ + blob).subrange(0, 4) =~= PROTECTED_MAGIC@);
    assert((PROTECTED_MAGIC@ + blob).subrange(4, 4 + blob.len() as int) =~= blob);
}

/// A 32-byte key from a secret file's contents, which must be exactly 32
/// bytes long.
pub fn key_from_bytes(bytes: &[u8]) -> (r: Option<[u8; 32]>)
    ensures
        r is Some <==> bytes@.len() == 32,
        r matches Some(k) ==> k@ == bytes@,
{
    if bytes.len() != 32 {
        return None;
    }
    let k: [u8; 32] = crate::bytes::take_array(bytes, 0);
    assert(bytes@.subrange(0, 32) =~= bytes@);
    Some(k)
}

/// The master public key from the plaintext of `master.pub` (`None` when
/// the file is missing or unreadable, or does not hold exactly 32 bytes).
pub fn load_master_pub(stored: Option<&[u8]>) -> (r: Option<[u8; 32]>)
    ensures
        r is Some <==> (stored matches Some(b) && b@.len() == 32),
        r matches Some(k) ==> (stored matches Some(b) && k@ == b@),
{
    match stored {
        Some(b) => key_from_bytes(b),
        None => None,
    }
}

} // verus!
