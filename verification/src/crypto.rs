//! Key derivation, key wrapping, and chunk encryption.

use vstd::prelude::*;
use vstd::bytes::*;

use crate::primitives::{
    argon2_accepts, argon2_error_text, argon2id_derive, fill_random, gcm_open, gcm_seal, spec_argon2id,
    spec_gcm_open, spec_gcm_seal, wipe,
};
use crate::VaultError;

verus! {

pub const KEY_LEN: usize = 32;
pub const NONCE_LEN: usize = 12;
pub const TAG_LEN: usize = 16;
/// nonce (12) + encrypted key (32) + GCM tag (16)
pub const WRAPPED_KEY_LEN: usize = NONCE_LEN + KEY_LEN + TAG_LEN;
/// Reserved chunk sequence number used as associated data for the manifest.
pub const MANIFEST_SEQ: u64 = 0xFFFF_FFFF_FFFF_FFFF;

/// Largest Argon2 memory cost (KiB) a container may ask for: 1 GiB.
pub const MAX_M_COST_KIB: u32 = 1024 * 1024;
/// Largest Argon2 lane count handed to Argon2. `Params::new` computes
/// `lanes * 8` in a `u32` before it checks the lane count, so a larger value
/// would overflow there; Argon2 itself refuses anything above 2^24 - 1 with its
/// own error, so this bound only keeps that product in range.
pub const MAX_LANES: u32 = 0x1FFF_FFFF;

/// The error reported when the OS random generator fails.
pub open spec fn spec_rng_failure(e: VaultError) -> bool {
    e matches VaultError::Other(m) && m@ == "OS random generator failed"@
}

/// Fill `buf` from the OS CSPRNG (for non-key randomness, e.g. the
/// per-install HMAC key file). Fails only when the OS generator does; the
/// bytes it writes are the generator's, so nothing is stated of them.
pub fn random_bytes(buf: &mut [u8]) -> (r: Result<(), VaultError>)
    ensures
        final(buf)@.len() == old(buf)@.len(),
        r matches Err(e) ==> spec_rng_failure(e),
{
    match fill_random(buf) {
        Ok(()) => Ok(()),
        Err(_) => Err(VaultError::Other(String::from_str("OS random generator failed"))),
    }
}

/// 256-bit secret.
pub struct SecretKey(pub [u8; KEY_LEN]);

impl SecretKey {
    /// A fresh key from the OS CSPRNG (its bytes are the generator's, so
    /// nothing is stated of them); fails only when the generator does.
    pub fn random() -> (r: Result<Self, VaultError>)
        ensures
            r matches Err(e) ==> spec_rng_failure(e),
    {
        let mut k = [0u8; KEY_LEN];
        match random_bytes(&mut k) {
            Ok(()) => Ok(SecretKey(k)),
            Err(e) => Err(e),
        }
    }

    pub fn from_bytes(b: [u8; KEY_LEN]) -> (k: Self)
        ensures
            k.0 == b,
    {
        SecretKey(b)
    }
}

#[derive(Clone, Copy, Debug, PartialEq, Eq, Structural)]
pub struct KdfParams {
    pub m_cost_kib: u32,
    pub t_cost: u32,
    pub lanes: u32,
}

impl Default for KdfParams {
    /// 64 MiB, 3 passes, 4 lanes — ~100 ms on a modern desktop.
    fn default() -> (p: Self)
        ensures
            p == (KdfParams { m_cost_kib: 65536, t_cost: 3, lanes: 4 }),
    {
        KdfParams { m_cost_kib: 64 * 1024, t_cost: 3, lanes: 4 }
    }
}

impl KdfParams {
    /// Within the bounds a container header may ask for.
    pub open spec fn spec_in_bounds(self) -> bool {
        self.m_cost_kib <= MAX_M_COST_KIB && self.lanes <= MAX_LANES
    }

    /// Argon2id runs on these parameters and a password this long.
    pub open spec fn spec_derivable(self, password_len: nat) -> bool {
        &&& self.spec_in_bounds()
        &&& argon2_accepts(self.m_cost_kib, self.t_cost, self.lanes)
        &&& password_len <= 0xFFFF_FFFF
    }
}

/// Argon2id: password + salt -> 256-bit key-encryption key. Parameters
/// outside the bounds above (or refused by Argon2) are rejected before any
/// memory is allocated.
pub fn derive_kek(password: &[u8], salt: &[u8; 16], p: &KdfParams) -> (r: Result<SecretKey, VaultError>)
    ensures
        r is Ok <==> p.spec_derivable(password@.len()),
        r matches Ok(k) ==> k.0@ == spec_argon2id(password@, salt@, p.m_cost_kib, p.t_cost, p.lanes),
        r matches Err(e) ==> e is Other,
{
    if p.m_cost_kib > MAX_M_COST_KIB {
        return Err(VaultError::Other(String::from_str("bad KDF params: memory cost out of range")));
    }
    if p.lanes > MAX_LANES {
        return Err(VaultError::Other(String::from_str("bad KDF params: too many threads")));
    }
    match argon2id_derive(password, salt, p.m_cost_kib, p.t_cost, p.lanes) {
        Ok(k) => Ok(SecretKey(k)),
        Err((params_refused, e)) => {
            let mut msg = if params_refused {
                String::from_str("bad KDF params: ")
            } else {
                String::from_str("kdf failed: ")
            };
            let text = argon2_error_text(&e);
            msg.append(text.as_str());
            Err(VaultError::Other(msg))
        },
    }
}

/// The associated data of a key wrap: none.
pub open spec fn no_aad() -> Seq<u8> {
    Seq::empty()
}

/// What unwrapping `wrapped` under `kek` yields: the authenticated 32-byte
/// plaintext, or `None`.
pub open spec fn spec_unwrap_key(kek: Seq<u8>, wrapped: Seq<u8>) -> Option<Seq<u8>> {
    match spec_gcm_open(kek, wrapped.subrange(0, 12), no_aad(), wrapped.subrange(12, wrapped.len() as int)) {
        Some(p) => if p.len() == 32 { Some(p) } else { None },
        None => None,
    }
}

/// The wrap of `dk` under `kek` with `nonce`: nonce | ct | tag.
pub open spec fn spec_wrap(kek: Seq<u8>, dk: Seq<u8>, nonce: Seq<u8>) -> Seq<u8> {
    nonce + spec_gcm_seal(kek, nonce, no_aad(), dk)
}

/// Wrap (encrypt) the data key under a KEK with the given nonce. Output:
/// nonce | ct | tag; unwrapping it under the same KEK gives `dk` back.
pub fn wrap_key_with_nonce(kek: &SecretKey, dk: &SecretKey, nonce: &[u8; NONCE_LEN]) -> (w: [u8; WRAPPED_KEY_LEN])
    ensures
        w@ == spec_wrap(kek.0@, dk.0@, nonce@),
        spec_unwrap_key(kek.0@, w@) == Some(dk.0@),
{
    let empty: [u8; 0] = [];
    let ct = match gcm_seal(&kek.0, nonce, &empty, &dk.0) {
        Ok(ct) => ct,
        Err(_) => {
            // a 32-byte key with no associated data is always within bounds
            assert(false);
            return [0u8; WRAPPED_KEY_LEN];
        },
    };
    let mut out = [0u8; WRAPPED_KEY_LEN];
    let mut i: usize = 0;
    while i < NONCE_LEN
        invariant
            i <= NONCE_LEN,
            out@.len() == WRAPPED_KEY_LEN,
            forall|j: int| 0 <= j < i ==> out@[j] == nonce@[j],
        decreases NONCE_LEN - i,
    {
        out[i] = nonce[i];
        i = i + 1;
    }
    let mut i: usize = 0;
    while i < 48
        invariant
            i <= 48,
            ct@.len() == 48,
            out@.len() == WRAPPED_KEY_LEN,
            forall|j: int| 0 <= j < NONCE_LEN ==> out@[j] == nonce@[j],
            forall|j: int| 0 <= j < i ==> out@[12 + j] == ct@[j],
        decreases 48 - i,
    {
        out[NONCE_LEN + i] = ct[i];
        i = i + 1;
    }
    assert(out@.subrange(0, 12) =~= nonce@);
    assert(out@.subrange(12, 60) =~= ct@);
    assert(empty@ =~= no_aad());
    assert(out@ =~= spec_wrap(kek.0@, dk.0@, nonce@));
    out
}

/// Wrap (encrypt) the data key under a KEK with a fresh random nonce. Fails
/// only when the OS random generator does.
pub fn wrap_key(kek: &SecretKey, dk: &SecretKey) -> (r: Result<[u8; WRAPPED_KEY_LEN], VaultError>)
    ensures
        r matches Ok(w) ==> w@ == spec_wrap(kek.0@, dk.0@, w@.subrange(0, 12)),
        r matches Ok(w) ==> w@.subrange(12, 60) == spec_gcm_seal(kek.0@, w@.subrange(0, 12), no_aad(), dk.0@),
        r matches Ok(w) ==> spec_unwrap_key(kek.0@, w@) == Some(dk.0@),
        r matches Err(e) ==> spec_rng_failure(e),
{
    let mut nonce = [0u8; NONCE_LEN];
    match random_bytes(&mut nonce) {
        Ok(()) => {},
        Err(e) => { return Err(e); },
    }
    let w = wrap_key_with_nonce(kek, dk, &nonce);
    assert(w@.subrange(0, 12) =~= nonce@);
    assert(w@.subrange(12, 60) =~= spec_gcm_seal(kek.0@, nonce@, no_aad(), dk.0@));
    Ok(w)
}

/// Unwrap the data key. `None` means the KEK is wrong (or the blob corrupt) —
/// GCM cannot distinguish the two, which is exactly what we want to expose.
pub fn unwrap_key(kek: &SecretKey, wrapped: &[u8; WRAPPED_KEY_LEN]) -> (r: Option<SecretKey>)
    ensures
        r is Some <==> spec_unwrap_key(kek.0@, wrapped@) is Some,
        r matches Some(k) ==> spec_unwrap_key(kek.0@, wrapped@) == Some(k.0@),
{
    let nonce: [u8; NONCE_LEN] = crate::bytes::take_array(wrapped, 0);
    let body: [u8; 48] = crate::bytes::take_array(wrapped, 12);
    let empty: [u8; 0] = [];
    assert(empty@ =~= no_aad());
    let mut pt = match gcm_open(&kek.0, &nonce, &empty, &body) {
        Ok(p) => p,
        Err(_) => { return None; },
    };
    let key: [u8; KEY_LEN] = crate::bytes::take_array(pt.as_slice(), 0);
    assert(key@ =~= pt@);
    wipe(pt.as_mut_slice());
    Some(SecretKey(key))
}

/// Associated data of chunk `seq` of the container `uuid`: uuid ‖ seq LE.
pub open spec fn spec_chunk_aad(uuid: Seq<u8>, seq: u64) -> Seq<u8> {
    uuid + spec_u64_to_le_bytes(seq)
}

/// A frame: nonce (12) | blob_len u32 LE | blob.
pub open spec fn spec_frame(nonce: Seq<u8>, blob: Seq<u8>) -> Seq<u8> {
    nonce + spec_u32_to_le_bytes(blob.len() as u32) + blob
}

/// Streaming chunk cipher bound to one container (the uuid goes into the
/// associated data so chunks cannot be reordered within, or spliced across,
/// containers).
pub struct ChunkCipher {
    key: [u8; KEY_LEN],
    uuid: [u8; 16],
}

impl ChunkCipher {
    pub closed spec fn spec_key(&self) -> Seq<u8> {
        self.key@
    }

    pub closed spec fn spec_uuid(&self) -> Seq<u8> {
        self.uuid@
    }

    pub fn new(dk: &SecretKey, uuid: [u8; 16]) -> (c: Self)
        ensures
            c.spec_key() == dk.0@,
            c.spec_uuid() == uuid@,
    {
        ChunkCipher { key: dk.0, uuid }
    }

    fn aad(&self, seq: u64) -> (a: [u8; 24])
        ensures
            a@ == spec_chunk_aad(self.uuid@, seq),
    {
        let le = u64_to_le_bytes(seq);
        let mut a = [0u8; 24];
        let mut i: usize = 0;
        while i < 16
            invariant
                i <= 16,
                a@.len() == 24,
                forall|j: int| 0 <= j < i ==> a@[j] == self.uuid@[j],
            decreases 16 - i,
        {
            a[i] = self.uuid[i];
            i = i + 1;
        }
        let mut i: usize = 0;
        while i < 8
            invariant
                i <= 8,
                a@.len() == 24,
                le@.len() == 8,
                forall|j: int| 0 <= j < 16 ==> a@[j] == self.uuid@[j],
                forall|j: int| 0 <= j < i ==> a@[16 + j] == le@[j],
            decreases 8 - i,
        {
            a[16 + i] = le[i];
            i = i + 1;
        }
        assert(a@ =~= spec_chunk_aad(self.uuid@, seq));
        a
    }

    /// The frame of `plain` sealed as chunk `seq` with `nonce`: nonce (12) |
    /// blob_len u32 | ciphertext+tag (blob_len bytes). Opening the blob with
    /// the same `seq` gives `plain` back.
    pub fn seal_with_nonce(&self, seq: u64, nonce: &[u8; NONCE_LEN], plain: &[u8]) -> (f: Vec<u8>)
        requires
            plain@.len() + TAG_LEN <= u32::MAX,
        ensures
            f@ == spec_frame(nonce@, spec_gcm_seal(self.spec_key(), nonce@, spec_chunk_aad(self.spec_uuid(), seq), plain@)),
            spec_gcm_seal(self.spec_key(), nonce@, spec_chunk_aad(self.spec_uuid(), seq), plain@).len() == plain@.len() + TAG_LEN,
            spec_gcm_open(self.spec_key(), nonce@, spec_chunk_aad(self.spec_uuid(), seq),
                spec_gcm_seal(self.spec_key(), nonce@, spec_chunk_aad(self.spec_uuid(), seq), plain@)) == Some(plain@),
    {
        let aad = self.aad(seq);
        let ct = match gcm_seal(&self.key, nonce, &aad, plain) {
            Ok(ct) => ct,
            Err(_) => {
                // the plaintext and the 24-byte associated data are within bounds
                assert(false);
                return Vec::new();
            },
        };
        let len_bytes = u32_to_le_bytes(ct.len() as u32);
        let mut out: Vec<u8> = Vec::new();
        out.extend_from_slice(nonce);
        out.extend_from_slice(len_bytes.as_slice());
        out.extend_from_slice(ct.as_slice());
        proof {
            lemma_auto_spec_u32_to_from_le_bytes();
            assert(out@ =~= spec_frame(nonce@, ct@));
        }
        out
    }

    /// The frame of `plain` sealed as chunk `seq` with a fresh random nonce.
    /// Fails only when the OS random generator does.
    pub fn seal(&self, seq: u64, plain: &[u8]) -> (r: Result<Vec<u8>, VaultError>)
        requires
            plain@.len() + TAG_LEN <= u32::MAX,
        ensures
            r matches Ok(f) ==> {
                let nonce = f@.subrange(0, 12);
                let blob = f@.subrange(16, f@.len() as int);
                &&& f@ == spec_frame(nonce, blob)
                &&& blob == spec_gcm_seal(self.spec_key(), nonce, spec_chunk_aad(self.spec_uuid(), seq), plain@)
                &&& blob.len() == plain@.len() + TAG_LEN
                &&& spec_gcm_open(self.spec_key(), nonce, spec_chunk_aad(self.spec_uuid(), seq), blob) == Some(plain@)
            },
            r matches Err(e) ==> spec_rng_failure(e),
    {
        let mut nonce = [0u8; NONCE_LEN];
        match random_bytes(&mut nonce) {
            Ok(()) => {},
            Err(e) => { return Err(e); },
        }
        let out = self.seal_with_nonce(seq, &nonce, plain);
        let ghost blob = spec_gcm_seal(self.spec_key(), nonce@, spec_chunk_aad(self.spec_uuid(), seq), plain@);
        proof {
            lemma_auto_spec_u32_to_from_le_bytes();
            assert(out@.subrange(0, 12) =~= nonce@);
            assert(out@.subrange(16, out@.len() as int) =~= blob);
        }
        Ok(out)
    }

    /// Decrypt one blob as chunk `seq`; any authentication failure is
    /// reported as tampering.
    pub fn open(&self, seq: u64, nonce: &[u8; NONCE_LEN], blob: &[u8]) -> (r: Result<Vec<u8>, VaultError>)
        ensures
            r is Ok <==> spec_gcm_open(self.spec_key(), nonce@, spec_chunk_aad(self.spec_uuid(), seq), blob@) is Some,
            r matches Ok(p) ==> spec_gcm_open(self.spec_key(), nonce@, spec_chunk_aad(self.spec_uuid(), seq), blob@) == Some(p@),
            r matches Err(e) ==> e == VaultError::Tampered,
    {
        let aad = self.aad(seq);
        match gcm_open(&self.key, nonce, &aad, blob) {
            Ok(p) => Ok(p),
            Err(_) => Err(VaultError::Tampered),
        }
    }
}

/// Chunk associated data is injective: two chunks share it only if they
/// belong to the same container at the same sequence position, so a chunk
/// cannot be replayed at another position or in another container.
pub proof fn lemma_chunk_aad_injective(u1: Seq<u8>, s1: u64, u2: Seq<u8>, s2: u64)
    requires
        u1.len() == 16,
        u2.len() == 16,
        spec_chunk_aad(u1, s1) == spec_chunk_aad(u2, s2),
    ensures
        u1 == u2,
        s1 == s2,
{
    lemma_auto_spec_u64_to_from_le_bytes();
    let a = spec_chunk_aad(u1, s1);
    assert(u1 =~= a.subrange(0, 16));
    assert(u2 =~= a.subrange(0, 16));
    assert(spec_u64_to_le_bytes(s1) =~= a.subrange(16, 24));
    assert(spec_u64_to_le_bytes(s2) =~= a.subrange(16, 24));
}

} // verus!
