//! Container header, path safety, framing, and the decisions of the
//! lock / unlock / delete operations.

use vstd::prelude::*;
use vstd::bytes::*;

use crate::crypto::{
    derive_kek, random_bytes, spec_frame, spec_unwrap_key, unwrap_key, wrap_key_with_nonce, ChunkCipher,
    KdfParams, SecretKey, MANIFEST_SEQ, TAG_LEN, WRAPPED_KEY_LEN,
};
use crate::lockout::{cleared, LockoutState, LOCKOUT_SECS, MAX_ATTEMPTS};
use crate::primitives::{
    bincode_encode_entries, bincode_error_text, entry_records, hmac_sha256, hmac_sha256_verify,
    spec_argon2id, spec_bincode_entries, spec_hmac_sha256, spec_x25519_public,
};
use crate::recovery::{is_enrolled, open_dk, seal_dk_with_ephemeral, spec_open_dk, spec_open_with_secret, MASTER_WRAP_LEN};
use crate::stream::{spec_manifest, MAX_MANIFEST_LEN};
use crate::walk::Entry;
use crate::{VaultError, MAGIC, VERSION};

verus! {

pub const HEADER_LEN: usize = 268;
pub const HMAC_OFFSET: usize = 236;

pub struct Header {
    pub uuid: [u8; 16],
    pub salt: [u8; 16],
    pub kdf: KdfParams,
    pub wrapped_dk_pw: [u8; WRAPPED_KEY_LEN],
    /// X25519-sealed data key for master recovery; all-zero = not enrolled.
    pub wrapped_dk_mk: [u8; MASTER_WRAP_LEN],
    pub lockout: LockoutState,
    pub entry_count: u64,
    /// Total plaintext bytes (for progress reporting).
    pub payload_len: u64,
    /// Whether the header HMAC verified against this install's key. False on
    /// a container created by another install (or a tampered one) — the
    /// lockout fields are then untrusted and get clamped by the caller.
    pub hmac_ok: bool,
}

pub open spec fn spec_u32_at(b: Seq<u8>, off: int) -> u32 {
    spec_u32_from_le_bytes(b.subrange(off, off + 4))
}

pub open spec fn spec_u64_at(b: Seq<u8>, off: int) -> u64 {
    spec_u64_from_le_bytes(b.subrange(off, off + 8))
}

/// The 236 authenticated bytes of a header.
pub open spec fn spec_header_body(h: Header) -> Seq<u8> {
    MAGIC@ + spec_u32_to_le_bytes(VERSION) + h.uuid@ + h.salt@
        + spec_u32_to_le_bytes(h.kdf.m_cost_kib) + spec_u32_to_le_bytes(h.kdf.t_cost)
        + spec_u32_to_le_bytes(h.kdf.lanes) + h.wrapped_dk_pw@ + h.wrapped_dk_mk@
        + spec_u32_to_le_bytes(h.lockout.fail_count) + seq![0u8, 0u8, 0u8, 0u8]
        + spec_u64_to_le_bytes(h.lockout.locked_until) + spec_u64_to_le_bytes(h.entry_count)
        + spec_u64_to_le_bytes(h.payload_len)
}

/// The header as written: body, then HMAC-SHA256 of the body under the
/// install key.
pub open spec fn spec_header_bytes(h: Header, key: Seq<u8>) -> Seq<u8> {
    spec_header_body(h) + spec_hmac_sha256(key, spec_header_body(h))
}

/// `b` is the header `h` as written under `key`: it reads back as `h`'s
/// fields with a valid HMAC.
pub open spec fn spec_written_header(b: Seq<u8>, h: Header, key: Seq<u8>) -> bool {
    &&& b == spec_header_bytes(h, key)
    &&& spec_magic_ok(b)
    &&& spec_u32_at(b, 4) == VERSION
    &&& spec_header_matches(Header { hmac_ok: true, ..h }, b, key)
}

/// `b` starts with the container magic.
pub open spec fn spec_magic_ok(b: Seq<u8>) -> bool {
    b.subrange(0, 4) == MAGIC@
}

/// `h` holds exactly the fields stored in the header bytes `b`, and records
/// whether `b`'s tag is the HMAC of its body under `key`.
pub open spec fn spec_header_matches(h: Header, b: Seq<u8>, key: Seq<u8>) -> bool {
    &&& h.uuid@ == b.subrange(8, 24)
    &&& h.salt@ == b.subrange(24, 40)
    &&& h.kdf == (KdfParams {
        m_cost_kib: spec_u32_at(b, 40),
        t_cost: spec_u32_at(b, 44),
        lanes: spec_u32_at(b, 48),
    })
    &&& h.wrapped_dk_pw@ == b.subrange(52, 112)
    &&& h.wrapped_dk_mk@ == b.subrange(112, 204)
    &&& h.lockout == (LockoutState { fail_count: spec_u32_at(b, 204), locked_until: spec_u64_at(b, 212) })
    &&& h.entry_count == spec_u64_at(b, 220)
    &&& h.payload_len == spec_u64_at(b, 228)
    &&& h.hmac_ok == (b.subrange(236, 268) == spec_hmac_sha256(key, b.subrange(0, 236)))
}

/// Two headers agree on every stored field (the HMAC verdict aside).
pub open spec fn spec_same_fields(a: Header, b: Header) -> bool {
    &&& a.uuid == b.uuid
    &&& a.salt == b.salt
    &&& a.kdf == b.kdf
    &&& a.wrapped_dk_pw == b.wrapped_dk_pw
    &&& a.wrapped_dk_mk == b.wrapped_dk_mk
    &&& a.lockout == b.lockout
    &&& a.entry_count == b.entry_count
    &&& a.payload_len == b.payload_len
}

fn read_u32(b: &[u8], off: usize) -> (x: u32)
    requires
        off + 4 <= b@.len(),
    ensures
        x == spec_u32_at(b@, off as int),
{
    let a: [u8; 4] = crate::bytes::take_array(b, off);
    u32_from_le_bytes(&a)
}

fn read_u64(b: &[u8], off: usize) -> (x: u64)
    requires
        off + 8 <= b@.len(),
    ensures
        x == spec_u64_at(b@, off as int),
{
    let a: [u8; 8] = crate::bytes::take_array(b, off);
    u64_from_le_bytes(&a)
}

fn copy_into<const N: usize>(dst: &mut [u8; N], src: &Vec<u8>)
    requires
        src@.len() == N,
    ensures
        final(dst)@ == src@,
{
    let mut i: usize = 0;
    while i < N
        invariant
            i <= N,
            src@.len() == N,
            dst@.len() == N,
            forall|j: int| 0 <= j < i ==> dst@[j] == src@[j],
        decreases N - i,
    {
        dst[i] = src[i];
        i = i + 1;
    }
    assert(dst@ =~= src@);
}

proof fn lemma_body_layout(h: Header)
    ensures
        spec_header_body(h).len() == 236,
        spec_header_body(h).subrange(0, 4) == MAGIC@,
        spec_u32_at(spec_header_body(h), 4) == VERSION,
        spec_header_body(h).subrange(8, 24) == h.uuid@,
        spec_header_body(h).subrange(24, 40) == h.salt@,
        spec_u32_at(spec_header_body(h), 40) == h.kdf.m_cost_kib,
        spec_u32_at(spec_header_body(h), 44) == h.kdf.t_cost,
        spec_u32_at(spec_header_body(h), 48) == h.kdf.lanes,
        spec_header_body(h).subrange(52, 112) == h.wrapped_dk_pw@,
        spec_header_body(h).subrange(112, 204) == h.wrapped_dk_mk@,
        spec_u32_at(spec_header_body(h), 204) == h.lockout.fail_count,
        spec_u64_at(spec_header_body(h), 212) == h.lockout.locked_until,
        spec_u64_at(spec_header_body(h), 220) == h.entry_count,
        spec_u64_at(spec_header_body(h), 228) == h.payload_len,
{
    lemma_auto_spec_u32_to_from_le_bytes();
    lemma_auto_spec_u64_to_from_le_bytes();
    let b = spec_header_body(h);
    assert(b.subrange(0, 4) =~= MAGIC@);
    assert(b.subrange(4, 8) =~= spec_u32_to_le_bytes(VERSION));
    assert(b.subrange(8, 24) =~= h.uuid@);
    assert(b.subrange(24, 40) =~= h.salt@);
    assert(b.subrange(40, 44) =~= spec_u32_to_le_bytes(h.kdf.m_cost_kib));
    assert(b.subrange(44, 48) =~= spec_u32_to_le_bytes(h.kdf.t_cost));
    assert(b.subrange(48, 52) =~= spec_u32_to_le_bytes(h.kdf.lanes));
    assert(b.subrange(52, 112) =~= h.wrapped_dk_pw@);
    assert(b.subrange(112, 204) =~= h.wrapped_dk_mk@);
    assert(b.subrange(204, 208) =~= spec_u32_to_le_bytes(h.lockout.fail_count));
    assert(b.subrange(212, 220) =~= spec_u64_to_le_bytes(h.lockout.locked_until));
    assert(b.subrange(220, 228) =~= spec_u64_to_le_bytes(h.entry_count));
    assert(b.subrange(228, 236) =~= spec_u64_to_le_bytes(h.payload_len));
}

/// Arrays with the same contents are equal.
pub proof fn lemma_array_eq_by_view<const N: usize>(a: [u8; N], b: [u8; N])
    requires
        a@ == b@,
    ensures
        a == b,
{
    broadcast use vstd::array::group_array_axioms;
    assert forall|i: int| 0 <= i < N implies a[i] == b[i] by {
        assert(a@[i] == b@[i]);
    }
    assert(a =~= b);
}

/// Headers that match the same bytes are the same header.
pub proof fn lemma_header_matches_unique(h1: Header, h2: Header, b: Seq<u8>, key: Seq<u8>)
    requires
        spec_header_matches(h1, b, key),
        spec_header_matches(h2, b, key),
    ensures
        spec_same_fields(h1, h2),
        h1.hmac_ok == h2.hmac_ok,
{
    lemma_array_eq_by_view(h1.uuid, h2.uuid);
    lemma_array_eq_by_view(h1.salt, h2.salt);
    lemma_array_eq_by_view(h1.wrapped_dk_pw, h2.wrapped_dk_pw);
    lemma_array_eq_by_view(h1.wrapped_dk_mk, h2.wrapped_dk_mk);
}

impl Header {
    /// Serialize: body, then its HMAC under `hmac_key`. Reading the result
    /// back under the same key gives this header's fields with a valid HMAC.
    pub fn to_bytes(&self, hmac_key: &[u8; 32]) -> (b: [u8; HEADER_LEN])
        ensures
            spec_written_header(b@, *self, hmac_key@),
    {
        let mut v: Vec<u8> = Vec::new();
        v.extend_from_slice(&MAGIC);
        v.extend_from_slice(u32_to_le_bytes(VERSION).as_slice());
        v.extend_from_slice(&self.uuid);
        v.extend_from_slice(&self.salt);
        v.extend_from_slice(u32_to_le_bytes(self.kdf.m_cost_kib).as_slice());
        v.extend_from_slice(u32_to_le_bytes(self.kdf.t_cost).as_slice());
        v.extend_from_slice(u32_to_le_bytes(self.kdf.lanes).as_slice());
        v.extend_from_slice(&self.wrapped_dk_pw);
        v.extend_from_slice(&self.wrapped_dk_mk);
        v.extend_from_slice(u32_to_le_bytes(self.lockout.fail_count).as_slice());
        let reserved: [u8; 4] = [0u8; 4];
        v.extend_from_slice(&reserved);
        v.extend_from_slice(u64_to_le_bytes(self.lockout.locked_until).as_slice());
        v.extend_from_slice(u64_to_le_bytes(self.entry_count).as_slice());
        v.extend_from_slice(u64_to_le_bytes(self.payload_len).as_slice());
        proof {
            lemma_auto_spec_u32_to_from_le_bytes();
            lemma_auto_spec_u64_to_from_le_bytes();
            assert(reserved@ =~= seq![0u8, 0u8, 0u8, 0u8]);
            assert(v@ =~= spec_header_body(*self));
            lemma_body_layout(*self);
        }
        let tag = hmac_sha256(hmac_key, v.as_slice());
        let ghost body = v@;
        v.extend_from_slice(&tag);
        let mut b = [0u8; HEADER_LEN];
        copy_into(&mut b, &v);
        proof {
            assert(b@ =~= spec_header_bytes(*self, hmac_key@));
            assert(b@.subrange(0, 236) =~= body);
            assert(b@.subrange(236, 268) =~= tag@);
            assert(b@.subrange(0, 4) =~= body.subrange(0, 4));
            assert(b@.subrange(4, 8) =~= body.subrange(4, 8));
            assert(b@.subrange(8, 24) =~= body.subrange(8, 24));
            assert(b@.subrange(24, 40) =~= body.subrange(24, 40));
            assert(b@.subrange(40, 44) =~= body.subrange(40, 44));
            assert(b@.subrange(44, 48) =~= body.subrange(44, 48));
            assert(b@.subrange(48, 52) =~= body.subrange(48, 52));
            assert(b@.subrange(52, 112) =~= body.subrange(52, 112));
            assert(b@.subrange(112, 204) =~= body.subrange(112, 204));
            assert(b@.subrange(204, 208) =~= body.subrange(204, 208));
            assert(b@.subrange(212, 220) =~= body.subrange(212, 220));
            assert(b@.subrange(220, 228) =~= body.subrange(220, 228));
            assert(b@.subrange(228, 236) =~= body.subrange(228, 236));
        }
        b
    }

    /// Parse a header. Bad magic and unknown versions are refused; any other
    /// byte pattern parses, with `hmac_ok` telling whether its tag verifies
    /// under this install's key.
    pub fn from_bytes(b: &[u8; HEADER_LEN], hmac_key: &[u8; 32]) -> (r: Result<Header, VaultError>)
        ensures
            !spec_magic_ok(b@) ==> r == Err::<Header, VaultError>(VaultError::BadMagic),
            spec_magic_ok(b@) && spec_u32_at(b@, 4) != VERSION
                ==> r == Err::<Header, VaultError>(VaultError::BadVersion(spec_u32_at(b@, 4))),
            spec_magic_ok(b@) && spec_u32_at(b@, 4) == VERSION
                ==> (r matches Ok(h) && spec_header_matches(h, b@, hmac_key@)),
    {
        let magic: [u8; 4] = crate::bytes::take_array(b, 0);
        if !(magic[0] == MAGIC[0] && magic[1] == MAGIC[1] && magic[2] == MAGIC[2] && magic[3] == MAGIC[3]) {
            proof {
                if spec_magic_ok(b@) {
                    assert(magic@[0] == MAGIC@[0]);
                    assert(magic@[1] == MAGIC@[1]);
                    assert(magic@[2] == MAGIC@[2]);
                    assert(magic@[3] == MAGIC@[3]);
                }
            }
            return Err(VaultError::BadMagic);
        }
        assert(magic@ =~= MAGIC@);
        let version = read_u32(b, 4);
        if version != VERSION {
            return Err(VaultError::BadVersion(version));
        }
        let body: [u8; HMAC_OFFSET] = crate::bytes::take_array(b, 0);
        let tag: [u8; 32] = crate::bytes::take_array(b, HMAC_OFFSET);
        let hmac_ok = hmac_sha256_verify(hmac_key, &body, &tag);
        Ok(Header {
            uuid: crate::bytes::take_array(b, 8),
            salt: crate::bytes::take_array(b, 24),
            kdf: KdfParams {
                m_cost_kib: read_u32(b, 40),
                t_cost: read_u32(b, 44),
                lanes: read_u32(b, 48),
            },
            wrapped_dk_pw: crate::bytes::take_array(b, 52),
            wrapped_dk_mk: crate::bytes::take_array(b, 112),
            lockout: LockoutState {
                fail_count: read_u32(b, 204),
                locked_until: read_u64(b, 212),
            },
            entry_count: read_u64(b, 220),
            payload_len: read_u64(b, 228),
            hmac_ok,
        })
    }
}

// ---------- authorization (shared by unlock and delete) ----------

/// How the caller is trying to open a container.
pub enum Credential<'a> {
    Password(&'a [u8]),
    /// Master recovery code (`XXXX-XXXX-...`). Bypasses the lockout — the
    /// code has 256 bits of entropy, brute force is not a concern.
    MasterCode(&'a str),
}

/// The outcome of checking a credential against a container header.
pub struct Authorization {
    /// Header bytes the caller must write back over the container's header
    /// before acting on `outcome` (`None`: leave the header as it is).
    pub rewrite: Option<[u8; HEADER_LEN]>,
    /// The parsed header and the recovered data key, or why access is refused.
    pub outcome: Result<(Header, SecretKey), VaultError>,
}

/// Lockout fields that fail the HMAC check (a container from another
/// install, or edited bytes) are untrusted: allow exactly one attempt before
/// a fresh lockout arms.
pub open spec fn spec_clamp(l: LockoutState, hmac_ok: bool) -> LockoutState {
    if !hmac_ok && l.fail_count < MAX_ATTEMPTS - 1 {
        LockoutState { fail_count: (MAX_ATTEMPTS - 1) as u32, locked_until: l.locked_until }
    } else {
        l
    }
}

/// The data key the password unlocks in header `h`, if it does.
pub open spec fn spec_password_dk(h: Header, pw: Seq<u8>) -> Option<Seq<u8>> {
    spec_unwrap_key(spec_argon2id(pw, h.salt@, h.kdf.m_cost_kib, h.kdf.t_cost, h.kdf.lanes), h.wrapped_dk_pw@)
}

/// Access granted with data key `dk`: the (clamped) lockout is cleared and
/// the header rewritten when it was not already clean and authenticated.
pub open spec fn spec_granted(h: Header, l: LockoutState, dk: Seq<u8>, key: Seq<u8>, out: Authorization) -> bool {
    let dirty = l != cleared() || !h.hmac_ok;
    let h2 = Header { lockout: if dirty { cleared() } else { l }, ..h };
    &&& out.outcome matches Ok((hh, k)) && spec_same_fields(hh, h2) && hh.hmac_ok == h.hmac_ok && k.0@ == dk
    &&& dirty ==> (out.rewrite matches Some(b) && spec_written_header(b@, h2, key))
    &&& !dirty ==> out.rewrite is None
}

/// Refused without touching the header.
pub open spec fn spec_refused(out: Authorization, e: VaultError) -> bool {
    out.rewrite is None && out.outcome == Err::<(Header, SecretKey), VaultError>(e)
}

/// Refused with an error of kind `Other`, without touching the header.
pub open spec fn spec_refused_other(out: Authorization) -> bool {
    out.rewrite is None && (out.outcome matches Err(e) && e is Other)
}

/// Refused with the message `msg`, without touching the header.
pub open spec fn spec_refused_with(out: Authorization, msg: Seq<char>) -> bool {
    out.rewrite is None && (out.outcome matches Err(e) && (e matches VaultError::Other(m) && m@ == msg))
}

/// What checking `cred` against the parsed header `h` decides at `now`.
pub open spec fn spec_authorize_header(h: Header, cred: Credential, key: Seq<u8>, now: u64, out: Authorization) -> bool {
    let l = spec_clamp(h.lockout, h.hmac_ok);
    match cred {
        Credential::Password(pw) => {
            if l.spec_is_locked(now) {
                spec_refused(out, VaultError::LockedOut { until_unix: l.locked_until })
            } else if !h.kdf.spec_derivable(pw@.len()) {
                spec_refused_other(out)
            } else {
                match spec_password_dk(h, pw@) {
                    None => {
                        &&& out.outcome == Err::<(Header, SecretKey), VaultError>(l.spec_failure_error(now))
                        &&& out.rewrite matches Some(b)
                            && spec_written_header(b@, Header { lockout: l.spec_after_failure(now), ..h }, key)
                    },
                    Some(dk) => spec_granted(h, l, dk, key, out),
                }
            }
        },
        Credential::MasterCode(code) => {
            if forall|i: int| 0 <= i < MASTER_WRAP_LEN ==> h.wrapped_dk_mk@[i] == 0 {
                spec_refused_with(out, "no master key is enrolled in this container"@)
            } else {
                match spec_open_dk(code@, h.wrapped_dk_mk@) {
                    None => spec_refused_with(out, "invalid recovery code"@),
                    Some(dk) => spec_granted(h, l, dk, key, out),
                }
            }
        },
    }
}

/// What checking `cred` against the header bytes `hb` decides at `now`.
pub open spec fn spec_authorize(hb: Seq<u8>, cred: Credential, key: Seq<u8>, now: u64, out: Authorization) -> bool {
    if !spec_magic_ok(hb) {
        spec_refused(out, VaultError::BadMagic)
    } else if spec_u32_at(hb, 4) != VERSION {
        spec_refused(out, VaultError::BadVersion(spec_u32_at(hb, 4)))
    } else {
        forall|h: Header| #[trigger] spec_header_matches(h, hb, key) ==> spec_authorize_header(h, cred, key, now, out)
    }
}

fn refused(e: VaultError) -> (out: Authorization)
    ensures
        spec_refused(out, e),
{
    Authorization { rewrite: None, outcome: Err(e) }
}

/// Verify the credential against the header bytes of a container and decide
/// what happens to its lockout state. A wrong password records a failure
/// (and arms the 24 h lockout at the third); the recovery code ignores the
/// lockout; any success clears it. The caller persists `rewrite` first.
pub fn authorize(hb: &[u8; HEADER_LEN], credential: &Credential, hmac_key: &[u8; 32], now_unix: u64) -> (out: Authorization)
    ensures
        spec_authorize(hb@, *credential, hmac_key@, now_unix, out),
{
    let mut header = match Header::from_bytes(hb, hmac_key) {
        Ok(h) => h,
        Err(e) => { return refused(e); },
    };
    let ghost h0 = header;
    proof {
        assert forall|h: Header| #[trigger] spec_header_matches(h, hb@, hmac_key@) implies h == h0 by {
            lemma_header_matches_unique(h, h0, hb@, hmac_key@);
        }
    }
    // Foreign/tampered lockout fields can't be trusted: allow exactly one
    // attempt before a fresh lockout arms (Argon2 remains the real barrier).
    if !header.hmac_ok && header.lockout.fail_count < MAX_ATTEMPTS - 1 {
        header.lockout.fail_count = MAX_ATTEMPTS - 1;
    }
    let ghost l = header.lockout;
    assert(l == spec_clamp(h0.lockout, h0.hmac_ok));
    let dk = match credential {
        Credential::Password(password) => {
            if let Err(e) = header.lockout.check(now_unix) {
                return refused(e);
            }
            let kek = match derive_kek(password, &header.salt, &header.kdf) {
                Ok(k) => k,
                Err(e) => { return refused(e); },
            };
            match unwrap_key(&kek, &header.wrapped_dk_pw) {
                Some(dk) => dk,
                None => {
                    let err = header.lockout.record_failure(now_unix);
                    let bytes = header.to_bytes(hmac_key);
                    return Authorization { rewrite: Some(bytes), outcome: Err(err) };
                },
            }
        },
        Credential::MasterCode(code) => {
            if !is_enrolled(&header.wrapped_dk_mk) {
                return refused(VaultError::Other(String::from_str("no master key is enrolled in this container")));
            }
            match open_dk(code, &header.wrapped_dk_mk) {
                Some(dk) => dk,
                None => {
                    return refused(VaultError::Other(String::from_str("invalid recovery code")));
                },
            }
        },
    };
    if header.lockout != LockoutState::default() || !header.hmac_ok {
        header.lockout.reset();
        let bytes = header.to_bytes(hmac_key);
        Authorization { rewrite: Some(bytes), outcome: Ok((header, dk)) }
    } else {
        Authorization { rewrite: None, outcome: Ok((header, dk)) }
    }
}

/// The error an outcome reports, or `None` on success.
pub open spec fn spec_error_of<T>(r: Result<T, VaultError>) -> Option<VaultError> {
    match r {
        Ok(_) => None,
        Err(e) => Some(e),
    }
}

/// One password or recovery-code attempt on the header bytes `hb` at `now`,
/// made by unlocking or by deleting: it writes back `rewrite` and reports
/// `error` (`None` when it succeeds), as authorization decides.
pub open spec fn spec_attempt(
    hb: Seq<u8>,
    cred: Credential,
    key: Seq<u8>,
    now: u64,
    rewrite: Option<[u8; HEADER_LEN]>,
    error: Option<VaultError>,
) -> bool {
    exists|a: Authorization| {
        &&& #[trigger] spec_authorize(hb, cred, key, now, a)
        &&& a.rewrite == rewrite
        &&& spec_error_of(a.outcome) == error
    }
}

/// What a delete attempt decides: the header rewrite (if any) and whether
/// the container may be recycled.
pub struct DeleteDecision {
    pub rewrite: Option<[u8; HEADER_LEN]>,
    pub outcome: Result<(), VaultError>,
}

/// Verify the password/recovery code before a delete. Shares the exact
/// lockout behavior of unlock — 3 wrong attempts arm the 24 h lockout — so
/// the delete prompt can't be used as an unlimited password oracle. Nothing
/// is extracted; the caller recycles the container when `outcome` is `Ok`.
pub fn verify_and_delete(hb: &[u8; HEADER_LEN], credential: &Credential, hmac_key: &[u8; 32], now_unix: u64) -> (d: DeleteDecision)
    ensures
        spec_attempt(hb@, *credential, hmac_key@, now_unix, d.rewrite, spec_error_of(d.outcome)),
{
    let a = authorize(hb, credential, hmac_key, now_unix);
    let outcome = match a.outcome {
        Ok(_) => Ok(()),
        Err(e) => Err(e),
    };
    let d = DeleteDecision { rewrite: a.rewrite, outcome };
    assert(spec_error_of(d.outcome) == spec_error_of(a.outcome));
    d
}

// ---------- lock ----------

pub struct LockOptions {
    pub kdf: Option<KdfParams>,
    /// Master public key: when set, the data key is also sealed to it so the
    /// recovery code can unlock this container.
    pub master_pub: Option<[u8; 32]>,
    /// Best-effort overwrite of source file contents before deletion.
    pub secure_delete: bool,
    /// Send the original folder to the Recycle Bin (recoverable) instead of a
    /// permanent delete. Ignored when `secure_delete` is set (a wipe is,
    /// by intent, unrecoverable).
    pub recycle_original: bool,
    /// Mark the resulting `.fvlt` read-only so Explorer asks before deleting
    /// it — friction against accidental deletion, not a hard block.
    pub readonly_container: bool,
}

impl Default for LockOptions {
    fn default() -> (o: Self)
        ensures
            o.kdf is None,
            o.master_pub is None,
            !o.secure_delete,
            !o.recycle_original,
            !o.readonly_container,
    {
        LockOptions { kdf: None, master_pub: None, secure_delete: false, recycle_original: false, readonly_container: false }
    }
}

/// What happens to the source folder once its container is in place.
#[derive(Clone, Copy, Debug, PartialEq, Eq, Structural)]
pub enum Disposal {
    /// Overwrite file contents with zeros, then delete permanently.
    Wipe,
    /// Send the folder to the Recycle Bin.
    Recycle,
    /// Delete permanently.
    Remove,
}

impl LockOptions {
    /// How the source folder goes: a secure delete wipes it (and is never
    /// recycled, since a wipe is meant to be unrecoverable); otherwise it
    /// is recycled when asked, or else removed.
    pub fn disposal(&self) -> (d: Disposal)
        ensures
            self.secure_delete ==> d == Disposal::Wipe,
            !self.secure_delete && self.recycle_original ==> d == Disposal::Recycle,
            !self.secure_delete && !self.recycle_original ==> d == Disposal::Remove,
    {
        if self.secure_delete {
            Disposal::Wipe
        } else if self.recycle_original {
            Disposal::Recycle
        } else {
            Disposal::Remove
        }
    }
}

/// The indices of the entries a secure delete overwrites: the non-empty
/// files, in manifest order.
pub fn wipe_targets(entries: &Vec<Entry>) -> (r: Vec<usize>)
    ensures
        forall|k: int| 0 <= k < r@.len() ==> (r@[k] as int) < entries@.len()
            && !entries@[r@[k] as int].is_dir && entries@[r@[k] as int].size > 0,
        forall|k: int, l: int| 0 <= k < l < r@.len() ==> r@[k] < r@[l],
        forall|i: int| 0 <= i < entries@.len() && !entries@[i].is_dir && entries@[i].size > 0
            ==> r@.contains(i as usize),
{
    let mut out: Vec<usize> = Vec::new();
    let mut i: usize = 0;
    while i < entries.len()
        invariant
            i <= entries@.len(),
            forall|k: int| 0 <= k < out@.len() ==> (out@[k] as int) < i
                && !entries@[out@[k] as int].is_dir && entries@[out@[k] as int].size > 0,
            forall|k: int, l: int| 0 <= k < l < out@.len() ==> out@[k] < out@[l],
            forall|j: int| 0 <= j < i && !entries@[j].is_dir && entries@[j].size > 0 ==> out@.contains(j as usize),
        decreases entries@.len() - i,
    {
        if !entries[i].is_dir && entries[i].size > 0 {
            let ghost before = out@;
            out.push(i);
            assert(out@[out@.len() - 1] == i);
            assert forall|j: int| 0 <= j < i + 1 && !entries@[j].is_dir && entries@[j].size > 0
                implies out@.contains(j as usize) by {
                if j < i {
                    let k = choose|k: int| 0 <= k < before.len() && before[k] == j as usize;
                    assert(out@[k] == j as usize);
                } else {
                    assert(out@[out@.len() - 1] == j as usize);
                }
            }
        }
        i = i + 1;
    }
    out
}

/// `name` followed by `suffix`.
fn with_suffix(name: &str, suffix: &str) -> (s: String)
    ensures
        s@ == name@ + suffix@,
{
    let mut s = String::from_str(name);
    s.append(suffix);
    s
}

/// The file name of the container of folder `name`: `<name>.fvlt`.
pub fn container_name(name: &str) -> (s: String)
    ensures
        s@ == name@ + ".fvlt"@,
{
    with_suffix(name, ".fvlt")
}

/// Where a lock of folder `name` writes before it commits: `<name>.fvlt.tmp`.
pub fn lock_staging_name(name: &str) -> (s: String)
    ensures
        s@ == name@ + ".fvlt.tmp"@,
{
    with_suffix(name, ".fvlt.tmp")
}

/// Where an unlock of the container with stem `stem` extracts before it
/// commits: `<stem>.__restoring`.
pub fn unlock_staging_name(stem: &str) -> (s: String)
    ensures
        s@ == stem@ + ".__restoring"@,
{
    with_suffix(stem, ".__restoring")
}

/// The KDF parameters a lock uses.
pub open spec fn spec_lock_kdf(opts: LockOptions) -> KdfParams {
    match opts.kdf {
        Some(k) => k,
        None => KdfParams { m_cost_kib: 65536, t_cost: 3, lanes: 4 },
    }
}

/// A lock records the KDF parameters its options give, and with none given
/// the defaults: 64 MiB of memory, 3 passes, 4 lanes.
pub proof fn lemma_lock_kdf_defaults(opts: LockOptions)
    ensures
        opts.kdf matches Some(k) ==> spec_lock_kdf(opts) == k,
        opts.kdf is None ==> spec_lock_kdf(opts).m_cost_kib == 64 * 1024,
        opts.kdf is None ==> spec_lock_kdf(opts).t_cost == 3,
        opts.kdf is None ==> spec_lock_kdf(opts).lanes == 4,
{
}

/// What a lock writes before the data chunks: the header (and its bytes),
/// the manifest frame, and the chunk cipher for the data that follows.
pub struct ContainerStart {
    pub header: Header,
    pub header_bytes: [u8; HEADER_LEN],
    pub manifest_frame: Vec<u8>,
    pub cipher: ChunkCipher,
}

/// The nonce of a frame.
pub open spec fn frame_nonce(f: Seq<u8>) -> Seq<u8> {
    f.subrange(0, 12)
}

/// The blob of a frame.
pub open spec fn frame_blob(f: Seq<u8>) -> Seq<u8> {
    f.subrange(16, f.len() as int)
}

/// What a container start promises: the header (and its bytes as written
/// under `hmac_key`) with the lock's KDF, a clean lockout and the entry
/// count; the password unwraps the data key of the chunk cipher; the master
/// wrap opens to it for the master secret (or is all zero); and the
/// manifest frame opens under that key to the entries.
pub open spec fn spec_container_start(
    s: ContainerStart,
    entries: Seq<Entry>,
    total_bytes: u64,
    password: Seq<u8>,
    hmac_key: Seq<u8>,
    opts: LockOptions,
) -> bool {
    &&& spec_written_header(s.header_bytes@, s.header, hmac_key)
    &&& s.header.kdf == spec_lock_kdf(opts)
    &&& (opts.kdf matches Some(k) ==> s.header.kdf == k)
    &&& (opts.kdf is None ==> s.header.kdf == (KdfParams { m_cost_kib: 65536, t_cost: 3, lanes: 4 }))
    &&& s.header.lockout == cleared()
    &&& s.header.hmac_ok
    &&& s.header.entry_count == entries.len()
    &&& s.header.payload_len == total_bytes
    &&& spec_password_dk(s.header, password) == Some(s.cipher.spec_key())
    &&& s.cipher.spec_uuid() == s.header.uuid@
    &&& (opts.master_pub is None ==> forall|i: int| 0 <= i < MASTER_WRAP_LEN ==> s.header.wrapped_dk_mk@[i] == 0)
    &&& (opts.master_pub matches Some(mp) ==> forall|sk: Seq<u8>|
        #![trigger spec_x25519_public(sk)]
        sk.len() == 32 && spec_x25519_public(sk) == mp@
            ==> spec_open_with_secret(sk, s.header.wrapped_dk_mk@) == Some(s.cipher.spec_key()))
    &&& s.manifest_frame@ == spec_frame(frame_nonce(s.manifest_frame@), frame_blob(s.manifest_frame@))
    &&& frame_blob(s.manifest_frame@).len() <= MAX_MANIFEST_LEN
    &&& spec_manifest(s.cipher.spec_key(), s.header.uuid@, frame_nonce(s.manifest_frame@),
        frame_blob(s.manifest_frame@), s.header.entry_count) == Some(entry_records(entries))
}

/// The lock's manifest fits its frame.
pub open spec fn spec_manifest_fits(entries: Seq<Entry>) -> bool {
    spec_bincode_entries(entry_records(entries)).len() <= MAX_MANIFEST_LEN - TAG_LEN
}

/// The random values a new container is made from.
pub struct LockRandomness {
    pub uuid: [u8; 16],
    pub salt: [u8; 16],
    /// The data key.
    pub dk: [u8; 32],
    /// Nonce of the password wrap.
    pub wrap_nonce: [u8; 12],
    /// Ephemeral X25519 secret of the master wrap.
    pub eph: [u8; 32],
    /// Nonce of the master wrap.
    pub master_nonce: [u8; 12],
    /// Nonce of the manifest frame.
    pub manifest_nonce: [u8; 12],
}

/// Make a new container for `entries` from the given random values: the
/// data key `rnd.dk` wrapped under the password's Argon2id key with
/// `rnd.wrap_nonce`, sealed to the master public key (when given) with
/// `rnd.eph` and `rnd.master_nonce`, a clean lockout, and the manifest
/// sealed as the reserved chunk with `rnd.manifest_nonce`. Succeeds exactly
/// when the KDF parameters can be used with this password and the manifest
/// fits its frame.
pub fn build_container(
    entries: &Vec<Entry>,
    total_bytes: u64,
    password: &[u8],
    hmac_key: &[u8; 32],
    opts: &LockOptions,
    rnd: &LockRandomness,
) -> (r: Result<ContainerStart, VaultError>)
    ensures
        r is Ok <==> spec_lock_kdf(*opts).spec_derivable(password@.len()) && spec_manifest_fits(entries@),
        !spec_lock_kdf(*opts).spec_derivable(password@.len()) ==> (r matches Err(e) && e is Other),
        spec_lock_kdf(*opts).spec_derivable(password@.len()) && !spec_manifest_fits(entries@)
            ==> (r matches Err(e) && (e matches VaultError::Other(m) && m@ == "folder has too many entries"@)),
        r matches Ok(s) ==> {
            let kdf = spec_lock_kdf(*opts);
            &&& spec_container_start(s, entries@, total_bytes, password@, hmac_key@, *opts)
            &&& s.header.uuid == rnd.uuid
            &&& s.header.salt == rnd.salt
            &&& s.cipher.spec_key() == rnd.dk@
            &&& s.header.wrapped_dk_pw@ == crate::crypto::spec_wrap(
                spec_argon2id(password@, rnd.salt@, kdf.m_cost_kib, kdf.t_cost, kdf.lanes), rnd.dk@, rnd.wrap_nonce@)
            &&& (opts.master_pub matches Some(mp) ==> s.header.wrapped_dk_mk@
                == crate::recovery::spec_master_wrap(mp@, rnd.dk@, rnd.eph@, rnd.master_nonce@))
            &&& s.manifest_frame@ == spec_frame(rnd.manifest_nonce@, crate::primitives::spec_gcm_seal(rnd.dk@,
                rnd.manifest_nonce@, crate::crypto::spec_chunk_aad(rnd.uuid@, MANIFEST_SEQ),
                spec_bincode_entries(entry_records(entries@))))
        },
{
    let kdf = match opts.kdf {
        Some(k) => k,
        None => KdfParams::default(),
    };
    let dk = SecretKey::from_bytes(rnd.dk);
    let kek = derive_kek(password, &rnd.salt, &kdf)?;
    let wrapped_dk_pw = wrap_key_with_nonce(&kek, &dk, &rnd.wrap_nonce);
    let wrapped_dk_mk = match opts.master_pub {
        Some(p) => seal_dk_with_ephemeral(&p, &dk, &rnd.eph, &rnd.master_nonce),
        None => [0u8; MASTER_WRAP_LEN],
    };
    let header = Header {
        uuid: rnd.uuid,
        salt: rnd.salt,
        kdf,
        wrapped_dk_pw,
        wrapped_dk_mk,
        lockout: LockoutState::default(),
        entry_count: entries.len() as u64,
        payload_len: total_bytes,
        hmac_ok: true,
    };
    let header_bytes = header.to_bytes(hmac_key);
    let cipher = ChunkCipher::new(&dk, rnd.uuid);
    let manifest = match bincode_encode_entries(entries) {
        Ok(m) => m,
        Err(e) => {
            let mut msg = String::from_str("manifest: ");
            let text = bincode_error_text(&*e);
            msg.append(text.as_str());
            return Err(VaultError::Other(msg));
        },
    };
    if manifest.len() > MAX_MANIFEST_LEN - TAG_LEN {
        return Err(VaultError::Other(String::from_str("folder has too many entries")));
    }
    let manifest_frame = cipher.seal_with_nonce(MANIFEST_SEQ, &rnd.manifest_nonce, manifest.as_slice());
    proof {
        assert(spec_password_dk(header, password@) == Some(dk.0@));
        lemma_auto_spec_u32_to_from_le_bytes();
        let blob = crate::primitives::spec_gcm_seal(dk.0@, rnd.manifest_nonce@,
            crate::crypto::spec_chunk_aad(rnd.uuid@, MANIFEST_SEQ), manifest@);
        assert(manifest_frame@.subrange(0, 12) =~= rnd.manifest_nonce@);
        assert(manifest_frame@.subrange(16, manifest_frame@.len() as int) =~= blob);
    }
    Ok(ContainerStart { header, header_bytes, manifest_frame, cipher })
}

/// Draw the random values of a new container from the OS CSPRNG.
fn draw_lock_randomness() -> (r: Result<LockRandomness, VaultError>)
    ensures
        r matches Err(e) ==> crate::crypto::spec_rng_failure(e),
{
    let mut uuid = [0u8; 16];
    random_bytes(&mut uuid)?;
    let mut salt = [0u8; 16];
    random_bytes(&mut salt)?;
    let mut dk = [0u8; 32];
    random_bytes(&mut dk)?;
    let mut wrap_nonce = [0u8; 12];
    random_bytes(&mut wrap_nonce)?;
    let mut eph = [0u8; 32];
    random_bytes(&mut eph)?;
    let mut master_nonce = [0u8; 12];
    random_bytes(&mut master_nonce)?;
    let mut manifest_nonce = [0u8; 12];
    random_bytes(&mut manifest_nonce)?;
    Ok(LockRandomness { uuid, salt, dk, wrap_nonce, eph, master_nonce, manifest_nonce })
}

/// Start a new container for `entries` (`total_bytes` of file contents):
/// fresh uuid, salt and data key; the data key wrapped under the password's
/// Argon2id key and, when a master public key is given, sealed to it; a
/// clean lockout; and the manifest sealed as the reserved chunk. Unlocking
/// with the same password gives the data key back, and the manifest opens
/// under it to the same entries. Fails when the KDF parameters cannot be
/// used with this password, when the manifest does not fit its frame, or
/// when the OS random generator fails — and for no other reason.
pub fn begin_container(
    entries: &Vec<Entry>,
    total_bytes: u64,
    password: &[u8],
    hmac_key: &[u8; 32],
    opts: &LockOptions,
) -> (r: Result<ContainerStart, VaultError>)
    ensures
        !spec_lock_kdf(*opts).spec_derivable(password@.len()) ==> r is Err,
        !spec_manifest_fits(entries@) ==> r is Err,
        r matches Err(e) ==> e is Other,
        r matches Err(e) ==> crate::crypto::spec_rng_failure(e)
            || !spec_lock_kdf(*opts).spec_derivable(password@.len()) || !spec_manifest_fits(entries@),
        r matches Ok(s) ==> spec_container_start(s, entries@, total_bytes, password@, hmac_key@, *opts),
{
    let rnd = match draw_lock_randomness() {
        Ok(v) => v,
        Err(e) => { return Err(e); },
    };
    build_container(entries, total_bytes, password, hmac_key, opts, &rnd)
}

// ---------- laws of authorization ----------

/// A header this install wrote is read back as itself, authenticated.
proof fn lemma_written_header_matches(hb: Seq<u8>, h: Header, key: Seq<u8>)
    requires
        spec_written_header(hb, h, key),
    ensures
        spec_magic_ok(hb),
        spec_u32_at(hb, 4) == VERSION,
        spec_header_matches(Header { hmac_ok: true, ..h }, hb, key),
        spec_clamp(h.lockout, true) == h.lockout,
{
}

/// The right password, outside a lockout, opens a container this install
/// wrote: the data key comes back, and the lockout is cleared (the header
/// is rewritten only when there was something to clear).
pub proof fn lemma_correct_password_grants(hb: Seq<u8>, h: Header, hmac_key: Seq<u8>, cred: Credential, dk: Seq<u8>, now: u64, out: Authorization)
    requires
        spec_written_header(hb, h, hmac_key),
        cred matches Credential::Password(pw) && h.kdf.spec_derivable(pw@.len()) && spec_password_dk(h, pw@) == Some(dk),
        !h.lockout.spec_is_locked(now),
        spec_authorize(hb, cred, hmac_key, now, out),
    ensures
        out.outcome matches Ok((hh, k)) && k.0@ == dk && hh.lockout == cleared() && hh.hmac_ok
            && spec_same_fields(hh, Header { lockout: cleared(), ..h }),
        h.lockout == cleared() ==> out.rewrite is None,
        h.lockout != cleared() ==> (out.rewrite matches Some(b)
            && spec_written_header(b@, Header { lockout: cleared(), ..h }, hmac_key)),
{
    lemma_written_header_matches(hb, h, hmac_key);
    let h1 = Header { hmac_ok: true, ..h };
    assert(spec_authorize_header(h1, cred, hmac_key, now, out));
}

/// Locking and then unlocking with the same password gives the data key
/// back and leaves the header as it was.
pub proof fn lemma_lock_then_unlock(hb: Seq<u8>, h: Header, hmac_key: Seq<u8>, cred: Credential, dk: Seq<u8>, now: u64, out: Authorization)
    requires
        spec_written_header(hb, h, hmac_key),
        h.lockout == cleared(),
        cred matches Credential::Password(pw) && h.kdf.spec_derivable(pw@.len()) && spec_password_dk(h, pw@) == Some(dk),
        spec_authorize(hb, cred, hmac_key, now, out),
    ensures
        out.rewrite is None,
        out.outcome matches Ok((hh, k)) && k.0@ == dk && spec_same_fields(hh, h),
{
    lemma_correct_password_grants(hb, h, hmac_key, cred, dk, now, out);
}

/// A wrong password, outside a lockout, is recorded: the error tells the
/// attempts left (or the new lockout), and the header is rewritten with
/// the failure counted.
pub proof fn lemma_wrong_password_counts(hb: Seq<u8>, h: Header, hmac_key: Seq<u8>, cred: Credential, now: u64, out: Authorization)
    requires
        spec_written_header(hb, h, hmac_key),
        cred matches Credential::Password(pw) && h.kdf.spec_derivable(pw@.len()) && spec_password_dk(h, pw@) is None,
        !h.lockout.spec_is_locked(now),
        spec_authorize(hb, cred, hmac_key, now, out),
    ensures
        out.outcome == Err::<(Header, SecretKey), VaultError>(h.lockout.spec_failure_error(now)),
        out.rewrite matches Some(b)
            && spec_written_header(b@, Header { lockout: h.lockout.spec_after_failure(now), hmac_ok: true, ..h }, hmac_key),
{
    lemma_written_header_matches(hb, h, hmac_key);
    let h1 = Header { hmac_ok: true, ..h };
    assert(spec_authorize_header(h1, cred, hmac_key, now, out));
    assert(Header { lockout: h1.lockout.spec_after_failure(now), ..h1 }
        == Header { lockout: h.lockout.spec_after_failure(now), hmac_ok: true, ..h });
}

/// While a lockout runs, every password (the right one too) is refused
/// and the header is left alone.
pub proof fn lemma_locked_refuses_password(hb: Seq<u8>, h: Header, hmac_key: Seq<u8>, cred: Credential, now: u64, out: Authorization)
    requires
        spec_written_header(hb, h, hmac_key),
        cred is Password,
        h.lockout.spec_is_locked(now),
        spec_authorize(hb, cred, hmac_key, now, out),
    ensures
        out.rewrite is None,
        out.outcome == Err::<(Header, SecretKey), VaultError>(VaultError::LockedOut { until_unix: h.lockout.locked_until }),
{
    lemma_written_header_matches(hb, h, hmac_key);
    let h1 = Header { hmac_ok: true, ..h };
    assert(spec_authorize_header(h1, cred, hmac_key, now, out));
}

/// Three wrong passwords lock a fresh container out for 24 hours from the
/// third, and during that time even the right password is refused. Each
/// attempt works on the header the previous one wrote back.
pub proof fn lemma_three_failures_lock_out(
    hb0: Seq<u8>,
    h: Header,
    hmac_key: Seq<u8>,
    wrong: Credential,
    any: Credential,
    t1: u64,
    t2: u64,
    t3: u64,
    later: u64,
    out1: Authorization,
    hb1: Seq<u8>,
    out2: Authorization,
    hb2: Seq<u8>,
    out3: Authorization,
    hb3: Seq<u8>,
    out4: Authorization,
)
    requires
        spec_written_header(hb0, h, hmac_key),
        h.lockout == cleared(),
        wrong matches Credential::Password(pw) && h.kdf.spec_derivable(pw@.len()) && spec_password_dk(h, pw@) is None,
        any is Password,
        t3 + LOCKOUT_SECS <= u64::MAX,
        later < t3 + LOCKOUT_SECS,
        spec_authorize(hb0, wrong, hmac_key, t1, out1),
        out1.rewrite matches Some(b) && b@ == hb1,
        spec_authorize(hb1, wrong, hmac_key, t2, out2),
        out2.rewrite matches Some(b) && b@ == hb2,
        spec_authorize(hb2, wrong, hmac_key, t3, out3),
        out3.rewrite matches Some(b) && b@ == hb3,
        spec_authorize(hb3, any, hmac_key, later, out4),
    ensures
        out1.outcome == Err::<(Header, SecretKey), VaultError>(VaultError::WrongPassword { attempts_left: 2 }),
        out2.outcome == Err::<(Header, SecretKey), VaultError>(VaultError::WrongPassword { attempts_left: 1 }),
        out3.outcome == Err::<(Header, SecretKey), VaultError>(VaultError::LockedOut { until_unix: (t3 + LOCKOUT_SECS) as u64 }),
        out4.outcome == Err::<(Header, SecretKey), VaultError>(VaultError::LockedOut { until_unix: (t3 + LOCKOUT_SECS) as u64 }),
        out4.rewrite is None,
{
    crate::lockout::lemma_three_failures_arm_lockout(t1, t2, t3);
    let l1 = cleared().spec_after_failure(t1);
    let l2 = l1.spec_after_failure(t2);
    let l3 = l2.spec_after_failure(t3);
    lemma_wrong_password_counts(hb0, h, hmac_key, wrong, t1, out1);
    let h1 = Header { lockout: l1, hmac_ok: true, ..h };
    lemma_wrong_password_counts(hb1, h1, hmac_key, wrong, t2, out2);
    let h2 = Header { lockout: l2, hmac_ok: true, ..h };
    assert(Header { lockout: h1.lockout.spec_after_failure(t2), hmac_ok: true, ..h1 } == h2);
    lemma_wrong_password_counts(hb2, h2, hmac_key, wrong, t3, out3);
    let h3 = Header { lockout: l3, hmac_ok: true, ..h };
    assert(Header { lockout: h2.lockout.spec_after_failure(t3), hmac_ok: true, ..h2 } == h3);
    lemma_locked_refuses_password(hb3, h3, hmac_key, any, later, out4);
}

/// An unlock's authorization is an attempt in the same sense as a delete's:
/// the two share one lockout.
pub proof fn lemma_unlock_is_attempt(hb: Seq<u8>, cred: Credential, hmac_key: Seq<u8>, now: u64, out: Authorization)
    requires
        spec_authorize(hb, cred, hmac_key, now, out),
    ensures
        spec_attempt(hb, cred, hmac_key, now, out.rewrite, spec_error_of(out.outcome)),
{
}

/// Three wrong passwords lock a fresh container out for 24 hours from the
/// third, whether each attempt was made by unlocking or by deleting, in any
/// mix; until then every further password attempt of either kind is
/// refused and leaves the header as it is. Each attempt works on the
/// header the previous one wrote back.
pub proof fn lemma_mixed_attempts_lock_out(
    hb0: Seq<u8>,
    h: Header,
    hmac_key: Seq<u8>,
    wrong: Credential,
    any: Credential,
    t1: u64,
    t2: u64,
    t3: u64,
    later: u64,
    r1: Option<[u8; HEADER_LEN]>,
    e1: Option<VaultError>,
    r2: Option<[u8; HEADER_LEN]>,
    e2: Option<VaultError>,
    r3: Option<[u8; HEADER_LEN]>,
    e3: Option<VaultError>,
    r4: Option<[u8; HEADER_LEN]>,
    e4: Option<VaultError>,
)
    requires
        spec_written_header(hb0, h, hmac_key),
        h.lockout == cleared(),
        wrong matches Credential::Password(pw) && h.kdf.spec_derivable(pw@.len()) && spec_password_dk(h, pw@) is None,
        any is Password,
        t3 + LOCKOUT_SECS <= u64::MAX,
        later < t3 + LOCKOUT_SECS,
        spec_attempt(hb0, wrong, hmac_key, t1, r1, e1),
        r1 is Some,
        spec_attempt(r1.unwrap()@, wrong, hmac_key, t2, r2, e2),
        r2 is Some,
        spec_attempt(r2.unwrap()@, wrong, hmac_key, t3, r3, e3),
        r3 is Some,
        spec_attempt(r3.unwrap()@, any, hmac_key, later, r4, e4),
    ensures
        e1 == Some(VaultError::WrongPassword { attempts_left: 2 }),
        e2 == Some(VaultError::WrongPassword { attempts_left: 1 }),
        e3 == Some(VaultError::LockedOut { until_unix: (t3 + LOCKOUT_SECS) as u64 }),
        e4 == Some(VaultError::LockedOut { until_unix: (t3 + LOCKOUT_SECS) as u64 }),
        r4 is None,
{
    let a1 = choose|a: Authorization| #[trigger] spec_authorize(hb0, wrong, hmac_key, t1, a) && a.rewrite == r1
        && spec_error_of(a.outcome) == e1;
    let hb1 = r1.unwrap()@;
    let a2 = choose|a: Authorization| #[trigger] spec_authorize(hb1, wrong, hmac_key, t2, a) && a.rewrite == r2
        && spec_error_of(a.outcome) == e2;
    let hb2 = r2.unwrap()@;
    let a3 = choose|a: Authorization| #[trigger] spec_authorize(hb2, wrong, hmac_key, t3, a) && a.rewrite == r3
        && spec_error_of(a.outcome) == e3;
    let hb3 = r3.unwrap()@;
    let a4 = choose|a: Authorization| #[trigger] spec_authorize(hb3, any, hmac_key, later, a) && a.rewrite == r4
        && spec_error_of(a.outcome) == e4;
    lemma_three_failures_lock_out(hb0, h, hmac_key, wrong, any, t1, t2, t3, later, a1, hb1, a2, hb2, a3, hb3, a4);
}

/// A container whose header does not authenticate under this install's key
/// (another install's, or edited) and carries no lockout of its own allows
/// exactly one password attempt: a wrong one locks it out for 24 hours.
pub proof fn lemma_foreign_header_single_attempt(hb: Seq<u8>, h: Header, hmac_key: Seq<u8>, cred: Credential, now: u64, out: Authorization)
    requires
        spec_magic_ok(hb),
        spec_u32_at(hb, 4) == VERSION,
        spec_header_matches(h, hb, hmac_key),
        !h.hmac_ok,
        h.lockout.locked_until == 0,
        now + LOCKOUT_SECS <= u64::MAX,
        cred matches Credential::Password(pw) && h.kdf.spec_derivable(pw@.len()) && spec_password_dk(h, pw@) is None,
        spec_authorize(hb, cred, hmac_key, now, out),
    ensures
        out.outcome == Err::<(Header, SecretKey), VaultError>(VaultError::LockedOut { until_unix: (now + LOCKOUT_SECS) as u64 }),
{
    assert(spec_authorize_header(h, cred, hmac_key, now, out));
}

/// The recovery code of the master secret a container was sealed to opens
/// it whatever its lockout says, and clears the lockout.
pub proof fn lemma_master_code_bypasses_lockout(hb: Seq<u8>, h: Header, hmac_key: Seq<u8>, cred: Credential, sk: Seq<u8>, dk: Seq<u8>, now: u64, out: Authorization)
    requires
        spec_written_header(hb, h, hmac_key),
        exists|i: int| 0 <= i < MASTER_WRAP_LEN && h.wrapped_dk_mk@[i] != 0,
        sk.len() == 32,
        spec_open_with_secret(sk, h.wrapped_dk_mk@) == Some(dk),
        cred matches Credential::MasterCode(code) && code@ == crate::recovery::spec_encode_code(sk),
        spec_authorize(hb, cred, hmac_key, now, out),
    ensures
        out.outcome matches Ok((hh, k)) && k.0@ == dk && hh.lockout == cleared(),
{
    lemma_written_header_matches(hb, h, hmac_key);
    crate::recovery::lemma_master_code_opens(sk, h.wrapped_dk_mk@, dk);
    let h1 = Header { hmac_ok: true, ..h };
    assert(spec_authorize_header(h1, cred, hmac_key, now, out));
}

/// A recovery code is refused, and the header left alone, when no master
/// key was enrolled in the container.
pub proof fn lemma_master_code_needs_enrollment(hb: Seq<u8>, h: Header, hmac_key: Seq<u8>, cred: Credential, now: u64, out: Authorization)
    requires
        spec_written_header(hb, h, hmac_key),
        forall|i: int| 0 <= i < MASTER_WRAP_LEN ==> h.wrapped_dk_mk@[i] == 0,
        cred is MasterCode,
        spec_authorize(hb, cred, hmac_key, now, out),
    ensures
        out.rewrite is None,
        out.outcome matches Err(e) && (e matches VaultError::Other(m) && m@ == "no master key is enrolled in this container"@),
{
    lemma_written_header_matches(hb, h, hmac_key);
    let h1 = Header { hmac_ok: true, ..h };
    assert(spec_authorize_header(h1, cred, hmac_key, now, out));
}

/// The owner of a container from another install (right password, no
/// lockout armed in its header) gets in at the first try, and the header is
/// re-sealed for this install with a clean lockout.
pub proof fn lemma_foreign_header_right_password(hb: Seq<u8>, h: Header, hmac_key: Seq<u8>, cred: Credential, dk: Seq<u8>, now: u64, out: Authorization)
    requires
        spec_magic_ok(hb),
        spec_u32_at(hb, 4) == VERSION,
        spec_header_matches(h, hb, hmac_key),
        !h.hmac_ok,
        h.lockout.locked_until == 0,
        cred matches Credential::Password(pw) && h.kdf.spec_derivable(pw@.len()) && spec_password_dk(h, pw@) == Some(dk),
        spec_authorize(hb, cred, hmac_key, now, out),
    ensures
        out.outcome matches Ok((hh, k)) && k.0@ == dk && hh.lockout == cleared(),
        out.rewrite matches Some(b) && spec_written_header(b@, Header { lockout: cleared(), ..h }, hmac_key),
{
    assert(spec_authorize_header(h, cred, hmac_key, now, out));
}

/// A header reads back as it was written: whatever header matches the bytes
/// `to_bytes` produced has the same fields, and its HMAC verifies.
pub proof fn lemma_written_header_reads_back(b: Seq<u8>, h: Header, hmac_key: Seq<u8>, h2: Header)
    requires
        spec_written_header(b, h, hmac_key),
        spec_header_matches(h2, b, hmac_key),
    ensures
        spec_same_fields(h2, h),
        h2.hmac_ok,
{
    lemma_header_matches_unique(h2, Header { hmac_ok: true, ..h }, b, hmac_key);
}

/// A container opens to what was locked into it: the password it was
/// locked with recovers the data key without touching the header; under
/// that key and the header's uuid and entry count the manifest opens to
/// the locked entries; and every data chunk sealed for the container opens
/// to its plaintext at its own position.
pub proof fn lemma_container_roundtrip(
    hb: Seq<u8>,
    h: Header,
    hmac_key: Seq<u8>,
    cred: Credential,
    key: Seq<u8>,
    frame: Seq<u8>,
    recs: Seq<(Seq<char>, u64, u64, bool, bool)>,
    now: u64,
    out: Authorization,
)
    requires
        spec_written_header(hb, h, hmac_key),
        h.lockout == cleared(),
        cred matches Credential::Password(pw) && h.kdf.spec_derivable(pw@.len()) && spec_password_dk(h, pw@) == Some(key),
        spec_manifest(key, h.uuid@, frame_nonce(frame), frame_blob(frame), h.entry_count) == Some(recs),
        spec_authorize(hb, cred, hmac_key, now, out),
    ensures
        out.rewrite is None,
        out.outcome matches Ok((hh, k)) && {
            &&& k.0@ == key
            &&& spec_manifest(k.0@, hh.uuid@, frame_nonce(frame), frame_blob(frame), hh.entry_count) == Some(recs)
            &&& forall|seq: u64, nonce: Seq<u8>, blob: Seq<u8>|
                #[trigger] crate::primitives::spec_gcm_open(key, nonce, crate::crypto::spec_chunk_aad(h.uuid@, seq), blob)
                    matches Some(plain)
                    ==> crate::stream::spec_chunk(k.0@, hh.uuid@, seq, nonce, blob, plain.len()) == Some(plain)
        },
{
    lemma_lock_then_unlock(hb, h, hmac_key, cred, key, now, out);
    let (hh, k) = out.outcome->Ok_0;
    lemma_array_eq_by_view(hh.uuid, h.uuid);
}

} // verus!
