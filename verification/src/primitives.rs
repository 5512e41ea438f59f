//! The outside cryptographic and encoding primitives this library calls.
//!
//! Every item here is trusted: Verus believes its contract without reading
//! its body. Results that take pages to state (a cipher's output, a hash)
//! are given names below; only short facts that the crates' sources show
//! are stated beside them.

use vstd::prelude::*;

use aes_gcm::aead::{Aead, KeyInit, Payload};
use aes_gcm::{Aes256Gcm, Key, Nonce};
use hmac::{Hmac, Mac};
use rand_core::RngCore;
use sha2::{Digest, Sha256};
use x25519_dalek::{PublicKey, StaticSecret};
use zeroize::Zeroize;

use crate::walk::Entry;

verus! {

// ---------- outside types ----------

#[verifier::external_type_specification]
#[verifier::external_body]
pub struct ExRandError(rand_core::Error);

#[verifier::external_type_specification]
#[verifier::external_body]
pub struct ExAeadError(aes_gcm::Error);

#[verifier::external_type_specification]
#[verifier::external_body]
pub struct ExArgon2Error(argon2::Error);

#[verifier::external_type_specification]
#[verifier::external_body]
pub struct ExBincodeErrorKind(bincode::ErrorKind);

// ---------- names for outside results ----------

/// AES-256-GCM ciphertext-and-tag of `msg` under `key`, `nonce`, `aad`.
pub uninterp spec fn spec_gcm_seal(key: Seq<u8>, nonce: Seq<u8>, aad: Seq<u8>, msg: Seq<u8>) -> Seq<u8>;

/// AES-256-GCM decryption of `ct` (ciphertext followed by tag); `None` when
/// the tag does not authenticate.
pub uninterp spec fn spec_gcm_open(key: Seq<u8>, nonce: Seq<u8>, aad: Seq<u8>, ct: Seq<u8>) -> Option<Seq<u8>>;

/// Argon2id (version 0x13) output of 32 bytes.
pub uninterp spec fn spec_argon2id(password: Seq<u8>, salt: Seq<u8>, m_cost: u32, t_cost: u32, lanes: u32) -> Seq<u8>;

/// HMAC-SHA256 tag of `msg` under `key`.
pub uninterp spec fn spec_hmac_sha256(key: Seq<u8>, msg: Seq<u8>) -> Seq<u8>;

/// SHA-256 digest of `data`.
pub uninterp spec fn spec_sha256(data: Seq<u8>) -> Seq<u8>;

/// X25519 public key of the (clamped) secret scalar `secret`.
pub uninterp spec fn spec_x25519_public(secret: Seq<u8>) -> Seq<u8>;

/// X25519 shared secret of `secret` with the point `public`.
pub uninterp spec fn spec_x25519_shared(secret: Seq<u8>, public: Seq<u8>) -> Seq<u8>;

/// bincode (default options) encoding of a list of manifest records, each
/// record encoded field by field.
pub uninterp spec fn spec_bincode_entries(entries: Seq<(Seq<char>, u64, u64, bool, bool)>) -> Seq<u8>;

/// bincode (default options) decoding of a list of manifest records.
pub uninterp spec fn spec_bincode_parse_entries(bytes: Seq<u8>) -> Option<Seq<(Seq<char>, u64, u64, bool, bool)>>;

/// Largest plaintext (and associated data) AES-GCM accepts, in bytes.
pub const GCM_MAX_LEN: u64 = 0x10_0000_0000;

/// Parameter combinations `argon2::Params::new` accepts for a 32-byte output.
pub open spec fn argon2_accepts(m_cost: u32, t_cost: u32, lanes: u32) -> bool {
    &&& m_cost >= 8
    &&& m_cost >= lanes * 8
    &&& t_cost >= 1
    &&& 1 <= lanes <= 0xFF_FFFF
}

/// A manifest record as the plain tuple bincode sees.
pub open spec fn entry_record(e: Entry) -> (Seq<char>, u64, u64, bool, bool) {
    (e.rel_path@, e.size, e.mtime, e.is_dir, e.readonly)
}

pub open spec fn entry_records(es: Seq<Entry>) -> Seq<(Seq<char>, u64, u64, bool, bool)> {
    es.map_values(|e: Entry| entry_record(e))
}

// ---------- randomness ----------

/// Fills `buf` from the operating system's CSPRNG
/// (`rand_core::OsRng::try_fill_bytes`). The bytes are unconstrained; only
/// the buffer's length is kept.
#[verifier::external_body]
pub(crate) fn fill_random(buf: &mut [u8]) -> (r: Result<(), rand_core::Error>)
    ensures
        final(buf)@.len() == old(buf)@.len(),
{
    rand_core::OsRng.try_fill_bytes(buf)
}

// ---------- AES-256-GCM ----------

/// `Aes256Gcm::encrypt` with a 96-bit nonce and associated data. It fails
/// only when the message or the associated data is longer than 2^36 bytes;
/// its output is the ciphertext followed by the 16-byte tag, and decrypting
/// it under the same key, nonce and associated data gives the message back.
#[verifier::external_body]
pub(crate) fn gcm_seal(key: &[u8; 32], nonce: &[u8; 12], aad: &[u8], msg: &[u8]) -> (r: Result<Vec<u8>, aes_gcm::Error>)
    ensures
        r is Ok <==> (msg@.len() <= GCM_MAX_LEN && aad@.len() <= GCM_MAX_LEN),
        r matches Ok(ct) ==> ct@ == spec_gcm_seal(key@, nonce@, aad@, msg@),
        r matches Ok(ct) ==> ct@.len() == msg@.len() + 16,
        r matches Ok(ct) ==> spec_gcm_open(key@, nonce@, aad@, ct@) == Some(msg@),
{
    let cipher = Aes256Gcm::new(Key::<Aes256Gcm>::from_slice(key));
    cipher.encrypt(Nonce::from_slice(nonce), Payload { msg, aad })
}

/// `Aes256Gcm::decrypt`: succeeds exactly when the tag authenticates, and
/// then returns the plaintext, 16 bytes shorter than the input.
#[verifier::external_body]
pub(crate) fn gcm_open(key: &[u8; 32], nonce: &[u8; 12], aad: &[u8], ct: &[u8]) -> (r: Result<Vec<u8>, aes_gcm::Error>)
    ensures
        r is Ok <==> spec_gcm_open(key@, nonce@, aad@, ct@) is Some,
        r matches Ok(p) ==> spec_gcm_open(key@, nonce@, aad@, ct@) == Some(p@),
        r matches Ok(p) ==> p@.len() + 16 == ct@.len(),
{
    let cipher = Aes256Gcm::new(Key::<Aes256Gcm>::from_slice(key));
    cipher.decrypt(Nonce::from_slice(nonce), Payload { msg: ct, aad })
}

// ---------- Argon2id ----------

/// `argon2::Params::new(m, t, p, Some(32))`, `Argon2::new(Argon2id, V0x13,
/// params)` and `hash_password_into` with a 32-byte output. The parameters
/// are refused (error tagged `true`) exactly when `argon2_accepts` fails;
/// otherwise hashing fails (tagged `false`) exactly when the password is
/// longer than 2^32 - 1 bytes. The memory cost is bounded because the call
/// allocates it; the lane bound keeps `Params::new`'s `p * 8` in range.
#[verifier::external_body]
pub(crate) fn argon2id_derive(password: &[u8], salt: &[u8; 16], m_cost: u32, t_cost: u32, lanes: u32) -> (r: Result<[u8; 32], (bool, argon2::Error)>)
    requires
        m_cost <= crate::crypto::MAX_M_COST_KIB,
        lanes <= crate::crypto::MAX_LANES,
    ensures
        r is Ok <==> (argon2_accepts(m_cost, t_cost, lanes) && password@.len() <= 0xFFFF_FFFF),
        r matches Err((params_refused, _)) ==> params_refused == !argon2_accepts(m_cost, t_cost, lanes),
        r matches Ok(k) ==> k@ == spec_argon2id(password@, salt@, m_cost, t_cost, lanes),
{
    let params = match argon2::Params::new(m_cost, t_cost, lanes, Some(32)) {
        Ok(p) => p,
        Err(e) => return Err((true, e)),
    };
    let argon = argon2::Argon2::new(argon2::Algorithm::Argon2id, argon2::Version::V0x13, params);
    let mut out = [0u8; 32];
    match argon.hash_password_into(password, salt, &mut out) {
        Ok(()) => Ok(out),
        Err(e) => Err((false, e)),
    }
}

/// The `Display` text of an `argon2::Error` (nothing is stated of it).
#[verifier::external_body]
pub(crate) fn argon2_error_text(e: &argon2::Error) -> String {
    format!("{e}")
}

// ---------- HMAC-SHA256 / SHA-256 ----------

/// `Hmac::<Sha256>::new_from_slice(key)`, `update(msg)`, `finalize()`.
/// HMAC accepts keys of any length, so the construction cannot fail.
#[verifier::external_body]
pub(crate) fn hmac_sha256(key: &[u8], msg: &[u8]) -> (tag: [u8; 32])
    ensures
        tag@ == spec_hmac_sha256(key@, msg@),
{
    let mut mac = <Hmac<Sha256> as Mac>::new_from_slice(key).expect("HMAC takes keys of any length");
    mac.update(msg);
    mac.finalize().into_bytes().into()
}

/// `Hmac::<Sha256>` over `msg`, then `verify_slice(tag)`: true exactly when
/// `tag` equals the full 32-byte tag (compared in constant time).
#[verifier::external_body]
pub(crate) fn hmac_sha256_verify(key: &[u8], msg: &[u8], tag: &[u8]) -> (ok: bool)
    ensures
        ok == (tag@ == spec_hmac_sha256(key@, msg@)),
{
    let mut mac = <Hmac<Sha256> as Mac>::new_from_slice(key).expect("HMAC takes keys of any length");
    mac.update(msg);
    mac.verify_slice(tag).is_ok()
}

/// `Sha256::digest(data)`.
#[verifier::external_body]
pub(crate) fn sha256(data: &[u8]) -> (d: [u8; 32])
    ensures
        d@ == spec_sha256(data@),
{
    Sha256::digest(data).into()
}

// ---------- X25519 ----------

/// `PublicKey::from(&StaticSecret::from(secret)).to_bytes()`: the clamped
/// scalar times the base point. Diffie-Hellman with it agrees with the
/// other side: both shared secrets are the product of the two clamped
/// scalars with the base point.
#[verifier::external_body]
pub(crate) fn x25519_public(secret: &[u8; 32]) -> (p: [u8; 32])
    ensures
        p@ == spec_x25519_public(secret@),
        forall|other: Seq<u8>|
            other.len() == 32 ==> #[trigger] spec_x25519_shared(other, p@)
                == spec_x25519_shared(secret@, spec_x25519_public(other)),
{
    let s = StaticSecret::from(*secret);
    PublicKey::from(&s).to_bytes()
}

/// `StaticSecret::from(secret).diffie_hellman(&PublicKey::from(public)).to_bytes()`.
#[verifier::external_body]
pub(crate) fn x25519_shared(secret: &[u8; 32], public: &[u8; 32]) -> (s: [u8; 32])
    ensures
        s@ == spec_x25519_shared(secret@, public@),
{
    StaticSecret::from(*secret).diffie_hellman(&PublicKey::from(*public)).to_bytes()
}

// ---------- std ----------

/// `String::push`: appends one character.
#[verifier::external_body]
pub(crate) fn push_char(s: &mut String, c: char)
    ensures
        final(s)@ == old(s)@.push(c),
{
    s.push(c)
}

// ---------- zeroize ----------

/// `Zeroize::zeroize` on a byte slice: every byte becomes 0.
#[verifier::external_body]
pub(crate) fn wipe(buf: &mut [u8])
    ensures
        final(buf)@ == Seq::new(old(buf)@.len(), |i: int| 0u8),
{
    buf.zeroize()
}

// ---------- bincode ----------

/// `bincode::serialize` of the manifest records (each as a tuple of its
/// fields, which bincode encodes exactly as the record itself). With the
/// default options there is no size limit and a `Vec` has a known length,
/// so serializing these records always succeeds. Decoding the output gives
/// the records back.
#[verifier::external_body]
pub(crate) fn bincode_encode_entries(entries: &Vec<Entry>) -> (r: Result<Vec<u8>, Box<bincode::ErrorKind>>)
    ensures
        r is Ok,
        r matches Ok(b) ==> b@ == spec_bincode_entries(entry_records(entries@)),
        r matches Ok(b) ==> spec_bincode_parse_entries(b@) == Some(entry_records(entries@)),
{
    let records: Vec<(&str, u64, u64, bool, bool)> = entries
        .iter()
        .map(|e| (e.rel_path.as_str(), e.size, e.mtime, e.is_dir, e.readonly))
        .collect();
    bincode::serialize(&records)
}

/// The `Display` text of a `bincode::ErrorKind` (nothing is stated of it).
#[verifier::external_body]
pub(crate) fn bincode_error_text(e: &bincode::ErrorKind) -> String {
    format!("{e}")
}

/// `bincode::deserialize` of a list of manifest records.
#[verifier::external_body]
pub(crate) fn bincode_decode_entries(bytes: &[u8]) -> (r: Result<Vec<Entry>, Box<bincode::ErrorKind>>)
    ensures
        r is Ok <==> spec_bincode_parse_entries(bytes@) is Some,
        r matches Ok(v) ==> spec_bincode_parse_entries(bytes@) == Some(entry_records(v@)),
{
    let records: Vec<(String, u64, u64, bool, bool)> = bincode::deserialize(bytes)?;
    Ok(records
        .into_iter()
        .map(|(rel_path, size, mtime, is_dir, readonly)| Entry { rel_path, size, mtime, is_dir, readonly })
        .collect())
}

} // verus!
