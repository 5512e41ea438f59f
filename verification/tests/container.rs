use vault_core::format::{build_container, LockRandomness};
use vault_core::crypto::{ChunkCipher, KdfParams, SecretKey, NONCE_LEN};
use vault_core::format::{
    authorize, begin_container, verify_and_delete, ContainerStart, Credential, Header, LockOptions, HEADER_LEN,
};
use vault_core::lockout::{LockoutState, LOCKOUT_SECS};
use vault_core::recovery;
use vault_core::stream::{open_chunk, open_manifest, read_frame_head, MAX_MANIFEST_LEN};
use vault_core::walk::Entry;
use vault_core::VaultError;

const HMAC_KEY: [u8; 32] = [0xAB; 32];
const NOW: u64 = 1_800_000_000;

fn fast_opts() -> LockOptions {
    LockOptions { kdf: Some(KdfParams { m_cost_kib: 1024, t_cost: 1, lanes: 1 }), ..Default::default() }
}

fn entries() -> Vec<Entry> {
    vec![
        Entry { rel_path: "sub".into(), size: 0, mtime: 10, is_dir: true, readonly: false },
        Entry { rel_path: "a.txt".into(), size: 11, mtime: 20, is_dir: false, readonly: false },
        Entry { rel_path: "sub/файл.bin".into(), size: 300, mtime: 0, is_dir: false, readonly: true },
    ]
}

fn lock(pw: &[u8], opts: &LockOptions) -> ContainerStart {
    begin_container(&entries(), 311, pw, &HMAC_KEY, opts).unwrap()
}

fn try_pw(hb: &mut [u8; HEADER_LEN], pw: &[u8], now: u64) -> Result<(Header, SecretKey), VaultError> {
    let a = authorize(hb, &Credential::Password(pw), &HMAC_KEY, now);
    if let Some(b) = a.rewrite {
        *hb = b;
    }
    a.outcome
}

fn manifest_of(start: &ContainerStart, dk: &SecretKey, header: &Header) -> Result<Vec<Entry>, VaultError> {
    let f = &start.manifest_frame;
    let head: [u8; 16] = f[..16].try_into().unwrap();
    let (nonce, len) = read_frame_head(&head, MAX_MANIFEST_LEN).unwrap();
    assert_eq!(len, f.len() - 16);
    let cipher = ChunkCipher::new(dk, header.uuid);
    open_manifest(&cipher, &nonce, &f[16..], header.entry_count)
}

#[test]
fn locked_container_opens_with_its_password() {
    let start = lock(b"correct horse", &fast_opts());
    assert_eq!(start.header.entry_count, 3);
    assert_eq!(start.header.payload_len, 311);
    assert_eq!(start.header.lockout, LockoutState::default());
    let a = authorize(&start.header_bytes, &Credential::Password(b"correct horse"), &HMAC_KEY, NOW);
    assert!(a.rewrite.is_none(), "a clean unlock leaves the header alone");
    let (header, dk) = a.outcome.unwrap();
    assert_eq!(header.uuid, start.header.uuid);
    assert_eq!(manifest_of(&start, &dk, &header).unwrap(), entries());
}

#[test]
fn data_chunks_open_in_place_only() {
    let start = lock(b"pw", &fast_opts());
    let framed = start.cipher.seal(0, b"hello world").unwrap();
    let a = authorize(&start.header_bytes, &Credential::Password(b"pw"), &HMAC_KEY, NOW);
    let (header, dk) = a.outcome.unwrap();
    let cipher = ChunkCipher::new(&dk, header.uuid);
    let head: [u8; 16] = framed[..16].try_into().unwrap();
    let (nonce, len) = read_frame_head(&head, 1024 * 1024 + 16).unwrap();
    assert_eq!(len, 11 + 16);
    let blob = &framed[16..];
    assert_eq!(open_chunk(&cipher, 0, &nonce, blob, 11).unwrap(), b"hello world");
    // expected length disagrees with the manifest -> tampered
    assert!(matches!(open_chunk(&cipher, 0, &nonce, blob, 10), Err(VaultError::Tampered)));
    // replayed at another position -> tampered
    assert!(matches!(open_chunk(&cipher, 1, &nonce, blob, 11), Err(VaultError::Tampered)));
    // one flipped bit -> tampered
    let mut bad = blob.to_vec();
    bad[3] ^= 1;
    assert!(matches!(open_chunk(&cipher, 0, &nonce, &bad, 11), Err(VaultError::Tampered)));
}

#[test]
fn wrong_passwords_count_down_then_correct_password_resets() {
    let start = lock(b"right", &fast_opts());
    let mut hb = start.header_bytes;
    match try_pw(&mut hb, b"wrong1", NOW) {
        Err(VaultError::WrongPassword { attempts_left }) => assert_eq!(attempts_left, 2),
        other => panic!("expected WrongPassword, got {:?}", other.err()),
    }
    assert_eq!(Header::from_bytes(&hb, &HMAC_KEY).unwrap().lockout.fail_count, 1);
    let a = authorize(&hb, &Credential::Password(b"right"), &HMAC_KEY, NOW);
    let rewritten = a.rewrite.expect("the counter is cleared on disk");
    assert!(a.outcome.is_ok());
    let h = Header::from_bytes(&rewritten, &HMAC_KEY).unwrap();
    assert_eq!(h.lockout, LockoutState::default());
    assert!(h.hmac_ok);
}

#[test]
fn three_wrong_passwords_lock_out_even_the_right_one() {
    let start = lock(b"right", &fast_opts());
    let mut hb = start.header_bytes;
    for expected_left in [2u32, 1] {
        match try_pw(&mut hb, b"nope", NOW) {
            Err(VaultError::WrongPassword { attempts_left }) => assert_eq!(attempts_left, expected_left),
            other => panic!("expected WrongPassword, got {:?}", other.err()),
        }
    }
    let until = match try_pw(&mut hb, b"nope", NOW) {
        Err(VaultError::LockedOut { until_unix }) => until_unix,
        other => panic!("expected LockedOut, got {:?}", other.err()),
    };
    assert_eq!(until, NOW + 24 * 60 * 60);
    // right password during the window, or with the clock set back: refused, header untouched
    for t in [NOW + 60, NOW - 999_999] {
        let a = authorize(&hb, &Credential::Password(b"right"), &HMAC_KEY, t);
        assert!(a.rewrite.is_none());
        assert!(matches!(a.outcome, Err(VaultError::LockedOut { until_unix }) if until_unix == until));
    }
    // window over -> the right password opens
    assert!(try_pw(&mut hb, b"right", until + 1).is_ok());
    assert_eq!(Header::from_bytes(&hb, &HMAC_KEY).unwrap().lockout, LockoutState::default());
}

#[test]
fn recovery_code_opens_during_lockout() {
    let master = recovery::generate().unwrap();
    let mut opts = fast_opts();
    opts.master_pub = Some(master.public);
    let start = lock(b"forgotten", &opts);
    assert!(recovery::is_enrolled(&start.header.wrapped_dk_mk));
    let mut hb = start.header_bytes;
    for _ in 0..3 {
        let _ = try_pw(&mut hb, b"guess", NOW);
    }
    assert!(matches!(try_pw(&mut hb, b"forgotten", NOW), Err(VaultError::LockedOut { .. })));
    // wrong code -> clean error, header untouched
    let bogus = recovery::generate().unwrap();
    let a = authorize(&hb, &Credential::MasterCode(&bogus.code), &HMAC_KEY, NOW);
    assert!(a.rewrite.is_none());
    assert!(matches!(a.outcome, Err(VaultError::Other(ref m)) if m == "invalid recovery code"));
    // right code -> opens during the window and clears it
    let a = authorize(&hb, &Credential::MasterCode(&master.code), &HMAC_KEY, NOW);
    let (header, dk) = a.outcome.unwrap();
    assert_eq!(header.lockout, LockoutState::default());
    let cleared = Header::from_bytes(&a.rewrite.unwrap(), &HMAC_KEY).unwrap();
    assert_eq!(cleared.lockout, LockoutState::default());
    assert_eq!(manifest_of(&start, &dk, &header).unwrap(), entries());
}

#[test]
fn recovery_code_refused_when_not_enrolled() {
    let start = lock(b"pw", &fast_opts());
    assert_eq!(start.header.wrapped_dk_mk, [0u8; 92]);
    let master = recovery::generate().unwrap();
    let a = authorize(&start.header_bytes, &Credential::MasterCode(&master.code), &HMAC_KEY, NOW);
    match a.outcome {
        Err(VaultError::Other(msg)) => assert!(msg.contains("no master key")),
        other => panic!("expected not-enrolled error, got {:?}", other.err()),
    }
}

#[test]
fn foreign_install_allows_one_attempt_then_locks() {
    let start = lock(b"pw", &fast_opts());
    let other_key = [0xCD; 32];
    let a = authorize(&start.header_bytes, &Credential::Password(b"wrong"), &other_key, NOW);
    match a.outcome {
        Err(VaultError::LockedOut { until_unix }) => assert_eq!(until_unix, NOW + LOCKOUT_SECS),
        other => panic!("foreign container should lock after one failure, got {:?}", other.err()),
    }
    // the right password on the foreign install still works first try, and
    // the header is re-sealed under this install's key
    let a = authorize(&start.header_bytes, &Credential::Password(b"pw"), &other_key, NOW);
    assert!(a.outcome.is_ok());
    let resealed = a.rewrite.expect("foreign header is rewritten");
    assert!(Header::from_bytes(&resealed, &other_key).unwrap().hmac_ok);
}

#[test]
fn tampered_manifest_is_detected() {
    let mut start = lock(b"pw", &fast_opts());
    let (header, dk) = authorize(&start.header_bytes, &Credential::Password(b"pw"), &HMAC_KEY, NOW).outcome.unwrap();
    let n = start.manifest_frame.len();
    start.manifest_frame[n - 5] ^= 0x01;
    assert!(matches!(manifest_of(&start, &dk, &header), Err(VaultError::Tampered)));
}

#[test]
fn manifest_count_must_match_header() {
    let start = lock(b"pw", &fast_opts());
    let (header, dk) = authorize(&start.header_bytes, &Credential::Password(b"pw"), &HMAC_KEY, NOW).outcome.unwrap();
    let f = &start.manifest_frame;
    let nonce: [u8; NONCE_LEN] = f[..12].try_into().unwrap();
    let cipher = ChunkCipher::new(&dk, header.uuid);
    assert!(matches!(open_manifest(&cipher, &nonce, &f[16..], 2), Err(VaultError::Tampered)));
    assert_eq!(open_manifest(&cipher, &nonce, &f[16..], 3).unwrap().len(), 3);
}

#[test]
fn delete_shares_the_lockout() {
    let start = lock(b"right", &fast_opts());
    let mut hb = start.header_bytes;
    let d = verify_and_delete(&hb, &Credential::Password(b"x"), &HMAC_KEY, NOW);
    assert!(matches!(d.outcome, Err(VaultError::WrongPassword { attempts_left: 2 })));
    hb = d.rewrite.unwrap();
    let d = verify_and_delete(&hb, &Credential::Password(b"right"), &HMAC_KEY, NOW);
    assert!(d.outcome.is_ok());
    assert_eq!(Header::from_bytes(&d.rewrite.unwrap(), &HMAC_KEY).unwrap().lockout, LockoutState::default());
}

#[test]
fn unlock_and_delete_attempts_count_together() {
    let start = lock(b"right", &fast_opts());
    let mut hb = start.header_bytes;
    let a = authorize(&hb, &Credential::Password(b"x"), &HMAC_KEY, NOW);
    assert!(matches!(a.outcome, Err(VaultError::WrongPassword { attempts_left: 2 })));
    hb = a.rewrite.unwrap();
    let d = verify_and_delete(&hb, &Credential::Password(b"y"), &HMAC_KEY, NOW + 1);
    assert!(matches!(d.outcome, Err(VaultError::WrongPassword { attempts_left: 1 })));
    hb = d.rewrite.unwrap();
    let a = authorize(&hb, &Credential::Password(b"z"), &HMAC_KEY, NOW + 2);
    let until = NOW + 2 + LOCKOUT_SECS;
    assert!(matches!(a.outcome, Err(VaultError::LockedOut { until_unix }) if until_unix == until));
    hb = a.rewrite.unwrap();
    let d = verify_and_delete(&hb, &Credential::Password(b"right"), &HMAC_KEY, until - 1);
    assert!(d.rewrite.is_none());
    assert!(matches!(d.outcome, Err(VaultError::LockedOut { until_unix }) if until_unix == until));
}

#[test]
fn bad_container_bytes_are_refused() {
    let start = lock(b"pw", &fast_opts());
    let mut hb = start.header_bytes;
    hb[1] = b'X';
    let a = authorize(&hb, &Credential::Password(b"pw"), &HMAC_KEY, NOW);
    assert!(a.rewrite.is_none());
    assert!(matches!(a.outcome, Err(VaultError::BadMagic)));
}

#[test]
fn lock_refuses_unusable_kdf_params() {
    let opts = LockOptions { kdf: Some(KdfParams { m_cost_kib: 1024, t_cost: 1, lanes: 0 }), ..Default::default() };
    assert!(matches!(begin_container(&entries(), 311, b"pw", &HMAC_KEY, &opts), Err(VaultError::Other(_))));
}

#[test]
fn oversized_kdf_in_header_is_refused_before_deriving() {
    // a maliciously edited header asking for 4 GiB of memory
    let start = lock(b"pw", &fast_opts());
    let mut h = Header::from_bytes(&start.header_bytes, &HMAC_KEY).unwrap();
    h.kdf = KdfParams { m_cost_kib: u32::MAX, t_cost: 1, lanes: 1 };
    let hb = h.to_bytes(&HMAC_KEY);
    let a = authorize(&hb, &Credential::Password(b"pw"), &HMAC_KEY, NOW);
    assert!(a.rewrite.is_none(), "a refused derivation is not a wrong password");
    assert!(matches!(a.outcome, Err(VaultError::Other(ref m)) if m.starts_with("bad KDF params")));
}

#[test]
fn header_with_many_passes_and_lanes_still_opens() {
    // Argon2 sets no upper bound on passes; only memory is bounded
    let opts = LockOptions { kdf: Some(KdfParams { m_cost_kib: 66 * 8, t_cost: 65, lanes: 66 }), ..Default::default() };
    let mut hb = lock(b"pw", &opts).header_bytes;
    assert!(try_pw(&mut hb, b"pw", NOW).is_ok());
}

#[test]
fn foreign_counter_at_its_limit_still_allows_one_attempt() {
    let master = recovery::generate().unwrap();
    let mut opts = fast_opts();
    opts.master_pub = Some(master.public);
    let start = lock(b"pw", &opts);
    let other_key = [0x22; 32];
    let mut h = Header::from_bytes(&start.header_bytes, &HMAC_KEY).unwrap();
    h.lockout = LockoutState { fail_count: u32::MAX, locked_until: 0 };
    let hb = h.to_bytes(&HMAC_KEY);
    // wrong password: one attempt, then a fresh 24 h lockout
    let a = authorize(&hb, &Credential::Password(b"wrong"), &other_key, NOW);
    assert!(matches!(a.outcome, Err(VaultError::LockedOut { until_unix }) if until_unix == NOW + LOCKOUT_SECS));
    let after = Header::from_bytes(&a.rewrite.unwrap(), &other_key).unwrap();
    assert_eq!(after.lockout, LockoutState { fail_count: u32::MAX, locked_until: NOW + LOCKOUT_SECS });
    // the right password and the recovery code both open it
    assert!(authorize(&hb, &Credential::Password(b"pw"), &other_key, NOW).outcome.is_ok());
    assert!(authorize(&hb, &Credential::MasterCode(&master.code), &other_key, NOW).outcome.is_ok());
    // a deadline past u64::MAX stops there
    let a = authorize(&hb, &Credential::Password(b"wrong"), &other_key, u64::MAX - 5);
    assert!(matches!(a.outcome, Err(VaultError::LockedOut { until_unix: u64::MAX })));
}

#[test]
fn foreign_owner_gets_in_first_try() {
    let start = lock(b"pw", &fast_opts());
    let other_key = [0x11; 32];
    let a = authorize(&start.header_bytes, &Credential::Password(b"pw"), &other_key, NOW);
    let (header, _dk) = a.outcome.unwrap();
    assert_eq!(header.lockout, LockoutState::default());
    let resealed = Header::from_bytes(&a.rewrite.unwrap(), &other_key).unwrap();
    assert!(resealed.hmac_ok);
    assert_eq!(resealed.lockout, LockoutState::default());
    assert_eq!(resealed.uuid, start.header.uuid);
}

#[test]
fn build_from_given_randomness_is_deterministic() {
    let rnd = LockRandomness {
        uuid: [1; 16],
        salt: [2; 16],
        dk: [3; 32],
        wrap_nonce: [4; 12],
        eph: [5; 32],
        master_nonce: [6; 12],
        manifest_nonce: [7; 12],
    };
    let a = build_container(&entries(), 311, b"pw", &HMAC_KEY, &fast_opts(), &rnd).unwrap();
    let b = build_container(&entries(), 311, b"pw", &HMAC_KEY, &fast_opts(), &rnd).unwrap();
    assert_eq!(a.header_bytes, b.header_bytes);
    assert_eq!(a.manifest_frame, b.manifest_frame);
    assert_eq!(a.header.uuid, [1; 16]);
    assert_eq!(&a.header.wrapped_dk_pw[..12], &[4; 12]);
    assert_eq!(&a.manifest_frame[..12], &[7; 12]);
    let (h, dk) = authorize(&a.header_bytes, &Credential::Password(b"pw"), &HMAC_KEY, NOW).outcome.unwrap();
    assert_eq!(dk.0, [3; 32]);
    assert_eq!(manifest_of(&a, &dk, &h).unwrap(), entries());
    let bad = LockOptions { kdf: Some(KdfParams { m_cost_kib: 1, t_cost: 1, lanes: 1 }), ..Default::default() };
    assert!(matches!(build_container(&entries(), 311, b"pw", &HMAC_KEY, &bad, &rnd), Err(VaultError::Other(_))));
}
