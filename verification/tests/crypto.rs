use vault_core::crypto::wrap_key_with_nonce;
use vault_core::crypto::{derive_kek, unwrap_key, wrap_key, ChunkCipher, KdfParams, SecretKey, NONCE_LEN};
use vault_core::VaultError;

/// Cheap params so tests don't burn 64 MiB per derivation.
fn test_kdf() -> KdfParams {
    KdfParams { m_cost_kib: 1024, t_cost: 1, lanes: 1 }
}

#[test]
fn wrap_roundtrip_and_wrong_kek() {
    let kek = SecretKey::random().unwrap();
    let dk = SecretKey::random().unwrap();
    let wrapped = wrap_key(&kek, &dk).unwrap();
    let got = unwrap_key(&kek, &wrapped).expect("correct kek unwraps");
    assert_eq!(got.0, dk.0);
    assert!(unwrap_key(&SecretKey::random().unwrap(), &wrapped).is_none());
}

#[test]
fn kdf_is_deterministic_and_salt_sensitive() {
    let p = test_kdf();
    let a = derive_kek(b"hunter2", &[7u8; 16], &p).unwrap();
    let b = derive_kek(b"hunter2", &[7u8; 16], &p).unwrap();
    let c = derive_kek(b"hunter2", &[8u8; 16], &p).unwrap();
    assert_eq!(a.0, b.0);
    assert_ne!(a.0, c.0);
}

#[test]
fn chunk_aad_binds_seq_and_uuid() {
    let dk = SecretKey::random().unwrap();
    let cc = ChunkCipher::new(&dk, [1u8; 16]);
    let framed = cc.seal(5, b"data").unwrap();
    let nonce: [u8; NONCE_LEN] = framed[..NONCE_LEN].try_into().unwrap();
    let blob = &framed[NONCE_LEN + 4..];
    assert_eq!(cc.open(5, &nonce, blob).unwrap(), b"data");
    // wrong sequence number -> reordering detected
    assert!(cc.open(6, &nonce, blob).is_err());
    // different container uuid -> cross-splice detected
    let other = ChunkCipher::new(&dk, [2u8; 16]);
    assert!(other.open(5, &nonce, blob).is_err());
}

#[test]
fn kdf_password_sensitive() {
    let p = test_kdf();
    let a = derive_kek(b"hunter2", &[7u8; 16], &p).unwrap();
    let b = derive_kek(b"hunter3", &[7u8; 16], &p).unwrap();
    assert_ne!(a.0, b.0);
    // the key is not the password or the salt handed back
    assert_ne!(a.0, [7u8; 32]);
}

#[test]
fn kdf_params_out_of_bounds_are_refused() {
    let too_much_memory = KdfParams { m_cost_kib: 4 * 1024 * 1024, t_cost: 1, lanes: 1 };
    assert!(matches!(derive_kek(b"pw", &[0u8; 16], &too_much_memory), Err(VaultError::Other(_))));
    // a lane count whose `lanes * 8` would not fit in a u32
    let overflowing_lanes = KdfParams { m_cost_kib: 1024, t_cost: 1, lanes: 0x2000_0000 };
    assert!(matches!(derive_kek(b"pw", &[0u8; 16], &overflowing_lanes), Err(VaultError::Other(_))));
    // in bounds but refused by Argon2 itself
    let zero_passes = KdfParams { m_cost_kib: 1024, t_cost: 0, lanes: 1 };
    match derive_kek(b"pw", &[0u8; 16], &zero_passes) {
        Err(VaultError::Other(msg)) => assert!(msg.starts_with("bad KDF params")),
        other => panic!("expected a refusal, got {:?}", other.map(|k| k.0)),
    }
    let too_many_lanes_for_argon2 = KdfParams { m_cost_kib: 1024, t_cost: 1, lanes: 0x0100_0000 };
    match derive_kek(b"pw", &[0u8; 16], &too_many_lanes_for_argon2) {
        Err(VaultError::Other(msg)) => assert!(msg.starts_with("bad KDF params")),
        other => panic!("expected a refusal, got {:?}", other.map(|k| k.0)),
    }
}

#[test]
fn many_passes_and_lanes_are_accepted() {
    let many_passes = KdfParams { m_cost_kib: 8, t_cost: 65, lanes: 1 };
    assert!(derive_kek(b"pw", &[0u8; 16], &many_passes).is_ok());
    let many_lanes = KdfParams { m_cost_kib: 65 * 8, t_cost: 1, lanes: 65 };
    assert!(derive_kek(b"pw", &[0u8; 16], &many_lanes).is_ok());
}

#[test]
fn kdf_default_is_64_mib_3_passes_4_lanes() {
    assert_eq!(KdfParams::default(), KdfParams { m_cost_kib: 65536, t_cost: 3, lanes: 4 });
}

#[test]
fn sealed_frame_layout() {
    let dk = SecretKey::from_bytes([3u8; 32]);
    let cc = ChunkCipher::new(&dk, [9u8; 16]);
    let framed = cc.seal(0, b"hello").unwrap();
    assert_eq!(framed.len(), 12 + 4 + 5 + 16);
    assert_eq!(&framed[12..16], &21u32.to_le_bytes());
    // ciphertext is not the plaintext
    assert_ne!(&framed[16..21], b"hello");
    let nonce: [u8; NONCE_LEN] = framed[..NONCE_LEN].try_into().unwrap();
    let mut blob = framed[16..].to_vec();
    blob[0] ^= 1;
    assert!(matches!(cc.open(0, &nonce, &blob), Err(VaultError::Tampered)));
}

#[test]
fn two_wraps_of_one_key_differ() {
    let kek = SecretKey::random().unwrap();
    let dk = SecretKey::random().unwrap();
    let a = wrap_key(&kek, &dk).unwrap();
    let b = wrap_key(&kek, &dk).unwrap();
    assert_ne!(a, b, "fresh nonce per wrap");
    assert_eq!(unwrap_key(&kek, &b).unwrap().0, dk.0);
}

#[test]
fn wrap_with_given_nonce_is_deterministic() {
    let kek = SecretKey::from_bytes([1u8; 32]);
    let dk = SecretKey::from_bytes([2u8; 32]);
    let a = wrap_key_with_nonce(&kek, &dk, &[9u8; 12]);
    let b = wrap_key_with_nonce(&kek, &dk, &[9u8; 12]);
    assert_eq!(a, b);
    assert_eq!(&a[..12], &[9u8; 12]);
    assert_ne!(&a[12..44], &[2u8; 32][..]);
    assert_eq!(unwrap_key(&kek, &a).unwrap().0, [2u8; 32]);
    assert_ne!(wrap_key_with_nonce(&kek, &dk, &[8u8; 12]), a);
}

#[test]
fn seal_with_given_nonce_frames_the_chunk() {
    let cc = ChunkCipher::new(&SecretKey::from_bytes([4u8; 32]), [5u8; 16]);
    let f = cc.seal_with_nonce(3, &[6u8; 12], b"abc");
    assert_eq!(f, cc.seal_with_nonce(3, &[6u8; 12], b"abc"));
    assert_eq!(&f[..12], &[6u8; 12]);
    assert_eq!(&f[12..16], &19u32.to_le_bytes());
    assert_eq!(cc.open(3, &[6u8; 12], &f[16..]).unwrap(), b"abc");
}
