use vault_core::crypto::{KdfParams, WRAPPED_KEY_LEN};
use vault_core::format::{Header, HEADER_LEN};
use vault_core::lockout::LockoutState;
use vault_core::recovery::MASTER_WRAP_LEN;
use vault_core::VaultError;

fn sample() -> Header {
    Header {
        uuid: [1; 16],
        salt: [2; 16],
        kdf: KdfParams::default(),
        wrapped_dk_pw: [3; WRAPPED_KEY_LEN],
        wrapped_dk_mk: [4; MASTER_WRAP_LEN],
        lockout: LockoutState { fail_count: 2, locked_until: 42 },
        entry_count: 7,
        payload_len: 1234,
        hmac_ok: true,
    }
}

#[test]
fn header_roundtrip_and_hmac() {
    let key = [9u8; 32];
    let h = sample();
    let bytes = h.to_bytes(&key);
    let back = Header::from_bytes(&bytes, &key).unwrap();
    assert!(back.hmac_ok);
    assert_eq!(back.uuid, h.uuid);
    assert_eq!(back.wrapped_dk_mk, h.wrapped_dk_mk);
    assert_eq!(back.lockout, h.lockout);
    assert_eq!(back.entry_count, 7);
    // wrong hmac key -> parses but flagged foreign
    let foreign = Header::from_bytes(&bytes, &[8u8; 32]).unwrap();
    assert!(!foreign.hmac_ok);
    // flipped byte inside the hmac'd region -> flagged
    let mut bad = bytes;
    bad[30] ^= 1;
    assert!(!Header::from_bytes(&bad, &key).unwrap().hmac_ok);
    // bad magic
    bad[0] = b'X';
    assert!(matches!(Header::from_bytes(&bad, &key), Err(VaultError::BadMagic)));
}

#[test]
fn header_layout_is_fixed() {
    let key = [9u8; 32];
    let b = sample().to_bytes(&key);
    assert_eq!(b.len(), HEADER_LEN);
    assert_eq!(&b[0..4], b"FVLT");
    assert_eq!(&b[4..8], &1u32.to_le_bytes());
    assert_eq!(&b[8..24], &[1u8; 16]);
    assert_eq!(&b[24..40], &[2u8; 16]);
    assert_eq!(&b[40..44], &65536u32.to_le_bytes());
    assert_eq!(&b[44..48], &3u32.to_le_bytes());
    assert_eq!(&b[48..52], &4u32.to_le_bytes());
    assert_eq!(&b[52..112], &[3u8; 60][..]);
    assert_eq!(&b[112..204], &[4u8; 92][..]);
    assert_eq!(&b[204..208], &2u32.to_le_bytes());
    assert_eq!(&b[208..212], &[0u8; 4]);
    assert_eq!(&b[212..220], &42u64.to_le_bytes());
    assert_eq!(&b[220..228], &7u64.to_le_bytes());
    assert_eq!(&b[228..236], &1234u64.to_le_bytes());
}

#[test]
fn header_every_field_reads_back() {
    let key = [5u8; 32];
    let h = sample();
    let back = Header::from_bytes(&h.to_bytes(&key), &key).unwrap();
    assert_eq!(back.salt, h.salt);
    assert_eq!(back.kdf, h.kdf);
    assert_eq!(back.wrapped_dk_pw, h.wrapped_dk_pw);
    assert_eq!(back.payload_len, 1234);
}

#[test]
fn header_unknown_version_is_refused() {
    let key = [9u8; 32];
    let mut b = sample().to_bytes(&key);
    b[4..8].copy_from_slice(&2u32.to_le_bytes());
    assert!(matches!(Header::from_bytes(&b, &key), Err(VaultError::BadVersion(2))));
}

#[test]
fn header_tag_tamper_is_flagged() {
    let key = [9u8; 32];
    let mut b = sample().to_bytes(&key);
    b[HEADER_LEN - 1] ^= 0x80;
    let back = Header::from_bytes(&b, &key).unwrap();
    assert!(!back.hmac_ok);
    assert_eq!(back.entry_count, 7);
}

#[test]
fn header_tag_depends_on_key_and_body() {
    let h = sample();
    let a = h.to_bytes(&[1u8; 32]);
    let b = h.to_bytes(&[2u8; 32]);
    assert_eq!(a[..236], b[..236]);
    assert_ne!(a[236..], b[236..]);
    assert_ne!(&a[236..], &a[..32]);
}
