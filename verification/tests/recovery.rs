use vault_core::recovery::{keypair_from_secret, seal_dk_with_ephemeral};
use vault_core::crypto::SecretKey;
use vault_core::recovery::{decode_code, encode_code, generate, is_enrolled, open_dk, seal_dk, MASTER_WRAP_LEN};

#[test]
fn code_roundtrip_with_formatting_noise() {
    let kp = generate().unwrap();
    let sk = decode_code(&kp.code).expect("clean code decodes");
    // lowercase + spaces instead of dashes + ambiguous chars still decode
    let messy = kp.code.to_lowercase().replace('-', " ").replace('1', "l");
    assert_eq!(decode_code(&messy), Some(sk));
}

#[test]
fn checksum_catches_typos() {
    let kp = generate().unwrap();
    let mut chars: Vec<char> = kp.code.chars().collect();
    let i = chars.iter().position(|&c| c != '-').unwrap();
    chars[i] = if chars[i] == '7' { '9' } else { '7' };
    let typo: String = chars.into_iter().collect();
    assert!(decode_code(&typo).is_none());
}

#[test]
fn seal_open_roundtrip_and_wrong_code() {
    let kp = generate().unwrap();
    let dk = SecretKey::random().unwrap();
    let sealed = seal_dk(&kp.public, &dk).unwrap();
    assert!(is_enrolled(&sealed));
    let opened = open_dk(&kp.code, &sealed).expect("correct code opens");
    assert_eq!(opened.0, dk.0);
    let other = generate().unwrap();
    assert!(open_dk(&other.code, &sealed).is_none());
}

#[test]
fn absent_wrap_is_not_enrolled() {
    assert!(!is_enrolled(&[0u8; MASTER_WRAP_LEN]));
}

#[test]
fn code_shape_is_fourteen_groups_of_four() {
    let code = encode_code(&[0u8; 32]);
    assert_eq!(code.len(), 14 * 4 + 13);
    let groups: Vec<&str> = code.split('-').collect();
    assert_eq!(groups.len(), 14);
    assert!(groups.iter().all(|g| g.len() == 4));
    // 256 zero bits -> 52 zero symbols, then the checksum
    assert!(code.starts_with("0000-0000-0000-0000-0000-0000-0000-0000-0000-0000-0000-0000-0000-"));
    assert!(code.chars().all(|c| c == '-' || "0123456789ABCDEFGHJKMNPQRSTVWXYZ".contains(c)));
}

#[test]
fn code_of_known_secret() {
    // all-ones secret: every 5-bit symbol is 31 ('Z') except the last,
    // which holds one bit followed by four padding zeros (16 -> 'G')
    let code = encode_code(&[0xFFu8; 32]);
    let data: String = code.chars().filter(|c| *c != '-').take(52).collect();
    assert_eq!(&data[..51], "Z".repeat(51));
    assert_eq!(&data[51..], "G");
    assert_eq!(decode_code(&code), Some([0xFFu8; 32]));
}

#[test]
fn code_roundtrips_any_secret() {
    let mut s = [0u8; 32];
    for (i, b) in s.iter_mut().enumerate() {
        *b = (i as u8).wrapping_mul(37).wrapping_add(11);
    }
    let code = encode_code(&s);
    assert_eq!(decode_code(&code), Some(s));
    // O reads as 0, dashes may be dropped entirely
    let squashed = code.replace('-', "").replace('0', "o");
    assert_eq!(decode_code(&squashed), Some(s));
}

#[test]
fn code_with_wrong_length_or_bad_char_is_refused() {
    let code = encode_code(&[3u8; 32]);
    assert!(decode_code(&code[..code.len() - 1]).is_none());
    assert!(decode_code(&format!("{code}0")).is_none());
    assert!(decode_code(&code.replacen('-', "U", 1)).is_none());
    assert!(decode_code("").is_none());
}

#[test]
fn generated_code_opens_what_is_sealed_to_its_key() {
    let kp = generate().unwrap();
    assert_eq!(kp.code.len(), 69);
    let dk = SecretKey::from_bytes([0x42; 32]);
    let sealed = seal_dk(&kp.public, &dk).unwrap();
    assert_ne!(&sealed[32..], &[0u8; 60][..]);
    assert_eq!(open_dk(&kp.code.to_lowercase(), &sealed).unwrap().0, [0x42; 32]);
}

#[test]
fn checksum_is_first_20_bits_of_sha256() {
    // SHA-256 of 32 zero bytes starts 0x66 0x68 0x7a: 01100 11001 10100 00111
    let code = encode_code(&[0u8; 32]);
    assert!(code.ends_with("-CSM7"), "{code}");
}

#[test]
fn keypair_and_ephemeral_seal_are_deterministic() {
    let kp = keypair_from_secret(&[7u8; 32]);
    assert_eq!(kp.code, encode_code(&[7u8; 32]));
    assert_ne!(kp.public, [7u8; 32]);
    assert_eq!(keypair_from_secret(&[7u8; 32]).public, kp.public);
    let dk = SecretKey::from_bytes([3u8; 32]);
    let a = seal_dk_with_ephemeral(&kp.public, &dk, &[1u8; 32], &[2u8; 12]);
    assert_eq!(a, seal_dk_with_ephemeral(&kp.public, &dk, &[1u8; 32], &[2u8; 12]));
    assert_eq!(&a[32..44], &[2u8; 12]);
    assert_eq!(open_dk(&kp.code, &a).unwrap().0, [3u8; 32]);
}

#[test]
fn non_ascii_characters_read_by_their_low_byte() {
    let code = encode_code(&[0u8; 32]);
    // U+0130 (capital I with dot) has low byte 0x30, which is '0'
    let odd = code.replacen('0', "\u{130}", 1);
    assert_eq!(decode_code(&odd), Some([0u8; 32]));
    // U+0141 has low byte 0x41, which is 'A'
    let a_code = code.replacen('0', "A", 1);
    let l_code = code.replacen('0', "\u{141}", 1);
    assert_eq!(decode_code(&a_code), decode_code(&l_code));
    // U+0100 has low byte 0x00, which is no symbol
    assert!(decode_code(&code.replacen('0', "\u{100}", 1)).is_none());
}

#[test]
fn changed_checksum_symbol_is_refused() {
    let code = encode_code(&[5u8; 32]);
    let last = code.chars().last().unwrap();
    let other = if last == 'A' { 'B' } else { 'A' };
    let mut edited: String = code.chars().take(code.chars().count() - 1).collect();
    edited.push(other);
    assert!(decode_code(&edited).is_none());
}
