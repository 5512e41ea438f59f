//! Master recovery key (X25519 sealed-box style).
//!
//! Setup generates a keypair. The PUBLIC key is stored on the machine and
//! used at every lock to seal the folder's data key; the PRIVATE key is
//! shown to the user once as a Crockford-base32 recovery code and never
//! written to disk. Recovery unlock therefore works on any machine, bypasses
//! the lockout (a 256-bit code cannot be brute-forced), and losing the code
//! only matters if the password is also forgotten.

use vstd::prelude::*;

use crate::crypto::{random_bytes, spec_unwrap_key, spec_wrap, unwrap_key, wrap_key_with_nonce, SecretKey, WRAPPED_KEY_LEN};
use crate::primitives::{
    hmac_sha256, push_char, sha256, spec_hmac_sha256, spec_sha256, spec_x25519_public,
    spec_x25519_shared, wipe, x25519_public, x25519_shared,
};
use crate::VaultError;

verus! {

/// ephemeral X25519 public key (32) + AES-GCM-wrapped data key (60).
pub const MASTER_WRAP_LEN: usize = 32 + WRAPPED_KEY_LEN;

/// Crockford base32 alphabet "0123456789ABCDEFGHJKMNPQRSTVWXYZ".
pub const CROCKFORD: [u8; 32] = [
    48, 49, 50, 51, 52, 53, 54, 55, 56, 57, 65, 66, 67, 68, 69, 70,
    71, 72, 74, 75, 77, 78, 80, 81, 82, 83, 84, 86, 87, 88, 89, 90,
];

/// 256-bit secret -> 52 base32 chars, + 4 checksum chars = 14 groups of 4.
pub const CODE_DATA_CHARS: usize = 52;
pub const CODE_CHECK_CHARS: usize = 4;

/// HMAC key that turns an X25519 shared secret into a key-encryption key:
/// "fvlt-master-kek-v1".
pub const KEK_LABEL: [u8; 18] = [
    102, 118, 108, 116, 45, 109, 97, 115, 116, 101, 114, 45, 107, 101, 107, 45, 118, 49,
];

pub struct MasterKeyPair {
    /// Safe to store anywhere (it can only ever *seal*, never open).
    pub public: [u8; 32],
    /// Shown to the user exactly once. `XXXX-XXXX-...` (14 groups).
    pub code: String,
}

// ---------- bit strings ----------

/// Bit `k` of a byte, most significant first.
pub open spec fn bit_of(x: u8, k: int) -> u8 {
    (x >> ((7 - k) as u8)) & 1u8
}

pub open spec fn byte_or_zero(s: Seq<u8>, i: int) -> u8 {
    if 0 <= i < s.len() { s[i] } else { 0 }
}

/// Bit `i` (most significant first) of the bit string of `bytes`; 0 past
/// its end.
pub open spec fn spec_bit(bytes: Seq<u8>, i: int) -> u8 {
    (byte_or_zero(bytes, i / 8) >> ((7 - i % 8) as u8)) & 1u8
}

/// Bit `i` of the bit string of a sequence of 5-bit symbols.
pub open spec fn spec_sym_bit(vals: Seq<u8>, i: int) -> u8 {
    (byte_or_zero(vals, i / 5) >> ((4 - i % 5) as u8)) & 1u8
}

/// Symbol `k`: bits `5k .. 5k+5` of the bit string of `bytes` (zero-padded).
pub open spec fn spec_symbol(bytes: Seq<u8>, k: int) -> u8 {
    let p = (5 * k) / 8;
    let off = (5 * k) % 8;
    let w: u32 = ((byte_or_zero(bytes, p) as u32) << 8u32) | (byte_or_zero(bytes, p + 1) as u32);
    ((w >> ((11 - off) as u32)) & 31u32) as u8
}

/// The first `n` symbols of `bytes`.
pub open spec fn spec_symbols(bytes: Seq<u8>, n: nat) -> Seq<u8> {
    Seq::new(n, |k: int| spec_symbol(bytes, k))
}

/// Byte `j`: bits `8j .. 8j+8` of the bit string of the symbols `vals`.
pub open spec fn spec_unsymbol(vals: Seq<u8>, j: int) -> u8 {
    let p = (8 * j) / 5;
    let off = (8 * j) % 5;
    let w: u32 = ((byte_or_zero(vals, p) as u32) << 10u32) | ((byte_or_zero(vals, p + 1) as u32) << 5u32)
        | (byte_or_zero(vals, p + 2) as u32);
    ((w >> ((7 - off) as u32)) & 255u32) as u8
}

proof fn lemma_enc_bit(a: u8, c: u8, off: u32, j: u32)
    requires
        off < 8,
        j < 5,
    ensures
        (((((((a as u32) << 8u32) | (c as u32)) >> ((11 - off) as u32)) & 31u32) as u8) >> ((4 - j) as u8)) & 1u8
            == if off + j < 8 { (a >> ((7 - (off + j)) as u8)) & 1u8 } else { (c >> ((15 - (off + j)) as u8)) & 1u8 },
{
    assert(
        (((((((a as u32) << 8u32) | (c as u32)) >> ((11 - off) as u32)) & 31u32) as u8) >> ((4 - j) as u8)) & 1u8
            == if off + j < 8 { (a >> ((7 - (off + j)) as u8)) & 1u8 } else { (c >> ((15 - (off + j)) as u8)) & 1u8 }
    ) by (bit_vector)
        requires
            off < 8,
            j < 5,
    ;
}

proof fn lemma_dec_bit(v0: u8, v1: u8, v2: u8, off: u32, k: u32)
    requires
        v0 < 32,
        v1 < 32,
        v2 < 32,
        off < 5,
        k < 8,
    ensures
        (((((((v0 as u32) << 10u32) | ((v1 as u32) << 5u32) | (v2 as u32)) >> ((7 - off) as u32)) & 255u32) as u8)
            >> ((7 - k) as u8)) & 1u8
            == if off + k < 5 {
                (v0 >> ((4 - (off + k)) as u8)) & 1u8
            } else if off + k < 10 {
                (v1 >> ((9 - (off + k)) as u8)) & 1u8
            } else {
                (v2 >> ((14 - (off + k)) as u8)) & 1u8
            },
{
    assert(
        (((((((v0 as u32) << 10u32) | ((v1 as u32) << 5u32) | (v2 as u32)) >> ((7 - off) as u32)) & 255u32) as u8)
            >> ((7 - k) as u8)) & 1u8
            == if off + k < 5 {
                (v0 >> ((4 - (off + k)) as u8)) & 1u8
            } else if off + k < 10 {
                (v1 >> ((9 - (off + k)) as u8)) & 1u8
            } else {
                (v2 >> ((14 - (off + k)) as u8)) & 1u8
            }
    ) by (bit_vector)
        requires
            v0 < 32,
            v1 < 32,
            v2 < 32,
            off < 5,
            k < 8,
    ;
}

proof fn lemma_symbol_small(w: u32)
    ensures
        ((w & 31u32) as u8) < 32,
{
    assert(((w & 31u32) as u8) < 32) by (bit_vector);
}

proof fn lemma_byte_from_bits(a: u8, b: u8)
    requires
        (a >> 7u8) & 1u8 == (b >> 7u8) & 1u8,
        (a >> 6u8) & 1u8 == (b >> 6u8) & 1u8,
        (a >> 5u8) & 1u8 == (b >> 5u8) & 1u8,
        (a >> 4u8) & 1u8 == (b >> 4u8) & 1u8,
        (a >> 3u8) & 1u8 == (b >> 3u8) & 1u8,
        (a >> 2u8) & 1u8 == (b >> 2u8) & 1u8,
        (a >> 1u8) & 1u8 == (b >> 1u8) & 1u8,
        (a >> 0u8) & 1u8 == (b >> 0u8) & 1u8,
    ensures
        a == b,
{
    assert(a == b) by (bit_vector)
        requires
            (a >> 7u8) & 1u8 == (b >> 7u8) & 1u8,
            (a >> 6u8) & 1u8 == (b >> 6u8) & 1u8,
            (a >> 5u8) & 1u8 == (b >> 5u8) & 1u8,
            (a >> 4u8) & 1u8 == (b >> 4u8) & 1u8,
            (a >> 3u8) & 1u8 == (b >> 3u8) & 1u8,
            (a >> 2u8) & 1u8 == (b >> 2u8) & 1u8,
            (a >> 1u8) & 1u8 == (b >> 1u8) & 1u8,
            (a >> 0u8) & 1u8 == (b >> 0u8) & 1u8,
    ;
}

/// Bit `j` of symbol `k` is bit `5k + j` of the byte string.
proof fn lemma_symbol_bit(bytes: Seq<u8>, k: int, j: int)
    requires
        0 <= k,
        0 <= j < 5,
    ensures
        (spec_symbol(bytes, k) >> ((4 - j) as u8)) & 1u8 == spec_bit(bytes, 5 * k + j),
{
    let p = (5 * k) / 8;
    let off = (5 * k) % 8;
    let i = 5 * k + j;
    lemma_enc_bit(byte_or_zero(bytes, p), byte_or_zero(bytes, p + 1), off as u32, j as u32);
    if off + j < 8 {
        assert(i / 8 == p && i % 8 == off + j);
    } else {
        assert(i / 8 == p + 1 && i % 8 == off + j - 8);
    }
}

/// Bit `k` of byte `j` rebuilt from symbols is bit `8j + k` of the symbols.
proof fn lemma_unsymbol_bit(vals: Seq<u8>, j: int, k: int)
    requires
        0 <= j,
        0 <= k < 8,
        forall|i: int| 0 <= i < vals.len() ==> vals[i] < 32,
    ensures
        (spec_unsymbol(vals, j) >> ((7 - k) as u8)) & 1u8 == spec_sym_bit(vals, 8 * j + k),
{
    let p = (8 * j) / 5;
    let off = (8 * j) % 5;
    let i = 8 * j + k;
    lemma_dec_bit(byte_or_zero(vals, p), byte_or_zero(vals, p + 1), byte_or_zero(vals, p + 2), off as u32, k as u32);
    if off + k < 5 {
        assert(i / 5 == p && i % 5 == off + k);
    } else if off + k < 10 {
        assert(i / 5 == p + 1 && i % 5 == off + k - 5);
    } else {
        assert(i / 5 == p + 2 && i % 5 == off + k - 10);
    }
}

/// Rebuilding bytes from the symbols of a 32-byte secret gives the secret.
pub proof fn lemma_symbols_roundtrip(secret: Seq<u8>)
    requires
        secret.len() == 32,
    ensures
        Seq::new(32, |j: int| spec_unsymbol(spec_symbols(secret, 52), j)) == secret,
{
    let vals = spec_symbols(secret, 52);
    assert forall|i: int| 0 <= i < vals.len() implies vals[i] < 32 by {
        let k = i;
        let p = (5 * k) / 8;
        let off = (5 * k) % 8;
        let w: u32 = ((byte_or_zero(secret, p) as u32) << 8u32) | (byte_or_zero(secret, p + 1) as u32);
        lemma_symbol_small(w >> ((11 - off) as u32));
    }
    let d = Seq::new(32, |j: int| spec_unsymbol(vals, j));
    assert forall|j: int| 0 <= j < 32 implies d[j] == secret[j] by {
        assert forall|k: int| 0 <= k < 8 implies
            #[trigger] bit_of(d[j], k) == bit_of(secret[j], k) by {
            lemma_unsymbol_bit(vals, j, k);
            let i = 8 * j + k;
            let q = i / 5;
            let r = i % 5;
            assert(0 <= q < 52);
            lemma_symbol_bit(secret, q, r);
            assert(5 * q + r == i);
            assert(i / 8 == j && i % 8 == k);
        }
        assert(bit_of(d[j], 0) == bit_of(secret[j], 0));
        assert(bit_of(d[j], 1) == bit_of(secret[j], 1));
        assert(bit_of(d[j], 2) == bit_of(secret[j], 2));
        assert(bit_of(d[j], 3) == bit_of(secret[j], 3));
        assert(bit_of(d[j], 4) == bit_of(secret[j], 4));
        assert(bit_of(d[j], 5) == bit_of(secret[j], 5));
        assert(bit_of(d[j], 6) == bit_of(secret[j], 6));
        assert(bit_of(d[j], 7) == bit_of(secret[j], 7));
        lemma_byte_from_bits(d[j], secret[j]);
    }
    assert(d =~= secret);
}

// ---------- recovery-code text ----------

/// Position of byte `b` in the Crockford alphabet.
pub open spec fn spec_crockford_index(b: u8) -> Option<u8> {
    if 48 <= b <= 57 {
        Some((b - 48) as u8)
    } else if 65 <= b <= 72 {
        Some((b - 55) as u8)
    } else if b == 74 || b == 75 {
        Some((b - 56) as u8)
    } else if b == 77 || b == 78 {
        Some((b - 57) as u8)
    } else if 80 <= b <= 84 {
        Some((b - 58) as u8)
    } else if 86 <= b <= 90 {
        Some((b - 59) as u8)
    } else {
        None
    }
}

/// The alphabet character of a 5-bit symbol.
pub open spec fn spec_code_char(v: u8) -> char {
    CROCKFORD@[v as int] as char
}

/// `spec_crockford_index` is the inverse of the alphabet table.
pub proof fn lemma_crockford_table()
    ensures
        forall|v: u8| v < 32 ==> #[trigger] spec_crockford_index(CROCKFORD@[v as int]) == Some(v),
        forall|b: u8| #[trigger] spec_crockford_index(b) matches Some(v) ==> v < 32 && CROCKFORD@[v as int] == b,
{
    assert(CROCKFORD@ =~= seq![
        48u8, 49, 50, 51, 52, 53, 54, 55, 56, 57, 65, 66, 67, 68, 69, 70,
        71, 72, 74, 75, 77, 78, 80, 81, 82, 83, 84, 86, 87, 88, 89, 90,
    ]);
}

/// Code point of the ASCII upper-case form of `cp` (others unchanged).
pub open spec fn spec_ascii_upper(cp: u32) -> u32 {
    if 97 <= cp <= 122 { (cp - 32) as u32 } else { cp }
}

/// How one typed character reads: `None` = not allowed, `Some(None)` = a
/// separator (dash or space, skipped), `Some(Some(v))` = symbol `v`. Case is
/// ignored, I and L read as 1, O reads as 0; any other character is looked up
/// by the low byte of its code point.
pub open spec fn spec_normalize(c: char) -> Option<Option<u8>> {
    let u = spec_ascii_upper(c as u32);
    if u == 45 || u == 32 {
        Some(None)
    } else {
        let m: u32 = if u == 73 || u == 76 { 49 } else if u == 79 { 48 } else { u };
        match spec_crockford_index((m % 256) as u8) {
            Some(v) => Some(Some(v)),
            None => None,
        }
    }
}

/// The symbols a typed code reads as, or `None` if any character is not allowed.
pub open spec fn spec_code_values(s: Seq<char>) -> Option<Seq<u8>>
    decreases s.len(),
{
    if s.len() == 0 {
        Some(Seq::empty())
    } else {
        match spec_code_values(s.drop_last()) {
            None => None,
            Some(prev) => match spec_normalize(s.last()) {
                None => None,
                Some(None) => Some(prev),
                Some(Some(v)) => Some(prev.push(v)),
            },
        }
    }
}

/// The checksum symbols of a secret: the first 20 bits of its SHA-256.
pub open spec fn spec_check_symbols(secret: Seq<u8>) -> Seq<u8> {
    spec_symbols(spec_sha256(secret).subrange(0, 3), 4)
}

/// The 56 symbols of a recovery code: 52 data symbols, 4 checksum symbols.
pub open spec fn spec_code_symbols(secret: Seq<u8>) -> Seq<u8> {
    spec_symbols(secret, 52) + spec_check_symbols(secret)
}

/// `chars` in groups of four joined by dashes.
pub open spec fn spec_grouped(chars: Seq<char>) -> Seq<char>
    decreases chars.len(),
{
    if chars.len() == 0 {
        Seq::empty()
    } else {
        let prev = spec_grouped(chars.drop_last());
        let i = chars.len() - 1;
        if i > 0 && i % 4 == 0 {
            prev.push('-').push(chars.last())
        } else {
            prev.push(chars.last())
        }
    }
}

/// The recovery code shown for `secret`: `XXXX-XXXX-...`, 14 groups.
pub open spec fn spec_encode_code(secret: Seq<u8>) -> Seq<char> {
    spec_grouped(spec_code_symbols(secret).map_values(|v: u8| spec_code_char(v)))
}

/// The secret a typed code stands for: 56 symbols whose last four are the
/// checksum of the secret the first 52 spell.
pub open spec fn spec_decode_code(s: Seq<char>) -> Option<Seq<u8>> {
    match spec_code_values(s) {
        None => None,
        Some(vals) => if vals.len() != 56 {
            None
        } else {
            let secret = Seq::new(32, |j: int| spec_unsymbol(vals.subrange(0, 52), j));
            if vals.subrange(52, 56) == spec_check_symbols(secret) { Some(secret) } else { None }
        },
    }
}

proof fn lemma_code_values_of_grouped(vals: Seq<u8>)
    requires
        forall|i: int| 0 <= i < vals.len() ==> vals[i] < 32,
    ensures
        spec_code_values(spec_grouped(vals.map_values(|v: u8| spec_code_char(v)))) == Some(vals),
    decreases vals.len(),
{
    let chars = vals.map_values(|v: u8| spec_code_char(v));
    if vals.len() > 0 {
        let prev_vals = vals.drop_last();
        assert(prev_vals.map_values(|v: u8| spec_code_char(v)) =~= chars.drop_last());
        lemma_code_values_of_grouped(prev_vals);
        let prev = spec_grouped(chars.drop_last());
        let c = chars.last();
        lemma_crockford_table();
        let v = vals.last();
        assert(spec_crockford_index(CROCKFORD@[v as int]) == Some(v));
        assert(CROCKFORD@[v as int] < 128) by {
            assert(CROCKFORD@ =~= seq![
                48u8, 49, 50, 51, 52, 53, 54, 55, 56, 57, 65, 66, 67, 68, 69, 70,
                71, 72, 74, 75, 77, 78, 80, 81, 82, 83, 84, 86, 87, 88, 89, 90,
            ]);
        }
        assert(spec_normalize(c) == Some(Some(v)));
        let i = chars.len() - 1;
        assert(c == spec_code_char(v));
        assert(spec_code_values(prev) == Some(prev_vals));
        if i > 0 && i % 4 == 0 {
            let s = prev.push('-').push(c);
            assert(spec_grouped(chars) == s);
            assert(s.drop_last() =~= prev.push('-'));
            assert(prev.push('-').drop_last() =~= prev);
            assert(prev.push('-').last() == '-');
            assert(spec_normalize('-') == Some::<Option<u8>>(None));
            assert(spec_code_values(prev.push('-')) == Some(prev_vals));
            assert(s.last() == c);
            assert(spec_code_values(s) == Some(prev_vals.push(v)));
        } else {
            let s = prev.push(c);
            assert(spec_grouped(chars) == s);
            assert(s.drop_last() =~= prev);
            assert(s.last() == c);
            assert(spec_code_values(s) == Some(prev_vals.push(v)));
        }
        assert(prev_vals.push(v) =~= vals);
    }
}

proof fn lemma_symbol_below_32(bytes: Seq<u8>, k: int)
    ensures
        spec_symbol(bytes, k) < 32,
{
    let p = (5 * k) / 8;
    let off = (5 * k) % 8;
    let w: u32 = ((byte_or_zero(bytes, p) as u32) << 8u32) | (byte_or_zero(bytes, p + 1) as u32);
    lemma_symbol_small(w >> ((11 - off) as u32));
}

/// A recovery code decodes to the secret it was made from.
pub proof fn lemma_code_roundtrip(secret: Seq<u8>)
    requires
        secret.len() == 32,
    ensures
        spec_decode_code(spec_encode_code(secret)) == Some(secret),
{
    let vals = spec_code_symbols(secret);
    let chk = spec_sha256(secret).subrange(0, 3);
    assert forall|i: int| 0 <= i < vals.len() implies vals[i] < 32 by {
        if i < 52 {
            lemma_symbol_below_32(secret, i);
        } else {
            lemma_symbol_below_32(chk, i - 52);
        }
    }
    lemma_code_values_of_grouped(vals);
    assert(vals.subrange(0, 52) =~= spec_symbols(secret, 52));
    lemma_symbols_roundtrip(secret);
    assert(vals.subrange(52, 56) =~= spec_check_symbols(secret));
}

/// Typing edits never turn a recovery code into a secret: a character that
/// is not allowed, a symbol too many or too few, or a changed checksum
/// symbol (with the data symbols kept) all decode to `None`.
pub proof fn lemma_code_edits_rejected(secret: Seq<u8>, t: Seq<char>)
    requires
        secret.len() == 32,
    ensures
        (exists|i: int| 0 <= i < t.len() && #[trigger] spec_normalize(t[i]) is None) ==> spec_decode_code(t) is None,
        (spec_code_values(t) matches Some(v) && v.len() != 56) ==> spec_decode_code(t) is None,
        (spec_code_values(t) matches Some(v) && v.len() == 56 && v.subrange(0, 52) == spec_symbols(secret, 52)
            && v.subrange(52, 56) != spec_check_symbols(secret)) ==> spec_decode_code(t) is None,
{
    if exists|i: int| 0 <= i < t.len() && #[trigger] spec_normalize(t[i]) is None {
        let i = choose|i: int| 0 <= i < t.len() && #[trigger] spec_normalize(t[i]) is None;
        assert(t.take(i + 1).last() == t[i]);
        assert(spec_code_values(t.take(i + 1)) is None);
        lemma_code_values_prefix_none(t, i + 1);
    }
    lemma_symbols_roundtrip(secret);
}

/// Decoding reads each character only through `spec_normalize`: codes whose
/// characters read alike (any case, dash or space, I/L for 1, O for 0)
/// decode alike.
pub proof fn lemma_decode_reads_normalized(s: Seq<char>, t: Seq<char>)
    requires
        s.len() == t.len(),
        forall|i: int| 0 <= i < s.len() ==> spec_normalize(#[trigger] s[i]) == spec_normalize(t[i]),
    ensures
        spec_code_values(s) == spec_code_values(t),
        spec_decode_code(s) == spec_decode_code(t),
    decreases s.len(),
{
    if s.len() > 0 {
        lemma_decode_reads_normalized(s.drop_last(), t.drop_last());
        assert(spec_normalize(s[s.len() - 1]) == spec_normalize(t[t.len() - 1]));
    }
}

/// Separators are skipped, upper and lower case read alike, and the
/// ambiguous letters read as the digits they resemble.
pub proof fn lemma_normalize_equivalences(c: char)
    ensures
        spec_normalize('-') == Some::<Option<u8>>(None),
        spec_normalize(' ') == Some::<Option<u8>>(None),
        spec_normalize('I') == spec_normalize('1'),
        spec_normalize('i') == spec_normalize('1'),
        spec_normalize('L') == spec_normalize('1'),
        spec_normalize('l') == spec_normalize('1'),
        spec_normalize('O') == spec_normalize('0'),
        spec_normalize('o') == spec_normalize('0'),
        97 <= c as u32 <= 122 ==> spec_normalize(c) == spec_normalize(((c as u32 - 32) as u8) as char),
{
}

// ---------- executable code ----------

/// Symbol `k` of `bytes` (bits `5k .. 5k+5`, zero-padded).
fn symbol(bytes: &[u8], k: usize) -> (v: u8)
    requires
        k <= 1000,
    ensures
        v == spec_symbol(bytes@, k as int),
        v < 32,
{
    let len = bytes.len();
    let p = 5 * k / 8;
    let off = 5 * k % 8;
    let a: u8 = if p < len { bytes[p] } else { 0 };
    let c: u8 = if p + 1 < len { bytes[p + 1] } else { 0 };
    let w: u32 = ((a as u32) << 8u32) | (c as u32);
    let x: u32 = w >> ((11 - off) as u32);
    proof {
        lemma_symbol_small(x);
    }
    (x & 31u32) as u8
}

/// Base32 symbols of `bytes`: the first `n` groups of 5 bits (the last one
/// zero-padded on the right).
fn encode_base32(bytes: &[u8], n: usize) -> (out: Vec<u8>)
    requires
        n <= 1000,
    ensures
        out@ == spec_symbols(bytes@, n as nat),
        forall|i: int| 0 <= i < out@.len() ==> out@[i] < 32,
{
    let mut out: Vec<u8> = Vec::new();
    let mut k: usize = 0;
    while k < n
        invariant
            k <= n <= 1000,
            out@ =~= spec_symbols(bytes@, k as nat),
            forall|i: int| 0 <= i < out@.len() ==> out@[i] < 32,
        decreases n - k,
    {
        let v = symbol(bytes, k);
        out.push(v);
        k = k + 1;
    }
    out
}

/// Position of `b` in the Crockford alphabet.
fn crockford_index(b: u8) -> (r: Option<u8>)
    ensures
        r == spec_crockford_index(b),
{
    proof {
        lemma_crockford_table();
    }
    let mut i: usize = 0;
    while i < 32
        invariant
            i <= 32,
            forall|j: int| 0 <= j < i ==> CROCKFORD@[j] != b,
        decreases 32 - i,
    {
        if CROCKFORD[i] == b {
            proof {
                assert(CROCKFORD@ =~= seq![
                    48u8, 49, 50, 51, 52, 53, 54, 55, 56, 57, 65, 66, 67, 68, 69, 70,
                    71, 72, 74, 75, 77, 78, 80, 81, 82, 83, 84, 86, 87, 88, 89, 90,
                ]);
                assert(spec_crockford_index(CROCKFORD@[i as int]) == Some(i as u8));
            }
            return Some(i as u8);
        }
        i = i + 1;
    }
    proof {
        if let Some(v) = spec_crockford_index(b) {
            assert(CROCKFORD@[v as int] == b);
        }
    }
    None
}

/// The recovery code for a 32-byte secret: 52 data characters and 4
/// checksum characters in 14 dash-separated groups of 4.
pub fn encode_code(secret: &[u8; 32]) -> (code: String)
    ensures
        code@ == spec_encode_code(secret@),
{
    let data = encode_base32(secret, CODE_DATA_CHARS);
    let digest = sha256(secret);
    let check: [u8; 3] = crate::bytes::take_array(&digest, 0);
    let check_syms = encode_base32(&check, CODE_CHECK_CHARS);
    let mut all = data;
    let mut tail = check_syms;
    all.append(&mut tail);
    let ghost vals = spec_code_symbols(secret@);
    assert(all@ =~= vals);
    let ghost chars = vals.map_values(|v: u8| spec_code_char(v));
    let mut code = String::new();
    let mut i: usize = 0;
    while i < 56
        invariant
            i <= 56,
            all@ == vals,
            vals.len() == 56,
            chars == vals.map_values(|v: u8| spec_code_char(v)),
            forall|j: int| 0 <= j < all@.len() ==> all@[j] < 32,
            code@ == spec_grouped(chars.take(i as int)),
        decreases 56 - i,
    {
        let c = CROCKFORD[all[i] as usize] as char;
        assert(chars.take(i + 1).drop_last() =~= chars.take(i as int));
        if i > 0 && i % 4 == 0 {
            push_char(&mut code, '-');
        }
        push_char(&mut code, c);
        i = i + 1;
    }
    assert(chars.take(56) =~= chars);
    code
}

proof fn lemma_code_values_prefix_none(s: Seq<char>, i: int)
    requires
        0 <= i <= s.len(),
        spec_code_values(s.take(i)) is None,
    ensures
        spec_code_values(s) is None,
    decreases s.len() - i,
{
    if i < s.len() {
        assert(s.take(i + 1).drop_last() =~= s.take(i));
        lemma_code_values_prefix_none(s, i + 1);
    } else {
        assert(s.take(i) =~= s);
    }
}

/// Read a typed recovery code back into its 32-byte secret. Case, dashes and
/// spaces are ignored and I/L/O read as 1/1/0; `None` when a character is
/// not allowed, the length is wrong, or the checksum does not match.
pub fn decode_code(code: &str) -> (r: Option<[u8; 32]>)
    ensures
        r is Some <==> spec_decode_code(code@) is Some,
        r matches Some(k) ==> spec_decode_code(code@) == Some(k@),
{
    let mut vals: Vec<u8> = Vec::new();
    for c in iter: code.chars()
        invariant
            iter.seq() == code@,
            spec_code_values(code@.take(iter.index())) == Some(vals@),
            forall|j: int| 0 <= j < vals@.len() ==> vals@[j] < 32,
    {
        let ghost i = iter.index();
        assert(code@.take(i + 1).drop_last() =~= code@.take(i));
        assert(code@.take(i + 1).last() == c);
        proof {
            lemma_crockford_table();
        }
        let cp = c as u32;
        let u: u32 = if 97 <= cp && cp <= 122 { cp - 32 } else { cp };
        if !(u == 45 || u == 32) {
            let m: u32 = if u == 73 || u == 76 { 49 } else if u == 79 { 48 } else { u };
            match crockford_index((m % 256) as u8) {
                Some(v) => {
                    vals.push(v);
                },
                None => {
                    proof {
                        lemma_code_values_prefix_none(code@, i + 1);
                    }
                    return None;
                },
            }
        }
    }
    assert(code@.take(code@.len() as int) =~= code@);
    if vals.len() != CODE_DATA_CHARS + CODE_CHECK_CHARS {
        return None;
    }
    let ghost data = vals@.subrange(0, 52);
    let mut secret = [0u8; 32];
    let mut j: usize = 0;
    while j < 32
        invariant
            j <= 32,
            vals@.len() == 56,
            data == vals@.subrange(0, 52),
            secret@.len() == 32,
            forall|t: int| 0 <= t < j ==> secret@[t] == spec_unsymbol(data, t),
        decreases 32 - j,
    {
        let p = 8 * j / 5;
        let off = 8 * j % 5;
        let w: u32 = ((vals[p] as u32) << 10u32) | ((vals[p + 1] as u32) << 5u32) | (vals[p + 2] as u32);
        secret[j] = ((w >> ((7 - off) as u32)) & 255u32) as u8;
        assert(byte_or_zero(data, p as int) == vals@[p as int]);
        assert(byte_or_zero(data, p + 1) == vals@[p + 1]);
        assert(byte_or_zero(data, p + 2) == vals@[p + 2]);
        j = j + 1;
    }
    let ghost want = Seq::new(32, |t: int| spec_unsymbol(data, t));
    assert(secret@ =~= want);
    let digest = sha256(&secret);
    let check: [u8; 3] = crate::bytes::take_array(&digest, 0);
    let expect = encode_base32(&check, CODE_CHECK_CHARS);
    assert(expect@ == spec_check_symbols(want));
    let mut k: usize = 0;
    while k < 4
        invariant
            k <= 4,
            vals@.len() == 56,
            expect@.len() == 4,
            expect@ == spec_check_symbols(want),
            spec_code_values(code@) == Some(vals@),
            data == vals@.subrange(0, 52),
            want == Seq::new(32, |t: int| spec_unsymbol(data, t)),
            forall|t: int| 0 <= t < k ==> vals@[52 + t] == expect@[t],
        decreases 4 - k,
    {
        if vals[52 + k] != expect[k] {
            proof {
                assert(vals@.subrange(52, 56)[k as int] != expect@[k as int]);
                assert(vals@.subrange(52, 56) != spec_check_symbols(want));
                assert(want == Seq::new(32, |t: int| spec_unsymbol(vals@.subrange(0, 52), t)));
                assert(spec_decode_code(code@) is None);
            }
            return None;
        }
        k = k + 1;
    }
    assert(vals@.subrange(52, 56) =~= expect@);
    Some(secret)
}

/// Key-encryption key for a master wrap: HMAC-SHA256 of the X25519 shared
/// secret under the fixed label.
fn kek_from_shared(shared: &[u8; 32]) -> (k: SecretKey)
    ensures
        k.0@ == spec_hmac_sha256(KEK_LABEL@, shared@),
{
    SecretKey::from_bytes(hmac_sha256(&KEK_LABEL, shared))
}

/// Opening a master wrap with the secret scalar `sk`.
pub open spec fn spec_open_with_secret(sk: Seq<u8>, wrap: Seq<u8>) -> Option<Seq<u8>> {
    let shared = spec_x25519_shared(sk, wrap.subrange(0, 32));
    spec_unwrap_key(spec_hmac_sha256(KEK_LABEL@, shared), wrap.subrange(32, 92))
}

/// Opening a master wrap with a typed recovery code.
pub open spec fn spec_open_dk(code: Seq<char>, wrap: Seq<u8>) -> Option<Seq<u8>> {
    match spec_decode_code(code) {
        Some(sk) => spec_open_with_secret(sk, wrap),
        None => None,
    }
}

/// The master keypair of the secret scalar `sk`: its public key and its
/// recovery code.
pub fn keypair_from_secret(sk: &[u8; 32]) -> (kp: MasterKeyPair)
    ensures
        kp.public@ == spec_x25519_public(sk@),
        kp.code@ == spec_encode_code(sk@),
{
    let public = x25519_public(sk);
    let code = encode_code(sk);
    MasterKeyPair { public, code }
}

/// Generate a master keypair from the OS CSPRNG: the public key and the
/// recovery code of one and the same secret. Fails only when the OS random
/// generator does.
pub fn generate() -> (r: Result<MasterKeyPair, VaultError>)
    ensures
        r matches Ok(kp) ==> exists|sk: Seq<u8>|
            #![trigger spec_encode_code(sk)]
            sk.len() == 32 && kp.public@ == spec_x25519_public(sk) && kp.code@ == spec_encode_code(sk),
        r matches Err(e) ==> crate::crypto::spec_rng_failure(e),
{
    let mut sk = [0u8; 32];
    match random_bytes(&mut sk) {
        Ok(()) => {},
        Err(e) => { return Err(e); },
    }
    let kp = keypair_from_secret(&sk);
    let ghost secret = sk@;
    wipe(&mut sk);
    assert(secret.len() == 32 && kp.public@ == spec_x25519_public(secret) && kp.code@ == spec_encode_code(secret));
    Ok(kp)
}

/// The master wrap of `dk` for `master_pub` made with the ephemeral secret
/// `eph` and the wrap nonce `nonce`: the ephemeral public key, then `dk`
/// wrapped under the KEK of the shared secret.
pub open spec fn spec_master_wrap(master_pub: Seq<u8>, dk: Seq<u8>, eph: Seq<u8>, nonce: Seq<u8>) -> Seq<u8> {
    spec_x25519_public(eph) + spec_wrap(spec_hmac_sha256(KEK_LABEL@, spec_x25519_shared(eph, master_pub)), dk, nonce)
}

/// Seal the data key to the master public key with the ephemeral secret
/// `eph` and the wrap nonce `nonce`. Whoever holds the master secret behind
/// `master_pub` opens it to `dk`.
pub fn seal_dk_with_ephemeral(master_pub: &[u8; 32], dk: &SecretKey, eph: &[u8; 32], nonce: &[u8; 12]) -> (w: [u8; MASTER_WRAP_LEN])
    ensures
        w@ == spec_master_wrap(master_pub@, dk.0@, eph@, nonce@),
        w@.subrange(32, 44) == nonce@,
        forall|sk: Seq<u8>|
            #![trigger spec_x25519_public(sk)]
            sk.len() == 32 && spec_x25519_public(sk) == master_pub@
                ==> spec_open_with_secret(sk, w@) == Some(dk.0@),
{
    let eph_pub = x25519_public(eph);
    let shared = x25519_shared(eph, master_pub);
    let kek = kek_from_shared(&shared);
    let wrapped = wrap_key_with_nonce(&kek, dk, nonce);
    let mut out = [0u8; MASTER_WRAP_LEN];
    let mut i: usize = 0;
    while i < 32
        invariant
            i <= 32,
            out@.len() == MASTER_WRAP_LEN,
            forall|j: int| 0 <= j < i ==> out@[j] == eph_pub@[j],
        decreases 32 - i,
    {
        out[i] = eph_pub[i];
        i = i + 1;
    }
    let mut i: usize = 0;
    while i < WRAPPED_KEY_LEN
        invariant
            i <= WRAPPED_KEY_LEN,
            out@.len() == MASTER_WRAP_LEN,
            forall|j: int| 0 <= j < 32 ==> out@[j] == eph_pub@[j],
            forall|j: int| 0 <= j < i ==> out@[32 + j] == wrapped@[j],
        decreases WRAPPED_KEY_LEN - i,
    {
        out[32 + i] = wrapped[i];
        i = i + 1;
    }
    proof {
        assert(out@.subrange(0, 32) =~= eph_pub@);
        assert(out@.subrange(32, 92) =~= wrapped@);
        assert(wrapped@.subrange(0, 12) =~= nonce@);
        assert(out@.subrange(32, 44) =~= wrapped@.subrange(0, 12));
        assert(out@ =~= spec_master_wrap(master_pub@, dk.0@, eph@, nonce@));
        assert forall|sk: Seq<u8>|
            sk.len() == 32 && #[trigger] spec_x25519_public(sk) == master_pub@
            implies spec_open_with_secret(sk, out@) == Some(dk.0@) by {
            assert(spec_x25519_shared(sk, eph_pub@) == spec_x25519_shared(eph@, spec_x25519_public(sk)));
        }
    }
    out
}

/// Seal the data key to the master public key (done at lock time) with a
/// fresh ephemeral X25519 key and wrap nonce. Whoever holds the master
/// secret behind `master_pub` opens it to `dk`. Fails only when the OS
/// random generator does.
pub fn seal_dk(master_pub: &[u8; 32], dk: &SecretKey) -> (r: Result<[u8; MASTER_WRAP_LEN], VaultError>)
    ensures
        r matches Ok(w) ==> exists|eph: Seq<u8>|
            #![trigger spec_master_wrap(master_pub@, dk.0@, eph, w@.subrange(32, 44))]
            eph.len() == 32 && w@ == spec_master_wrap(master_pub@, dk.0@, eph, w@.subrange(32, 44)),
        r matches Ok(w) ==> forall|sk: Seq<u8>|
            #![trigger spec_x25519_public(sk)]
            sk.len() == 32 && spec_x25519_public(sk) == master_pub@
                ==> spec_open_with_secret(sk, w@) == Some(dk.0@),
        r matches Err(e) ==> crate::crypto::spec_rng_failure(e),
{
    let mut eph = [0u8; 32];
    match random_bytes(&mut eph) {
        Ok(()) => {},
        Err(e) => { return Err(e); },
    }
    let mut nonce = [0u8; 12];
    match random_bytes(&mut nonce) {
        Ok(()) => {},
        Err(e) => {
            wipe(&mut eph);
            return Err(e);
        },
    }
    let w = seal_dk_with_ephemeral(master_pub, dk, &eph, &nonce);
    let ghost e = eph@;
    wipe(&mut eph);
    proof {
        assert(w@ == spec_master_wrap(master_pub@, dk.0@, e, w@.subrange(32, 44)));
    }
    Ok(w)
}

/// Open a sealed data key with the user's recovery code.
/// `None` = bad code (or corrupt blob).
pub fn open_dk(code: &str, wrap: &[u8; MASTER_WRAP_LEN]) -> (r: Option<SecretKey>)
    ensures
        r is Some <==> spec_open_dk(code@, wrap@) is Some,
        r matches Some(k) ==> spec_open_dk(code@, wrap@) == Some(k.0@),
{
    let mut sk = match decode_code(code) {
        Some(sk) => sk,
        None => { return None; },
    };
    let ghost secret = sk@;
    let eph_pub: [u8; 32] = crate::bytes::take_array(wrap, 0);
    let shared = x25519_shared(&sk, &eph_pub);
    wipe(&mut sk);
    let wrapped: [u8; WRAPPED_KEY_LEN] = crate::bytes::take_array(wrap, 32);
    let kek = kek_from_shared(&shared);
    proof {
        assert(wrapped@ == wrap@.subrange(32, 92));
        assert(spec_open_dk(code@, wrap@) == spec_open_with_secret(secret, wrap@));
    }
    unwrap_key(&kek, &wrapped)
}

/// Whether a master wrap is present (all-zero = no master key enrolled).
pub fn is_enrolled(wrap: &[u8; MASTER_WRAP_LEN]) -> (r: bool)
    ensures
        r == exists|i: int| 0 <= i < MASTER_WRAP_LEN && wrap@[i] != 0,
{
    let mut i: usize = 0;
    while i < MASTER_WRAP_LEN
        invariant
            i <= MASTER_WRAP_LEN,
            forall|j: int| 0 <= j < i ==> wrap@[j] == 0,
        decreases MASTER_WRAP_LEN - i,
    {
        if wrap[i] != 0 {
            return true;
        }
        i = i + 1;
    }
    false
}

/// The recovery code of a secret opens every data key sealed to that
/// secret's public key.
pub proof fn lemma_master_code_opens(sk: Seq<u8>, wrap: Seq<u8>, dk: Seq<u8>)
    requires
        sk.len() == 32,
        spec_open_with_secret(sk, wrap) == Some(dk),
    ensures
        spec_open_dk(spec_encode_code(sk), wrap) == Some(dk),
{
    lemma_code_roundtrip(sk);
}

} // verus!
