//! Thin trusted wrappers over the cryptographic crates, each with the
//! contract that its crate documents or that its source shows.
use aes_gcm::aead::{Aead, KeyInit};
use aes_gcm::Aes256Gcm;
use argon2::password_hash::{PasswordHasher, SaltString};
use argon2::{Algorithm, Argon2, Params, Version};
use chacha20poly1305::ChaCha20Poly1305;
use rand::rngs::{OsRng, StdRng};
use rand::{RngCore, SeedableRng};
use sha2::Digest;
use sharks::{Share, Sharks};
use vstd::prelude::*;
use x25519_dalek::{PublicKey, StaticSecret};
use zeroize::Zeroize;

verus! {

/// The 32-byte key that Argon2id (version 0x13, default output length)
/// derives from a password and a salt in its printable form, with the
/// given memory cost in KiB, iteration count and lane count; `None` where
/// the salt does not parse or the parameters are refused.
pub uninterp spec fn argon2id_of(password: Seq<u8>, salt: Seq<char>, m_cost: u32, t_cost: u32, p_cost: u32) -> Option<Seq<u8>>;

/// The unpadded B64 text of salt bytes.
pub uninterp spec fn salt_b64_of(bytes: Seq<u8>) -> Seq<char>;

/// AES-256-GCM ciphertext with its tag, for a key, a nonce and a plaintext.
pub uninterp spec fn aes_gcm_seal_of(key: Seq<u8>, nonce: Seq<u8>, plaintext: Seq<u8>) -> Seq<u8>;

/// AES-256-GCM decryption: the plaintext, or `None` where the tag does not verify.
pub uninterp spec fn aes_gcm_open_of(key: Seq<u8>, nonce: Seq<u8>, ciphertext: Seq<u8>) -> Option<Seq<u8>>;

/// ChaCha20-Poly1305 ciphertext with its tag, for a key, a nonce and a plaintext.
pub uninterp spec fn chacha_seal_of(key: Seq<u8>, nonce: Seq<u8>, plaintext: Seq<u8>) -> Seq<u8>;

/// ChaCha20-Poly1305 decryption: the plaintext, or `None` where the tag does not verify.
pub uninterp spec fn chacha_open_of(key: Seq<u8>, nonce: Seq<u8>, ciphertext: Seq<u8>) -> Option<Seq<u8>>;

/// The SHA-256 digest of a byte string.
pub uninterp spec fn sha256_of(data: Seq<u8>) -> Seq<u8>;

/// The X25519 public point of a 32-byte secret scalar (clamped before use).
pub uninterp spec fn x25519_public_of(secret: Seq<u8>) -> Seq<u8>;

/// The X25519 shared point of a secret scalar (clamped) and a peer's public point.
pub uninterp spec fn x25519_shared_of(secret: Seq<u8>, public: Seq<u8>) -> Seq<u8>;

/// The base58 (Bitcoin alphabet) text of a byte string.
pub uninterp spec fn base58_of(bytes: Seq<u8>) -> Seq<char>;

/// The bytes that a base58 (Bitcoin alphabet) text decodes to, or `None`.
pub uninterp spec fn base58_decode_of(text: Seq<char>) -> Option<Seq<u8>>;

/// The secret that Lagrange interpolation at zero over GF(256) gives for a
/// list of points, each written as its x byte followed by one y byte per
/// secret byte.
pub uninterp spec fn shamir_interpolate_of(points: Seq<Seq<u8>>) -> Seq<u8>;

/// The first bytes (x coordinates) of the points are pairwise distinct.
pub open spec fn distinct_heads(points: Seq<Seq<u8>>) -> bool {
    forall|i: int, j: int|
        0 <= i < points.len() && 0 <= j < points.len() && i != j ==> points[i][0] != points[j][0]
}

/// Relies on rand's `OsRng::try_fill_bytes`: `len` bytes from the
/// operating system's generator (nothing is known of their values), or
/// `None` when the generator fails.
#[verifier::external_body]
pub(crate) fn os_random(len: usize) -> (r: Option<Vec<u8>>)
    ensures
        r matches Some(b) ==> b@.len() == len,
{
    let mut buf = vec![0u8; len];
    OsRng.try_fill_bytes(&mut buf).ok()?;
    Some(buf)
}

/// Relies on password_hash's `SaltString::encode_b64`: the salt's printable
/// (unpadded B64) form, or `None` for a length it refuses; from 4 to 48
/// bytes the text has 6 to 64 characters, which it accepts.
#[verifier::external_body]
pub(crate) fn salt_b64(bytes: &[u8]) -> (r: Option<String>)
    ensures
        r matches Some(t) ==> t@ == salt_b64_of(bytes@),
        4 <= bytes@.len() <= 48 ==> r is Some,
{
    SaltString::encode_b64(bytes).ok().map(|salt| salt.as_str().to_string())
}

/// Relies on argon2's `Argon2::hash_password` (after `SaltString::from_b64`
/// and `Params::new`): the derived hash, 32 bytes at the default output
/// length, or `None` where the salt or the parameters are refused.
#[verifier::external_body]
pub(crate) fn argon2id_key(password: &[u8], salt: &str, m_cost: u32, t_cost: u32, p_cost: u32) -> (r: Option<Vec<u8>>)
    ensures
        match r {
            Some(k) => argon2id_of(password@, salt@, m_cost, t_cost, p_cost) == Some(k@) && k@.len() == 32,
            None => argon2id_of(password@, salt@, m_cost, t_cost, p_cost) is None,
        },
{
    let salt = SaltString::from_b64(salt).ok()?;
    let params = Params::new(m_cost, t_cost, p_cost, None).ok()?;
    let argon2 = Argon2::new(Algorithm::Argon2id, Version::V0x13, params);
    let hash = argon2.hash_password(password, &salt).ok()?;
    hash.hash.map(|out| out.as_bytes().to_vec())
}

/// Relies on aes_gcm's `Aes256Gcm::encrypt`: the ciphertext is as long as
/// the plaintext plus a 16-byte tag, and decrypts back to the plaintext
/// under the same key and nonce. It fails only above 2^36 bytes.
#[verifier::external_body]
pub(crate) fn aes_gcm_seal(key: &[u8; 32], nonce: &[u8; 12], plaintext: &[u8]) -> (r: Vec<u8>)
    requires
        plaintext@.len() <= 0xffff_ffff,
    ensures
        r@ == aes_gcm_seal_of(key@, nonce@, plaintext@),
        r@.len() == plaintext@.len() + 16,
        aes_gcm_open_of(key@, nonce@, r@) == Some(plaintext@),
{
    let cipher = Aes256Gcm::new(aes_gcm::Key::<Aes256Gcm>::from_slice(key));
    match cipher.encrypt(aes_gcm::Nonce::from_slice(nonce), plaintext) {
        Ok(c) => c,
        Err(_) => Vec::new(),
    }
}

/// Relies on aes_gcm's `Aes256Gcm::decrypt`: the plaintext where the tag
/// verifies, else `None`.
#[verifier::external_body]
pub(crate) fn aes_gcm_open(key: &[u8; 32], nonce: &[u8; 12], ciphertext: &[u8]) -> (r: Option<Vec<u8>>)
    ensures
        match r {
            Some(p) => aes_gcm_open_of(key@, nonce@, ciphertext@) == Some(p@),
            None => aes_gcm_open_of(key@, nonce@, ciphertext@) is None,
        },
{
    let cipher = Aes256Gcm::new(aes_gcm::Key::<Aes256Gcm>::from_slice(key));
    cipher.decrypt(aes_gcm::Nonce::from_slice(nonce), ciphertext).ok()
}

/// Relies on chacha20poly1305's `ChaCha20Poly1305::encrypt`: the ciphertext
/// is as long as the plaintext plus a 16-byte tag, and decrypts back to the
/// plaintext under the same key and nonce. It fails only from
/// 64 * (2^32 - 1) bytes on.
#[verifier::external_body]
pub(crate) fn chacha_seal(key: &[u8; 32], nonce: &[u8; 12], plaintext: &[u8]) -> (r: Vec<u8>)
    requires
        plaintext@.len() <= 0x3f_ffff_ff00,
    ensures
        r@ == chacha_seal_of(key@, nonce@, plaintext@),
        r@.len() == plaintext@.len() + 16,
        chacha_open_of(key@, nonce@, r@) == Some(plaintext@),
{
    let cipher = ChaCha20Poly1305::new(chacha20poly1305::Key::from_slice(key));
    match cipher.encrypt(chacha20poly1305::Nonce::from_slice(nonce), plaintext) {
        Ok(c) => c,
        Err(_) => Vec::new(),
    }
}

/// Relies on chacha20poly1305's `ChaCha20Poly1305::decrypt`: the plaintext
/// where the tag verifies, else `None`.
#[verifier::external_body]
pub(crate) fn chacha_open(key: &[u8; 32], nonce: &[u8; 12], ciphertext: &[u8]) -> (r: Option<Vec<u8>>)
    ensures
        match r {
            Some(p) => chacha_open_of(key@, nonce@, ciphertext@) == Some(p@),
            None => chacha_open_of(key@, nonce@, ciphertext@) is None,
        },
{
    let cipher = ChaCha20Poly1305::new(chacha20poly1305::Key::from_slice(key));
    cipher.decrypt(chacha20poly1305::Nonce::from_slice(nonce), ciphertext).ok()
}

/// Relies on sha2's `Sha256::digest`: the 32-byte digest of the input.
#[verifier::external_body]
pub(crate) fn sha256(data: &[u8]) -> (r: [u8; 32])
    ensures
        r@ == sha256_of(data@),
{
    sha2::Sha256::digest(data).into()
}

/// Relies on x25519_dalek's `PublicKey::from(&StaticSecret)`: the public
/// point of the clamped scalar.
#[verifier::external_body]
pub(crate) fn x25519_public(secret: &[u8; 32]) -> (r: [u8; 32])
    ensures
        r@ == x25519_public_of(secret@),
{
    PublicKey::from(&StaticSecret::from(*secret)).to_bytes()
}

/// Relies on x25519_dalek's `StaticSecret::diffie_hellman`: the shared
/// point, which both sides of an exchange compute alike (the peer's
/// clamped scalar times this side's public point).
#[verifier::external_body]
pub(crate) fn x25519_shared(secret: &[u8; 32], peer: &[u8; 32]) -> (r: [u8; 32])
    ensures
        r@ == x25519_shared_of(secret@, peer@),
        forall|other: Seq<u8>|
            other.len() == 32 && peer@ == #[trigger] x25519_public_of(other)
                ==> r@ == x25519_shared_of(other, x25519_public_of(secret@)),
{
    StaticSecret::from(*secret).diffie_hellman(&PublicKey::from(*peer)).to_bytes()
}

/// Relies on bs58's `encode(..).into_string()`: the base58 text of the
/// bytes, which `decode(..).into_vec()` turns back into the bytes.
#[verifier::external_body]
pub(crate) fn base58_encode(bytes: &[u8]) -> (r: String)
    ensures
        r@ == base58_of(bytes@),
        base58_decode_of(r@) == Some(bytes@),
{
    bs58::encode(bytes).into_string()
}

/// Relies on bs58's `decode(..).into_vec()`: the decoded bytes, or `None`
/// on a character outside the alphabet.
#[verifier::external_body]
pub(crate) fn base58_decode(text: &str) -> (r: Option<Vec<u8>>)
    ensures
        match r {
            Some(b) => base58_decode_of(text@) == Some(b@),
            None => base58_decode_of(text@) is None,
        },
{
    bs58::decode(text).into_vec().ok()
}

/// Relies on sharks's `Sharks::dealer_rng`, with rand's `StdRng` seeded
/// from `seed`: share `i` (from 0) is the point `x = i + 1` of random
/// polynomials of degree `threshold - 1` whose constant terms are the
/// secret's bytes, written as `x` then one `y` byte per secret byte; as the
/// crate documents, any `threshold` or more distinct shares interpolate
/// back to the secret.
#[verifier::external_body]
pub(crate) fn deal_shares(threshold: u8, secret: &[u8], count: u8, seed: &[u8; 32]) -> (r: Vec<Vec<u8>>)
    requires
        threshold >= 1,
    ensures
        r@.len() == count,
        forall|i: int| 0 <= i < count ==> (#[trigger] r@[i])@.len() == secret@.len() + 1 && r@[i]@[0] == i + 1,
        forall|points: Seq<Seq<u8>>|
            #![trigger shamir_interpolate_of(points)]
            points.len() >= threshold && distinct_heads(points)
                && (forall|j: int| 0 <= j < points.len() ==> r.deep_view().contains(#[trigger] points[j]))
                ==> shamir_interpolate_of(points) == secret@,
{
    let mut rng = StdRng::from_seed(*seed);
    Sharks(threshold).dealer_rng(secret, &mut rng).take(count as usize).map(|s| Vec::from(&s)).collect()
}

/// Relies on sharks's `Sharks::recover` (each point read by
/// `Share::try_from`): with at least `threshold` points of one length and
/// distinct `x`, it returns their interpolation at zero.
#[verifier::external_body]
pub(crate) fn interpolate_shares(threshold: u8, points: &Vec<Vec<u8>>) -> (r: Vec<u8>)
    requires
        threshold >= 1,
        points@.len() >= threshold,
        distinct_heads(points.deep_view()),
        forall|i: int| 0 <= i < points@.len() ==> (#[trigger] points@[i])@.len() == points@[0]@.len(),
        points@[0]@.len() >= 2,
    ensures
        r@ == shamir_interpolate_of(points.deep_view()),
{
    let shares: Result<Vec<Share>, _> = points.iter().map(|p| Share::try_from(p.as_slice())).collect();
    match shares {
        Ok(s) => Sharks(threshold).recover(&s).unwrap_or_default(),
        Err(_) => Vec::new(),
    }
}

/// The lowercase hexadecimal digit of a value below 16.
pub open spec fn hex_digit(n: int) -> char {
    seq!['0', '1', '2', '3', '4', '5', '6', '7', '8', '9', 'a', 'b', 'c', 'd', 'e', 'f'][n]
}

/// Two lowercase hexadecimal digits for each byte, high nibble first.
pub open spec fn hex_of(bytes: Seq<u8>) -> Seq<char>
    decreases bytes.len(),
{
    if bytes.len() == 0 {
        Seq::empty()
    } else {
        seq![hex_digit(bytes[0] as int / 16), hex_digit(bytes[0] as int % 16)] + hex_of(bytes.drop_first())
    }
}

/// The value of a hexadecimal digit in either case.
pub open spec fn hex_value(c: char) -> Option<int> {
    match c {
        '0' => Some(0),
        '1' => Some(1),
        '2' => Some(2),
        '3' => Some(3),
        '4' => Some(4),
        '5' => Some(5),
        '6' => Some(6),
        '7' => Some(7),
        '8' => Some(8),
        '9' => Some(9),
        'a' | 'A' => Some(10),
        'b' | 'B' => Some(11),
        'c' | 'C' => Some(12),
        'd' | 'D' => Some(13),
        'e' | 'E' => Some(14),
        'f' | 'F' => Some(15),
        _ => None,
    }
}

/// The bytes that a hexadecimal text stands for: `None` on an odd length
/// or on a character that is no hexadecimal digit.
pub open spec fn hex_decode_spec(text: Seq<char>) -> Option<Seq<u8>>
    decreases text.len(),
{
    if text.len() == 0 {
        Some(Seq::empty())
    } else if text.len() == 1 {
        None
    } else {
        match (hex_value(text[0]), hex_value(text[1]), hex_decode_spec(text.subrange(2, text.len() as int))) {
            (Some(hi), Some(lo), Some(rest)) => Some(seq![(hi * 16 + lo) as u8] + rest),
            _ => None,
        }
    }
}

/// Relies on hex's `encode`: two lowercase digits per byte.
#[verifier::external_body]
pub(crate) fn hex_encode(bytes: &[u8]) -> (r: String)
    ensures
        r@ == hex_of(bytes@),
{
    hex::encode(bytes)
}

/// Relies on hex's `decode`: digits of either case, in pairs.
#[verifier::external_body]
pub(crate) fn hex_decode(text: &str) -> (r: Option<Vec<u8>>)
    ensures
        match r {
            Some(b) => hex_decode_spec(text@) == Some(b@),
            None => hex_decode_spec(text@) is None,
        },
{
    hex::decode(text).ok()
}

/// Relies on zeroize's `Zeroize` for byte arrays: every byte is
/// overwritten with zero by writes the compiler does not remove.
#[verifier::external_body]
pub(crate) fn wipe_key(key: &mut [u8; 32])
    ensures
        final(key)@ == Seq::new(32, |i: int| 0u8),
    opens_invariants none
    no_unwind
{
    key.zeroize();
}

/// Relies on zeroize's `Zeroize` for `Vec<u8>`: the contents and the spare
/// capacity are overwritten with zero, then the vector is cleared.
#[verifier::external_body]
pub(crate) fn wipe_bytes(bytes: &mut Vec<u8>)
    ensures
        final(bytes)@.len() == 0,
{
    bytes.zeroize();
}

} // verus!
