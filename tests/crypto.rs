use deaddrop::crypto::{
    aead_decrypt, aead_encrypt, decrypt_message, encrypt_message, kdf_message_key, seal_with_nonce, Identity,
    SessionKey, NONCE_SIZE, TAG_SIZE,
};
use deaddrop::error::ErrorKind;

fn bytes32(text: &str) -> [u8; 32] {
    let v = hex::decode(text).unwrap();
    let mut a = [0u8; 32];
    a.copy_from_slice(&v);
    a
}

#[test]
fn test_session_key_encryption() {
    let key = SessionKey::generate().unwrap();
    let data = b"Secret military intel";

    let encrypted = key.encrypt_file(data).unwrap();
    let decrypted = key.decrypt_file(&encrypted).unwrap();

    assert_eq!(data.as_ref(), decrypted.as_slice());
}

#[test]
fn test_identity_key_exchange() {
    let alice = Identity::generate().unwrap();
    let bob = Identity::generate().unwrap();

    let alice_shared = alice.shared_secret(&bob.public_key());
    let bob_shared = bob.shared_secret(&alice.public_key());

    assert_eq!(alice_shared, bob_shared);
}

#[test]
fn x25519_known_vectors() {
    let alice = Identity::from_secret(bytes32(
        "77076d0a7318a57d3c16c17251b26645df4c2f87ebc0992ab177fba51db92c2a",
    ));
    let bob = Identity::from_secret(bytes32(
        "5dab087e624a8a4b79e17f8b83800ee66f3bb1292618b6fd1c2f8b27ff88e0eb",
    ));
    assert_eq!(
        alice.public_key(),
        bytes32("8520f0098930a754748b7ddcb43ef75a0dbf3a0d26381af4eba4a98eaa9b4e6a")
    );
    assert_eq!(
        bob.public_key(),
        bytes32("de9edb7d7b7dc1b4d35b61c2ece435373f8343c85b78674dadfc7e146f882b4f")
    );
    let shared = bytes32("4a5d9d5ba4ce2de1728e3bf480350f25e07e21c947d19e3376f09b3c1e161742");
    assert_eq!(alice.shared_secret(&bob.public_key()), shared);
    assert_eq!(bob.shared_secret(&alice.public_key()), shared);
}

#[test]
fn public_id_is_base58_of_public_key() {
    let alice = Identity::from_secret(bytes32(
        "77076d0a7318a57d3c16c17251b26645df4c2f87ebc0992ab177fba51db92c2a",
    ));
    assert_eq!(alice.public_id(), "9xgMXw7nrN39BoN9rJuGV6B9LwBNYXAJAMfeACcdyLMP");
}

#[test]
fn message_key_is_labelled_sha256() {
    let mut shared = [0u8; 32];
    for (i, b) in shared.iter_mut().enumerate() {
        *b = i as u8;
    }
    assert_eq!(
        kdf_message_key(&shared),
        bytes32("f441ab4125bd482435e1a5173af0813638b4a6f9a6ade5aabfa4771c974e0745")
    );
}

#[test]
fn aead_round_trip_and_layout() {
    let key = [7u8; 32];
    for len in [0usize, 1, 15, 16, 17, 1000] {
        let plaintext: Vec<u8> = (0..len).map(|i| (i * 31 % 251) as u8).collect();
        let frame = aead_encrypt(&key, &plaintext).unwrap();
        assert_eq!(frame.len(), NONCE_SIZE + len + TAG_SIZE);
        if len > 0 {
            assert_ne!(&frame[NONCE_SIZE..NONCE_SIZE + len], plaintext.as_slice());
        }
        assert_eq!(aead_decrypt(&key, &frame).unwrap(), plaintext);
    }
}

#[test]
fn aead_nonces_are_fresh() {
    let key = [9u8; 32];
    let a = aead_encrypt(&key, b"same").unwrap();
    let b = aead_encrypt(&key, b"same").unwrap();
    assert_ne!(a[..NONCE_SIZE], b[..NONCE_SIZE]);
}

#[test]
fn aead_bit_flip_fails_authentication() {
    let key = [3u8; 32];
    let frame = aead_encrypt(&key, b"attack at dawn").unwrap();
    for byte in 0..frame.len() {
        for bit in 0..8 {
            let mut bad = frame.clone();
            bad[byte] ^= 1 << bit;
            assert_eq!(aead_decrypt(&key, &bad), Err(ErrorKind::AuthFailure));
        }
    }
}

#[test]
fn aead_wrong_key_and_short_frame() {
    let frame = aead_encrypt(&[1u8; 32], b"payload").unwrap();
    assert_eq!(aead_decrypt(&[2u8; 32], &frame), Err(ErrorKind::AuthFailure));
    assert_eq!(aead_decrypt(&[1u8; 32], &frame[..11]), Err(ErrorKind::Truncated));
    assert_eq!(aead_decrypt(&[1u8; 32], &frame[..12]), Err(ErrorKind::AuthFailure));
}

#[test]
fn message_round_trip_between_peers() {
    let alice = Identity::generate().unwrap();
    let bob = Identity::generate().unwrap();
    let sealed = encrypt_message(&alice.shared_secret(&bob.public_key()), b"ping").unwrap();
    let opened = decrypt_message(&bob.shared_secret(&alice.public_key()), &sealed).unwrap();
    assert_eq!(opened, b"ping");
    let eve = Identity::generate().unwrap();
    assert_eq!(
        decrypt_message(&eve.shared_secret(&alice.public_key()), &sealed),
        Err(ErrorKind::AuthFailure)
    );
}

#[test]
fn session_key_from_bytes_checks_length() {
    let bytes: Vec<u8> = (0..32).collect();
    let key = SessionKey::from_bytes(&bytes).unwrap();
    assert_eq!(key.as_bytes().to_vec(), bytes);
    assert!(matches!(SessionKey::from_bytes(&bytes[..31]), Err(ErrorKind::BadParams)));
    let mut long = bytes.clone();
    long.push(0);
    assert!(matches!(SessionKey::from_bytes(&long), Err(ErrorKind::BadParams)));
}

#[test]
fn session_key_decrypt_rejects_other_key() {
    let a = SessionKey::generate().unwrap();
    let b = SessionKey::generate().unwrap();
    let frame = a.encrypt_file(b"chunk").unwrap();
    assert_eq!(frame.len(), NONCE_SIZE + 5 + TAG_SIZE);
    assert_eq!(b.decrypt_file(&frame), Err(ErrorKind::AuthFailure));
}

#[test]
fn sealing_with_given_nonce_is_exact() {
    let key = [6u8; 32];
    let nonce = [9u8; 12];
    let a = seal_with_nonce(&key, &nonce, b"data");
    assert_eq!(a, seal_with_nonce(&key, &nonce, b"data"));
    assert_eq!(&a[..12], &nonce);
    assert_eq!(a.len(), 12 + 4 + 16);
    assert_eq!(aead_decrypt(&key, &a).unwrap(), b"data".to_vec());
    let m = encrypt_message(&[3u8; 32], b"hello").unwrap();
    assert_eq!(m.len(), 5 + 28);
}
