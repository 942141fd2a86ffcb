use deaddrop::crypto::{Identity, StoredIdentity};
use deaddrop::error::ErrorKind;

const SALT: &str = "c2FsdHNhbHRzYWx0c2FsdA";

#[test]
fn sealed_identity_unlocks_to_same_public_key() {
    let id = Identity::generate().unwrap();
    let stored = id.seal("correct horse", SALT, &[5u8; 12]).unwrap();
    assert_eq!(stored.salt, SALT);
    assert_eq!(stored.nonce, vec![5u8; 12]);
    assert_eq!(stored.ciphertext.len(), 48);
    let known = Identity::from_secret([0x42u8; 32]);
    let sealed = known.seal("correct horse", SALT, &[5u8; 12]).unwrap();
    assert_ne!(sealed.ciphertext[..32], [0x42u8; 32]);
    let back = Identity::unlock("correct horse", &stored).unwrap();
    assert_eq!(back.public_key(), id.public_key());
    assert_eq!(back.public_id(), id.public_id());
}

#[test]
fn wrong_password_is_refused() {
    let id = Identity::generate().unwrap();
    let stored = id.seal("right", SALT, &[1u8; 12]).unwrap();
    assert!(matches!(Identity::unlock("wrong", &stored), Err(ErrorKind::WrongPassword)));
}

#[test]
fn tampered_record_is_refused() {
    let id = Identity::generate().unwrap();
    let mut stored = id.seal("pw", SALT, &[2u8; 12]).unwrap();
    stored.ciphertext[0] ^= 0x01;
    let r = Identity::unlock("pw", &stored);
    assert!(matches!(r, Err(ErrorKind::WrongPassword) | Err(ErrorKind::Corrupt)));
}

#[test]
fn unreadable_records_are_corrupt() {
    let bad_nonce = StoredIdentity { salt: SALT.to_string(), nonce: vec![0u8; 11], ciphertext: vec![0u8; 48] };
    assert!(matches!(Identity::unlock("pw", &bad_nonce), Err(ErrorKind::Corrupt)));
    let bad_salt = StoredIdentity { salt: "!".to_string(), nonce: vec![0u8; 12], ciphertext: vec![0u8; 48] };
    assert!(matches!(Identity::unlock("pw", &bad_salt), Err(ErrorKind::Corrupt)));
}

#[test]
fn bad_salt_is_refused_when_sealing() {
    let id = Identity::generate().unwrap();
    assert!(matches!(id.seal("pw", "!", &[0u8; 12]), Err(ErrorKind::BadParams)));
}

#[test]
fn load_or_generate_creates_then_loads() {
    let (id, fresh) = Identity::load_or_generate("pw", None).unwrap();
    let record = fresh.expect("a new identity comes with its record");
    let (again, none) = Identity::load_or_generate("pw", Some(&record)).unwrap();
    assert!(none.is_none());
    assert_eq!(again.public_key(), id.public_key());
}
