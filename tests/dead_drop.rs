use deaddrop::crypto::SessionKey;
use deaddrop::dead_drop::{recover_session_key, split_session_key, split_session_key_with_seed, DeadDropCreated};
use deaddrop::error::ErrorKind;
use deaddrop::shares::{recover_secret, split_secret, validate_params};
use deaddrop::stream::{
    decrypt_stream, encrypt_stream, next_frame_len, open_chunk, seal_chunk, seal_chunk_with_nonce, CHUNK_OVERHEAD,
    CHUNK_SIZE, MAX_FRAME,
};

const SEED: [u8; 32] = [0x5a; 32];

fn secret() -> [u8; 32] {
    let mut s = [0u8; 32];
    for (i, b) in s.iter_mut().enumerate() {
        *b = (i as u8).wrapping_mul(37).wrapping_add(11);
    }
    s
}

fn pseudo_random(len: usize, seed: u64) -> Vec<u8> {
    let mut x = seed;
    (0..len)
        .map(|_| {
            x ^= x << 13;
            x ^= x >> 7;
            x ^= x << 17;
            (x >> 24) as u8
        })
        .collect()
}

#[test]
fn params_are_validated() {
    assert_eq!(validate_params(2, 3), Ok(()));
    assert_eq!(validate_params(255, 255), Ok(()));
    assert_eq!(validate_params(1, 3), Err(ErrorKind::BadParams));
    assert_eq!(validate_params(4, 3), Err(ErrorKind::BadParams));
    assert_eq!(split_secret(&secret(), 0, 0, &SEED), Err(ErrorKind::BadParams));
}

#[test]
fn shares_carry_threshold_and_index() {
    let shares = split_secret(&secret(), 3, 5, &SEED).unwrap();
    assert_eq!(shares.len(), 5);
    for (i, s) in shares.iter().enumerate() {
        assert_eq!(s.len(), 34);
        assert_eq!(s[0], 3);
        assert_eq!(s[1] as usize, i + 1);
    }
}

#[test]
fn every_sufficient_subset_recovers() {
    let s = secret();
    let shares = split_secret(&s, 3, 5, &SEED).unwrap();
    for a in 0..5 {
        for b in 0..5 {
            for c in 0..5 {
                if a == b || b == c || a == c {
                    continue;
                }
                let sel = vec![shares[a].clone(), shares[b].clone(), shares[c].clone()];
                assert_eq!(recover_secret(&sel).unwrap(), s.to_vec());
            }
        }
    }
    assert_eq!(recover_secret(&shares).unwrap(), s.to_vec());
}

#[test]
fn fewer_than_threshold_fails() {
    let shares = split_secret(&secret(), 3, 5, &SEED).unwrap();
    let two = vec![shares[0].clone(), shares[4].clone()];
    assert_eq!(recover_secret(&two), Err(ErrorKind::InsufficientShares));
    assert_eq!(recover_secret(&vec![]), Err(ErrorKind::InsufficientShares));
}

#[test]
fn duplicate_shares_are_ignored() {
    let s = secret();
    let shares = split_secret(&s, 2, 3, &SEED).unwrap();
    let dup = vec![shares[1].clone(), shares[1].clone(), shares[2].clone()];
    assert_eq!(recover_secret(&dup).unwrap(), s.to_vec());
    let only_dups = vec![shares[1].clone(), shares[1].clone()];
    assert_eq!(recover_secret(&only_dups), Err(ErrorKind::InsufficientShares));
}

#[test]
fn mismatched_shares_are_bad() {
    let a = split_secret(&secret(), 2, 3, &SEED).unwrap();
    let b = split_secret(&secret(), 3, 3, &SEED).unwrap();
    assert_eq!(recover_secret(&vec![a[0].clone(), b[1].clone()]), Err(ErrorKind::BadShare));
    assert_eq!(recover_secret(&vec![vec![2u8, 1]]), Err(ErrorKind::BadShare));
    let mut short = a[1].clone();
    short.pop();
    assert_eq!(recover_secret(&vec![a[0].clone(), short]), Err(ErrorKind::BadShare));
    let mut low = a[0].clone();
    low[0] = 1;
    assert_eq!(recover_secret(&vec![low]), Err(ErrorKind::BadShare));
}

#[test]
fn session_key_round_trips_through_hex_shares() {
    let key = SessionKey::from_bytes(&secret()).unwrap();
    let texts = split_session_key(&key, 2, 3).unwrap();
    assert_eq!(texts.len(), 3);
    for t in &texts {
        assert_eq!(t.len(), 68);
        assert!(t.chars().all(|c| c.is_ascii_hexdigit() && !c.is_ascii_uppercase()));
        assert!(t.starts_with("02"));
    }
    assert_eq!(&texts[0][..4], "0201");
    assert_eq!(&texts[2][..4], "0203");
    let back = recover_session_key(&vec![texts[2].clone(), texts[0].clone()]).unwrap();
    assert_eq!(back.as_bytes(), secret());
    let upper: Vec<String> = texts.iter().map(|t| t.to_uppercase()).collect();
    assert_eq!(recover_session_key(&upper[..2].to_vec()).unwrap().as_bytes(), secret());
}

#[test]
fn hex_shares_report_errors() {
    let key = SessionKey::generate().unwrap();
    let texts = split_session_key(&key, 2, 3).unwrap();
    assert!(matches!(recover_session_key(&vec![texts[0].clone()]), Err(ErrorKind::InsufficientShares)));
    assert!(matches!(recover_session_key(&vec!["zz".to_string()]), Err(ErrorKind::BadShare)));
    assert!(matches!(recover_session_key(&vec!["abc".to_string()]), Err(ErrorKind::BadShare)));
    assert!(matches!(split_session_key(&key, 4, 3), Err(ErrorKind::BadParams)));
}

#[test]
fn recovered_secret_of_wrong_length_is_corrupt() {
    // shares of a 1-byte secret, threshold 2: "02 01 aa" and "02 02 bb"
    let texts = vec!["0201aa".to_string(), "0202bb".to_string()];
    assert!(matches!(recover_session_key(&texts), Err(ErrorKind::Corrupt)));
}

#[test]
fn small_file_round_trip_with_two_of_three() {
    let data = b"hello world";
    let key = SessionKey::generate().unwrap();
    let cipher = encrypt_stream(&key, data).unwrap();
    assert_eq!(cipher.len(), 11 + CHUNK_OVERHEAD);
    let texts = split_session_key(&key, 2, 3).unwrap();
    let created = DeadDropCreated { cid: "QmTest".to_string(), shards: texts };
    let k12 = recover_session_key(&vec![created.shards[0].clone(), created.shards[1].clone()]).unwrap();
    assert_eq!(decrypt_stream(&k12, &cipher).unwrap(), data.to_vec());
    let k23 = recover_session_key(&vec![created.shards[1].clone(), created.shards[2].clone()]).unwrap();
    assert_eq!(decrypt_stream(&k23, &cipher).unwrap(), data.to_vec());
    assert!(matches!(
        recover_session_key(&vec![created.shards[0].clone()]),
        Err(ErrorKind::InsufficientShares)
    ));
}

#[test]
fn large_file_round_trip() {
    let len = 10 * 1024 * 1024 + 17;
    let data = pseudo_random(len, 0x9e3779b97f4a7c15);
    let key = SessionKey::generate().unwrap();
    let cipher = encrypt_stream(&key, &data).unwrap();
    assert_eq!(cipher.len(), len + 3 * CHUNK_OVERHEAD);
    assert!(cipher.len() > len + 3 * (4 + 12 + 16) - 1);
    let first = u32::from_le_bytes([cipher[0], cipher[1], cipher[2], cipher[3]]) as usize;
    assert_eq!(first, CHUNK_SIZE + 28);
    assert_eq!(decrypt_stream(&key, &cipher).unwrap(), data);
}

#[test]
fn empty_file_is_empty_stream() {
    let key = SessionKey::generate().unwrap();
    let cipher = encrypt_stream(&key, &[]).unwrap();
    assert!(cipher.is_empty());
    assert_eq!(decrypt_stream(&key, &cipher).unwrap(), Vec::<u8>::new());
}

#[test]
fn stream_errors() {
    let key = SessionKey::generate().unwrap();
    let cipher = encrypt_stream(&key, b"some file contents").unwrap();
    assert_eq!(decrypt_stream(&key, &cipher[..2]), Err(ErrorKind::Truncated));
    assert_eq!(decrypt_stream(&key, &cipher[..cipher.len() - 1]), Err(ErrorKind::Truncated));
    let mut flipped = cipher.clone();
    flipped[20] ^= 0x80;
    assert_eq!(decrypt_stream(&key, &flipped), Err(ErrorKind::AuthFailure));
    let other = SessionKey::generate().unwrap();
    assert_eq!(decrypt_stream(&other, &cipher), Err(ErrorKind::AuthFailure));
}

#[test]
fn chunk_and_header() {
    let key = SessionKey::generate().unwrap();
    let chunk = seal_chunk(&key, b"abc").unwrap();
    assert_eq!(chunk.len(), 3 + CHUNK_OVERHEAD);
    assert_eq!(next_frame_len(&chunk[..4]), Ok(Some(3 + 12 + 16)));
    assert_eq!(next_frame_len(&[]), Ok(None));
    assert_eq!(next_frame_len(&chunk[..2]), Err(ErrorKind::Truncated));
    assert_eq!(next_frame_len(&[1, 0, 0, 1]), Err(ErrorKind::Corrupt));
    assert_eq!(next_frame_len(&[0x1c, 0, 0x40, 0]), Ok(Some(MAX_FRAME)));
    assert_eq!(next_frame_len(&[0x1d, 0, 0x40, 0]), Err(ErrorKind::Corrupt));
    assert_eq!(open_chunk(&key, 31, &chunk[4..]).unwrap(), b"abc".to_vec());
    assert_eq!(open_chunk(&key, 31, &chunk[4..20]), Err(ErrorKind::Truncated));
    assert_eq!(key.decrypt_file(&chunk[4..]).unwrap(), b"abc".to_vec());
}

#[test]
fn chunk_bytes_with_given_nonce() {
    let key = SessionKey::from_bytes(&[8u8; 32]).unwrap();
    let nonce = [0x11u8; 12];
    let a = seal_chunk_with_nonce(&key, &nonce, b"window");
    let b = seal_chunk_with_nonce(&key, &nonce, b"window");
    assert_eq!(a, b);
    assert_eq!(&a[..4], &(6u32 + 28).to_le_bytes());
    assert_eq!(&a[4..16], &nonce);
    assert_eq!(a[16..], key.encrypt_file_with_nonce(&nonce, b"window").unwrap()[12..]);
    assert_eq!(decrypt_stream(&key, &a).unwrap(), b"window".to_vec());
}

#[test]
fn oversized_frame_is_refused() {
    let key = SessionKey::generate().unwrap();
    let mut bytes = vec![0xff, 0xff, 0xff, 0x7f];
    bytes.extend_from_slice(&[0u8; 64]);
    assert_eq!(decrypt_stream(&key, &bytes), Err(ErrorKind::Corrupt));
}

#[test]
fn seeded_split_is_deterministic_and_indexed() {
    let key = SessionKey::from_bytes(&secret()).unwrap();
    let a = split_session_key_with_seed(&key, 3, 4, &SEED).unwrap();
    let b = split_session_key_with_seed(&key, 3, 4, &SEED).unwrap();
    assert_eq!(a, b);
    for (i, t) in a.iter().enumerate() {
        assert_eq!(t.len(), 68);
        assert_eq!(&t[..4], format!("03{:02x}", i + 1));
    }
    let back = recover_session_key(&vec![a[3].clone(), a[1].clone(), a[0].clone()]).unwrap();
    assert_eq!(back.as_bytes(), secret());
}
