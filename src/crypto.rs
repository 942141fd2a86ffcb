//! Identity key pair, its record at rest, per-drop session keys and the
//! authenticated encryption of messages and file chunks.
use crate::error::ErrorKind;
use crate::primitives::{
    aes_gcm_open, aes_gcm_open_of, aes_gcm_seal, aes_gcm_seal_of, argon2id_key, argon2id_of,
    base58_decode_of, base58_encode, base58_of, chacha_open, chacha_open_of, chacha_seal, chacha_seal_of, salt_b64,
    os_random, sha256, sha256_of, wipe_bytes, wipe_key, x25519_public, x25519_public_of,
    x25519_shared, x25519_shared_of,
};
use vstd::prelude::*;
use vstd::slice::slice_subrange;
use vstd::string::StringSliceAdditionalSpecFns;

verus! {

/// Length of every AEAD nonce.
pub const NONCE_SIZE: usize = 12;

/// Length of every symmetric key and of both halves of an identity.
pub const KEY_SIZE: usize = 32;

/// Length of the authentication tag that both AEADs append.
pub const TAG_SIZE: usize = 16;

/// Argon2id memory cost, in KiB.
pub const ARGON2_M_COST: u32 = 16384;

/// Argon2id iteration count.
pub const ARGON2_T_COST: u32 = 3;

/// Argon2id lane count.
pub const ARGON2_P_COST: u32 = 1;

/// Domain-separation label hashed in front of an ECDH output to make a
/// message key. Part of the wire protocol.
pub const MESSAGE_KEY_LABEL: &'static str = "deaddrop-message-key";

/// Length of a freshly drawn Argon2 salt, in bytes.
pub const SALT_SIZE: usize = 16;

/// Largest plaintext that one ChaCha20-Poly1305 frame can carry: the
/// cipher refuses 2^32 - 1 blocks of 64 bytes or more.
pub const MAX_PLAINTEXT: u64 = 0x3f_ffff_ff00;

/// The key that Argon2id, at this library's parameters, derives from a
/// password and a printable salt.
pub open spec fn password_key(password: Seq<u8>, salt: Seq<char>) -> Option<Seq<u8>> {
    argon2id_of(password, salt, ARGON2_M_COST, ARGON2_T_COST, ARGON2_P_COST)
}

/// `nonce || ChaCha20-Poly1305(key, nonce, plaintext)`.
pub open spec fn aead_frame(key: Seq<u8>, nonce: Seq<u8>, plaintext: Seq<u8>) -> Seq<u8> {
    nonce + chacha_seal_of(key, nonce, plaintext)
}

/// What decrypting a `nonce || ciphertext` frame gives: `Truncated` when
/// the frame is shorter than a nonce, `AuthFailure` when the tag does not
/// verify.
pub open spec fn aead_open(key: Seq<u8>, frame: Seq<u8>) -> Result<Seq<u8>, ErrorKind> {
    if frame.len() < NONCE_SIZE {
        Err(ErrorKind::Truncated)
    } else {
        match chacha_open_of(key, frame.subrange(0, NONCE_SIZE as int), frame.subrange(NONCE_SIZE as int, frame.len() as int)) {
            Some(p) => Ok(p),
            None => Err(ErrorKind::AuthFailure),
        }
    }
}

/// The message key for a raw ECDH output:
/// `SHA-256("deaddrop-message-key" || shared_secret)`.
pub open spec fn message_key(shared_secret: Seq<u8>) -> Seq<u8> {
    sha256_of(MESSAGE_KEY_LABEL.spec_bytes() + shared_secret)
}

/// What unlocking a stored identity record with a password gives: the
/// 32-byte private scalar, `Corrupt` for a record that cannot be read,
/// `WrongPassword` when the ciphertext does not authenticate.
pub open spec fn unlock_spec(password: Seq<u8>, salt: Seq<char>, nonce: Seq<u8>, ciphertext: Seq<u8>) -> Result<Seq<u8>, ErrorKind> {
    if nonce.len() != NONCE_SIZE {
        Err(ErrorKind::Corrupt)
    } else {
        match password_key(password, salt) {
            None => Err(ErrorKind::Corrupt),
            Some(key) => match aes_gcm_open_of(key, nonce, ciphertext) {
                None => Err(ErrorKind::WrongPassword),
                Some(p) => if p.len() == KEY_SIZE {
                    Ok(p)
                } else {
                    Err(ErrorKind::Corrupt)
                },
            },
        }
    }
}

/// Copies a slice of exactly 32 bytes into an array.
fn key_array(bytes: &[u8]) -> (r: [u8; 32])
    requires
        bytes@.len() == 32,
    ensures
        r@ == bytes@,
{
    let mut r = [0u8; 32];
    let mut i: usize = 0;
    while i < 32
        invariant
            bytes@.len() == 32,
            i <= 32,
            forall|j: int| 0 <= j < i ==> r@[j] == bytes@[j],
        decreases 32 - i,
    {
        r[i] = bytes[i];
        i = i + 1;
    }
    assert(r@ =~= bytes@);
    r
}

/// Copies a slice of exactly 12 bytes into an array.
fn nonce_array(bytes: &[u8]) -> (r: [u8; 12])
    requires
        bytes@.len() == 12,
    ensures
        r@ == bytes@,
{
    let mut r = [0u8; 12];
    let mut i: usize = 0;
    while i < 12
        invariant
            bytes@.len() == 12,
            i <= 12,
            forall|j: int| 0 <= j < i ==> r@[j] == bytes@[j],
        decreases 12 - i,
    {
        r[i] = bytes[i];
        i = i + 1;
    }
    assert(r@ =~= bytes@);
    r
}

/// Draws a fresh nonce from the operating system's generator;
/// `InternalRng` when the generator fails.
pub fn draw_nonce() -> (r: Result<[u8; 12], ErrorKind>)
    ensures
        r matches Err(e) ==> e == ErrorKind::InternalRng,
{
    match os_random(NONCE_SIZE) {
        Some(b) => Ok(nonce_array(b.as_slice())),
        None => Err(ErrorKind::InternalRng),
    }
}

/// Seals `plaintext` under `key` and `nonce` as
/// `nonce || ciphertext_with_tag`; the result decrypts back to `plaintext`.
pub fn seal_with_nonce(key: &[u8; 32], nonce: &[u8; 12], plaintext: &[u8]) -> (r: Vec<u8>)
    requires
        plaintext@.len() <= MAX_PLAINTEXT,
    ensures
        r@ == aead_frame(key@, nonce@, plaintext@),
        r@.len() == NONCE_SIZE + plaintext@.len() + TAG_SIZE,
        aead_open(key@, r@) == Ok::<Seq<u8>, ErrorKind>(plaintext@),
{
    let sealed = chacha_seal(key, nonce, plaintext);
    let mut r: Vec<u8> = Vec::new();
    r.extend_from_slice(nonce.as_slice());
    let mut tail = sealed;
    r.append(&mut tail);
    assert(r@.subrange(0, NONCE_SIZE as int) =~= nonce@);
    assert(r@.subrange(NONCE_SIZE as int, r@.len() as int) =~= chacha_seal_of(key@, nonce@, plaintext@));
    assert(r@ =~= aead_frame(key@, nonce@, plaintext@));
    r
}

/// Seals `plaintext` under `key` with a fresh random nonce, as
/// `nonce || ciphertext_with_tag` (see `seal_with_nonce`). `InternalRng`
/// when no nonce can be drawn.
pub fn aead_encrypt(key: &[u8; 32], plaintext: &[u8]) -> (r: Result<Vec<u8>, ErrorKind>)
    requires
        plaintext@.len() <= MAX_PLAINTEXT,
    ensures
        match r {
            Ok(f) => {
                &&& f@ == aead_frame(key@, f@.subrange(0, NONCE_SIZE as int), plaintext@)
                &&& f@.len() == NONCE_SIZE + plaintext@.len() + TAG_SIZE
                &&& aead_open(key@, f@) == Ok::<Seq<u8>, ErrorKind>(plaintext@)
            },
            Err(e) => e == ErrorKind::InternalRng,
        },
{
    let nonce = draw_nonce()?;
    let r = seal_with_nonce(key, &nonce, plaintext);
    assert(r@.subrange(0, NONCE_SIZE as int) =~= nonce@);
    Ok(r)
}

/// Opens a `nonce || ciphertext_with_tag` frame under `key`.
pub fn aead_decrypt(key: &[u8; 32], frame: &[u8]) -> (r: Result<Vec<u8>, ErrorKind>)
    ensures
        match r {
            Ok(p) => aead_open(key@, frame@) == Ok::<Seq<u8>, ErrorKind>(p@),
            Err(e) => aead_open(key@, frame@) == Err::<Seq<u8>, ErrorKind>(e),
        },
{
    if frame.len() < NONCE_SIZE {
        return Err(ErrorKind::Truncated);
    }
    let nonce = nonce_array(slice_subrange(frame, 0, NONCE_SIZE));
    let body = slice_subrange(frame, NONCE_SIZE, frame.len());
    match chacha_open(key, &nonce, body) {
        Some(p) => Ok(p),
        None => Err(ErrorKind::AuthFailure),
    }
}

/// Derives the message key from a raw ECDH output.
pub fn kdf_message_key(shared_secret: &[u8; 32]) -> (r: [u8; 32])
    ensures
        r@ == message_key(shared_secret@),
{
    let mut input: Vec<u8> = Vec::new();
    input.extend_from_slice(MESSAGE_KEY_LABEL.as_bytes());
    input.extend_from_slice(shared_secret.as_slice());
    assert(input@ =~= MESSAGE_KEY_LABEL.spec_bytes() + shared_secret@);
    sha256(input.as_slice())
}

/// Encrypts a message for a peer under the key derived from the ECDH
/// output shared with that peer, with `nonce`: `nonce || ciphertext_with_tag`.
/// `BadParams` above `MAX_PLAINTEXT` bytes.
pub fn encrypt_message_with_nonce(shared_secret: &[u8; 32], nonce: &[u8; 12], plaintext: &[u8]) -> (r: Result<Vec<u8>, ErrorKind>)
    ensures
        match r {
            Ok(f) => {
                &&& plaintext@.len() <= MAX_PLAINTEXT
                &&& f@ == aead_frame(message_key(shared_secret@), nonce@, plaintext@)
                &&& f@.len() == NONCE_SIZE + plaintext@.len() + TAG_SIZE
                &&& aead_open(message_key(shared_secret@), f@) == Ok::<Seq<u8>, ErrorKind>(plaintext@)
            },
            Err(e) => plaintext@.len() > MAX_PLAINTEXT && e == ErrorKind::BadParams,
        },
{
    if plaintext.len() as u64 > MAX_PLAINTEXT {
        return Err(ErrorKind::BadParams);
    }
    let mut key = kdf_message_key(shared_secret);
    let r = seal_with_nonce(&key, nonce, plaintext);
    wipe_key(&mut key);
    Ok(r)
}

/// Encrypts a message for a peer with a fresh random nonce (see
/// `encrypt_message_with_nonce`). `BadParams` above `MAX_PLAINTEXT` bytes,
/// `InternalRng` when no nonce can be drawn.
pub fn encrypt_message(shared_secret: &[u8; 32], plaintext: &[u8]) -> (r: Result<Vec<u8>, ErrorKind>)
    ensures
        match r {
            Ok(f) => {
                &&& plaintext@.len() <= MAX_PLAINTEXT
                &&& f@ == aead_frame(message_key(shared_secret@), f@.subrange(0, NONCE_SIZE as int), plaintext@)
                &&& f@.len() == NONCE_SIZE + plaintext@.len() + TAG_SIZE
                &&& aead_open(message_key(shared_secret@), f@) == Ok::<Seq<u8>, ErrorKind>(plaintext@)
            },
            Err(e) => plaintext@.len() > MAX_PLAINTEXT && e == ErrorKind::BadParams
                || plaintext@.len() <= MAX_PLAINTEXT && e == ErrorKind::InternalRng,
        },
{
    if plaintext.len() as u64 > MAX_PLAINTEXT {
        return Err(ErrorKind::BadParams);
    }
    let nonce = draw_nonce()?;
    let r = encrypt_message_with_nonce(shared_secret, &nonce, plaintext);
    proof {
        if r is Ok {
            assert(r->Ok_0@.subrange(0, NONCE_SIZE as int) =~= nonce@);
        }
    }
    r
}

/// Decrypts a message from a peer under the key derived from the ECDH
/// output shared with that peer.
pub fn decrypt_message(shared_secret: &[u8; 32], data: &[u8]) -> (r: Result<Vec<u8>, ErrorKind>)
    ensures
        match r {
            Ok(p) => aead_open(message_key(shared_secret@), data@) == Ok::<Seq<u8>, ErrorKind>(p@),
            Err(e) => aead_open(message_key(shared_secret@), data@) == Err::<Seq<u8>, ErrorKind>(e),
        },
{
    let mut key = kdf_message_key(shared_secret);
    let r = aead_decrypt(&key, data);
    wipe_key(&mut key);
    r
}

/// The on-disk form of an identity: the printable Argon2 salt, the AES-GCM
/// nonce, and the private scalar encrypted with its tag.
pub struct StoredIdentity {
    pub salt: String,
    pub nonce: Vec<u8>,
    pub ciphertext: Vec<u8>,
}

impl StoredIdentity {
    /// What unlocking this record with `password` gives.
    pub open spec fn unlocked_by(&self, password: Seq<u8>) -> Result<Seq<u8>, ErrorKind> {
        unlock_spec(password, self.salt@, self.nonce@, self.ciphertext@)
    }
}

/// A long-lived X25519 key pair. The private scalar stays inside the value
/// and is wiped when the value is dropped.
#[derive(Clone)]
pub struct Identity {
    public_key: [u8; 32],
    private_key: [u8; 32],
}

impl Identity {
    /// The private scalar.
    pub closed spec fn secret(&self) -> Seq<u8> {
        self.private_key@
    }

    /// The public point.
    pub closed spec fn public(&self) -> Seq<u8> {
        self.public_key@
    }

    /// The public point is the one of the private scalar.
    pub open spec fn wf(&self) -> bool {
        &&& self.secret().len() == KEY_SIZE
        &&& self.public().len() == KEY_SIZE
        &&& self.public() == x25519_public_of(self.secret())
    }

    /// The public point.
    pub fn public_key(&self) -> (r: [u8; 32])
        ensures
            r@ == self.public(),
    {
        self.public_key
    }

    /// The identity whose private scalar is `secret`.
    pub fn from_secret(secret: [u8; 32]) -> (r: Self)
        ensures
            r.wf(),
            r.secret() == secret@,
    {
        let public_key = x25519_public(&secret);
        Identity { public_key, private_key: secret }
    }

    /// A fresh identity from the operating system's random generator;
    /// `InternalRng` when the generator fails.
    pub fn generate() -> (r: Result<Self, ErrorKind>)
        ensures
            match r {
                Ok(id) => id.wf(),
                Err(e) => e == ErrorKind::InternalRng,
            },
    {
        let mut bytes = match os_random(KEY_SIZE) {
            Some(b) => b,
            None => return Err(ErrorKind::InternalRng),
        };
        let secret = key_array(bytes.as_slice());
        wipe_bytes(&mut bytes);
        Ok(Self::from_secret(secret))
    }

    /// The base58 text of the public point: the peer's network identifier.
    pub fn public_id(&self) -> (r: String)
        ensures
            r@ == base58_of(self.public()),
            base58_decode_of(r@) == Some(self.public()),
    {
        base58_encode(self.public_key.as_slice())
    }

    /// The X25519 output shared with the owner of `peer_public`. Both sides
    /// of an exchange compute the same value.
    pub fn shared_secret(&self, peer_public: &[u8; 32]) -> (r: [u8; 32])
        requires
            self.wf(),
        ensures
            r@ == x25519_shared_of(self.secret(), peer_public@),
            forall|other: Seq<u8>|
                other.len() == KEY_SIZE && peer_public@ == #[trigger] x25519_public_of(other)
                    ==> r@ == x25519_shared_of(other, self.public()),
    {
        x25519_shared(&self.private_key, peer_public)
    }

    /// Encrypts the private scalar under the key that Argon2id derives from
    /// `password` and `salt`, with AES-256-GCM under `nonce`. The record
    /// unlocks with the same password to this identity's scalar.
    pub fn seal(&self, password: &str, salt: &str, nonce: &[u8; 12]) -> (r: Result<StoredIdentity, ErrorKind>)
        requires
            self.wf(),
        ensures
            match r {
                Ok(s) => {
                    &&& s.salt@ == salt@
                    &&& s.nonce@ == nonce@
                    &&& password_key(password.spec_bytes(), salt@) is Some
                    &&& s.ciphertext@ == aes_gcm_seal_of(password_key(password.spec_bytes(), salt@)->0, nonce@, self.secret())
                    &&& s.ciphertext@.len() == KEY_SIZE + TAG_SIZE
                    &&& s.unlocked_by(password.spec_bytes()) == Ok::<Seq<u8>, ErrorKind>(self.secret())
                },
                Err(e) => e == ErrorKind::BadParams && password_key(password.spec_bytes(), salt@) is None,
            },
    {
        let derived = argon2id_key(password.as_bytes(), salt, ARGON2_M_COST, ARGON2_T_COST, ARGON2_P_COST);
        match derived {
            None => Err(ErrorKind::BadParams),
            Some(mut k) => {
                let mut key = key_array(k.as_slice());
                wipe_bytes(&mut k);
                let ciphertext = aes_gcm_seal(&key, nonce, self.private_key.as_slice());
                wipe_key(&mut key);
                Ok(StoredIdentity { salt: salt.to_owned(), nonce: vstd::slice::slice_to_vec(nonce.as_slice()), ciphertext })
            },
        }
    }

    /// Seals this identity under `password` with a fresh random salt and
    /// nonce. `InternalRng` when they cannot be drawn; `BadParams` when
    /// the key derivation refuses the salt.
    pub fn seal_fresh(&self, password: &str) -> (r: Result<StoredIdentity, ErrorKind>)
        requires
            self.wf(),
        ensures
            match r {
                Ok(s) => s.unlocked_by(password.spec_bytes()) == Ok::<Seq<u8>, ErrorKind>(self.secret()),
                Err(e) => e == ErrorKind::BadParams || e == ErrorKind::InternalRng,
            },
    {
        let salt_bytes = match os_random(SALT_SIZE) {
            Some(b) => b,
            None => return Err(ErrorKind::InternalRng),
        };
        let salt = match salt_b64(salt_bytes.as_slice()) {
            Some(t) => t,
            None => return Err(ErrorKind::BadParams),
        };
        let nonce_bytes = match os_random(NONCE_SIZE) {
            Some(b) => b,
            None => return Err(ErrorKind::InternalRng),
        };
        let nonce = nonce_array(nonce_bytes.as_slice());
        self.seal(password, salt.as_str(), &nonce)
    }

    /// Recovers the identity from its record: `Corrupt` for a record that
    /// cannot be read or that holds no 32-byte scalar, `WrongPassword` when
    /// it does not authenticate under `password`.
    pub fn unlock(password: &str, stored: &StoredIdentity) -> (r: Result<Identity, ErrorKind>)
        ensures
            match r {
                Ok(id) => id.wf() && stored.unlocked_by(password.spec_bytes()) == Ok::<Seq<u8>, ErrorKind>(id.secret()),
                Err(e) => stored.unlocked_by(password.spec_bytes()) == Err::<Seq<u8>, ErrorKind>(e),
            },
    {
        if stored.nonce.len() != NONCE_SIZE {
            return Err(ErrorKind::Corrupt);
        }
        let nonce = nonce_array(stored.nonce.as_slice());
        let derived = argon2id_key(password.as_bytes(), stored.salt.as_str(), ARGON2_M_COST, ARGON2_T_COST, ARGON2_P_COST);
        let mut k = match derived {
            None => return Err(ErrorKind::Corrupt),
            Some(k) => k,
        };
        let mut key = key_array(k.as_slice());
        wipe_bytes(&mut k);
        let opened = aes_gcm_open(&key, &nonce, stored.ciphertext.as_slice());
        wipe_key(&mut key);
        let mut plaintext = match opened {
            None => return Err(ErrorKind::WrongPassword),
            Some(p) => p,
        };
        if plaintext.len() != KEY_SIZE {
            wipe_bytes(&mut plaintext);
            return Err(ErrorKind::Corrupt);
        }
        let secret = key_array(plaintext.as_slice());
        wipe_bytes(&mut plaintext);
        Ok(Self::from_secret(secret))
    }

    /// Unlocks the stored record when there is one; otherwise generates a
    /// fresh identity and returns it with the record to persist.
    pub fn load_or_generate(password: &str, stored: Option<&StoredIdentity>) -> (r: Result<(Identity, Option<StoredIdentity>), ErrorKind>)
        ensures
            match stored {
                Some(s) => match r {
                    Ok((id, fresh)) => fresh is None && id.wf()
                        && s.unlocked_by(password.spec_bytes()) == Ok::<Seq<u8>, ErrorKind>(id.secret()),
                    Err(e) => s.unlocked_by(password.spec_bytes()) == Err::<Seq<u8>, ErrorKind>(e),
                },
                None => match r {
                    Ok((id, fresh)) => id.wf() && fresh is Some
                        && fresh->0.unlocked_by(password.spec_bytes()) == Ok::<Seq<u8>, ErrorKind>(id.secret()),
                    Err(e) => e == ErrorKind::BadParams || e == ErrorKind::InternalRng,
                },
            },
    {
        match stored {
            Some(s) => {
                let id = Self::unlock(password, s)?;
                Ok((id, None))
            },
            None => {
                let id = Self::generate()?;
                let record = id.seal_fresh(password)?;
                Ok((id, Some(record)))
            },
        }
    }
}

/// An identity sealed under a password and unlocked again with the same
/// password has the public key it had: unlocking yields the sealed scalar,
/// and the public key is a function of the scalar.
pub proof fn lemma_reload_keeps_public_key(sealed: Identity, loaded: Identity, stored: StoredIdentity, password: Seq<u8>)
    requires
        sealed.wf(),
        loaded.wf(),
        stored.unlocked_by(password) == Ok::<Seq<u8>, ErrorKind>(sealed.secret()),
        stored.unlocked_by(password) == Ok::<Seq<u8>, ErrorKind>(loaded.secret()),
    ensures
        loaded.public() == sealed.public(),
{
}

impl Drop for Identity {
    fn drop(&mut self)
        opens_invariants none
        no_unwind
    {
        wipe_key(&mut self.private_key);
    }
}

/// A symmetric key for one dead drop. Wiped when dropped; never stored.
#[derive(Clone)]
pub struct SessionKey {
    key: [u8; 32],
}

impl SessionKey {
    /// The key bytes.
    pub closed spec fn view(&self) -> Seq<u8> {
        self.key@
    }

    /// A fresh key from the operating system's random generator;
    /// `InternalRng` when the generator fails.
    pub fn generate() -> (r: Result<Self, ErrorKind>)
        ensures
            match r {
                Ok(k) => k@.len() == KEY_SIZE,
                Err(e) => e == ErrorKind::InternalRng,
            },
    {
        let mut bytes = match os_random(KEY_SIZE) {
            Some(b) => b,
            None => return Err(ErrorKind::InternalRng),
        };
        let key = key_array(bytes.as_slice());
        wipe_bytes(&mut bytes);
        Ok(SessionKey { key })
    }

    /// The key made of exactly 32 given bytes; `BadParams` for any other
    /// length.
    pub fn from_bytes(bytes: &[u8]) -> (r: Result<Self, ErrorKind>)
        ensures
            match r {
                Ok(k) => bytes@.len() == KEY_SIZE && k@ == bytes@,
                Err(e) => bytes@.len() != KEY_SIZE && e == ErrorKind::BadParams,
            },
    {
        if bytes.len() != KEY_SIZE {
            return Err(ErrorKind::BadParams);
        }
        Ok(SessionKey { key: key_array(bytes) })
    }

    /// A copy of the key bytes; the caller wipes it after use.
    pub fn as_bytes(&self) -> (r: [u8; 32])
        ensures
            r@ == self@,
    {
        self.key
    }

    /// One AEAD frame under this key and `nonce`,
    /// `nonce || ciphertext_with_tag`; it decrypts back to `data`.
    /// `BadParams` above `MAX_PLAINTEXT` bytes.
    pub fn encrypt_file_with_nonce(&self, nonce: &[u8; 12], data: &[u8]) -> (r: Result<Vec<u8>, ErrorKind>)
        ensures
            match r {
                Ok(f) => data@.len() <= MAX_PLAINTEXT
                    && f@ == aead_frame(self@, nonce@, data@)
                    && f@.len() == NONCE_SIZE + data@.len() + TAG_SIZE
                    && aead_open(self@, f@) == Ok::<Seq<u8>, ErrorKind>(data@),
                Err(e) => data@.len() > MAX_PLAINTEXT && e == ErrorKind::BadParams,
            },
    {
        if data.len() as u64 > MAX_PLAINTEXT {
            return Err(ErrorKind::BadParams);
        }
        Ok(seal_with_nonce(&self.key, nonce, data))
    }

    /// One AEAD frame with a fresh random nonce (see
    /// `encrypt_file_with_nonce`). `BadParams` above `MAX_PLAINTEXT` bytes,
    /// `InternalRng` when no nonce can be drawn.
    pub fn encrypt_file(&self, data: &[u8]) -> (r: Result<Vec<u8>, ErrorKind>)
        ensures
            match r {
                Ok(f) => data@.len() <= MAX_PLAINTEXT
                    && f@ == aead_frame(self@, f@.subrange(0, NONCE_SIZE as int), data@)
                    && f@.len() == NONCE_SIZE + data@.len() + TAG_SIZE
                    && aead_open(self@, f@) == Ok::<Seq<u8>, ErrorKind>(data@),
                Err(e) => data@.len() > MAX_PLAINTEXT && e == ErrorKind::BadParams
                    || data@.len() <= MAX_PLAINTEXT && e == ErrorKind::InternalRng,
            },
    {
        if data.len() as u64 > MAX_PLAINTEXT {
            return Err(ErrorKind::BadParams);
        }
        let nonce = draw_nonce()?;
        let r = self.encrypt_file_with_nonce(&nonce, data);
        proof {
            if r is Ok {
                assert(r->Ok_0@.subrange(0, NONCE_SIZE as int) =~= nonce@);
            }
        }
        r
    }

    /// Opens one AEAD frame under this key.
    pub fn decrypt_file(&self, data: &[u8]) -> (r: Result<Vec<u8>, ErrorKind>)
        ensures
            match r {
                Ok(p) => aead_open(self@, data@) == Ok::<Seq<u8>, ErrorKind>(p@),
                Err(e) => aead_open(self@, data@) == Err::<Seq<u8>, ErrorKind>(e),
            },
    {
        aead_decrypt(&self.key, data)
    }
}

impl Drop for SessionKey {
    fn drop(&mut self)
        opens_invariants none
        no_unwind
    {
        wipe_key(&mut self.key);
    }
}

} // verus!
