//! The key side of a dead drop: the session key split into hex-encoded
//! shares on creation, and recovered from any sufficient set of them on
//! retrieval.
use crate::crypto::{SessionKey, KEY_SIZE};
use crate::error::ErrorKind;
use crate::primitives::{hex_decode, hex_decode_spec, hex_digit, hex_encode, hex_of, hex_value, os_random, wipe_bytes, wipe_key};
use crate::shares::{is_selection, recover_secret, recover_spec, split_secret, validate_params};
use crate::stream::stream_open;
use vstd::prelude::*;

verus! {

/// What a created dead drop hands back: the content id of the ciphertext
/// and the hex-encoded key shares.
pub struct DeadDropCreated {
    pub cid: String,
    pub shards: Vec<String>,
}

/// The shares that hex texts stand for, or `None` when one is no hex.
pub open spec fn decode_shares_spec(texts: Seq<Seq<char>>) -> Option<Seq<Seq<u8>>> {
    if forall|i: int| 0 <= i < texts.len() ==> (#[trigger] hex_decode_spec(texts[i])) is Some {
        Some(texts.map_values(|t: Seq<char>| hex_decode_spec(t)->Some_0))
    } else {
        None
    }
}

/// What recovering a key from hex-encoded shares gives: `BadShare` when a
/// text is no hex, else what the decoded shares give.
pub open spec fn recover_hex_spec(texts: Seq<Seq<char>>) -> Result<Seq<u8>, ErrorKind> {
    match decode_shares_spec(texts) {
        None => Err(ErrorKind::BadShare),
        Some(shares) => recover_spec(shares),
    }
}

/// `texts` are a split of `key` with threshold `threshold`: every selection
/// of at least `threshold` distinct texts recovers `key`, and every
/// selection of fewer fails with `InsufficientShares`.
pub open spec fn split_of(texts: Seq<Seq<char>>, key: Seq<u8>, threshold: u8) -> bool {
    &&& forall|sel: Seq<Seq<char>>|
        #![trigger recover_hex_spec(sel)]
        is_selection(sel, texts) && sel.len() >= threshold ==> recover_hex_spec(sel) == Ok::<Seq<u8>, ErrorKind>(key)
    &&& forall|sel: Seq<Seq<char>>|
        #![trigger recover_hex_spec(sel)]
        is_selection(sel, texts) && sel.len() < threshold
            ==> recover_hex_spec(sel) == Err::<Seq<u8>, ErrorKind>(ErrorKind::InsufficientShares)
}

/// A dead drop round-trips: when `cipher` is the chunk stream of `file`
/// under `key` and `texts` are a split of `key`, any `threshold` distinct
/// shares recover a key under which `cipher` decrypts to `file`.
pub proof fn lemma_drop_round_trip(
    key: Seq<u8>,
    threshold: u8,
    texts: Seq<Seq<char>>,
    cipher: Seq<u8>,
    file: Seq<u8>,
    sel: Seq<Seq<char>>,
)
    requires
        split_of(texts, key, threshold),
        stream_open(key, cipher) == Ok::<Seq<u8>, ErrorKind>(file),
        is_selection(sel, texts),
        sel.len() >= threshold,
    ensures
        recover_hex_spec(sel) is Ok,
        stream_open(recover_hex_spec(sel)->Ok_0, cipher) == Ok::<Seq<u8>, ErrorKind>(file),
{
    assert(recover_hex_spec(sel) == Ok::<Seq<u8>, ErrorKind>(key));
}

/// A hex digit reads back as its value.
proof fn lemma_hex_digit(n: int)
    requires
        0 <= n < 16,
    ensures
        hex_value(hex_digit(n)) == Some(n),
{
    let digits = seq!['0', '1', '2', '3', '4', '5', '6', '7', '8', '9', 'a', 'b', 'c', 'd', 'e', 'f'];
    assert(hex_digit(n) == digits[n]);
}

/// Hex text decodes back to the bytes it encodes.
proof fn lemma_hex_round_trip(bytes: Seq<u8>)
    ensures
        hex_decode_spec(hex_of(bytes)) == Some(bytes),
    decreases bytes.len(),
{
    if bytes.len() > 0 {
        let b = bytes[0];
        let text = hex_of(bytes);
        lemma_hex_digit(b as int / 16);
        lemma_hex_digit(b as int % 16);
        lemma_hex_round_trip(bytes.drop_first());
        assert(text.subrange(2, text.len() as int) =~= hex_of(bytes.drop_first()));
        assert((((b as int / 16) * 16 + b as int % 16) as u8) == b);
        assert(seq![b] + bytes.drop_first() =~= bytes);
    }
}

/// Hex-encodes each share.
fn encode_shares(shares: &Vec<Vec<u8>>) -> (r: Vec<String>)
    ensures
        r@.len() == shares@.len(),
        forall|i: int| 0 <= i < shares@.len() ==> (#[trigger] r@[i])@ == hex_of(shares@[i]@),
{
    let mut out: Vec<String> = Vec::new();
    let mut i: usize = 0;
    while i < shares.len()
        invariant
            i <= shares@.len(),
            out@.len() == i,
            forall|k: int| 0 <= k < i ==> (#[trigger] out@[k])@ == hex_of(shares@[k]@),
        decreases shares@.len() - i,
    {
        out.push(hex_encode(shares[i].as_slice()));
        i = i + 1;
    }
    out
}

/// Decodes each hex text into a share; `BadShare` at the first that is no
/// hex.
fn decode_shares(texts: &Vec<String>) -> (r: Result<Vec<Vec<u8>>, ErrorKind>)
    ensures
        match r {
            Ok(shares) => decode_shares_spec(texts.deep_view()) == Some(shares.deep_view()),
            Err(e) => e == ErrorKind::BadShare && decode_shares_spec(texts.deep_view()) is None,
        },
{
    let ghost tv = texts.deep_view();
    let mut out: Vec<Vec<u8>> = Vec::new();
    let mut i: usize = 0;
    while i < texts.len()
        invariant
            tv == texts.deep_view(),
            i <= texts@.len(),
            out@.len() == i,
            forall|k: int| 0 <= k < i ==> hex_decode_spec(#[trigger] tv[k]) == Some(out@[k]@),
        decreases texts@.len() - i,
    {
        assert(tv[i as int] == texts@[i as int]@);
        match hex_decode(texts[i].as_str()) {
            Some(b) => out.push(b),
            None => {
                assert(!(hex_decode_spec(tv[i as int]) is Some));
                return Err(ErrorKind::BadShare);
            },
        }
        i = i + 1;
    }
    assert forall|k: int| 0 <= k < tv.len() implies out.deep_view()[k] == tv.map_values(|t: Seq<char>| hex_decode_spec(t)->Some_0)[k] by {
        assert(hex_decode_spec(tv[k]) == Some(out@[k]@));
    }
    assert(out.deep_view() =~= tv.map_values(|t: Seq<char>| hex_decode_spec(t)->Some_0));
    Ok(out)
}

/// `text` is the lowercase hex of a 34-byte share carrying `threshold` and
/// the point index `index + 1`.
pub open spec fn share_text(text: Seq<char>, threshold: u8, index: int) -> bool {
    hex_decode_spec(text) matches Some(share) && {
        &&& text == hex_of(share)
        &&& share.len() == 34
        &&& share[0] == threshold
        &&& share[1] == index + 1
    }
}

/// Splits a session key into `total` hex-encoded shares with recovery
/// threshold `threshold`, the polynomials drawn from a generator seeded
/// with `seed`; `BadParams` unless `2 <= threshold <= total`. Text `i` is
/// the hex of share `i + 1`, so the texts are pairwise distinct; any
/// selection of at least `threshold` distinct texts recovers the key, any
/// selection of fewer fails with `InsufficientShares`.
pub fn split_session_key_with_seed(key: &SessionKey, threshold: u8, total: u8, seed: &[u8; 32]) -> (r: Result<Vec<String>, ErrorKind>)
    ensures
        match r {
            Ok(texts) => {
                &&& 2 <= threshold <= total
                &&& texts@.len() == total
                &&& forall|i: int| 0 <= i < total ==> share_text(#[trigger] texts@[i]@, threshold, i)
                &&& forall|i: int, j: int| 0 <= i < total && 0 <= j < total && i != j ==> texts@[i]@ != texts@[j]@
                &&& split_of(texts.deep_view(), key@, threshold)
            },
            Err(e) => e == ErrorKind::BadParams && !(2 <= threshold <= total),
        },
{
    let mut bytes = key.as_bytes();
    let split = split_secret(&bytes, threshold, total, seed);
    wipe_key(&mut bytes);
    let shares = split?;
    let texts = encode_shares(&shares);
    proof {
        let sv = shares.deep_view();
        let tv = texts.deep_view();
        assert forall|i: int| 0 <= i < tv.len() implies #[trigger] tv[i] == hex_of(sv[i]) by {
            assert(tv[i] == texts@[i]@);
            assert(sv[i] == shares@[i]@);
        }
        assert forall|i: int| 0 <= i < total implies share_text(#[trigger] texts@[i]@, threshold, i) by {
            assert(tv[i] == texts@[i]@);
            assert(sv[i] == shares@[i]@);
            lemma_hex_round_trip(sv[i]);
        }
        assert forall|i: int, j: int| 0 <= i < total && 0 <= j < total && i != j implies texts@[i]@ != texts@[j]@ by {
            assert(share_text(texts@[i]@, threshold, i));
            assert(share_text(texts@[j]@, threshold, j));
        }
        assert forall|sel: Seq<Seq<char>>| #![trigger recover_hex_spec(sel)] is_selection(sel, tv) implies {
            &&& sel.len() >= threshold ==> recover_hex_spec(sel) == Ok::<Seq<u8>, ErrorKind>(key@)
            &&& sel.len() < threshold ==> recover_hex_spec(sel) == Err::<Seq<u8>, ErrorKind>(ErrorKind::InsufficientShares)
        } by {
            let dec = sel.map_values(|t: Seq<char>| hex_decode_spec(t)->Some_0);
            assert forall|j: int| 0 <= j < sel.len() implies exists|k: int| 0 <= k < tv.len() && #[trigger] sel[j] == tv[k] && dec[j] == sv[k] by {
                assert(tv.contains(sel[j]));
                let k = choose|k: int| 0 <= k < tv.len() && tv[k] == sel[j];
                lemma_hex_round_trip(sv[k]);
            }
            assert forall|j: int| 0 <= j < sel.len() implies (#[trigger] hex_decode_spec(sel[j])) is Some by {
                let k = choose|k: int| 0 <= k < tv.len() && #[trigger] sel[j] == tv[k] && dec[j] == sv[k];
                lemma_hex_round_trip(sv[k]);
            }
            assert(decode_shares_spec(sel) == Some(dec));
            assert forall|j: int| 0 <= j < dec.len() implies sv.contains(#[trigger] dec[j]) by {
                let k = choose|k: int| 0 <= k < tv.len() && #[trigger] sel[j] == tv[k] && dec[j] == sv[k];
            }
            assert forall|i: int, j: int| 0 <= i < dec.len() && 0 <= j < dec.len() && i != j implies dec[i] != dec[j] by {
                let a = choose|k: int| 0 <= k < tv.len() && #[trigger] sel[i] == tv[k] && dec[i] == sv[k];
                let b = choose|k: int| 0 <= k < tv.len() && #[trigger] sel[j] == tv[k] && dec[j] == sv[k];
                assert(sel[i] != sel[j]);
            }
            assert(is_selection(dec, sv));
            assert(recover_spec(dec) == recover_hex_spec(sel));
        }
    }
    Ok(texts)
}

/// Splits a session key into hex-encoded shares as
/// `split_session_key_with_seed` does, with a seed drawn from the operating
/// system's generator. `BadParams` unless `2 <= threshold <= total`, checked
/// first; `InternalRng` when no seed can be drawn.
pub fn split_session_key(key: &SessionKey, threshold: u8, total: u8) -> (r: Result<Vec<String>, ErrorKind>)
    ensures
        match r {
            Ok(texts) => {
                &&& 2 <= threshold <= total
                &&& texts@.len() == total
                &&& forall|i: int| 0 <= i < total ==> share_text(#[trigger] texts@[i]@, threshold, i)
                &&& forall|i: int, j: int| 0 <= i < total && 0 <= j < total && i != j ==> texts@[i]@ != texts@[j]@
                &&& split_of(texts.deep_view(), key@, threshold)
            },
            Err(e) => e == ErrorKind::BadParams && !(2 <= threshold <= total)
                || e == ErrorKind::InternalRng && 2 <= threshold <= total,
        },
{
    validate_params(threshold, total)?;
    let mut seed_bytes = match os_random(KEY_SIZE) {
        Some(b) => b,
        None => return Err(ErrorKind::InternalRng),
    };
    let mut seed = [0u8; 32];
    let mut i: usize = 0;
    while i < KEY_SIZE
        invariant
            seed_bytes@.len() == KEY_SIZE,
            i <= KEY_SIZE,
        decreases KEY_SIZE - i,
    {
        seed[i] = seed_bytes[i];
        i = i + 1;
    }
    wipe_bytes(&mut seed_bytes);
    let r = split_session_key_with_seed(key, threshold, total, &seed);
    wipe_key(&mut seed);
    r
}

/// Recovers the session key from hex-encoded shares. Errors as
/// `recover_hex_spec` says; `Corrupt` when the recovered secret is not 32
/// bytes long (the buffer is wiped first).
pub fn recover_session_key(texts: &Vec<String>) -> (r: Result<SessionKey, ErrorKind>)
    ensures
        match r {
            Ok(k) => recover_hex_spec(texts.deep_view()) == Ok::<Seq<u8>, ErrorKind>(k@),
            Err(e) => match recover_hex_spec(texts.deep_view()) {
                Ok(s) => s.len() != KEY_SIZE && e == ErrorKind::Corrupt,
                Err(e2) => e == e2,
            },
        },
{
    let shares = decode_shares(texts)?;
    let mut secret = recover_secret(&shares)?;
    if secret.len() != KEY_SIZE {
        wipe_bytes(&mut secret);
        return Err(ErrorKind::Corrupt);
    }
    let key = SessionKey::from_bytes(secret.as_slice());
    wipe_bytes(&mut secret);
    key
}

} // verus!
