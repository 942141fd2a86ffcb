//! Encrypted direct messages with delivery receipts: the wire frame, the
//! table of messages awaiting a receipt, and the decisions of the
//! messaging actor. The actor's event loop, the gossip network and the
//! text serialisation of envelopes live with the host.
use crate::crypto::{
    aead_frame, aead_open, decrypt_message, draw_nonce, encrypt_message_with_nonce, message_key, Identity, KEY_SIZE,
    MAX_PLAINTEXT, NONCE_SIZE, TAG_SIZE,
};
use crate::error::ErrorKind;
use crate::primitives::{base58_decode, base58_decode_of, base58_encode, base58_of, x25519_public_of, x25519_shared_of};
use vstd::prelude::*;
use vstd::slice::slice_subrange;
use vstd::string::StringExecFns;

verus! {

/// Prefix of every peer's inbox topic; the peer's public id follows.
pub const INBOX_TOPIC_PREFIX: &'static str = "/deaddrop/inbox/";

/// Protocol version advertised to other peers.
pub const PROTOCOL_VERSION: &'static str = "/deaddrop/1.0.0";

/// Seconds after which a message still awaiting its receipt is forgotten.
pub const RECEIPT_TTL_SECS: u64 = 300;

/// Seconds between two sweeps of the receipt table.
pub const SWEEP_PERIOD_SECS: u64 = 60;

/// Seconds between two gossip heartbeats.
pub const HEARTBEAT_SECS: u64 = 1;

/// Commands that the actor's channel holds before senders are refused.
pub const COMMAND_CHANNEL_CAPACITY: usize = 100;

/// A command to the messaging actor.
pub enum P2PCommand {
    /// Encrypt `content` for the peer and publish it on the peer's inbox.
    SendMessage { target_public_key: String, content: String, message_id: String },
    /// Stop the actor after its current iteration.
    Shutdown,
}

/// A direct message as it travels inside an envelope.
pub struct GhostMessage {
    pub id: String,
    pub from: String,
    pub content: String,
    pub timestamp: u64,
}

/// The acknowledgement of a received message.
pub struct MessageReceipt {
    pub message_id: String,
    pub from: String,
    pub timestamp: u64,
}

/// What an encrypted frame carries.
pub enum P2PMessage {
    Message(GhostMessage),
    Receipt(MessageReceipt),
}

/// What the actor does after a frame has been opened and its envelope read.
pub enum ActorAction {
    /// Hand the message to the host, and publish `receipt` to the sender,
    /// sealed for `reply_key`, on `reply_topic`.
    Deliver { message: GhostMessage, receipt: MessageReceipt, reply_key: [u8; 32], reply_topic: String },
    /// Tell the host that a message it sent has been received.
    Delivered { message_id: String, target: String, delivered_at: u64 },
    /// Nothing to do: a receipt for no pending message.
    Ignore,
}

/// The inbox topic of the peer whose public id is `public_id`.
pub open spec fn inbox_topic_of(public_id: Seq<char>) -> Seq<char> {
    INBOX_TOPIC_PREFIX@ + public_id
}

/// The inbox topic of the peer whose public id is `public_id`.
pub fn inbox_topic(public_id: &str) -> (r: String)
    ensures
        r@ == inbox_topic_of(public_id@),
{
    let prefix = String::from_str(INBOX_TOPIC_PREFIX);
    prefix.concat(public_id)
}

/// The 32-byte public point that a public id names: `BadParams` when the
/// text is no base58 or decodes to another length.
pub fn decode_public_id(public_id: &str) -> (r: Result<[u8; 32], ErrorKind>)
    ensures
        match r {
            Ok(k) => base58_decode_of(public_id@) == Some(k@),
            Err(e) => e == ErrorKind::BadParams && !(base58_decode_of(public_id@) matches Some(b) && b.len() == KEY_SIZE),
        },
{
    match base58_decode(public_id) {
        Some(bytes) => {
            if bytes.len() != KEY_SIZE {
                return Err(ErrorKind::BadParams);
            }
            let mut k = [0u8; 32];
            let mut i: usize = 0;
            while i < KEY_SIZE
                invariant
                    bytes@.len() == KEY_SIZE,
                    i <= KEY_SIZE,
                    forall|j: int| 0 <= j < i ==> k@[j] == bytes@[j],
                decreases KEY_SIZE - i,
            {
                k[i] = bytes[i];
                i = i + 1;
            }
            assert(k@ =~= bytes@);
            Ok(k)
        },
        None => Err(ErrorKind::BadParams),
    }
}

/// What a peer holding `secret` reads from a wire frame: the sender's
/// public point and the plaintext, `MalformedFrame` below 32 bytes, or the
/// decryption error.
pub open spec fn frame_open_spec(secret: Seq<u8>, frame: Seq<u8>) -> Result<(Seq<u8>, Seq<u8>), ErrorKind> {
    if frame.len() < KEY_SIZE {
        Err(ErrorKind::MalformedFrame)
    } else {
        let sender = frame.subrange(0, KEY_SIZE as int);
        match aead_open(message_key(x25519_shared_of(secret, sender)), frame.subrange(KEY_SIZE as int, frame.len() as int)) {
            Ok(p) => Ok((sender, p)),
            Err(e) => Err(e),
        }
    }
}

/// Seals `payload` for the peer whose public point is `peer`, with
/// `nonce`: `own_public(32) || nonce || AEAD(message key, nonce, payload)`.
/// The peer that owns `peer` opens it to this identity's public point and
/// `payload`. `BadParams` above `MAX_PLAINTEXT` bytes.
pub fn seal_frame_with_nonce(identity: &Identity, peer: &[u8; 32], nonce: &[u8; 12], payload: &[u8]) -> (r: Result<Vec<u8>, ErrorKind>)
    requires
        identity.wf(),
    ensures
        match r {
            Ok(frame) => {
                &&& payload@.len() <= MAX_PLAINTEXT
                &&& frame@ == identity.public() + aead_frame(message_key(x25519_shared_of(identity.secret(), peer@)), nonce@, payload@)
                &&& frame@.len() == KEY_SIZE + NONCE_SIZE + payload@.len() + TAG_SIZE
                &&& forall|s: Seq<u8>|
                    s.len() == KEY_SIZE && peer@ == #[trigger] x25519_public_of(s)
                        ==> frame_open_spec(s, frame@) == Ok::<(Seq<u8>, Seq<u8>), ErrorKind>((identity.public(), payload@))
            },
            Err(e) => e == ErrorKind::BadParams && payload@.len() > MAX_PLAINTEXT,
        },
{
    let shared = identity.shared_secret(peer);
    let sealed = encrypt_message_with_nonce(&shared, nonce, payload)?;
    let own = identity.public_key();
    let mut frame: Vec<u8> = Vec::new();
    frame.extend_from_slice(own.as_slice());
    let ghost body = sealed@;
    let mut tail = sealed;
    frame.append(&mut tail);
    proof {
        assert(frame@.subrange(0, KEY_SIZE as int) =~= own@);
        assert(frame@.subrange(KEY_SIZE as int, frame@.len() as int) =~= body);
        assert(frame@ =~= own@ + body);
    }
    Ok(frame)
}

/// Seals `payload` for the peer whose public point is `peer` with a fresh
/// random nonce (see `seal_frame_with_nonce`). `BadParams` above
/// `MAX_PLAINTEXT` bytes, `InternalRng` when no nonce can be drawn.
pub fn seal_frame(identity: &Identity, peer: &[u8; 32], payload: &[u8]) -> (r: Result<Vec<u8>, ErrorKind>)
    requires
        identity.wf(),
    ensures
        match r {
            Ok(frame) => {
                &&& payload@.len() <= MAX_PLAINTEXT
                &&& frame@.subrange(0, KEY_SIZE as int) == identity.public()
                &&& frame@.len() == KEY_SIZE + NONCE_SIZE + payload@.len() + TAG_SIZE
                &&& forall|s: Seq<u8>|
                    s.len() == KEY_SIZE && peer@ == #[trigger] x25519_public_of(s)
                        ==> frame_open_spec(s, frame@) == Ok::<(Seq<u8>, Seq<u8>), ErrorKind>((identity.public(), payload@))
            },
            Err(e) => e == ErrorKind::BadParams && payload@.len() > MAX_PLAINTEXT
                || e == ErrorKind::InternalRng && payload@.len() <= MAX_PLAINTEXT,
        },
{
    if payload.len() as u64 > MAX_PLAINTEXT {
        return Err(ErrorKind::BadParams);
    }
    let nonce = draw_nonce()?;
    let r = seal_frame_with_nonce(identity, peer, &nonce, payload);
    proof {
        if r is Ok {
            assert(r->Ok_0@.subrange(0, KEY_SIZE as int) =~= identity.public());
        }
    }
    r
}

/// Opens a wire frame addressed to `identity`: the sender's public point
/// and the plaintext.
pub fn open_frame(identity: &Identity, frame: &[u8]) -> (r: Result<([u8; 32], Vec<u8>), ErrorKind>)
    requires
        identity.wf(),
    ensures
        match r {
            Ok((sender, p)) => frame_open_spec(identity.secret(), frame@) == Ok::<(Seq<u8>, Seq<u8>), ErrorKind>((sender@, p@)),
            Err(e) => frame_open_spec(identity.secret(), frame@) == Err::<(Seq<u8>, Seq<u8>), ErrorKind>(e),
        },
{
    if frame.len() < KEY_SIZE {
        return Err(ErrorKind::MalformedFrame);
    }
    let mut sender = [0u8; 32];
    let mut i: usize = 0;
    while i < KEY_SIZE
        invariant
            frame@.len() >= KEY_SIZE,
            i <= KEY_SIZE,
            forall|j: int| 0 <= j < i ==> sender@[j] == frame@[j],
        decreases KEY_SIZE - i,
    {
        sender[i] = frame[i];
        i = i + 1;
    }
    assert(sender@ =~= frame@.subrange(0, KEY_SIZE as int));
    let shared = identity.shared_secret(&sender);
    let body = slice_subrange(frame, KEY_SIZE, frame.len());
    let p = decrypt_message(&shared, body)?;
    Ok((sender, p))
}

/// A message awaiting its receipt.
pub struct PendingAck {
    pub message_id: String,
    pub target: String,
    pub sent_at: u64,
}

/// No two entries share a message id.
pub open spec fn ids_unique(s: Seq<PendingAck>) -> bool {
    forall|i: int, j: int| 0 <= i < s.len() && 0 <= j < s.len() && i != j ==> s[i].message_id@ != s[j].message_id@
}

/// Some entry has message id `k`.
pub open spec fn has_id(s: Seq<PendingAck>, k: Seq<char>) -> bool {
    exists|i: int| 0 <= i < s.len() && (#[trigger] s[i]).message_id@ == k
}

/// The entries as a map from message id to target and sending time.
pub open spec fn entries_map(s: Seq<PendingAck>) -> Map<Seq<char>, (Seq<char>, u64)> {
    Map::new(
        |k: Seq<char>| has_id(s, k),
        |k: Seq<char>| {
            let i = choose|i: int| 0 <= i < s.len() && (#[trigger] s[i]).message_id@ == k;
            (s[i].target@, s[i].sent_at)
        },
    )
}

/// The age in seconds at `now` of an entry sent at `sent_at`; a time in
/// the future counts as age zero.
pub open spec fn age(now: u64, sent_at: u64) -> int {
    if now >= sent_at {
        now - sent_at
    } else {
        0
    }
}

proof fn lemma_entries_map_at(s: Seq<PendingAck>, i: int)
    requires
        ids_unique(s),
        0 <= i < s.len(),
    ensures
        entries_map(s).contains_key(s[i].message_id@),
        entries_map(s)[s[i].message_id@] == (s[i].target@, s[i].sent_at),
{
    let k = s[i].message_id@;
    assert(has_id(s, k));
    let j = choose|j: int| 0 <= j < s.len() && (#[trigger] s[j]).message_id@ == k;
    assert(j == i);
}

proof fn lemma_entries_map_remove(s: Seq<PendingAck>, i: int)
    requires
        ids_unique(s),
        0 <= i < s.len(),
    ensures
        ids_unique(s.remove(i)),
        entries_map(s.remove(i)) == entries_map(s).remove(s[i].message_id@),
{
    let t = s.remove(i);
    assert forall|a: int| 0 <= a < t.len() implies #[trigger] t[a] == s[if a < i { a } else { a + 1 }] by {}
    assert forall|a: int, b: int| 0 <= a < t.len() && 0 <= b < t.len() && a != b implies t[a].message_id@ != t[b].message_id@ by {
        assert(t[a] == s[if a < i { a } else { a + 1 }]);
        assert(t[b] == s[if b < i { b } else { b + 1 }]);
    }
    let m = entries_map(s).remove(s[i].message_id@);
    assert forall|k: Seq<char>| #[trigger] entries_map(t).contains_key(k) <==> m.contains_key(k) by {
        if has_id(t, k) {
            let a = choose|a: int| 0 <= a < t.len() && (#[trigger] t[a]).message_id@ == k;
            let sa = if a < i { a } else { a + 1 };
            assert(t[a] == s[sa]);
            assert(has_id(s, k));
        }
        if m.contains_key(k) {
            let a = choose|a: int| 0 <= a < s.len() && (#[trigger] s[a]).message_id@ == k;
            assert(a != i);
            let ta = if a < i { a } else { a - 1 };
            assert(t[ta] == s[a]);
            assert(has_id(t, k));
        }
    }
    assert forall|k: Seq<char>| #[trigger] entries_map(t).contains_key(k) implies entries_map(t)[k] == m[k] by {
        let a = choose|a: int| 0 <= a < t.len() && (#[trigger] t[a]).message_id@ == k;
        let sa = if a < i { a } else { a + 1 };
        assert(t[a] == s[sa]);
        lemma_entries_map_at(t, a);
        lemma_entries_map_at(s, sa);
    }
    assert(entries_map(t) =~= m);
}

proof fn lemma_entries_map_push(s: Seq<PendingAck>, e: PendingAck)
    requires
        ids_unique(s),
        !has_id(s, e.message_id@),
    ensures
        ids_unique(s.push(e)),
        entries_map(s.push(e)) == entries_map(s).insert(e.message_id@, (e.target@, e.sent_at)),
{
    let t = s.push(e);
    assert forall|a: int| 0 <= a < s.len() implies #[trigger] t[a] == s[a] by {}
    assert forall|a: int, b: int| 0 <= a < t.len() && 0 <= b < t.len() && a != b implies t[a].message_id@ != t[b].message_id@ by {
        if a < s.len() && b == s.len() {
            assert(s[a] == t[a]);
        }
        if b < s.len() && a == s.len() {
            assert(s[b] == t[b]);
        }
    }
    let m = entries_map(s).insert(e.message_id@, (e.target@, e.sent_at));
    assert forall|k: Seq<char>| #[trigger] entries_map(t).contains_key(k) <==> m.contains_key(k) by {
        if has_id(t, k) && k != e.message_id@ {
            let a = choose|a: int| 0 <= a < t.len() && (#[trigger] t[a]).message_id@ == k;
            assert(a < s.len());
            assert(has_id(s, k));
        }
        if has_id(s, k) {
            let a = choose|a: int| 0 <= a < s.len() && (#[trigger] s[a]).message_id@ == k;
            assert(t[a] == s[a]);
            assert(has_id(t, k));
        }
        if k == e.message_id@ {
            assert(t[s.len() as int] == e);
            assert(has_id(t, k));
        }
    }
    assert forall|k: Seq<char>| #[trigger] entries_map(t).contains_key(k) implies entries_map(t)[k] == m[k] by {
        let a = choose|a: int| 0 <= a < t.len() && (#[trigger] t[a]).message_id@ == k;
        lemma_entries_map_at(t, a);
        if a < s.len() {
            assert(t[a] == s[a]);
            lemma_entries_map_at(s, a);
        }
    }
    assert(entries_map(t) =~= m);
}

/// Messages sent and not yet acknowledged: message id to target public
/// id and sending time, one entry per message id.
pub struct PendingAcks {
    pending: Vec<PendingAck>,
}

impl PendingAcks {
    /// The table as a map from message id to target and sending time.
    pub closed spec fn view(&self) -> Map<Seq<char>, (Seq<char>, u64)> {
        entries_map(self.pending@)
    }

    /// One entry per message id.
    pub closed spec fn wf(&self) -> bool {
        ids_unique(self.pending@)
    }

    /// An empty table.
    pub fn new() -> (r: Self)
        ensures
            r.wf(),
            r@ == Map::<Seq<char>, (Seq<char>, u64)>::empty(),
    {
        let r = PendingAcks { pending: Vec::new() };
        assert(r@ =~= Map::<Seq<char>, (Seq<char>, u64)>::empty());
        r
    }

    /// Number of messages awaiting a receipt.
    pub fn len(&self) -> (r: usize)
        requires
            self.wf(),
        ensures
            r == self@.len(),
    {
        proof {
            self.lemma_len();
        }
        self.pending.len()
    }

    proof fn lemma_len(&self)
        requires
            self.wf(),
        ensures
            self@.dom().finite(),
            self@.len() == self.pending@.len(),
        decreases self.pending@.len(),
    {
        let s = self.pending@;
        let ids = s.map_values(|e: PendingAck| e.message_id@);
        assert(ids.no_duplicates()) by {
            assert forall|a: int, b: int| 0 <= a < ids.len() && 0 <= b < ids.len() && a != b implies ids[a] != ids[b] by {}
        }
        assert(self@.dom() =~= ids.to_set()) by {
            assert forall|k: Seq<char>| self@.dom().contains(k) <==> ids.to_set().contains(k) by {
                if has_id(s, k) {
                    let a = choose|a: int| 0 <= a < s.len() && (#[trigger] s[a]).message_id@ == k;
                    assert(ids[a] == k);
                }
                if ids.to_set().contains(k) {
                    let a = choose|a: int| 0 <= a < ids.len() && ids[a] == k;
                    assert(s[a].message_id@ == k);
                }
            }
        }
        ids.unique_seq_to_set();
    }

    /// Index of the entry for `message_id`, if any.
    fn position(&self, message_id: &String) -> (r: Option<usize>)
        ensures
            match r {
                Some(i) => i < self.pending@.len() && self.pending@[i as int].message_id@ == message_id@,
                None => !has_id(self.pending@, message_id@),
            },
    {
        let mut i: usize = 0;
        while i < self.pending.len()
            invariant
                i <= self.pending@.len(),
                forall|j: int| 0 <= j < i ==> (#[trigger] self.pending@[j]).message_id@ != message_id@,
            decreases self.pending@.len() - i,
        {
            if self.pending[i].message_id == *message_id {
                return Some(i);
            }
            i = i + 1;
        }
        None
    }

    /// Records that `message_id` was sent to `target` at `now`, replacing
    /// an earlier entry for the same id.
    pub fn add(&mut self, message_id: String, target: String, now: u64)
        requires
            old(self).wf(),
        ensures
            final(self).wf(),
            final(self)@ == old(self)@.insert(message_id@, (target@, now)),
    {
        let ghost id = message_id@;
        let ghost entry = (target@, now);
        if let Some(i) = self.position(&message_id) {
            proof {
                lemma_entries_map_remove(self.pending@, i as int);
            }
            self.pending.remove(i);
            proof {
                assert(!has_id(self.pending@, id)) by {
                    if has_id(self.pending@, id) {
                        let a = choose|a: int| 0 <= a < self.pending@.len() && (#[trigger] self.pending@[a]).message_id@ == id;
                        assert(entries_map(self.pending@).contains_key(id));
                    }
                }
            }
        }
        let ghost before = self@;
        let e = PendingAck { message_id, target, sent_at: now };
        proof {
            lemma_entries_map_push(self.pending@, e);
        }
        self.pending.push(e);
        assert(self@ =~= old(self)@.insert(id, entry));
    }

    /// Takes the entry for `message_id` out of the table.
    pub fn remove(&mut self, message_id: &str) -> (r: Option<(String, u64)>)
        requires
            old(self).wf(),
        ensures
            final(self).wf(),
            final(self)@ == old(self)@.remove(message_id@),
            match r {
                Some((target, sent_at)) => old(self)@.contains_key(message_id@)
                    && old(self)@[message_id@] == (target@, sent_at),
                None => !old(self)@.contains_key(message_id@),
            },
    {
        let id = message_id.to_owned();
        match self.position(&id) {
            Some(i) => {
                proof {
                    lemma_entries_map_remove(self.pending@, i as int);
                    lemma_entries_map_at(self.pending@, i as int);
                }
                let e = self.pending.remove(i);
                Some((e.target, e.sent_at))
            },
            None => {
                assert(self@ =~= old(self)@.remove(message_id@));
                None
            },
        }
    }

    /// Forgets every entry whose age at `now` is `max_age_secs` or more.
    pub fn cleanup_old(&mut self, max_age_secs: u64, now: u64)
        requires
            old(self).wf(),
        ensures
            final(self).wf(),
            forall|k: Seq<char>|
                #[trigger] final(self)@.contains_key(k) <==> old(self)@.contains_key(k) && age(now, old(self)@[k].1) < max_age_secs,
            forall|k: Seq<char>| #[trigger] final(self)@.contains_key(k) ==> final(self)@[k] == old(self)@[k],
    {
        let ghost s = self.pending@;
        let mut kept: Vec<PendingAck> = Vec::new();
        let mut rest: Vec<PendingAck> = Vec::new();
        core::mem::swap(&mut self.pending, &mut rest);
        proof {
            assert(rest@ == s);
        }
        let len0 = rest.len();
        let mut i: usize = 0;
        while rest.len() > 0
            invariant
                len0 == s.len(),
                ids_unique(s),
                rest@ == s.subrange(i as int, s.len() as int),
                i <= s.len(),
                ids_unique(kept@),
                forall|a: int| 0 <= a < kept@.len() ==> exists|j: int| 0 <= j < i && #[trigger] kept@[a] == s[j],
                forall|j: int| 0 <= j < i ==> (age(now, (#[trigger] s[j]).sent_at) < max_age_secs <==> has_id(kept@, s[j].message_id@)),
            decreases rest@.len(),
        {
            let e = rest.remove(0);
            proof {
                assert(e == s[i as int]);
                assert(rest@ =~= s.subrange(i + 1, s.len() as int));
            }
            let fresh = if now >= e.sent_at { now - e.sent_at < max_age_secs } else { max_age_secs > 0 };
            if fresh {
                proof {
                    assert(!has_id(kept@, e.message_id@)) by {
                        if has_id(kept@, e.message_id@) {
                            let a = choose|a: int| 0 <= a < kept@.len() && (#[trigger] kept@[a]).message_id@ == e.message_id@;
                            let j = choose|j: int| 0 <= j < i && #[trigger] kept@[a] == s[j];
                            assert(s[j].message_id@ != s[i as int].message_id@);
                        }
                    }
                    lemma_entries_map_push(kept@, e);
                    let ghost k2 = kept@.push(e);
                    assert forall|j: int| 0 <= j < i + 1 implies (age(now, (#[trigger] s[j]).sent_at) < max_age_secs <==> has_id(k2, s[j].message_id@)) by {
                        if j < i {
                            if has_id(kept@, s[j].message_id@) {
                                let a = choose|a: int| 0 <= a < kept@.len() && (#[trigger] kept@[a]).message_id@ == s[j].message_id@;
                                assert(k2[a] == kept@[a]);
                            }
                            if has_id(k2, s[j].message_id@) {
                                let a = choose|a: int| 0 <= a < k2.len() && (#[trigger] k2[a]).message_id@ == s[j].message_id@;
                                if a == kept@.len() {
                                    assert(s[j].message_id@ != s[i as int].message_id@);
                                } else {
                                    assert(k2[a] == kept@[a]);
                                }
                            }
                        } else {
                            assert(k2[kept@.len() as int] == e);
                        }
                    }
                }
                kept.push(e);
                proof {
                    assert forall|a: int| 0 <= a < kept@.len() implies exists|j: int| 0 <= j < i + 1 && #[trigger] kept@[a] == s[j] by {
                        if a == kept@.len() - 1 {
                            assert(kept@[a] == s[i as int]);
                        }
                    }
                }
            } else {
                proof {
                    assert(!has_id(kept@, e.message_id@)) by {
                        if has_id(kept@, e.message_id@) {
                            let a = choose|a: int| 0 <= a < kept@.len() && (#[trigger] kept@[a]).message_id@ == e.message_id@;
                            let j = choose|j: int| 0 <= j < i && #[trigger] kept@[a] == s[j];
                            assert(s[j].message_id@ != s[i as int].message_id@);
                        }
                    }
                }
            }
            i = i + 1;
        }
        self.pending = kept;
        proof {
            let t = self.pending@;
            assert forall|k: Seq<char>| #[trigger] entries_map(t).contains_key(k) implies has_id(s, k) && entries_map(t)[k] == entries_map(s)[k] by {
                let a = choose|a: int| 0 <= a < t.len() && (#[trigger] t[a]).message_id@ == k;
                let j = choose|j: int| 0 <= j < i && #[trigger] t[a] == s[j];
                lemma_entries_map_at(t, a);
                lemma_entries_map_at(s, j);
            }
            assert forall|k: Seq<char>| #[trigger] entries_map(t).contains_key(k) <==> entries_map(s).contains_key(k) && age(now, entries_map(s)[k].1) < max_age_secs by {
                if has_id(s, k) {
                    let j = choose|j: int| 0 <= j < s.len() && (#[trigger] s[j]).message_id@ == k;
                    lemma_entries_map_at(s, j);
                }
            }
        }
    }
}

/// The actor's decision on an envelope opened from a frame sent by
/// `sender_key`. A message is delivered to the host and answered with a
/// receipt from `own_public_id` stamped `now`, on the inbox of the public
/// id of `sender_key`. A
/// receipt for a pending message removes it and reports its delivery; any
/// other receipt is ignored.
pub fn on_envelope(pending: &mut PendingAcks, own_public_id: &str, sender_key: [u8; 32], envelope: P2PMessage, now: u64) -> (r: ActorAction)
    requires
        old(pending).wf(),
    ensures
        final(pending).wf(),
        match envelope {
            P2PMessage::Message(m) => {
                &&& final(pending)@ == old(pending)@
                &&& r matches ActorAction::Deliver { message, receipt, reply_key, reply_topic }
                &&& message == m
                &&& receipt.message_id@ == m.id@
                &&& receipt.from@ == own_public_id@
                &&& receipt.timestamp == now
                &&& reply_key == sender_key
                &&& reply_topic@ == inbox_topic_of(base58_of(sender_key@))
            },
            P2PMessage::Receipt(rc) => {
                &&& final(pending)@ == old(pending)@.remove(rc.message_id@)
                &&& if old(pending)@.contains_key(rc.message_id@) {
                    r matches ActorAction::Delivered { message_id, target, delivered_at }
                        && message_id@ == rc.message_id@
                        && target@ == old(pending)@[rc.message_id@].0
                        && delivered_at == rc.timestamp
                } else {
                    r is Ignore
                }
            },
        },
{
    match envelope {
        P2PMessage::Message(m) => {
            let sender_id = base58_encode(sender_key.as_slice());
            let reply_topic = inbox_topic(sender_id.as_str());
            let receipt = MessageReceipt { message_id: m.id.clone(), from: own_public_id.to_owned(), timestamp: now };
            ActorAction::Deliver { message: m, receipt, reply_key: sender_key, reply_topic }
        },
        P2PMessage::Receipt(rc) => {
            match pending.remove(rc.message_id.as_str()) {
                Some((target, _)) => ActorAction::Delivered { message_id: rc.message_id, target, delivered_at: rc.timestamp },
                None => ActorAction::Ignore,
            }
        },
    }
}

/// Records the outcome of publishing message `message_id` to `target`: a
/// published message awaits its receipt from `now`; a failed publish is
/// `SendFailed` and records nothing.
pub fn after_publish(pending: &mut PendingAcks, message_id: String, target: String, now: u64, published: bool) -> (r: Result<(), ErrorKind>)
    requires
        old(pending).wf(),
    ensures
        final(pending).wf(),
        published ==> r is Ok && final(pending)@ == old(pending)@.insert(message_id@, (target@, now)),
        !published ==> r == Err::<(), ErrorKind>(ErrorKind::SendFailed) && final(pending)@ == old(pending)@,
{
    if published {
        pending.add(message_id, target, now);
        Ok(())
    } else {
        Err(ErrorKind::SendFailed)
    }
}

/// The periodic sweep: forgets messages older than `RECEIPT_TTL_SECS`.
pub fn sweep(pending: &mut PendingAcks, now: u64)
    requires
        old(pending).wf(),
    ensures
        final(pending).wf(),
        forall|k: Seq<char>|
            #[trigger] final(pending)@.contains_key(k) <==> old(pending)@.contains_key(k) && age(now, old(pending)@[k].1) < RECEIPT_TTL_SECS,
        forall|k: Seq<char>| #[trigger] final(pending)@.contains_key(k) ==> final(pending)@[k] == old(pending)@[k],
{
    pending.cleanup_old(RECEIPT_TTL_SECS, now);
}

} // verus!
