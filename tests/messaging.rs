use deaddrop::crypto::{encrypt_message_with_nonce, Identity};
use deaddrop::error::ErrorKind;
use deaddrop::messaging::{
    after_publish, decode_public_id, inbox_topic, on_envelope, open_frame, seal_frame, seal_frame_with_nonce, sweep,
    ActorAction, GhostMessage, MessageReceipt, P2PMessage, PendingAcks, RECEIPT_TTL_SECS,
};

#[test]
fn pending_acks_add_remove() {
    let mut p = PendingAcks::new();
    assert_eq!(p.len(), 0);
    p.add("m1".to_string(), "bob".to_string(), 100);
    p.add("m2".to_string(), "carol".to_string(), 110);
    p.add("m1".to_string(), "dave".to_string(), 120);
    assert_eq!(p.len(), 2);
    assert_eq!(p.remove("m1"), Some(("dave".to_string(), 120)));
    assert_eq!(p.remove("m1"), None);
    assert_eq!(p.len(), 1);
    assert_eq!(p.remove("m2"), Some(("carol".to_string(), 110)));
}

#[test]
fn pending_acks_cleanup() {
    let mut p = PendingAcks::new();
    p.add("old".to_string(), "a".to_string(), 1000);
    p.add("edge".to_string(), "b".to_string(), 1001);
    p.add("new".to_string(), "c".to_string(), 1250);
    p.add("future".to_string(), "d".to_string(), 2000);
    p.cleanup_old(300, 1300);
    assert_eq!(p.len(), 3);
    assert_eq!(p.remove("old"), None);
    assert_eq!(p.remove("edge"), Some(("b".to_string(), 1001)));
    assert_eq!(p.remove("future"), Some(("d".to_string(), 2000)));
    sweep(&mut p, 1250 + RECEIPT_TTL_SECS);
    assert_eq!(p.len(), 0);
}

#[test]
fn failed_publish_records_nothing() {
    let mut p = PendingAcks::new();
    assert_eq!(after_publish(&mut p, "m".to_string(), "t".to_string(), 5, false), Err(ErrorKind::SendFailed));
    assert_eq!(p.len(), 0);
    assert_eq!(after_publish(&mut p, "m".to_string(), "t".to_string(), 5, true), Ok(()));
    assert_eq!(p.remove("m"), Some(("t".to_string(), 5)));
}

#[test]
fn topics_and_public_ids() {
    assert_eq!(inbox_topic("abc"), "/deaddrop/inbox/abc");
    let id = Identity::generate().unwrap();
    assert_eq!(decode_public_id(&id.public_id()), Ok(id.public_key()));
    assert_eq!(decode_public_id("0OIl"), Err(ErrorKind::BadParams));
    assert_eq!(decode_public_id("11Ldp"), Err(ErrorKind::BadParams));
}

#[test]
fn frames_between_peers() {
    let alice = Identity::generate().unwrap();
    let bob = Identity::generate().unwrap();
    let frame = seal_frame(&alice, &bob.public_key(), b"{\"type\":\"message\"}").unwrap();
    assert_eq!(&frame[..32], &alice.public_key());
    assert_eq!(frame.len(), 32 + 12 + 18 + 16);
    let (sender, payload) = open_frame(&bob, &frame).unwrap();
    assert_eq!(sender, alice.public_key());
    assert_eq!(payload, b"{\"type\":\"message\"}".to_vec());
    assert!(matches!(open_frame(&bob, &frame[..31]), Err(ErrorKind::MalformedFrame)));
    let eve = Identity::generate().unwrap();
    assert!(matches!(open_frame(&eve, &frame), Err(ErrorKind::AuthFailure)));
}

#[test]
fn messaging_ack_flow() {
    let mut a_pending = PendingAcks::new();
    let mut b_pending = PendingAcks::new();
    after_publish(&mut a_pending, "id-1".to_string(), "B".to_string(), 10, true).unwrap();
    let alice = Identity::generate().unwrap();
    let msg = GhostMessage { id: "id-1".to_string(), from: alice.public_id(), content: "ping".to_string(), timestamp: 10 };
    let action = on_envelope(&mut b_pending, "B", alice.public_key(), P2PMessage::Message(msg), 11);
    let receipt = match action {
        ActorAction::Deliver { message, receipt, reply_key, reply_topic } => {
            assert_eq!(message.content, "ping");
            assert_eq!(reply_key, alice.public_key());
            assert_eq!(reply_topic, inbox_topic(&alice.public_id()));
            assert_eq!(receipt.message_id, "id-1");
            assert_eq!(receipt.from, "B");
            assert_eq!(receipt.timestamp, 11);
            receipt
        }
        _ => panic!("a message is delivered"),
    };
    match on_envelope(&mut a_pending, "A", [5u8; 32], P2PMessage::Receipt(receipt), 12) {
        ActorAction::Delivered { message_id, target, delivered_at } => {
            assert_eq!(message_id, "id-1");
            assert_eq!(target, "B");
            assert_eq!(delivered_at, 11);
        }
        _ => panic!("the receipt reports delivery"),
    }
    assert_eq!(a_pending.len(), 0);
    let again = MessageReceipt { message_id: "id-1".to_string(), from: "B".to_string(), timestamp: 13 };
    assert!(matches!(on_envelope(&mut a_pending, "A", [5u8; 32], P2PMessage::Receipt(again), 14), ActorAction::Ignore));
}

#[test]
fn error_messages() {
    assert_eq!(ErrorKind::WrongPassword.message(), ErrorKind::AuthFailure.message());
    assert_eq!(ErrorKind::WrongPassword.message(), "authentication failed");
    assert_ne!(ErrorKind::RemoteFailure.message(), ErrorKind::TransportFailure.message());
}

#[test]
fn frame_with_given_nonce_is_exact() {
    let alice = Identity::from_secret([1u8; 32]);
    let bob = Identity::from_secret([2u8; 32]);
    let nonce = [7u8; 12];
    let a = seal_frame_with_nonce(&alice, &bob.public_key(), &nonce, b"hi").unwrap();
    let b = seal_frame_with_nonce(&alice, &bob.public_key(), &nonce, b"hi").unwrap();
    assert_eq!(a, b);
    assert_eq!(&a[32..44], &nonce);
    let shared = alice.shared_secret(&bob.public_key());
    assert_eq!(a[32..].to_vec(), encrypt_message_with_nonce(&shared, &nonce, b"hi").unwrap());
    assert_eq!(open_frame(&bob, &a).unwrap(), (alice.public_key(), b"hi".to_vec()));
}
