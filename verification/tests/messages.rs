use cs244b_project::blockchain::block::Block;
use cs244b_project::crypto::{PublicKey, Signature};
use cs244b_project::messages::{Message, MessageKind, MessagePayload, SocketAddr};
use cs244b_project::peer_init::{PeerAdvertisement, Timestamp};
use cs244b_project::prototype::messages::{
    Message as SketchMessage, MessageHeader as SketchHeader, MessageKind as SketchKind,
};
use cs244b_project::prototype::utils::messages::MessagePayload as SketchPayload;
use cs244b_project::example::messages::{
    Message as ExampleMessage, MessageHeader as ExampleHeader, MessageKind as ExampleKind,
    MessagePayload as ExamplePayload,
};
use sha2::Digest;

fn sha256(data: &[u8]) -> [u8; 32] {
    let digest = sha2::Sha256::digest(data);
    let mut out = [0u8; 32];
    out.copy_from_slice(&digest);
    out
}

fn same_block(a: &Block, b: &Block) -> bool {
    a.epoch == b.epoch
        && a.hash == b.hash
        && a.parent_hash == b.parent_hash
        && a.data == b.data
        && a.height == b.height
        && a.nonce == b.nonce
}

#[test]
fn test_message_serdes() {
    let bytes = sha256(b"hello world");
    let blk = Block::new(0, bytes, String::from("test").into_bytes(), 0, 0);
    let message = Message::new(MessagePayload::Block(blk), MessageKind::Vote, 0, String::from("test"));
    let serialized_message = message.serialize();
    let deserialized_message = Message::deserialize(&serialized_message);
    assert_eq!(message.kind, deserialized_message.kind);
    assert_eq!(message.nonce, deserialized_message.nonce);
    assert_eq!(message.tag, deserialized_message.tag);
    assert_eq!(message.sender_id, deserialized_message.sender_id);
    assert_eq!(message.sender_name, deserialized_message.sender_name);
    assert_eq!(message.signature_count(), deserialized_message.signature_count());
    match (&message.payload, &deserialized_message.payload) {
        (MessagePayload::Block(a), MessagePayload::Block(b)) => assert!(same_block(a, b)),
        _ => panic!("payload changed kind"),
    }
    assert_eq!(deserialized_message.serialize(), serialized_message);
}

#[test]
fn message_with_advertisement_and_signatures_reads_back() {
    let ad = PeerAdvertisement {
        public_key: PublicKey { bytes: [3u8; 32] },
        node_id: 7,
        node_name: String::from("node-é"),
        timestamp: Timestamp { secs_since_epoch: 1_600_000_000, nanos_since_epoch: 42 },
        end_init: true,
        known_peers: vec![String::from("a"), String::from("bb"), String::new()],
    };
    let mut m = Message::new_with_defined_nonce(
        MessagePayload::PeerAdvertisement(ad),
        MessageKind::PeerInit,
        11,
        5,
        String::from("sender"),
    );
    m.sign_message(Signature { bytes: [1u8; 64] });
    m.sign_message(Signature { bytes: [2u8; 64] });
    let bytes = m.serialize();
    let back = Message::decode(&bytes).expect("reads back");
    assert_eq!(back.nonce, 11);
    assert_eq!(back.sender_id, 5);
    assert_eq!(back.kind, MessageKind::PeerInit);
    assert_eq!(back.signatures.len(), 2);
    assert_eq!(back.signatures[1].bytes, [2u8; 64]);
    match back.payload {
        MessagePayload::PeerAdvertisement(a) => {
            assert_eq!(a.node_id, 7);
            assert_eq!(a.node_name, "node-é");
            assert_eq!(a.public_key.bytes, [3u8; 32]);
            assert!(a.end_init);
            assert_eq!(a.known_peers, vec![String::from("a"), String::from("bb"), String::new()]);
            assert_eq!(a.timestamp, Timestamp { secs_since_epoch: 1_600_000_000, nanos_since_epoch: 42 });
        }
        _ => panic!("payload changed kind"),
    }
}

#[test]
fn every_payload_kind_reads_back() {
    let payloads = vec![
        MessagePayload::String(String::from("hi")),
        MessagePayload::AppData(vec![9, 8, 7]),
        MessagePayload::SocketAddr(SocketAddr { ip: [127, 0, 0, 1], port: 8080 }),
        MessagePayload::Empty,
    ];
    for p in payloads {
        let bytes = p.serialize();
        let back = MessagePayload::decode(&bytes).expect("reads back");
        assert_eq!(back.serialize(), bytes);
    }
}

#[test]
fn payload_bytes_layout() {
    assert_eq!(MessagePayload::Empty.serialize(), vec![5, 0, 0, 0]);
    let s = MessagePayload::String(String::from("ab")).serialize();
    assert_eq!(s, vec![1, 0, 0, 0, 2, 0, 0, 0, 0, 0, 0, 0, b'a', b'b']);
    let a = MessagePayload::SocketAddr(SocketAddr { ip: [10, 0, 0, 1], port: 0x1234 }).serialize();
    assert_eq!(a, vec![4, 0, 0, 0, 0, 0, 0, 0, 10, 0, 0, 1, 0x34, 0x12]);
}

#[test]
fn truncated_or_corrupt_bytes_do_not_decode() {
    let m = Message::new_with_defined_nonce(MessagePayload::Empty, MessageKind::Test, 1, 2, String::from("x"));
    let bytes = m.serialize();
    for cut in 0..bytes.len() {
        assert!(Message::decode(&bytes[..cut]).is_none());
    }
    let mut bad_kind = bytes.clone();
    bad_kind[4] = 99;
    assert!(Message::decode(&bad_kind).is_none());
    let mut bad_variant = bytes.clone();
    bad_variant[0] = 6;
    assert!(Message::decode(&bad_variant).is_none());
    let invalid_utf8 = vec![1, 0, 0, 0, 1, 0, 0, 0, 0, 0, 0, 0, 0xff];
    assert!(MessagePayload::decode(&invalid_utf8).is_none());
}

#[test]
fn message_constructors_and_signatures() {
    let m = Message::new_with_defined_tag(MessagePayload::Empty, MessageKind::AppRequest, 77, 3, String::from("n"));
    assert_eq!(m.tag, 77);
    assert_eq!(m.signature_count(), 0);
    let mut m2 = Message::new_with_defined_nonce(MessagePayload::Empty, MessageKind::Vote, 4, 3, String::from("n"));
    assert_eq!(m2.nonce, 4);
    m2.sign_message(Signature { bytes: [5u8; 64] });
    assert_eq!(m2.signature_count(), 1);
    assert_eq!(m2.serialize_payload(), MessagePayload::Empty.serialize());
    let sigs = m2.get_signatures();
    assert_eq!(sigs.len(), 1);
    assert_eq!(sigs[0].bytes, [5u8; 64]);
}

#[test]
fn prototype_test_message_serdes() {
    let bytes = sha256(b"hello world");
    let payload = SketchPayload { parent_hash: bytes, epoch: 0, payload_string: String::from("test") };
    let message = SketchMessage {
        header: SketchHeader { destination: String::from("test destination") },
        payload: SketchPayload { parent_hash: bytes, epoch: 0, payload_string: String::from("test") },
        kind: SketchKind::Vote,
        signatures: Vec::new(),
    };
    let encoded_payload = message.serialize_payload();
    let decoded_payload = SketchPayload::deserialize(&encoded_payload);
    assert_eq!(payload.parent_hash, decoded_payload.parent_hash);
    assert_eq!(payload.epoch, decoded_payload.epoch);
    assert_eq!(payload.payload_string, decoded_payload.payload_string);
}

#[test]
fn messages_test_message_serdes() {
    let bytes = sha256(b"hello world");
    let message = ExampleMessage {
        header: ExampleHeader { destination: String::from("test destination") },
        payload: ExamplePayload { parent_hash: bytes, epoch: 0, payload_string: String::from("test") },
        kind: ExampleKind::Vote,
        signatures: Vec::new(),
    };
    let serialized_message = message.serialize();
    let deserialized_message = ExampleMessage::deserialize(&serialized_message);
    assert_eq!(message.header.destination, deserialized_message.header.destination);
    assert_eq!(message.payload.parent_hash, deserialized_message.payload.parent_hash);
    assert_eq!(message.payload.epoch, deserialized_message.payload.epoch);
    assert_eq!(message.payload.payload_string, deserialized_message.payload.payload_string);
    assert_eq!(message.kind, deserialized_message.kind);
    assert_eq!(deserialized_message.signatures.len(), 0);
}

#[test]
fn sketch_payload_layout_and_rejection() {
    let p = SketchPayload { parent_hash: [1u8; 32], epoch: 0x01020304, payload_string: String::from("z") };
    let bytes = p.serialize();
    let mut expected = vec![1u8; 32];
    expected.extend_from_slice(&[4, 3, 2, 1]);
    expected.extend_from_slice(&[1, 0, 0, 0, 0, 0, 0, 0, b'z']);
    assert_eq!(bytes, expected);
    assert!(SketchPayload::decode(&bytes[..bytes.len() - 1]).is_none());
    let m = SketchMessage {
        header: SketchHeader { destination: String::from("d") },
        payload: p,
        kind: SketchKind::Propose,
        signatures: vec![Signature { bytes: [6u8; 64] }],
    };
    let mb = m.serialize();
    let back = SketchMessage::decode(&mb).expect("reads back");
    assert_eq!(back.kind, SketchKind::Propose);
    assert_eq!(back.signatures[0].bytes, [6u8; 64]);
    let mut bad = mb.clone();
    let last = bad.len() - 4;
    bad[last] = 2;
    assert!(SketchMessage::decode(&bad).is_none());
}
