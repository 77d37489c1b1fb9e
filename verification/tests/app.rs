use cs244b_project::app::app_interface::{AppInterface, APP_SENDER_ID};
use cs244b_project::app::application::{AppEvent, Application, OnionRouterBasicData, OnionRouterNetDirectory};
use cs244b_project::app::directory::{init_one_directory_service, DirectoryEntry, NUM_DIR_SERVERS};
use cs244b_project::blockchain::block::Block;
use cs244b_project::crypto::{Keypair, PublicKey};
use cs244b_project::messages::{Message, MessageKind, MessagePayload};
use cs244b_project::network::{NetAction, NetworkStack};

#[test]
fn test_app_serialization() {
    let dir = OnionRouterNetDirectory::new();
    let bytes = dir.to_bytes();
    let dir2: Vec<(String, String, String)> = bincode::deserialize(&bytes[..]).expect("Can't deserialize directory");
    assert_eq!(dir.or_list.len(), dir2.len());
    for (a, b) in dir.or_list.iter().zip(dir2.iter()) {
        assert_eq!(a.ip, b.0);
        assert_eq!(a.onion_key, b.1);
        assert_eq!(a.full_hash, b.2);
    }
}

#[test]
fn random_routers_have_the_documented_shape() {
    let r = OnionRouterBasicData::new();
    assert_eq!(r.onion_key.len(), 128);
    assert_eq!(r.full_hash.len(), 64);
    assert!(r.onion_key.chars().all(|c| c.is_ascii_alphanumeric()));
    let parts: Vec<&str> = r.ip.split('.').collect();
    assert_eq!(parts.len(), 4);
    for p in parts {
        let v: u32 = p.parse().expect("decimal octet");
        assert!(v < 255);
    }
    let d = OnionRouterNetDirectory::new();
    assert!(d.or_list.len() >= 2 && d.or_list.len() < 20);
    for r in &d.or_list {
        assert_eq!(r.onion_key.len(), 128);
        assert_eq!(r.full_hash.len(), 64);
        assert!(r.full_hash.chars().all(|c| c.is_ascii_alphanumeric()));
        assert_eq!(r.ip.split('.').count(), 4);
    }
}

#[test]
fn directory_bytes_layout() {
    let d = OnionRouterNetDirectory {
        or_list: vec![OnionRouterBasicData {
            ip: String::from("1.2.3.4"),
            onion_key: String::from("k"),
            full_hash: String::from("h"),
        }],
    };
    let mut expected = vec![1, 0, 0, 0, 0, 0, 0, 0];
    expected.extend_from_slice(&[7, 0, 0, 0, 0, 0, 0, 0]);
    expected.extend_from_slice(b"1.2.3.4");
    expected.extend_from_slice(&[1, 0, 0, 0, 0, 0, 0, 0, b'k']);
    expected.extend_from_slice(&[1, 0, 0, 0, 0, 0, 0, 0, b'h']);
    assert_eq!(d.to_bytes(), expected);
}

#[test]
fn application_requests_and_responses() {
    let mut app = Application::new();
    let req = app.on_user_input("request block");
    assert_eq!(req.kind, MessageKind::AppBlockRequest);
    assert_eq!(req.nonce, 1);
    assert_eq!(req.sender_id, APP_SENDER_ID);
    assert_eq!(req.sender_name, "app");
    assert_eq!(req.signature_count(), 0);
    assert!(app.outstanding_requests.contains(&1));

    let chain_req = app.on_user_input("request chain");
    assert_eq!(chain_req.kind, MessageKind::AppChainRequest);
    assert_eq!(chain_req.nonce, 2);
    assert!(app.outstanding_requests.contains(&2));

    let data = app.on_user_input("anything else");
    assert_eq!(data.kind, MessageKind::AppSend);
    assert_eq!(data.nonce, 3);
    assert_eq!(data.sender_id, APP_SENDER_ID);
    assert_eq!(data.sender_name, "app");
    assert_eq!(data.signature_count(), 1);
    match &data.payload {
        MessagePayload::AppData(bytes) => {
            assert!(app.keypair.public.verify(bytes, &data.signatures[0]));
        }
        _ => panic!("directory data expected"),
    }

    // An answer with an unknown nonce is ignored.
    let stray = Message::new_with_defined_nonce(
        MessagePayload::Empty,
        MessageKind::AppBlockResponse,
        9,
        1,
        String::from("node"),
    );
    assert!(matches!(app.on_network_message(&stray), AppEvent::Ignored));

    // The answer to the outstanding request settles it.
    let block = Block::new(3, [0u8; 32], vec![1, 2, 3], 1, 0);
    let answer = Message::new_with_defined_nonce(
        MessagePayload::Block(block),
        MessageKind::AppBlockResponse,
        1,
        1,
        String::from("node"),
    );
    match app.on_network_message(&answer) {
        AppEvent::DirectoryData(d) => assert_eq!(d, vec![1, 2, 3]),
        other => panic!("unexpected event {:?}", other),
    }
    assert!(!app.outstanding_requests.contains(&1));
    assert!(matches!(app.on_network_message(&answer), AppEvent::Ignored));
}

#[test]
fn application_reports_genesis_and_non_blocks() {
    let mut app = Application::new();
    let r1 = app.make_latest_block_request();
    app.outstanding_requests.insert(r1.nonce);
    let genesis = Block::new(0, [0u8; 32], vec![], 0, 0);
    let m = Message::new_with_defined_nonce(MessagePayload::Block(genesis), MessageKind::AppBlockResponse, r1.nonce, 1, String::from("n"));
    assert!(matches!(app.on_network_message(&m), AppEvent::GenesisBlock));
    let r2 = app.make_latest_block_request();
    app.outstanding_requests.insert(r2.nonce);
    let m2 = Message::new_with_defined_nonce(MessagePayload::Empty, MessageKind::AppBlockResponse, r2.nonce, 1, String::from("n"));
    assert!(matches!(app.on_network_message(&m2), AppEvent::NotABlock));
}

#[test]
fn app_interface_recognizes_app_messages() {
    let mut net = NetworkStack::new("streamlet");
    let _ = net.take_pending();
    let iface = AppInterface::new(&mut net);
    let actions = net.take_pending();
    assert_eq!(actions.len(), 1);
    assert!(matches!(&actions[0], NetAction::Subscribe(t) if t == "app"));
    let from_app = Message::new(MessagePayload::Empty, MessageKind::AppSend, APP_SENDER_ID, String::from("app"));
    assert!(iface.message_is_from_app(&from_app));
    let from_node = Message::new(MessagePayload::Empty, MessageKind::Vote, 3, String::from("node"));
    assert!(!iface.message_is_from_app(&from_node));
}

fn keys(n: usize) -> (Vec<Keypair>, Vec<PublicKey>) {
    let all: Vec<Keypair> = (0..n).map(|_| Keypair::generate()).collect();
    let public = all.iter().map(|k| k.public).collect();
    (all, public)
}

#[test]
fn directory_entries_signed_by_a_majority_are_valid() {
    let (all, public) = keys(NUM_DIR_SERVERS);
    let mut service = init_one_directory_service(&all, &public);
    let mut count = 0;
    while let Some(entry) = service.next() {
        assert!(service.is_valid(Some(entry)));
        count += 1;
    }
    assert_eq!(count, 20);
    assert!(!service.is_valid(None));
}

#[test]
fn directory_entries_without_a_majority_are_invalid() {
    let (all, public) = keys(NUM_DIR_SERVERS);
    let mut service = init_one_directory_service(&all, &public);
    // Signed by keys the service does not know.
    let (other_all, other_public) = keys(NUM_DIR_SERVERS);
    let mut forged = init_one_directory_service(&other_all, &other_public);
    assert!(!service.is_valid(forged.next()));
    // Too few signatures.
    let mut entry: DirectoryEntry = service.next().unwrap();
    while entry.signatures.len() > NUM_DIR_SERVERS / 2 {
        entry.signatures.pop();
    }
    let sigs = entry.signatures.clone();
    let hash = entry.hash;
    assert!(!service.is_valid(Some(entry)));
    // The same signature repeated counts once.
    let mut repeated = DirectoryEntry { hash, signatures: sigs };
    while repeated.signatures.len() <= NUM_DIR_SERVERS {
        let last = *repeated.signatures.last().unwrap();
        repeated.signatures.push(last);
    }
    assert!(!service.is_valid(Some(repeated)));
}

#[test]
fn a_directory_reads_back_from_its_bytes() {
    let dir = OnionRouterNetDirectory::new();
    let mut bytes = dir.to_bytes();
    let back = OnionRouterNetDirectory::from_bytes(&bytes).expect("a directory");
    assert_eq!(back.or_list.len(), dir.or_list.len());
    for (a, b) in dir.or_list.iter().zip(back.or_list.iter()) {
        assert_eq!(a.ip, b.ip);
        assert_eq!(a.onion_key, b.onion_key);
        assert_eq!(a.full_hash, b.full_hash);
    }
    // Bytes after the directory are left alone.
    bytes.push(9);
    assert!(OnionRouterNetDirectory::from_bytes(&bytes).is_some());
    // A cut-off directory is not one.
    bytes.truncate(bytes.len() - 2);
    assert!(OnionRouterNetDirectory::from_bytes(&bytes).is_none());
    assert!(OnionRouterNetDirectory::from_bytes(&[]).is_none());
}
