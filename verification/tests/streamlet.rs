use cs244b_project::blockchain::block::Block;
use cs244b_project::crypto::{PublicKey, Signature};
use cs244b_project::messages::{Message, MessageKind, MessagePayload};
use cs244b_project::network::NetworkStack;
use cs244b_project::peer_init::Peers;
use cs244b_project::prototype::create_streamlet_instance;
use cs244b_project::streamlet::{
    CompromiseType, OperationMode, StreamletInstance, UserCommandOutcome,
};
use sha2::Digest;

fn sha256(data: &[u8]) -> [u8; 32] {
    let digest = sha2::Sha256::digest(data);
    let mut out = [0u8; 32];
    out.copy_from_slice(&digest);
    out
}

fn test_message() -> Message {
    let bytes = sha256(b"hello world");
    let blk = Block::new(0, bytes, String::from("test").into_bytes(), 0, 0);
    Message::new_with_defined_nonce(MessagePayload::Block(blk), MessageKind::Vote, 0, 0, String::from("test"))
}

#[test]
fn test_streamlet_signatures() {
    let streamlet = StreamletInstance::new(String::from("Test"), 1, 3, OperationMode::Normal);
    let message: &[u8] = b"This is a test of the tsunami alert system.";
    let signature: Signature = streamlet.sign(message);
    let public_key: PublicKey = streamlet.get_public_key();
    assert!(public_key.verify(message, &signature));
}

#[test]
fn test_streamlet_msg_signatures() {
    let mut streamlet1 = StreamletInstance::new(String::from("Test1"), 3, 3, OperationMode::Normal);
    let streamlet2 = StreamletInstance::new(String::from("Test2"), 3, 3, OperationMode::Normal);
    let streamlet3 = StreamletInstance::new(String::from("Test3"), 3, 3, OperationMode::Normal);
    let mut message = test_message();

    streamlet1.sign_message(&mut message);
    assert!(message.signature_count() == 1);
    streamlet2.sign_message(&mut message);
    assert!(message.signature_count() == 2);
    streamlet3.sign_message(&mut message);
    assert!(message.signature_count() == 3);

    streamlet1.add_public_key(String::from("test2"), &streamlet2.get_public_key());
    let bad_result = streamlet1.verify_message(&message);
    assert!(bad_result == 2);
    streamlet1.add_public_key(String::from("test3"), &streamlet3.get_public_key());
    assert!(streamlet1.public_keys.len() == 3);

    let good_result = streamlet1.verify_message(&message);
    assert!(good_result == 3);
}

#[test]
fn signing_a_message_twice_adds_one_signature() {
    let s = StreamletInstance::new(String::from("A"), 2, 3, OperationMode::Normal);
    let mut message = test_message();
    assert!(s.sign_message(&mut message).is_some());
    assert!(s.sign_message(&mut message).is_none());
    assert_eq!(message.signature_count(), 1);
}

#[test]
fn a_signature_counts_once_and_only_under_its_key() {
    let mut a = StreamletInstance::new(String::from("A"), 2, 3, OperationMode::Normal);
    let b = StreamletInstance::new(String::from("B"), 2, 3, OperationMode::Normal);
    let mut message = test_message();
    b.sign_message(&mut message);
    assert_eq!(a.verify_message(&message), 0);
    a.add_public_key(String::from("B"), &b.get_public_key());
    assert_eq!(a.verify_message(&message), 1);
    // A forged copy of the same signature does not count twice.
    let sig = message.signatures[0];
    message.sign_message(sig);
    assert_eq!(a.verify_message(&message), 1);
    // A signature over other bytes does not count.
    message.sign_message(Signature { bytes: [0u8; 64] });
    assert_eq!(a.verify_message(&message), 1);
}

#[test]
fn notarization_needs_two_thirds_of_the_nodes() {
    // Three nodes in all: two signatures are needed.
    let mut a = StreamletInstance::new(String::from("A"), 2, 3, OperationMode::Normal);
    let b = StreamletInstance::new(String::from("B"), 2, 3, OperationMode::Normal);
    let c = StreamletInstance::new(String::from("C"), 2, 3, OperationMode::Normal);
    a.add_public_key(String::from("B"), &b.get_public_key());
    a.add_public_key(String::from("C"), &c.get_public_key());
    let mut message = test_message();
    b.sign_message(&mut message);
    assert!(!a.is_notarized(&message));
    c.sign_message(&mut message);
    assert!(a.is_notarized(&message));
}

#[test]
fn first_key_for_a_name_is_replaced_by_add_public_key() {
    let mut a = StreamletInstance::new(String::from("A"), 2, 3, OperationMode::Normal);
    a.add_public_key(String::from("B"), &PublicKey { bytes: [1u8; 32] });
    a.add_public_key(String::from("B"), &PublicKey { bytes: [2u8; 32] });
    assert_eq!(a.public_keys.len(), 2);
    assert_eq!(a.public_keys[1].1.bytes, [2u8; 32]);
}

#[test]
fn user_commands_set_compromise_and_print() {
    let mut s = StreamletInstance::new(String::from("A"), 2, 3, OperationMode::Normal);
    let mut peers = Peers::new(String::from("A"), s.get_public_key(), 2);
    let mut net = NetworkStack::new("streamlet");
    assert_eq!(s.on_user_input("nc", &mut peers, &mut net), UserCommandOutcome::PrintNotarizedChains);
    assert_eq!(s.on_user_input("fc", &mut peers, &mut net), UserCommandOutcome::PrintFinalizedChain);
    assert_eq!(s.on_user_input("nv", &mut peers, &mut net), UserCommandOutcome::Nothing);
    assert_eq!(s.compromise_type, CompromiseType::NoVote);
}

#[test]
fn sketch_node_signs_verifiably() {
    let node = create_streamlet_instance();
    let message: &[u8] = b"This is a test of the tsunami alert system.";
    let signature = node.sign(message);
    assert!(node.get_public_key().verify(message, &signature));
    assert!(!node.get_public_key().verify(b"other", &signature));
}

use cs244b_project::app::app_interface::AppInterface;
use cs244b_project::messages::SocketAddr;
use cs244b_project::network::NetAction;
use cs244b_project::peer_init::{PeerAdvertisement, Timestamp};
use cs244b_project::streamlet::{BenchmarkDataType, EpochOutcome, NetworkOutcome};
use std::hash::Hasher;

fn advertise(node: &mut StreamletInstance, peers: &mut Peers, net: &mut NetworkStack, iface: &AppInterface, name: &str, key: &PublicKey) {
    let ad = PeerAdvertisement {
        public_key: *key,
        node_id: 0,
        node_name: String::from(name),
        timestamp: Timestamp { secs_since_epoch: 0, nanos_since_epoch: 0 },
        end_init: false,
        known_peers: Vec::new(),
    };
    let m = Message::new(MessagePayload::PeerAdvertisement(ad), MessageKind::PeerInit, 0, String::from(name));
    let addr = SocketAddr { ip: [127, 0, 0, 1], port: 1 };
    assert!(!node.message_would_fail(&m, &None, 0, iface));
    let _ = node.on_network_message(m, 0, None, peers, net, iface, addr);
}

fn three_nodes() -> (StreamletInstance, NetworkStack) {
    let mut node = StreamletInstance::new(String::from("b"), 2, 3, OperationMode::Normal);
    let mut peers = Peers::new(String::from("b"), node.get_public_key(), 2);
    let mut net = NetworkStack::new("streamlet");
    net.open_init_channel();
    let iface = AppInterface::new(&mut net);
    advertise(&mut node, &mut peers, &mut net, &iface, "c", &PublicKey { bytes: [3; 32] });
    advertise(&mut node, &mut peers, &mut net, &iface, "a", &PublicKey { bytes: [1; 32] });
    (node, net)
}

#[test]
fn advertised_peers_become_sorted_leader_names() {
    let (node, _) = three_nodes();
    assert_eq!(node.sorted_peer_names, vec!["a", "b", "c"]);
    assert_eq!(node.public_keys.len(), 3);
}

#[test]
fn the_leader_is_chosen_by_the_default_hash_of_the_epoch() {
    let (mut node, _) = three_nodes();
    node.fill_pending_transactions(40, &BenchmarkDataType::Small);
    assert_eq!(node.pending_count(), 40);
    let mut led = 0;
    for epoch in 1..30u64 {
        let mut h = std::collections::hash_map::DefaultHasher::new();
        h.write_u64(epoch);
        let idx = (h.finish() as usize) % 3;
        match node.begin_epoch(epoch) {
            EpochOutcome::Propose(data) => {
                assert_eq!(idx, 1);
                assert_eq!(data.len(), 1);
                led += 1;
            }
            EpochOutcome::Idle => assert_ne!(idx, 1),
            EpochOutcome::BenchmarkComplete => panic!("not a benchmark"),
        }
    }
    assert_eq!(node.pending_count(), 40 - led);
}

#[test]
fn a_wrong_parent_hash_proposal_scrambles_the_parent() {
    let mut node = StreamletInstance::new(String::from("a"), 0, 3, OperationMode::Normal);
    node.compromise_type = CompromiseType::WrongParentHash;
    let mut net = NetworkStack::new("streamlet");
    let _ = net.take_pending();
    let head = node.get_latest_finalized_block().0.hash;
    let mut sorted = head;
    sorted.sort();
    let _sig = node.propose(1, vec![7], &mut net);
    let actions = net.take_pending();
    assert_eq!(actions.len(), 1);
    match &actions[0] {
        NetAction::Publish(topic, m) => {
            assert_eq!(topic, "streamlet");
            assert_eq!(m.kind, MessageKind::Propose);
            assert_eq!(m.signature_count(), 1);
            match &m.payload {
                MessagePayload::Block(b) => {
                    assert_eq!(b.parent_hash, sorted);
                    assert_eq!(b.epoch, 1);
                    assert_eq!(b.data, vec![7]);
                }
                _ => panic!("block expected"),
            }
        }
        _ => panic!("publish expected"),
    }
}

#[test]
fn app_data_is_queued_for_proposal() {
    let mut node = StreamletInstance::new(String::from("a"), 0, 3, OperationMode::Normal);
    let mut peers = Peers::new(String::from("a"), node.get_public_key(), 0);
    let mut net = NetworkStack::new("streamlet");
    let iface = AppInterface::new(&mut net);
    let m = Message::new(MessagePayload::AppData(vec![4, 2]), MessageKind::AppSend, 0, String::from("app"));
    let addr = SocketAddr { ip: [127, 0, 0, 1], port: 1 };
    assert!(!node.message_would_fail(&m, &None, 0, &iface));
    assert!(matches!(node.on_network_message(m, 0, None, &mut peers, &mut net, &iface, addr), NetworkOutcome::Nothing));
    assert_eq!(node.pending_count(), 1);
    // Data from another sender is not queued.
    let m2 = Message::new(MessagePayload::AppData(vec![1]), MessageKind::AppSend, 5, String::from("intruder"));
    let _ = node.on_network_message(m2, 0, None, &mut peers, &mut net, &iface, addr);
    assert_eq!(node.pending_count(), 1);
}

#[test]
fn block_requests_are_answered_with_the_node_address() {
    let mut node = StreamletInstance::new(String::from("a"), 0, 3, OperationMode::Normal);
    let mut peers = Peers::new(String::from("a"), node.get_public_key(), 0);
    let mut net = NetworkStack::new("streamlet");
    let iface = AppInterface::new(&mut net);
    let _ = net.take_pending();
    let req = Message::new_with_defined_tag(MessagePayload::Empty, MessageKind::AppBlockRequest, 44, 0, String::from("app"));
    let addr = SocketAddr { ip: [127, 0, 0, 1], port: 9000 };
    let _ = node.on_network_message(req, 0, None, &mut peers, &mut net, &iface, addr);
    let actions = net.take_pending();
    assert_eq!(actions.len(), 1);
    match &actions[0] {
        NetAction::Publish(topic, m) => {
            assert_eq!(topic, "app");
            assert_eq!(m.kind, MessageKind::AppBlockResponse);
            assert_eq!(m.tag, 44);
            assert!(matches!(m.payload, MessagePayload::SocketAddr(a) if a.port == 9000));
        }
        _ => panic!("publish expected"),
    }
}

#[test]
fn nodes_that_learn_names_in_any_order_agree_on_leaders() {
    let (b_node, _) = three_nodes();
    let mut c_node = StreamletInstance::new(String::from("c"), 2, 3, OperationMode::Normal);
    let mut peers = Peers::new(String::from("c"), c_node.get_public_key(), 2);
    let mut net = NetworkStack::new("streamlet");
    net.open_init_channel();
    let iface = AppInterface::new(&mut net);
    advertise(&mut c_node, &mut peers, &mut net, &iface, "a", &PublicKey { bytes: [1; 32] });
    advertise(&mut c_node, &mut peers, &mut net, &iface, "b", &PublicKey { bytes: [2; 32] });
    assert_eq!(b_node.sorted_peer_names, c_node.sorted_peer_names);
    for epoch in 1..50u64 {
        assert!(b_node.leader_is_known(epoch) && c_node.leader_is_known(epoch));
        assert_eq!(b_node.get_epoch_leader(epoch), c_node.get_epoch_leader(epoch));
    }
}

/// Two nodes, "a" and "b", that know each other's keys.
fn joined_pair() -> Vec<(StreamletInstance, Peers, NetworkStack, AppInterface)> {
    let a = StreamletInstance::new(String::from("a"), 1, 3, OperationMode::Normal);
    let b = StreamletInstance::new(String::from("b"), 1, 3, OperationMode::Normal);
    let keys = [("b", b.get_public_key()), ("a", a.get_public_key())];
    let mut out = Vec::new();
    for (i, node) in [a, b].into_iter().enumerate() {
        let mut node = node;
        let mut peers = Peers::new(node.name.clone(), node.get_public_key(), 1);
        let mut net = NetworkStack::new("streamlet");
        net.open_init_channel();
        let iface = AppInterface::new(&mut net);
        advertise(&mut node, &mut peers, &mut net, &iface, keys[i].0, &keys[i].1);
        let _ = net.take_pending();
        out.push((node, peers, net, iface));
    }
    out
}

/// An epoch whose leader, among two sorted names, is the one at `index`.
fn epoch_led_by(index: usize) -> u64 {
    (1..1000u64)
        .find(|e| {
            let mut h = std::collections::hash_map::DefaultHasher::new();
            h.write_u64(*e);
            (h.finish() as usize) % 2 == index
        })
        .expect("some epoch")
}

fn published(net: &mut NetworkStack) -> Message {
    let mut actions = net.take_pending();
    assert_eq!(actions.len(), 1);
    match actions.remove(0) {
        NetAction::Publish(topic, m) => {
            assert_eq!(topic, "streamlet");
            m
        }
        _ => panic!("publish expected"),
    }
}

#[test]
fn a_proposal_is_at_the_height_after_the_longest_chain() {
    let mut node = StreamletInstance::new(String::from("a"), 0, 3, OperationMode::Normal);
    let mut net = NetworkStack::new("streamlet");
    let _ = net.take_pending();
    let _sig = node.propose(4, vec![1, 2], &mut net);
    match published(&mut net).payload {
        MessagePayload::Block(b) => {
            // The genesis chain has length one: the proposal sits at height one.
            assert_eq!(b.height, 1);
            assert_eq!(b.epoch, 4);
        }
        _ => panic!("block expected"),
    }
}

#[test]
fn a_leader_set_not_to_propose_keeps_its_data() {
    let (mut node, _) = three_nodes();
    node.compromise_type = CompromiseType::NoPropose;
    node.fill_pending_transactions(5, &BenchmarkDataType::Small);
    for epoch in 1..30u64 {
        assert!(matches!(node.begin_epoch(epoch), EpochOutcome::Idle));
    }
    assert_eq!(node.pending_count(), 5);
}

#[test]
fn a_non_leader_set_to_propose_proposes_every_epoch() {
    let (mut node, _) = three_nodes();
    node.compromise_type = CompromiseType::NonLeaderPropose;
    node.fill_pending_transactions(5, &BenchmarkDataType::Small);
    for epoch in 1..4u64 {
        assert!(matches!(node.begin_epoch(epoch), EpochOutcome::Propose(_)));
    }
    assert_eq!(node.pending_count(), 2);
}

#[test]
fn proposals_must_fit_in_one_message() {
    let node = StreamletInstance::new(String::from("a"), 0, 3, OperationMode::Normal);
    // 196 bytes of framing, one byte of name.
    assert!(node.fits_in_proposal(&vec![0; 1777]));
    assert!(!node.fits_in_proposal(&vec![0; 1778]));
}

#[test]
fn a_valid_proposal_is_voted_for_and_echoed() {
    let mut pair = joined_pair();
    let epoch = epoch_led_by(0);
    let (leader, _, leader_net, _) = &mut pair[0];
    assert!(leader.leader_is_known(epoch));
    let _sig = leader.propose(epoch, vec![5; 10], leader_net);
    let proposal = published(leader_net);
    let (voter, peers, net, iface) = &mut pair[1];
    assert!(!voter.message_would_fail(&proposal, &None, epoch, iface));
    let addr = SocketAddr { ip: [127, 0, 0, 1], port: 1 };
    let expected = voter.sign(&proposal.serialize_payload());
    match voter.on_network_message(proposal, epoch, None, peers, net, iface, addr) {
        NetworkOutcome::Voted(sig) => assert_eq!(sig.bytes, expected.bytes),
        _ => panic!("vote expected"),
    }
    let vote = published(net);
    assert_eq!(vote.kind, MessageKind::Vote);
    assert_eq!(vote.signature_count(), 2);
}

#[test]
fn a_vote_too_large_to_broadcast_fails() {
    let mut pair = joined_pair();
    let epoch = epoch_led_by(0);
    let (leader, _, leader_net, _) = &mut pair[0];
    let data = vec![5; 1777];
    assert!(leader.fits_in_proposal(&data));
    let _sig = leader.propose(epoch, data, leader_net);
    let proposal = published(leader_net);
    assert_eq!(proposal.serialize().len(), 1974);
    let (voter, _, _, iface) = &mut pair[1];
    assert!(voter.message_would_fail(&proposal, &None, epoch, iface));
    // A node that does not vote sends nothing, so the size does not matter.
    voter.compromise_type = CompromiseType::NoVote;
    assert!(!voter.message_would_fail(&proposal, &None, epoch, iface));
}

#[test]
fn a_benchmark_ends_without_looking_up_a_leader() {
    let mut node = StreamletInstance::new(String::from("a"), 3, 3, OperationMode::Benchmark);
    // No peer is known, so no leader can be looked up; the last epoch still ends the run.
    let last = cs244b_project::streamlet::NUM_TEST_EPOCHS + 1;
    assert!(!node.leader_is_known(last));
    assert!(node.can_begin_epoch(last));
    assert!(!node.can_begin_epoch(1));
    assert!(matches!(node.begin_epoch(last), EpochOutcome::BenchmarkComplete));
}

#[test]
fn init_commands_advertise_and_close() {
    let mut s = StreamletInstance::new(String::from("A"), 2, 3, OperationMode::Normal);
    let mut peers = Peers::new(String::from("A"), s.get_public_key(), 2);
    let mut net = NetworkStack::new("streamlet");
    net.open_init_channel();
    let _ = net.take_pending();
    assert_eq!(s.on_user_input("init", &mut peers, &mut net), UserCommandOutcome::Nothing);
    let actions = net.take_pending();
    assert_eq!(actions.len(), 1);
    match &actions[0] {
        NetAction::Publish(topic, m) => {
            assert_eq!(topic, "init");
            assert_eq!(m.kind, MessageKind::PeerInit);
            match &m.payload {
                MessagePayload::PeerAdvertisement(a) => {
                    assert_eq!(a.node_name, "A");
                    assert_eq!(a.public_key.bytes, s.get_public_key().bytes);
                    assert!(!a.end_init);
                }
                _ => panic!("advertisement expected"),
            }
        }
        _ => panic!("publish expected"),
    }
    assert_eq!(s.on_user_input("end init", &mut peers, &mut net), UserCommandOutcome::Nothing);
    let actions = net.take_pending();
    assert_eq!(actions.len(), 2);
    match &actions[0] {
        NetAction::Publish(topic, m) => {
            assert_eq!(topic, "init");
            assert!(matches!(&m.payload, MessagePayload::PeerAdvertisement(a) if a.end_init && a.node_name.is_empty()));
        }
        _ => panic!("publish expected"),
    }
    assert!(matches!(&actions[1], NetAction::Unsubscribe(t) if t == "init"));
    assert!(!net.init_channel_open());
}

#[test]
fn an_advertisement_records_the_peer() {
    let mut node = StreamletInstance::new(String::from("b"), 2, 3, OperationMode::Normal);
    let mut peers = Peers::new(String::from("b"), node.get_public_key(), 2);
    let mut net = NetworkStack::new("streamlet");
    net.open_init_channel();
    let iface = AppInterface::new(&mut net);
    let _ = net.take_pending();
    advertise(&mut node, &mut peers, &mut net, &iface, "c", &PublicKey { bytes: [3; 32] });
    assert_eq!(peers.peer_list.len(), 1);
    assert_eq!(peers.peer_list[0].0, "c");
    assert_eq!(peers.peer_list[0].1.bytes, [3; 32]);
    // The node advertised itself back on the init channel.
    let actions = net.take_pending();
    assert_eq!(actions.len(), 1);
    assert!(matches!(&actions[0], NetAction::Publish(t, _) if t == "init"));
}
