use cs244b_project::crypto::PublicKey;
use cs244b_project::messages::{MessageKind, MessagePayload};
use cs244b_project::network::{NetAction, NetworkStack};
use cs244b_project::peer_init::{CompromiseType, InitStatus, PeerAdvertisement, Peers, Timestamp};

fn ad(name: &str, key: u8, known: Vec<String>, end_init: bool) -> PeerAdvertisement {
    PeerAdvertisement {
        public_key: PublicKey { bytes: [key; 32] },
        node_id: 0,
        node_name: String::from(name),
        timestamp: Timestamp { secs_since_epoch: 0, nanos_since_epoch: 0 },
        end_init,
        known_peers: known,
    }
}

fn open_stack() -> NetworkStack {
    let mut net = NetworkStack::new("streamlet");
    net.open_init_channel();
    let _ = net.take_pending();
    net
}

#[test]
fn first_key_received_for_a_name_is_kept() {
    let mut peers = Peers::new(String::from("me"), PublicKey { bytes: [0; 32] }, 3);
    let mut net = open_stack();
    assert_eq!(peers.recv_advertisement(&ad("a", 1, vec![], false), &mut net), InitStatus::InProgress);
    assert_eq!(peers.recv_advertisement(&ad("a", 2, vec![], false), &mut net), InitStatus::Done);
    assert_eq!(peers.peer_list.len(), 1);
    assert_eq!(peers.peer_list[0].1.bytes, [1; 32]);
}

#[test]
fn unknown_senders_get_an_advertisement_back() {
    let mut peers = Peers::new(String::from("me"), PublicKey { bytes: [0; 32] }, 3);
    let mut net = open_stack();
    peers.recv_advertisement(&ad("a", 1, vec![], false), &mut net);
    let actions = net.take_pending();
    assert_eq!(actions.len(), 1);
    match &actions[0] {
        NetAction::Publish(topic, m) => {
            assert_eq!(topic, "init");
            assert_eq!(m.kind, MessageKind::PeerInit);
            match &m.payload {
                MessagePayload::PeerAdvertisement(a) => {
                    assert_eq!(a.node_name, "me");
                    assert_eq!(a.known_peers, vec![String::from("a")]);
                    assert!(!a.end_init);
                }
                _ => panic!("advertisement expected"),
            }
        }
        _ => panic!("publish expected"),
    }
    // A sender that already knows this node gets nothing back.
    peers.recv_advertisement(&ad("b", 2, vec![String::from("me")], false), &mut net);
    assert!(net.take_pending().is_empty());
}

#[test]
fn discovery_completes_and_closes() {
    let mut peers = Peers::new(String::from("me"), PublicKey { bytes: [0; 32] }, 2);
    let mut net = open_stack();
    assert_eq!(peers.recv_advertisement(&ad("a", 1, vec![], false), &mut net), InitStatus::InProgress);
    assert!(!peers.is_done());
    let _ = net.take_pending();
    assert_eq!(peers.recv_advertisement(&ad("b", 2, vec![], false), &mut net), InitStatus::DoneStartTimer);
    assert!(peers.is_done());
    // The last expected peer closes the initialization channel.
    assert!(!net.init_channel_open());
    let actions = net.take_pending();
    assert_eq!(actions.len(), 2);
    assert!(matches!(&actions[0], NetAction::Publish(t, _) if t == "init"));
    assert!(matches!(&actions[1], NetAction::Unsubscribe(t) if t == "init"));
    // A later closing advertisement finds the channel closed already.
    assert_eq!(peers.recv_advertisement(&ad("", 3, vec![], true), &mut net), InitStatus::Done);
    assert!(!net.init_channel_open());
    assert!(net.take_pending().is_empty());
}

#[test]
fn end_init_sends_a_closing_advertisement_then_unsubscribes() {
    let mut peers = Peers::new(String::from("me"), PublicKey { bytes: [0; 32] }, 2);
    let mut net = open_stack();
    peers.send_end_init(&mut net);
    let actions = net.take_pending();
    assert_eq!(actions.len(), 2);
    match &actions[0] {
        NetAction::Publish(_, m) => match &m.payload {
            MessagePayload::PeerAdvertisement(a) => assert!(a.end_init),
            _ => panic!("advertisement expected"),
        },
        _ => panic!("publish expected"),
    }
    assert!(matches!(&actions[1], NetAction::Unsubscribe(_)));
    // Once closed, nothing more is sent.
    peers.send_end_init(&mut net);
    assert!(net.take_pending().is_empty());
}

#[test]
fn deleting_a_known_peer_lowers_the_expectation() {
    let mut peers = Peers::new(String::from("me"), PublicKey { bytes: [0; 32] }, 2);
    let mut net = open_stack();
    peers.recv_advertisement(&ad("a", 1, vec![], false), &mut net);
    peers.permanently_delete_peer(String::from("a"));
    assert_eq!(peers.num_peers_expected(), 1);
    assert!(!peers.knows(&String::from("a")));
    peers.permanently_delete_peer(String::from("zz"));
    assert_eq!(peers.num_peers_expected(), 1);
}

#[test]
fn peers_settings() {
    let mut peers = Peers::new(String::new(), PublicKey { bytes: [0; 32] }, 2);
    assert!(!peers.node_name.is_empty());
    assert!(peers.node_name.chars().all(|c| c.is_ascii_digit()));
    peers.set_node_id(9);
    assert_eq!(peers.node_id, 9);
    peers.set_compromise(CompromiseType::NoVote);
    assert_eq!(peers.compromise_type, CompromiseType::NoVote);
}

#[test]
fn init_channel_only_carries_messages_while_open() {
    let mut net = NetworkStack::new("t");
    assert!(!net.init_channel_open());
    let _ = net.take_pending();
    let peers = Peers::new(String::from("me"), PublicKey { bytes: [0; 32] }, 1);
    let mut p = peers;
    p.advertise_self(&mut net);
    assert!(net.take_pending().is_empty());
    net.open_init_channel();
    assert!(net.init_channel_open());
    p.advertise_self(&mut net);
    let actions = net.take_pending();
    assert_eq!(actions.len(), 2);
    assert!(matches!(&actions[0], NetAction::Subscribe(t) if t == "init"));
    net.close_init_channel();
    assert!(!net.init_channel_open());
}
