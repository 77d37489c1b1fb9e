use cs244b_project::config::{set_config, ConfigData};
use cs244b_project::example::network_dir::{AllNetDirs, NetDir, OrData, RouterData};
use cs244b_project::p2p::{get_peers, test_request};
use cs244b_project::simple_chain::block::Block as IdBlock;
use cs244b_project::simple_chain::blockchain_utils::block::Block as VoteBlock;
use cs244b_project::simple_chain::blockchain_utils::chain::{Chain, LocalChain};
use cs244b_project::simple_chain::chain::LocalChain as IdChain;
use cs244b_project::simple_chain::node_utils::player::Player;
use cs244b_project::peer_init::CompromiseType;

#[test]
fn set_config_for_h2() {
    let mut config = ConfigData { my_ip: String::new(), peer_ips: Vec::new() };
    set_config(&mut config, String::from("h2"));
    assert_eq!(config.my_ip, "10.0.0.2");
    assert_eq!(config.peer_ips, vec!["10.0.0.1", "10.0.0.3", "10.0.0.4"]);
}

#[test]
fn set_config_for_unknown_host() {
    let mut config = ConfigData { my_ip: String::from("keep"), peer_ips: vec![String::from("x")] };
    set_config(&mut config, String::from("h5"));
    assert_eq!(config.my_ip, "keep");
    assert_eq!(config.peer_ips, vec!["x", "10.0.0.1", "10.0.0.2", "10.0.0.3", "10.0.0.4"]);
}

#[test]
fn get_peers_removes_repeats() {
    let nodes = vec![String::from("b"), String::from("a"), String::from("b"), String::from("c"), String::from("a")];
    let peers = get_peers(&nodes);
    assert_eq!(peers, vec!["b", "a", "c"]);
    assert!(get_peers(&Vec::new()).is_empty());
}

#[test]
fn test_request_goes_to_last_peer() {
    assert!(test_request("n1", &Vec::new()).is_none());
    let m = test_request("n1", &vec![String::from("p"), String::from("q")]).unwrap();
    assert_eq!(m.data, "Test message from n1");
    assert_eq!(m.receiver, "q");
}

fn or_data(name: &str) -> OrData {
    OrData {
        router: RouterData {
            nickname: String::from(name),
            address: String::from("10.0.0.1"),
            or_port: String::from("9001"),
            socks_port: String::from("0"),
            dir_port: String::from("0"),
        },
        identity_ed25519: String::new(),
        master_key_ed25519: String::new(),
        bandwidth: String::new(),
        platform: String::new(),
        published: String::new(),
        onion_key: String::new(),
        onion_key_crosscert: String::new(),
        ipv6_policy: String::new(),
        contact: String::new(),
    }
}

fn dir_of(n: usize) -> NetDir {
    NetDir { or_list: (0..n).map(|i| or_data(&format!("r{}", i))).collect() }
}

#[test]
fn net_dirs_are_handed_out_in_order() {
    let mut dirs = AllNetDirs::new(vec![dir_of(1), dir_of(2)]);
    assert!(dirs.is_more_data());
    assert_eq!(dirs.next_data().map(|d| d.or_list.len()), Some(1));
    assert_eq!(dirs.next_data().map(|d| d.or_list.len()), Some(2));
    assert!(!dirs.is_more_data());
    assert!(dirs.next_data().is_none());
    assert_eq!(dirs.cur_idx, 3);
}

#[test]
fn vote_block_hash_is_hex_of_payload() {
    let b = VoteBlock::new(5, 1, String::from("p"), &String::from("Hi\u{ff}"), 3);
    assert_eq!(b.hash, "4869c3bf");
    assert!(b.votes.is_empty());
    assert_eq!(b.nonce, 3);
    let id = IdBlock::new(1, 2, String::from("h"), String::from("p"), String::from("x"));
    assert_eq!(id.id, 1);
    assert_eq!(id.payload, "x");
}

#[test]
fn simple_chains_start_with_genesis() {
    let mut c = LocalChain::new();
    c.genesis();
    assert_eq!(c.blocks.len(), 1);
    assert_eq!(c.blocks[0].hash, "genesis hash");
    assert_eq!(c.blocks[0].parent_hash, "n/a");
    let mut ic = IdChain::new();
    ic.genesis();
    assert_eq!(ic.blocks[0].hash, "foo");
    assert_eq!(ic.blocks[0].prev_hash, "nope");
}

#[test]
fn player_checks_each_parent_link_as_written() {
    let mut c = LocalChain::new();
    c.genesis();
    // Validation passes when a block's parent hash differs from its predecessor's hash.
    c.append_block(VoteBlock::new(0, 1, String::from("other"), &String::from("a"), 0));
    assert!(Player::is_chain_valid(c));
    let mut d = LocalChain::new();
    d.genesis();
    d.append_block(VoteBlock::new(0, 1, String::from("genesis hash"), &String::from("a"), 0));
    assert!(!Player::is_chain_valid(d));
    assert!(LocalChain::validate_block(
        &VoteBlock::new(0, 1, String::from("x"), &String::from("a"), 0),
        &VoteBlock::new(0, 0, String::from("y"), &String::from("b"), 0)
    ));
}

#[test]
fn compromise_type_predicates() {
    assert!(CompromiseType::NonLeaderPropose.is_non_leader_propose());
    assert!(CompromiseType::BadBlocks.is_bad_blocks());
    assert!(CompromiseType::NoPropose.is_no_propose());
    assert!(CompromiseType::MultiVote.is_multi_vote());
    assert!(CompromiseType::NoVote.is_no_vote());
    assert!(!CompromiseType::NoVote.is_multi_vote());
}

#[test]
fn test_network_dir() {
    let mut net_data = AllNetDirs::new(vec![dir_of(1), dir_of(2), dir_of(3)]);
    let mut prev_data = None;
    while net_data.is_more_data() {
        let this_data = net_data.next_data().map(|d| d.or_list.len());
        assert!(this_data != prev_data);
        prev_data = this_data;
    }
    assert_eq!(prev_data, Some(3));
}

#[test]
fn the_clock_reads_after_the_epoch() {
    let t = cs244b_project::peer_init::timestamp_now();
    assert!(t.secs_since_epoch > 1_500_000_000);
    assert!(t.nanos_since_epoch < 1_000_000_000);
}
