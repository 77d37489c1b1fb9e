use cs244b_project::messages::MessageKind;
use cs244b_project::player::{Block, LocalChain, MessagePayload, Player};
use sha2::Digest;

fn sha256(data: &[u8]) -> [u8; 32] {
    let digest = sha2::Sha256::digest(data);
    let mut out = [0u8; 32];
    out.copy_from_slice(&digest);
    out
}

fn block(epoch: i64, hash: u8, parent: u8, votes: usize) -> Block {
    Block {
        epoch,
        hash: [hash; 32],
        parent_hash: [parent; 32],
        data: String::from("d"),
        votes: (0..votes).map(|i| format!("v{}", i)).collect(),
        nonce: 0,
    }
}

fn chain(epochs: &[i64]) -> LocalChain {
    let mut c = LocalChain { blocks: Vec::new() };
    for (i, e) in epochs.iter().enumerate() {
        let parent = if i == 0 { 0 } else { i as u8 };
        c.append_block(block(*e, (i + 1) as u8, parent, 2));
    }
    c
}

fn player(pool: i64) -> Player {
    Player {
        is_leader: false,
        public_key: String::from("pk"),
        private_key: String::from("sk"),
        player_pool_size: pool,
        viewed_chains: Vec::new(),
        notarized_chains: Vec::new(),
        longest_notarized_chain: LocalChain { blocks: Vec::new() },
        unconfirmed_pending_transactions: String::from("tx"),
        finalized_log: LocalChain { blocks: Vec::new() },
    }
}

#[test]
fn finalize_commits_the_first_two_of_three_consecutive_epochs() {
    let mut p = player(4);
    p.finalize(chain(&[0, 1, 2, 3]));
    let epochs: Vec<i64> = p.finalized_log.blocks.iter().map(|b| b.epoch).collect();
    assert_eq!(epochs, vec![1, 2]);
    // Only what is newer than the log joins it.
    p.finalize(chain(&[0, 1, 2, 3, 4]));
    let epochs: Vec<i64> = p.finalized_log.blocks.iter().map(|b| b.epoch).collect();
    assert_eq!(epochs, vec![1, 2, 3]);
    // Too short, or not consecutive: nothing happens.
    p.finalize(chain(&[7, 8, 9]));
    p.finalize(chain(&[0, 5, 7, 8]));
    assert_eq!(p.finalized_log.blocks.len(), 3);
}

#[test]
fn notarize_chain_needs_enough_votes() {
    let mut p = player(4);
    assert!(p.notarize_chain(chain(&[0, 1, 2])));
    assert_eq!(p.notarized_chains.len(), 1);
    assert_eq!(p.longest_notarized_chain.blocks.len(), 3);
    let mut weak = chain(&[0, 1]);
    weak.blocks[1].votes.pop();
    assert!(!p.notarize_chain(weak));
    assert_eq!(p.notarized_chains.len(), 1);
    assert!(p.is_notarized_block(&block(0, 1, 0, 2)));
    assert!(!p.is_notarized_block(&block(0, 1, 0, 1)));
}

#[test]
fn player_chain_validity_and_proposals() {
    assert!(Player::is_chain_valid(chain(&[0, 1, 2])));
    let mut broken = chain(&[0, 1, 2]);
    broken.blocks[2].parent_hash = [9; 32];
    assert!(!Player::is_chain_valid(broken));
    let p = player(4);
    let m = p.vote(block(3, 1, 0, 0));
    assert_eq!(m.kind, MessageKind::Vote);
    assert!(matches!(m.payload, MessagePayload::Block(ref b) if b.epoch == 3));
    let b = player(4).propose(5, 7, [1; 32]);
    assert_eq!(b.hash, sha256(b"tx"));
    assert_eq!(b.data, "tx");
    assert_eq!(b.epoch, 5);
    let mut q = player(2);
    q.observe_chain(chain(&[0]));
    assert_eq!(q.notarized_chains.len(), 1);
    assert_eq!(Block::test_block(&String::from("x")).hash, sha256(b"x"));
}
