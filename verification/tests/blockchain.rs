use cs244b_project::blockchain::block::Block;
use cs244b_project::blockchain::blocks::Block as DataBlock;
use cs244b_project::blockchain::chain::{Chain, LocalChain};
use cs244b_project::blockchain::manager::BlockchainManager;
use cs244b_project::example::blocks::{hash as example_hash, Block as ExampleBlock};
use cs244b_project::prototype::utils::blocks::Block as SketchBlock;
use sha2::Digest;

fn sha256(data: &[u8]) -> [u8; 32] {
    let digest = sha2::Sha256::digest(data);
    let mut out = [0u8; 32];
    out.copy_from_slice(&digest);
    out
}

fn hello_world_hash() -> [u8; 32] {
    sha256(b"hello world")
}

#[test]
fn block_test_block_hash() {
    let bytes = hello_world_hash();
    let blk1 = Block::new(0, bytes, String::from("foo").into_bytes(), 0, 0);
    let blk2 = Block::new(0, bytes, String::from("bar").into_bytes(), 0, 0);
    let blk3 = Block::new(0, bytes, String::from("bar").into_bytes(), 0, 0);
    assert_ne!(blk1.hash, blk2.hash);
    assert_eq!(blk2.hash, blk3.hash);
}

#[test]
fn blocks_test_block_hash() {
    let bytes = hello_world_hash();
    let blk1 = DataBlock { parent_hash: bytes, epoch: 0, data: String::from("foo") };
    let blk2 = DataBlock { parent_hash: bytes, epoch: 0, data: String::from("bar") };
    let blk3 = DataBlock { parent_hash: bytes, epoch: 0, data: String::from("bar") };
    assert_ne!(blk1.hash(), blk2.hash());
    assert_eq!(blk2.hash(), blk3.hash());
}

#[test]
fn test_block_hash() {
    let bytes = hello_world_hash();
    let blk1 = ExampleBlock { hash: bytes, data: String::from("foo"), prev_hash: "".to_string() };
    let blk2 = ExampleBlock { hash: bytes, data: String::from("bar"), prev_hash: "".to_string() };
    let blk3 = ExampleBlock { hash: bytes, data: String::from("bar"), prev_hash: "".to_string() };
    assert_ne!(blk1.hash(), blk2.hash());
    assert_eq!(blk2.hash(), blk3.hash());
}

#[test]
fn sketch_block_hash_covers_both_fields() {
    let bytes = hello_world_hash();
    let a = SketchBlock { hash: bytes, data: String::from("bar") };
    let b = SketchBlock { hash: [0u8; 32], data: String::from("bar") };
    let c = SketchBlock { hash: bytes, data: String::from("bar") };
    assert_ne!(a.hash(), b.hash());
    assert_eq!(a.hash(), c.hash());
    let mut pre = bytes.to_vec();
    pre.extend_from_slice(b"bar");
    assert_eq!(a.hash(), sha256(&pre));
}

#[test]
fn data_block_hash_is_digest_of_fields() {
    let bytes = hello_world_hash();
    let blk = DataBlock { parent_hash: bytes, epoch: 7, data: String::from("xy") };
    let mut pre = bytes.to_vec();
    pre.extend_from_slice(&7u32.to_le_bytes());
    pre.extend_from_slice(b"xy");
    assert_eq!(blk.hash(), sha256(&pre));
}

#[test]
fn block_hash_is_digest_of_fields() {
    let bytes = hello_world_hash();
    let blk = Block::new(3, bytes, vec![1, 2, 3], 5, 9);
    let mut pre = bytes.to_vec();
    pre.extend_from_slice(&3u64.to_le_bytes());
    pre.extend_from_slice(&[1, 2, 3]);
    pre.extend_from_slice(&9u64.to_le_bytes());
    assert_eq!(blk.hash, sha256(&pre));
    assert_eq!(blk.height, 5);
    assert_eq!(blk.parent_hash, bytes);
}

#[test]
fn example_block_new_and_hash() {
    let b = ExampleBlock::new(String::from("data"));
    assert_eq!(b.hash, sha256(b"data"));
    assert_eq!(b.prev_hash, "");
    assert_eq!(example_hash(&String::from("data")), sha256(b"data"));
    let other = ExampleBlock::new(String::from("other"));
    assert!(b.validate_block(&other));
}

#[test]
fn generate_test_block_has_hello_world_parent() {
    let b = Block::generate_test_block(vec![4, 5]);
    assert_eq!(b.parent_hash, hello_world_hash());
    assert_eq!(b.epoch, 0);
    assert_eq!(b.data, vec![4, 5]);
}

#[test]
fn local_chain_starts_with_genesis() {
    let chain = LocalChain::new();
    assert_eq!(chain.length(), 1);
    let (g, sigs) = chain.head();
    assert_eq!(g.epoch, 0);
    assert_eq!(g.height, 0);
    assert_eq!(g.data, b"genesis payload".to_vec());
    assert_eq!(g.parent_hash, sha256(b"genesis"));
    assert!(sigs.is_empty());
}

#[test]
fn validate_block_checks_parent_hash() {
    let chain = LocalChain::new();
    let (g, _) = chain.head();
    let child = Block::new(1, g.hash, vec![1], 1, 0);
    assert!(LocalChain::validate_block(&child, g));
    let stranger = Block::new(1, [9u8; 32], vec![1], 1, 0);
    assert!(!LocalChain::validate_block(&stranger, g));
}

#[test]
fn append_block_grows_chain() {
    let mut chain = LocalChain::new();
    let g_hash = chain.head().0.hash;
    let child = Block::new(1, g_hash, vec![1], 1, 0);
    chain.append_block(child, Vec::new());
    assert_eq!(chain.length(), 2);
    assert_eq!(chain.head().0.epoch, 1);
    let prefix = chain.copy_up_to_height(0);
    assert_eq!(prefix.length(), 1);
}

#[test]
fn manager_starts_with_genesis_chains() {
    let m = BlockchainManager::new();
    assert_eq!(m.finalized_chain.length(), 1);
    assert_eq!(m.notarized_chains.len(), 1);
    let (b, _) = m.get_latest_finalized_block();
    assert_eq!(b.epoch, 0);
}

#[test]
fn manager_appends_to_the_chain_it_extends() {
    let mut m = BlockchainManager::new();
    let g_hash = m.get_latest_finalized_block().0.hash;
    let b1 = Block::new(1, g_hash, vec![1], 1, 0);
    let idx = m.index_of_ancestor_chain(b1.clone());
    assert_eq!(idx, Some(0));
    let stranger = Block::new(1, [7u8; 32], vec![1], 1, 0);
    assert_eq!(m.index_of_ancestor_chain(stranger), None);
}

#[test]
fn manager_finalizes_after_three_consecutive_epochs() {
    let mut m = BlockchainManager::new();
    let g_hash = m.get_latest_finalized_block().0.hash;
    let b1 = Block::new(1, g_hash, vec![1], 1, 0);
    let h1 = b1.hash;
    m.add_to_chain(b1, Vec::new(), 0);
    let b2 = Block::new(2, h1, vec![2], 2, 0);
    let h2 = b2.hash;
    let i2 = m.index_of_ancestor_chain(b2.clone()).unwrap();
    m.add_to_chain(b2, Vec::new(), i2);
    let b3 = Block::new(3, h2, vec![3], 3, 0);
    let i3 = m.index_of_ancestor_chain(b3.clone()).unwrap();
    m.add_to_chain(b3, Vec::new(), i3);
    // Epochs 1, 2, 3 in a row: everything up to the middle one is final.
    assert_eq!(m.finalized_chain.length(), 3);
    assert_eq!(m.get_latest_finalized_block().0.epoch, 2);
}

#[test]
fn manager_does_not_finalize_with_a_gap() {
    let mut m = BlockchainManager::new();
    let g_hash = m.get_latest_finalized_block().0.hash;
    let b1 = Block::new(1, g_hash, vec![1], 1, 0);
    let h1 = b1.hash;
    m.add_to_chain(b1, Vec::new(), 0);
    let b3 = Block::new(3, h1, vec![3], 2, 0);
    let h3 = b3.hash;
    let i3 = m.index_of_ancestor_chain(b3.clone()).unwrap();
    m.add_to_chain(b3, Vec::new(), i3);
    let b4 = Block::new(4, h3, vec![4], 3, 0);
    let i4 = m.index_of_ancestor_chain(b4.clone()).unwrap();
    m.add_to_chain(b4, Vec::new(), i4);
    // Epochs 1, 3, 4: no three consecutive epochs.
    assert_eq!(m.finalized_chain.length(), 1);
}

#[test]
fn the_grown_chain_is_finalized_after_it_moves_to_the_front() {
    let mut m = BlockchainManager::new();
    let g_hash = m.get_latest_finalized_block().0.hash;
    let mut fork = LocalChain::new();
    let b1 = Block::new(1, g_hash, vec![1], 1, 0);
    let h1 = b1.hash;
    fork.append_block(b1, Vec::new());
    let b2 = Block::new(2, h1, vec![2], 2, 0);
    let h2 = b2.hash;
    fork.append_block(b2, Vec::new());
    m.observe_chain(fork);
    assert_eq!(m.notarized_chains.len(), 2);
    let b3 = Block::new(3, h2, vec![3], 3, 0);
    assert_eq!(m.index_of_ancestor_chain(b3.clone()), Some(1));
    m.add_to_chain(b3, Vec::new(), 1);
    // The grown chain is now the longest and sorts first.
    assert_eq!(m.notarized_chains[0].length(), 4);
    assert_eq!(m.longest_notarized_chain_length, 4);
    // Epochs 1, 2, 3 in a row on the grown chain: it is final up to epoch 2.
    assert_eq!(m.finalized_chain.length(), 3);
    assert_eq!(m.finalized_chain_length, 3);
    assert_eq!(m.get_latest_finalized_block().0.epoch, 2);
}
