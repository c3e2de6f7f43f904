use merkle_tree::hashing::hash_concat;
use merkle_tree::{Data, MerkleTree};
use sha2::Digest;

fn sha(bytes: &[u8]) -> Vec<u8> {
    sha2::Sha256::digest(bytes).to_vec()
}

fn join(a: &[u8], b: &[u8]) -> Vec<u8> {
    let mut v = a.to_vec();
    v.extend_from_slice(b);
    v
}

fn blocks(n: u8) -> Vec<Data> {
    (0..n).map(|i| vec![i, i.wrapping_mul(7), 42]).collect()
}

#[test]
fn t_construct() {
    let d0 = [1, 2, 3, 4];
    let d1 = [8, 6, 7, 9];
    let d2 = [5, 2, 9, 4];
    let d3 = [3, 1, 2, 5];
    let d4 = [3, 2, 9, 7];
    let root_hash = MerkleTree::construct(&[Data::from(d0), Data::from(d1), Data::from(d2), Data::from(d3)]).root_hash();
    assert!(MerkleTree::verify(&[Data::from(d0), Data::from(d1), Data::from(d2), Data::from(d3)], &root_hash));
    assert!(!MerkleTree::verify(&[Data::from(d0), Data::from(d1), Data::from(d2), Data::from(d4)], &root_hash));
    assert!(!MerkleTree::verify(&[Data::from(d0), Data::from(d1), Data::from(d3), Data::from(d2)], &root_hash));
}

#[test]
fn four_blocks_root_matches_hand_computation() {
    let b = vec![vec![1u8, 2, 3, 4], vec![8, 6, 7, 9], vec![5, 2, 9, 4], vec![3, 1, 2, 5]];
    let l: Vec<Vec<u8>> = b.iter().map(|x| sha(x)).collect();
    let left = sha(&join(&l[0], &l[1]));
    let right = sha(&join(&l[2], &l[3]));
    let expected = sha(&join(&left, &right));
    assert_eq!(MerkleTree::construct(&b).root_hash(), expected);
}

#[test]
fn construct_is_deterministic() {
    let b = blocks(6);
    assert_eq!(MerkleTree::construct(&b).root_hash(), MerkleTree::construct(&b).root_hash());
}

#[test]
fn swapping_two_blocks_changes_root() {
    let b = blocks(5);
    let mut swapped = b.clone();
    swapped.swap(0, 3);
    assert_ne!(MerkleTree::construct(&b).root_hash(), MerkleTree::construct(&swapped).root_hash());
}

#[test]
fn changing_one_byte_changes_root() {
    let b = blocks(4);
    let mut changed = b.clone();
    changed[2][1] ^= 1;
    let root = MerkleTree::construct(&b).root_hash();
    assert_ne!(MerkleTree::construct(&changed).root_hash(), root);
    assert!(!MerkleTree::verify(&changed, &root));
}

#[test]
fn every_size_verifies_against_its_own_root() {
    for n in 0..12u8 {
        let b = blocks(n);
        let root = MerkleTree::construct(&b).root_hash();
        assert_eq!(root.len(), 32);
        assert!(MerkleTree::verify(&b, &root));
    }
}

#[test]
fn verify_rejects_wrong_root() {
    let b = blocks(3);
    let mut root = MerkleTree::construct(&b).root_hash();
    root[0] ^= 0x80;
    assert!(!MerkleTree::verify(&b, &root));
    assert!(!MerkleTree::verify(&b, &Vec::new()));
}

#[test]
fn single_block_root_is_its_leaf_hash() {
    let b = vec![vec![9u8, 9, 9]];
    assert_eq!(MerkleTree::construct(&b).root_hash(), sha(&[9, 9, 9]));
}

#[test]
fn three_blocks_carry_the_odd_leaf_up() {
    let b = vec![vec![1u8], vec![2u8], vec![3u8]];
    let l: Vec<Vec<u8>> = b.iter().map(|x| sha(x)).collect();
    let expected = sha(&join(&sha(&join(&l[0], &l[1])), &l[2]));
    assert_eq!(MerkleTree::construct(&b).root_hash(), expected);
}

#[test]
fn five_blocks_carry_odd_digests_up_at_each_level() {
    let b = blocks(5);
    let l: Vec<Vec<u8>> = b.iter().map(|x| sha(x)).collect();
    let a = sha(&join(&l[0], &l[1]));
    let c = sha(&join(&l[2], &l[3]));
    let top_left = sha(&join(&a, &c));
    let expected = sha(&join(&top_left, &l[4]));
    assert_eq!(MerkleTree::construct(&b).root_hash(), expected);
}

#[test]
fn zero_blocks_root_is_hash_of_empty_string() {
    let b: Vec<Data> = Vec::new();
    let root = MerkleTree::construct(&b).root_hash();
    assert_eq!(root, sha(b""));
    assert!(MerkleTree::verify(&b, &root));
    assert!(!MerkleTree::verify(&[Vec::new()], &blocks(2)[0]));
}

#[test]
fn pair_hash_hashes_the_concatenation_in_order() {
    let a = sha(b"left");
    let b = sha(b"right");
    assert_eq!(hash_concat(&a, &b), sha(&join(&a, &b)));
    assert_ne!(hash_concat(&a, &b), hash_concat(&b, &a));
}
