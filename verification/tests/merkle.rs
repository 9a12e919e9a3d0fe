use ff_ce::Field;
use ff_ce::PrimeField;

use zkwordle::digest::Digest;
use zkwordle::digest::Salt;
use zkwordle::hashing::HashEngine;
use zkwordle::merkle::{hash_word_with_salt, Error, MerklePathEntry, MerkleTree, NodeType};

fn strings(words: &[&str]) -> Vec<String> {
    words.iter().map(|w| w.to_string()).collect()
}

/// Replays a path from a leaf hash: checks the tagged side at every level
/// and hashes the pair upward, as a proof verifier would.
fn replay(engine: &HashEngine, leaf: Digest, path: &[MerklePathEntry]) -> Digest {
    let mut cur = leaf;
    for entry in path {
        match entry.on_path {
            NodeType::Left => assert_eq!(entry.left, cur),
            NodeType::Right => assert_eq!(entry.right, cur),
        }
        cur = engine.merkle_hash(&entry.left, &entry.right).expect("node hash should succeed");
    }
    cur
}

#[test]
fn word_hash_correct() {
    let word = "bczad";
    let word_repr = [1, 2, 25, 0, 3]
        .into_iter()
        .map(|x: i32| poseidon_rs::Fr::from_str(&x.to_string()).unwrap())
        .collect();
    let p = poseidon_rs::Poseidon::new();

    let expected_hash = p.hash(word_repr).unwrap();
    let actual_hash = HashEngine::new().word_hash(word).unwrap();

    assert_eq!(actual_hash.limbs, expected_hash.into_repr().0);
}

#[test]
fn merkle_tree_correct() {
    let words = strings(&["aaaaa", "bbbbb", "ccccc", "ddddd", "eeeee", "fffff"]);
    let tree = MerkleTree::new(&words).expect("tree creation should succeed");

    let path = tree.get_path(2).expect("path should exist"); // CCCCC

    assert_eq!(path.len(), 3);

    let engine = HashEngine::new();
    let c_hash = engine.word_hash("ccccc").unwrap();
    let d_hash = engine.word_hash("ddddd").unwrap();

    assert_eq!(path[0].left, c_hash);
    assert_eq!(path[0].right, d_hash);
    assert_eq!(path[0].on_path, NodeType::Left);

    let cd_hash = engine.merkle_hash(&c_hash, &d_hash).unwrap();
    assert_eq!(path[1].right, cd_hash);
    assert_eq!(path[1].on_path, NodeType::Right);

    let nxt_hash = engine.merkle_hash(&path[1].left, &path[1].right).unwrap();
    assert_eq!(path[2].left, nxt_hash);
    assert_eq!(path[2].on_path, NodeType::Left);

    let top_hash = engine.merkle_hash(&path[2].left, &path[2].right).unwrap();
    assert_eq!(top_hash, tree.root_hash());
}

#[test]
fn access_out_of_bounds() {
    let words = strings(&["aaaaa", "bbbbb", "ccccc", "ddddd", "eeeee", "fffff"]);
    let tree = MerkleTree::new(&words).expect("tree creation should succeed");

    let res = tree.get_path(8); // out of bounds

    assert!(res.is_err());
    if let Err(e) = res {
        assert_eq!(e, Error::OutOfBounds);
    }
}

#[test]
fn leaf_count_is_least_power_of_two() {
    // six words pad to eight leaves: index 7 is the last valid one
    let words = strings(&["aaaaa", "bbbbb", "ccccc", "ddddd", "eeeee", "fffff"]);
    let tree = MerkleTree::new(&words).expect("tree creation should succeed");
    assert!(tree.get_path(7).is_ok());
    assert!(tree.get_path(8).is_err());

    // a single word makes a tree of one leaf and an empty path
    let tree = MerkleTree::new(&strings(&["aaaaa"])).expect("tree creation should succeed");
    let path = tree.get_path(0).expect("path should exist");
    assert_eq!(path.len(), 0);
    assert!(tree.get_path(1).is_err());
    assert_eq!(tree.root_hash(), HashEngine::new().word_hash("aaaaa").unwrap());
}

#[test]
fn every_path_replays_to_the_root() {
    let names = ["aaaaa", "bbbbb", "ccccc", "ddddd", "eeeee", "fffff"];
    let words = strings(&names);
    let tree = MerkleTree::new(&words).expect("tree creation should succeed");

    let engine = HashEngine::new();
    for (i, name) in names.iter().enumerate() {
        let path = tree.get_path(i).expect("path should exist");
        let leaf = engine.word_hash(name).unwrap();
        assert_eq!(replay(&engine, leaf, &path), tree.root_hash());
    }
}

#[test]
fn padding_replicates_last_word() {
    // three words pad to four leaves; the fourth leaf repeats "ccccc"
    let words = strings(&["aaaaa", "bbbbb", "ccccc"]);
    let tree = MerkleTree::new(&words).expect("tree creation should succeed");

    let engine = HashEngine::new();
    let c_hash = engine.word_hash("ccccc").unwrap();
    let path = tree.get_path(3).expect("path should exist");
    assert_eq!(path[0].left, c_hash);
    assert_eq!(path[0].right, c_hash);
    assert_eq!(path[0].on_path, NodeType::Right);
    assert_eq!(replay(&engine, c_hash, &path), tree.root_hash());
}

#[test]
fn tree_rejects_empty_and_malformed_corpora() {
    let r = MerkleTree::new(&strings(&[]));
    assert!(matches!(r, Err(Error::EmptyWordList)));

    let r = MerkleTree::new(&strings(&["aaaaa", "BBBBB"]));
    assert!(matches!(r, Err(Error::WordHashFail)));

    assert!(matches!(HashEngine::new().word_hash("aaaa"), Err(Error::WordHashFail)));
    assert!(matches!(
        hash_word_with_salt("AAAAA", &Salt { limbs: [1, 2, 3, 4] }),
        Err(Error::SaltedWordHashFail)
    ));
}

#[test]
fn node_hash_rejects_values_outside_the_field() {
    let engine = HashEngine::new();
    let too_big = Digest { limbs: [u64::MAX, u64::MAX, u64::MAX, u64::MAX] };
    let ok = engine.word_hash("aaaaa").unwrap();
    assert!(matches!(engine.merkle_hash(&too_big, &ok), Err(Error::MerkleHashFail)));
    assert!(matches!(engine.merkle_hash(&ok, &too_big), Err(Error::MerkleHashFail)));
}

#[test]
fn word_hash_mixes_its_input() {
    // the leaf hash is a real hash: not the letters themselves, and
    // different words get different digests
    let engine = HashEngine::new();
    let a = engine.word_hash("aaaaa").unwrap();
    assert_ne!(a.limbs, [0, 0, 0, 0]);
    let b = engine.word_hash("aaaab").unwrap();
    assert_ne!(a, b);

    // and the node hash moves away from both children
    let ab = engine.merkle_hash(&a, &b).unwrap();
    assert_ne!(ab, a);
    assert_ne!(ab, b);
}

#[test]
fn salted_hash_matches_direct_poseidon() {
    // arity-6 commitment hash: five zero letters and a zero salt
    let zero = poseidon_rs::Fr::zero();
    let p = poseidon_rs::Poseidon::new();
    let expected = p.hash(vec![zero; 6]).unwrap();

    let salt = Salt { limbs: [0, 0, 0, 0] };
    let actual = hash_word_with_salt("aaaaa", &salt).unwrap();
    assert_eq!(actual.limbs, expected.into_repr().0);
}

#[test]
fn commitments_differ_for_different_salts() {
    let salt_1 = Salt { limbs: [1, 0, 0, 0] };
    let salt_2 = Salt { limbs: [2, 0, 0, 0] };
    let c_1 = hash_word_with_salt("apple", &salt_1).unwrap();
    let c_2 = hash_word_with_salt("apple", &salt_2).unwrap();
    assert_ne!(c_1, c_2);

    // equal word and salt give the same commitment again
    let c_1_again = hash_word_with_salt("apple", &salt_1).unwrap();
    assert_eq!(c_1, c_1_again);
}
