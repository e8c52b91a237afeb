use tct::block::inclusion::Proof;
use tct::block::Root;
use tct::hash::Commitment;

const POPULATED: u64 = 21;

fn digest(seed: u64) -> tct::hash::Hash {
    let mut bytes = [0u8; 32];
    bytes[..8].copy_from_slice(&seed.to_le_bytes());
    bytes[8] = 0xc0;
    tct::hash::Hash(bytes)
}

/// The leaf at `position`: a commitment where the tree is populated, and
/// the all-zero digest elsewhere.
fn leaf(position: u64) -> tct::hash::Hash {
    if position < POPULATED {
        digest(position)
    } else {
        tct::hash::Hash([0u8; 32])
    }
}

/// The digests of the subtrees that hold no commitment, by height.
fn empties() -> [tct::hash::Hash; 9] {
    let mut table = [tct::hash::Hash([0u8; 32]); 9];
    for height in 1..9usize {
        let below = table[height - 1];
        table[height] = tct::hash::Hash::node(height as u8, below, below, below, below);
    }
    table
}

/// The digest of the node at `height` and `position` of the test tree.
fn subtree(height: u8, position: u64, empty: &[tct::hash::Hash; 9]) -> tct::hash::Hash {
    if height == 0 {
        return leaf(position);
    }
    if position << (2 * height as u32) >= POPULATED {
        return empty[height as usize];
    }
    tct::hash::Hash::node(
        height,
        subtree(height - 1, 4 * position, empty),
        subtree(height - 1, 4 * position + 1, empty),
        subtree(height - 1, 4 * position + 2, empty),
        subtree(height - 1, 4 * position + 3, empty),
    )
}

/// The root of the test tree.
fn tree_root() -> Root {
    Root(subtree(8, 0, &empties()))
}

/// The siblings above the leaf at `index`, from the root level down.
fn witness(index: u64) -> [[tct::hash::Hash; 3]; 8] {
    let empty = empties();
    let mut path = [[tct::hash::Hash([0u8; 32]); 3]; 8];
    for level in 0..8usize {
        let height = 7 - level as u8;
        let position = index >> (2 * height as u32);
        let mut slot = 0;
        for child in 0..4u64 {
            if child != position % 4 {
                path[level][slot] = subtree(height, 4 * (position / 4) + child, &empty);
                slot += 1;
            }
        }
    }
    path
}

fn sample_path() -> [[tct::hash::Hash; 3]; 8] {
    let mut path = [[digest(0); 3]; 8];
    let mut seed = 1;
    for level in 0..8 {
        for slot in 0..3 {
            path[level][slot] = digest(seed);
            seed += 1;
        }
    }
    path
}

#[test]
fn auth_path_round_trips_in_order() {
    let path = sample_path();
    let proof = Proof::new(Commitment(digest(200)), 5, path);
    let read = proof.auth_path();
    for level in 0..8 {
        assert_eq!(*read[level], path[level]);
    }
    assert_eq!(*read[0], [digest(1), digest(2), digest(3)]);
    assert_eq!(*read[7], [digest(22), digest(23), digest(24)]);
}

#[test]
fn accessors_return_what_was_given() {
    let proof = Proof::new(Commitment(digest(200)), u64::MAX, sample_path());
    assert_eq!(proof.index(), u64::MAX);
    assert_eq!(proof.commitment(), Commitment(digest(200)));
    let same = Proof::new(Commitment(digest(200)), u64::MAX, sample_path());
    assert_eq!(proof, same);
    let other = Proof::new(Commitment(digest(200)), 0, sample_path());
    assert_ne!(proof, other);
}

#[test]
fn leaf_at_index_5_verifies_against_the_true_root_only() {
    let commitment = Commitment(leaf(5));
    let root = tree_root();
    let path = witness(5);
    assert!(Proof::new(commitment, 5, path).verify(&root).is_ok());
    let other = Root(subtree(7, 0, &empties()));
    assert_ne!(other, root);
    assert!(Proof::new(commitment, 5, path).verify(&other).is_err());
    let mut bytes = (root.0).0;
    bytes[31] ^= 0x80;
    let flipped = Root(tct::hash::Hash(bytes));
    assert!(Proof::new(commitment, 5, path).verify(&flipped).is_err());
}

#[test]
fn every_witness_of_the_tree_verifies() {
    let root = tree_root();
    for index in [0u64, 1, 3, 4, 5, 15, 16, 20, 21, 1000, 0x4000, 0xffff] {
        let proof = Proof::new(Commitment(leaf(index)), index, witness(index));
        assert_eq!(proof.root(), root.0, "index {}", index);
        assert!(proof.verify(&root).is_ok(), "index {}", index);
    }
}

#[test]
fn changing_a_bit_of_any_sibling_fails() {
    let commitment = Commitment(leaf(5));
    let root = tree_root();
    let path = witness(5);
    for level in 0..8 {
        for slot in 0..3 {
            for bit in [0usize, 77, 255] {
                let mut tampered = path;
                (tampered[level][slot].0)[bit / 8] ^= 1 << (bit % 8);
                let result = Proof::new(commitment, 5, tampered).verify(&root);
                assert!(result.is_err(), "level {} slot {} bit {}", level, slot, bit);
            }
        }
    }
}

#[test]
fn changing_the_commitment_fails() {
    let root = tree_root();
    let proof = Proof::new(Commitment(leaf(6)), 5, witness(5));
    assert!(proof.verify(&root).is_err());
}

#[test]
fn changing_a_digit_of_the_index_fails() {
    let commitment = Commitment(leaf(5));
    let root = tree_root();
    let path = witness(5);
    for digit in 0..8u32 {
        for change in 1..4u64 {
            let moved = 5 ^ (change << (2 * digit));
            let result = Proof::new(commitment, moved, path).verify(&root);
            assert!(result.is_err(), "index {}", moved);
        }
    }
}

#[test]
fn only_the_low_16_bits_of_the_index_are_read() {
    let commitment = Commitment(leaf(5));
    let root = tree_root();
    let path = witness(5);
    for index in [5 + (1u64 << 16), 5 + (1u64 << 40), 5 | (u64::MAX << 16)] {
        let proof = Proof::new(commitment, index, path);
        assert_eq!(proof.index(), index);
        assert!(proof.verify(&root).is_ok(), "index {}", index);
    }
}

#[test]
fn a_proof_of_another_tree_is_rejected() {
    let proof = Proof::new(Commitment(digest(200)), 5, sample_path());
    let unrelated = tree_root();
    assert!(proof.verify(&unrelated).is_err());
}

#[test]
fn a_failed_verification_gives_back_root_and_proof() {
    let proof = Proof::new(Commitment(digest(200)), 5, sample_path());
    let claimed = Root(digest(9));
    let error = proof.clone().verify(&claimed).unwrap_err();
    assert_eq!(error.root(), claimed);
    let recovered = error.clone().into_proof();
    assert_eq!(recovered, proof);
    assert_eq!(recovered.commitment(), Commitment(digest(200)));
    assert_eq!(recovered.index(), 5);
    for level in 0..8 {
        assert_eq!(*recovered.auth_path()[level], sample_path()[level]);
    }
    let retried = error.into_proof();
    let true_root = Root(retried.root());
    assert!(retried.verify(&true_root).is_ok());
}

#[test]
fn check_root_compares_byte_for_byte() {
    let proof = Proof::new(Commitment(digest(200)), 5, sample_path());
    let root = Root(digest(9));
    assert!(proof.clone().check_root(digest(9), &root).is_ok());
    let mut bytes = digest(9).0;
    bytes[31] = 1;
    let error = proof.clone().check_root(tct::hash::Hash(bytes), &root).unwrap_err();
    assert_eq!(error.root(), root);
    assert_eq!(error.into_proof(), proof);
}

#[test]
fn moving_a_leaf_among_equal_siblings_keeps_the_root() {
    let commitment = Commitment(digest(7));
    let mut path = sample_path();
    path[7] = [digest(7); 3];
    let root = Root(Proof::new(commitment, 0, path).root());
    for index in 0..4 {
        assert!(Proof::new(commitment, index, path).verify(&root).is_ok());
    }
    assert!(Proof::new(commitment, 4, path).verify(&root).is_err());
}
