use decaf377::Fq;
use tct::path::WhichWay;

fn digest(seed: u8) -> tct::hash::Hash {
    let mut bytes = [0u8; 32];
    bytes[0] = seed;
    bytes[17] = 0x5a;
    tct::hash::Hash(bytes)
}

fn field(hash: tct::hash::Hash) -> Fq {
    Fq::from_le_bytes_mod_order(&hash.0)
}

#[test]
fn node_is_the_poseidon_hash_of_the_children_under_the_height() {
    let (a, b, c, d) = (digest(1), digest(2), digest(3), digest(4));
    for height in [1u8, 2, 8, 255] {
        let expected =
            poseidon377::hash_4(&Fq::from(height as u64), (field(a), field(b), field(c), field(d)));
        assert_eq!(tct::hash::Hash::node(height, a, b, c, d).0, expected.to_bytes());
    }
}

#[test]
fn node_matches_a_known_digest() {
    let zero = tct::hash::Hash([0u8; 32]);
    let expected = poseidon377::hash_4(&Fq::from(1u64), (Fq::ZERO, Fq::ZERO, Fq::ZERO, Fq::ZERO));
    let digest = tct::hash::Hash::node(1, zero, zero, zero, zero);
    assert_eq!(digest.0, expected.to_bytes());
    assert_ne!(digest, zero);
}

#[test]
fn node_depends_on_height_and_on_the_order_of_the_children() {
    let (a, b, c, d) = (digest(1), digest(2), digest(3), digest(4));
    let node = tct::hash::Hash::node(1, a, b, c, d);
    assert_eq!(node, tct::hash::Hash::node(1, a, b, c, d));
    assert_ne!(node, tct::hash::Hash::node(2, a, b, c, d));
    assert_ne!(node, tct::hash::Hash::node(1, b, a, c, d));
    assert_ne!(node, tct::hash::Hash::node(1, a, b, d, c));
    assert_ne!(node, a);
    assert_ne!(node, d);
}

#[test]
fn hashes_are_equal_byte_for_byte() {
    let mut bytes = [7u8; 32];
    let first = tct::hash::Hash(bytes);
    assert_eq!(first, tct::hash::Hash([7u8; 32]));
    bytes[31] = 8;
    assert_ne!(first, tct::hash::Hash(bytes));
    bytes[31] = 7;
    bytes[0] = 6;
    assert_ne!(first, tct::hash::Hash(bytes));
}

#[test]
fn which_way_is_the_lowest_base_4_digit() {
    assert_eq!(WhichWay::at(0), WhichWay::Leftmost);
    assert_eq!(WhichWay::at(1), WhichWay::Left);
    assert_eq!(WhichWay::at(2), WhichWay::Right);
    assert_eq!(WhichWay::at(3), WhichWay::Rightmost);
    assert_eq!(WhichWay::at(4), WhichWay::Leftmost);
    assert_eq!(WhichWay::at(5), WhichWay::Left);
    assert_eq!(WhichWay::at(u64::MAX), WhichWay::Rightmost);
    assert_eq!(WhichWay::at(u64::MAX - 1), WhichWay::Right);
}

#[test]
fn insert_puts_the_item_in_its_slot() {
    let item = digest(9);
    let siblings = [digest(1), digest(2), digest(3)];
    assert_eq!(
        WhichWay::Leftmost.insert(item, siblings),
        [digest(9), digest(1), digest(2), digest(3)]
    );
    assert_eq!(WhichWay::Left.insert(item, siblings), [digest(1), digest(9), digest(2), digest(3)]);
    assert_eq!(WhichWay::Right.insert(item, siblings), [digest(1), digest(2), digest(9), digest(3)]);
    assert_eq!(
        WhichWay::Rightmost.insert(item, siblings),
        [digest(1), digest(2), digest(3), digest(9)]
    );
}

#[test]
fn root_hashes_from_the_leaf_level_up_with_the_low_digit_first() {
    let mut levels = [[digest(0); 3]; 8];
    let mut seed = 10;
    for level in 0..8 {
        for slot in 0..3 {
            levels[level][slot] = digest(seed);
            seed += 1;
        }
    }
    let leaf = digest(99);
    // Base-4 digits of the index, from the root level to the leaf level.
    let digits = [3u64, 0, 1, 2, 2, 0, 3, 1];
    let mut index = 0;
    for digit in digits {
        index = index * 4 + digit;
    }
    assert_eq!(index, 0xc68d);
    let mut current = leaf;
    for level in (0..8).rev() {
        let [a, b, c] = levels[level];
        let children = match digits[level] {
            0 => [current, a, b, c],
            1 => [a, current, b, c],
            2 => [a, b, current, c],
            _ => [a, b, c, current],
        };
        let height = 8 - level as u8;
        current = tct::hash::Hash::node(height, children[0], children[1], children[2], children[3]);
    }
    let by_reference = [
        &levels[0], &levels[1], &levels[2], &levels[3], &levels[4], &levels[5], &levels[6],
        &levels[7],
    ];
    assert_eq!(tct::path::root(by_reference, index, leaf), current);
    assert_ne!(tct::path::root(by_reference, index + 1, leaf), current);
}
