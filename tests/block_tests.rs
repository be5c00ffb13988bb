use pow_attack::block::{meets_difficulty, Block};

#[test]
fn hash_of_fixed_fields_is_known_digest() {
    let b = Block::with_timestamp(0, "0", "2024-01-01T00:00:00.000", "Genesis Block");
    assert_eq!(b.hash, "65dfd52dfb2b6015317589f3a3ada8aaa72cdd952eb6e7b3007e9f02105e8a87");
    assert_eq!(b.nonce, 0);
}

#[test]
fn hash_covers_fields_in_order() {
    let mut b = Block::with_timestamp(7, "abc", "ts", "payload");
    b.nonce = 42;
    assert_eq!(
        b.calculate_hash(),
        "8c102b5ae476bca172c43b5be8d0747812c641d33e54f037a0ec203904e5b49e"
    );
}

#[test]
fn hash_is_deterministic() {
    let b = Block::new(3, "prev", "some data");
    assert_eq!(b.calculate_hash(), b.calculate_hash());
    assert_eq!(b.calculate_hash(), b.hash);
    assert_eq!(b.get_hash(), b.hash.as_str());
}

#[test]
fn changing_one_field_changes_hash() {
    let b = Block::with_timestamp(1, "00ab", "T", "data");
    let mut c = b.duplicate();
    c.data = String::from("datb");
    assert_ne!(c.calculate_hash(), b.hash);
    let mut c = b.duplicate();
    c.nonce = 1;
    assert_ne!(c.calculate_hash(), b.hash);
    let mut c = b.duplicate();
    c.index = 2;
    assert_ne!(c.calculate_hash(), b.hash);
    let mut c = b.duplicate();
    c.previous_hash = String::from("00ac");
    assert_ne!(c.calculate_hash(), b.hash);
    let mut c = b.duplicate();
    c.timestamp = String::from("U");
    assert_ne!(c.calculate_hash(), b.hash);
}

#[test]
fn mining_finds_first_matching_nonce() {
    let mut b = Block::with_timestamp(1, "00ab", "T", "data");
    assert!(b.mine_block(2));
    assert_eq!(b.nonce, 467);
    assert_eq!(b.hash, "004399af0514beeb0936b9ca220cb752b33de6b306f11c71e6449385933e3392");
    assert_eq!(b.hash, b.calculate_hash());
    assert!(b.hash.starts_with("00"));
}

#[test]
fn mining_at_difficulty_zero_keeps_nonce() {
    let mut b = Block::with_timestamp(1, "00ab", "T", "data");
    let before = b.hash.clone();
    assert!(b.mine_block(0));
    assert_eq!(b.nonce, 0);
    assert_eq!(b.hash, before);
}

#[test]
fn mining_gives_up_beyond_digest_length() {
    let mut b = Block::with_timestamp(1, "00ab", "T", "data");
    assert!(!b.mine_block(65));
    assert_eq!(b.nonce, 0);
    assert_eq!(b.hash, b.calculate_hash());
}

#[test]
fn mining_at_difficulty_one() {
    let mut b = Block::new(5, "abc", "x");
    assert!(b.mine_block(1));
    assert!(b.hash.starts_with('0'));
    assert_eq!(b.hash, b.calculate_hash());
    assert_eq!(b.hash.len(), 64);
}

#[test]
fn difficulty_prefix_check() {
    assert!(meets_difficulty("00ab", 2));
    assert!(meets_difficulty("00ab", 0));
    assert!(!meets_difficulty("00ab", 3));
    assert!(!meets_difficulty("00", 3));
    assert!(meets_difficulty("000", 3));
    assert!(!meets_difficulty("a0", 1));
}

#[test]
fn blocks_compare_by_hash() {
    let a = Block::with_timestamp(1, "p", "t", "d");
    let mut b = Block::with_timestamp(2, "q", "u", "e");
    assert!(a != b);
    b.hash = a.hash.clone();
    assert!(a == b);
}

#[test]
fn description_shortens_hashes() {
    let b = Block::with_timestamp(3, "0123456789abcdef0123", "2024-01-01T00:00:00.000", "pay");
    let expected = format!(
        "Block 3 [Data: pay, Hash: {}, Previous Hash: 0123456789abcdef, Timestamp: 2024-01-01T00:00:00.000]",
        &b.hash[..16]
    );
    assert_eq!(b.describe(), expected);
    let g = Block::with_timestamp(0, "0", "t", "Genesis Block");
    assert!(g.describe().contains("Previous Hash: 0, "));
}

#[test]
fn duplicate_block_is_independent() {
    let a = Block::with_timestamp(1, "p", "t", "d");
    let mut b = a.duplicate();
    assert_eq!(b.hash, a.hash);
    assert_eq!(b.data, a.data);
    b.data.push('x');
    assert_eq!(a.data, "d");
}
