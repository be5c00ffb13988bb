use pow_attack::blockchain::Blockchain;

#[test]
fn genesis_invariant() {
    for d in 0..3 {
        let c = Blockchain::new(d);
        assert_eq!(c.length(), 1);
        assert_eq!(c.difficulty, d);
        let g = &c.chain[0];
        assert_eq!(g.index, 0);
        assert_eq!(g.previous_hash, "0");
        assert_eq!(g.data, "Genesis Block");
        assert!(g.hash.starts_with(&"0".repeat(d)));
        assert_eq!(g.hash, g.calculate_hash());
        assert!(c.is_valid());
    }
}

#[test]
fn append_grows_by_one_and_links() {
    let mut c = Blockchain::new(1);
    for i in 0..4 {
        let before = c.length();
        let tip = c.tip_hash().to_string();
        assert!(c.add_block(&format!("payload {}", i)));
        assert_eq!(c.length(), before + 1);
        let last = c.chain.last().unwrap();
        assert_eq!(last.previous_hash, tip);
        assert_eq!(last.index as usize, before);
        assert_eq!(last.data, format!("payload {}", i));
        assert!(last.hash.starts_with('0'));
        assert_eq!(c.tip_hash(), last.hash);
    }
}

#[test]
fn built_chain_is_valid() {
    let mut c = Blockchain::new(1);
    for i in 0..5 {
        assert!(c.add_block(&format!("tx {}", i)));
        assert!(c.is_valid());
    }
}

#[test]
fn tampered_data_fails_validation() {
    let mut c = Blockchain::new(1);
    for i in 0..4 {
        assert!(c.add_block(&format!("tx {}", i)));
    }
    for i in 1..c.length() {
        let mut t = c.duplicate();
        t.chain[i].data = String::from("forged");
        assert!(!t.is_valid());
    }
}

#[test]
fn tampered_genesis_data_is_not_checked() {
    let mut c = Blockchain::new(1);
    assert!(c.add_block("tx"));
    c.chain[0].data = String::from("forged");
    assert!(c.is_valid());
}

#[test]
fn broken_link_fails_validation() {
    let mut c = Blockchain::new(0);
    assert!(c.add_block("a"));
    assert!(c.add_block("b"));
    c.chain[2].previous_hash = String::from("nope");
    assert!(!c.is_valid());
}

#[test]
fn unmined_block_fails_validation() {
    let mut c = Blockchain::new(2);
    assert!(c.add_block("a"));
    let mut b = pow_attack::block::Block::new(2, c.tip_hash(), "b");
    while b.hash.starts_with("00") {
        b.nonce += 1;
        b.hash = b.calculate_hash();
    }
    c.chain.push(b);
    assert!(!c.is_valid());
}

#[test]
fn append_fails_beyond_digest_length() {
    let mut c = Blockchain::new(65);
    assert_eq!(c.length(), 1);
    assert!(!c.add_block("never"));
    assert_eq!(c.length(), 1);
    assert!(c.is_valid());
}

#[test]
fn duplicate_is_independent() {
    let mut original = Blockchain::new(1);
    assert!(original.add_block("shared"));
    let mut copy = original.duplicate();
    assert_eq!(copy.length(), original.length());
    assert_eq!(copy.tip_hash(), original.tip_hash());
    let tip = original.tip_hash().to_string();
    assert!(copy.add_block("copy only"));
    assert_eq!(original.length(), 2);
    assert_eq!(original.tip_hash(), tip);
    let copy_tip = copy.tip_hash().to_string();
    assert!(original.add_block("original only"));
    assert_eq!(copy.length(), 3);
    assert_eq!(copy.tip_hash(), copy_tip);
}
