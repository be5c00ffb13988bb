use pow_attack::attack::{
    attack_succeeded, attacker_is_canonical, attacker_pause_secs, fork_choice, honest_pause_secs,
    invalidated_transactions, seed_payload, seeded_chain, MIN_HONEST_LEN,
};
use pow_attack::blockchain::Blockchain;

fn seeded_pair() -> (Blockchain, Blockchain) {
    let honest = seeded_chain(1, 4);
    let attacker = honest.duplicate();
    (honest, attacker)
}

#[test]
fn stopping_rule() {
    assert!(!attack_succeeded(8, 7));
    assert!(attack_succeeded(9, 8));
    assert!(!attack_succeeded(8, 8));
    assert!(!attack_succeeded(7, 8));
    assert!(!attack_succeeded(100, MIN_HONEST_LEN));
    assert!(attack_succeeded(MIN_HONEST_LEN + 2, MIN_HONEST_LEN + 1));
}

#[test]
fn longest_chain_wins_and_tie_keeps_honest() {
    assert!(attacker_is_canonical(6, 7));
    assert!(!attacker_is_canonical(7, 7));
    assert!(!attacker_is_canonical(8, 7));
}

#[test]
fn seeding_produces_numbered_transactions() {
    let c = seeded_chain(1, 5);
    assert_eq!(c.length(), 6);
    assert!(c.is_valid());
    for k in 1..6 {
        assert_eq!(c.chain[k].data, format!("Transaction {}", k));
        assert_eq!(c.chain[k].index as usize, k);
    }
    assert_eq!(seeded_chain(0, 0).length(), 1);
    assert_eq!(seed_payload(12), "Transaction 12");
    assert_eq!(seed_payload(0), "Transaction 0");
}

#[test]
fn seeding_stops_when_blocks_cannot_be_mined() {
    let c = seeded_chain(65, 3);
    assert_eq!(c.length(), 1);
}

#[test]
fn attacker_two_ahead_invalidates_honest_blocks_after_fork() {
    let (mut honest, mut attacker) = seeded_pair();
    assert_eq!(honest.length(), 5);
    assert!(honest.add_block("honest 5"));
    for k in 5..8 {
        assert!(attacker.add_block(&format!("attacker {}", k)));
    }
    assert_eq!(attacker.length(), honest.length() + 2);
    let report = fork_choice(&honest, &attacker);
    assert!(report.attacker_wins);
    assert_eq!(report.invalidated, vec![String::from("honest 5")]);
    for k in 1..5 {
        assert!(!report.invalidated.contains(&format!("Transaction {}", k)));
    }
}

#[test]
fn race_with_faster_attacker_ends_in_reorganisation() {
    let (mut honest, mut attacker) = seeded_pair();
    let mut round = 0;
    let mut honest_payloads = Vec::new();
    loop {
        round += 1;
        assert!(attacker.add_block(&format!("attacker {}", round)));
        if round % 2 == 0 {
            let p = format!("honest {}", round);
            assert!(honest.add_block(&p));
            honest_payloads.push(p);
        }
        if attack_succeeded(attacker.length(), honest.length()) {
            break;
        }
        assert!(round < 100);
    }
    assert!(honest.length() > MIN_HONEST_LEN);
    assert!(honest.is_valid());
    assert!(attacker.is_valid());
    let report = fork_choice(&honest, &attacker);
    assert!(report.attacker_wins);
    assert_eq!(report.invalidated, honest_payloads);
}

#[test]
fn equal_pace_keeps_honest_chain() {
    let (mut honest, mut attacker) = seeded_pair();
    for round in 0..6 {
        assert!(honest.add_block(&format!("honest {}", round)));
        assert!(attacker.add_block(&format!("attacker {}", round)));
        assert!(!attack_succeeded(attacker.length(), honest.length()));
    }
    let report = fork_choice(&honest, &attacker);
    assert!(!report.attacker_wins);
    assert!(report.invalidated.is_empty());
}

#[test]
fn identical_chains_invalidate_nothing() {
    let (honest, attacker) = seeded_pair();
    assert!(invalidated_transactions(&honest, &attacker).is_empty());
    let report = fork_choice(&honest, &attacker);
    assert!(!report.attacker_wins);
    assert!(report.invalidated.is_empty());
}

#[test]
fn shorter_attacker_reports_missing_positions() {
    let (mut honest, attacker) = seeded_pair();
    assert!(honest.add_block("h5"));
    assert!(honest.add_block("h6"));
    assert_eq!(
        invalidated_transactions(&honest, &attacker),
        vec![String::from("h5"), String::from("h6")]
    );
}

#[test]
fn pauses_follow_difficulty() {
    assert_eq!(honest_pause_secs(0), 1);
    assert_eq!(attacker_pause_secs(0), 0);
    assert_eq!(honest_pause_secs(4), 16);
    assert_eq!(attacker_pause_secs(4), 8);
    assert_eq!(honest_pause_secs(63), 1u64 << 63);
    assert_eq!(honest_pause_secs(64), u64::MAX);
    assert_eq!(attacker_pause_secs(200), u64::MAX / 2);
}
