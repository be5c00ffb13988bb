//! The majority-hash-power race: when the attacker stops, which chain is
//! canonical, and which honest blocks the winner leaves behind.
use crate::block::{decimal, decimal_text, unminable, BlockView, DIGEST_HEX_LEN};
use crate::blockchain::{is_genesis, Blockchain};
use vstd::prelude::*;
use vstd::string::*;

verus! {

/// The attack only counts once the honest chain is longer than this.
pub const MIN_HONEST_LEN: usize = 7;

/// The attacker's stopping rule: its chain is strictly longer than the
/// honest one, and the honest one holds more than `MIN_HONEST_LEN` blocks.
pub fn attack_succeeded(attacker_len: usize, honest_len: usize) -> (r: bool)
    ensures
        r == (attacker_len > honest_len && honest_len > MIN_HONEST_LEN),
{
    attacker_len > honest_len && honest_len > MIN_HONEST_LEN
}

/// Longest chain wins; a tie keeps the honest chain.
pub fn attacker_is_canonical(honest_len: usize, attacker_len: usize) -> (r: bool)
    ensures
        r == (attacker_len > honest_len),
{
    attacker_len > honest_len
}

/// The honest block at position `i` is not part of the attacker's chain:
/// the attacker has no block there, or one with another hash.
pub open spec fn diverges(honest: Seq<BlockView>, attacker: Seq<BlockView>, i: int) -> bool {
    i >= attacker.len() || attacker[i].hash != honest[i].hash
}

/// The payloads of the diverging honest blocks among the first `n`, in order.
pub open spec fn diverging_data(honest: Seq<BlockView>, attacker: Seq<BlockView>, n: nat) -> Seq<
    Seq<char>,
>
    decreases n,
{
    if n == 0 {
        Seq::empty()
    } else {
        let rest = diverging_data(honest, attacker, (n - 1) as nat);
        if diverges(honest, attacker, n - 1) {
            rest.push(honest[n - 1].data)
        } else {
            rest
        }
    }
}

/// The payloads of the honest blocks that the attacker's chain does not hold
/// at the same position, in chain order.
pub fn invalidated_transactions(honest: &Blockchain, attacker: &Blockchain) -> (r: Vec<String>)
    ensures
        r@.map_values(|s: String| s@) == diverging_data(
            honest.blocks(),
            attacker.blocks(),
            honest.chain@.len(),
        ),
{
    let mut r: Vec<String> = Vec::new();
    let n = honest.chain.len();
    let m = attacker.chain.len();
    let mut i: usize = 0;
    while i < n
        invariant
            n == honest.chain@.len(),
            m == attacker.chain@.len(),
            i <= n,
            r@.map_values(|s: String| s@) == diverging_data(
                honest.blocks(),
                attacker.blocks(),
                i as nat,
            ),
        decreases n - i,
    {
        let block = &honest.chain[i];
        assert(honest.blocks()[i as int] == block@);
        let kept = i < m && attacker.chain[i] == *block;
        if i < m {
            assert(attacker.blocks()[i as int] == attacker.chain@[i as int]@);
        }
        if !kept {
            r.push(block.data.clone());
        }
        assert(r@.map_values(|s: String| s@) =~= diverging_data(
            honest.blocks(),
            attacker.blocks(),
            (i + 1) as nat,
        ));
        i = i + 1;
    }
    r
}

/// The verdict of the race.
pub struct AttackReport {
    /// The attacker's chain is canonical.
    pub attacker_wins: bool,
    /// Payloads of the honest blocks that are no longer part of the
    /// canonical chain; empty when the honest chain stays canonical.
    pub invalidated: Vec<String>,
}

/// Applies the longest-chain rule to the two chains and, when the attacker
/// wins, lists the honest payloads that its chain does not hold.
pub fn fork_choice(honest: &Blockchain, attacker: &Blockchain) -> (r: AttackReport)
    ensures
        r.attacker_wins == (attacker.chain@.len() > honest.chain@.len()),
        r.attacker_wins ==> r.invalidated@.map_values(|s: String| s@) == diverging_data(
            honest.blocks(),
            attacker.blocks(),
            honest.chain@.len(),
        ),
        !r.attacker_wins ==> r.invalidated@.len() == 0,
{
    if attacker_is_canonical(honest.length(), attacker.length()) {
        AttackReport { attacker_wins: true, invalidated: invalidated_transactions(honest, attacker) }
    } else {
        AttackReport { attacker_wins: false, invalidated: Vec::new() }
    }
}

/// `2^e`, or `u64::MAX` where that does not fit.
pub open spec fn saturating_pow2(e: nat) -> nat {
    if vstd::arithmetic::power2::pow2(e) > u64::MAX {
        u64::MAX as nat
    } else {
        vstd::arithmetic::power2::pow2(e)
    }
}

/// Seconds the honest worker waits between blocks: `2^difficulty`,
/// saturating at `u64::MAX`.
pub fn honest_pause_secs(difficulty: usize) -> (r: u64)
    ensures
        r == saturating_pow2(difficulty as nat),
{
    let mut p: u64 = 1;
    let mut i: usize = 0;
    proof {
        vstd::arithmetic::power2::lemma2_to64();
    }
    while i < difficulty
        invariant
            i <= difficulty,
            p == saturating_pow2(i as nat),
        decreases difficulty - i,
    {
        proof {
            vstd::arithmetic::power2::lemma_pow2_unfold((i + 1) as nat);
            vstd::arithmetic::power2::lemma_pow2_pos(i as nat);
        }
        if p > u64::MAX / 2 {
            p = u64::MAX;
        } else {
            p = p * 2;
        }
        i = i + 1;
    }
    p
}

/// Seconds the attacker waits between blocks: half the honest pause, so
/// that it mines about twice as fast.
pub fn attacker_pause_secs(difficulty: usize) -> (r: u64)
    ensures
        r == saturating_pow2(difficulty as nat) / 2,
{
    honest_pause_secs(difficulty) / 2
}

/// The payload of the `i`-th block seeded into the honest chain before the fork.
pub open spec fn seed_text(i: nat) -> Seq<char> {
    "Transaction "@ + decimal(i)
}

/// The payload of the `i`-th seed block: "Transaction i".
pub fn seed_payload(i: u64) -> (r: String)
    ensures
        r@ == seed_text(i as nat),
{
    let mut text = String::from_str("Transaction ");
    let number = decimal_text(i);
    text.append(number.as_str());
    text
}

/// A chain at `difficulty` seeded with the blocks "Transaction 1" to
/// "Transaction seeds", stopping early only where a seed block cannot be mined.
pub fn seeded_chain(difficulty: usize, seeds: u32) -> (r: Blockchain)
    ensures
        r.wf(),
        r.difficulty == difficulty,
        is_genesis(r.blocks()[0]),
        1 <= r.chain@.len() <= seeds + 1,
        forall|k: int|
            1 <= k < r.chain@.len() ==> (#[trigger] r.blocks()[k]).index == k && r.blocks()[k].data
                == seed_text(k as nat),
        r.chain@.len() < seeds + 1 ==> {
            ||| difficulty > DIGEST_HEX_LEN
            ||| exists|timestamp: Seq<char>|
                #[trigger] unminable(
                    r.chain@.len() as u32,
                    r.blocks().last().hash,
                    timestamp,
                    seed_text(r.chain@.len() as nat),
                    difficulty as nat,
                )
        },
{
    let mut chain = Blockchain::new(difficulty);
    let mut i: u32 = 1;
    while i <= seeds
        invariant
            chain.wf(),
            chain.difficulty == difficulty,
            is_genesis(chain.blocks()[0]),
            1 <= i <= seeds + 1,
            chain.chain@.len() == i,
            forall|k: int|
                0 <= k < chain.chain@.len() ==> (#[trigger] chain.blocks()[k]).index == k,
            forall|k: int|
                1 <= k < chain.chain@.len() ==> (#[trigger] chain.blocks()[k]).data == seed_text(
                    k as nat,
                ),
        decreases seeds + 1 - i,
    {
        let payload = seed_payload(i as u64);
        let ghost before = chain.blocks();
        if !chain.add_block(payload.as_str()) {
            return chain;
        }
        assert(chain.blocks()[i as int] == chain.blocks().last());
        assert forall|k: int| 0 <= k < i implies chain.blocks()[k] == before[k] by {}
        if i == seeds {
            return chain;
        }
        i = i + 1;
    }
    chain
}

} // verus!
