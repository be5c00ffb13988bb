//! Chains of blocks sharing one difficulty: construction, extension and
//! validation.
use crate::block::{meets_difficulty, hash_text, sha256_hex, has_zero_prefix, unminable, lemma_mined_from_restart, Block, BlockView, DIGEST_HEX_LEN};
use vstd::prelude::*;

verus! {

/// `cur` follows `prev` in a valid chain: it points at `prev`'s hash, its own
/// hash is the hash of its fields, and that hash meets the difficulty.
pub open spec fn valid_link(prev: BlockView, cur: BlockView, difficulty: nat) -> bool {
    &&& cur.previous_hash == prev.hash
    &&& cur.hash_consistent()
    &&& has_zero_prefix(cur.hash, difficulty)
}

/// Every block after the first is a valid link from its predecessor. The
/// genesis block is exempt from these checks.
pub open spec fn links_valid(blocks: Seq<BlockView>, difficulty: nat) -> bool {
    forall|i: int|
        1 <= i < blocks.len() ==> #[trigger] valid_link(blocks[i - 1], blocks[i], difficulty)
}

/// Tampering with the data of any block after the genesis block, without
/// mining it again, makes a valid chain fail validation, unless the digest
/// of the tampered block happens to equal the hash it stores.
pub proof fn lemma_tampered_data_fails_validation(
    blocks: Seq<BlockView>,
    difficulty: nat,
    i: int,
    data: Seq<char>,
)
    requires
        links_valid(blocks, difficulty),
        1 <= i < blocks.len(),
        (BlockView { data, ..blocks[i] }).computed_hash() != blocks[i].hash,
    ensures
        !links_valid(blocks.update(i, BlockView { data, ..blocks[i] }), difficulty),
{
    let tampered = blocks.update(i, BlockView { data, ..blocks[i] });
    assert(!valid_link(tampered[i - 1], tampered[i], difficulty));
}

/// The genesis block's fixed fields: index 0, previous hash "0", and data
/// "Genesis Block".
pub open spec fn is_genesis(b: BlockView) -> bool {
    &&& b.index == 0
    &&& b.previous_hash == "0"@
    &&& b.data == "Genesis Block"@
}

/// `b` is a block appended after `tip` with payload `data`, mined at `difficulty`.
pub open spec fn is_successor(b: BlockView, tip: BlockView, data: Seq<char>, difficulty: nat) -> bool {
    &&& b.index == tip.index + 1
    &&& b.previous_hash == tip.hash
    &&& b.data == data
    &&& b.mined_from(b.with_nonce(0), difficulty)
    &&& has_zero_prefix(b.hash, difficulty)
}

/// An append-only sequence of blocks sharing one difficulty.
pub struct Blockchain {
    /// The blocks, genesis first.
    pub chain: Vec<Block>,
    /// Number of leading zero hex characters that every mined hash needs.
    pub difficulty: usize,
}

impl Blockchain {
    /// The blocks as plain values.
    pub open spec fn blocks(&self) -> Seq<BlockView> {
        self.chain@.map_values(|b: Block| b@)
    }

    /// Non-empty, and every link after the genesis block is valid.
    pub open spec fn wf(&self) -> bool {
        &&& self.chain@.len() >= 1
        &&& links_valid(self.blocks(), self.difficulty as nat)
    }

    /// A chain holding one genesis block, mined at `difficulty`.
    pub fn new(difficulty: usize) -> (r: Blockchain)
        ensures
            r.wf(),
            r.difficulty == difficulty,
            r.chain@.len() == 1,
            is_genesis(r.blocks()[0]),
            r.blocks()[0].mined_from(r.blocks()[0].with_nonce(0), difficulty as nat),
            difficulty <= DIGEST_HEX_LEN && r.blocks()[0].nonce < u64::MAX ==> has_zero_prefix(
                r.blocks()[0].hash,
                difficulty as nat,
            ),
    {
        let mut blockchain = Blockchain { chain: Vec::new(), difficulty };
        blockchain.create_genesis_block();
        blockchain
    }

    fn create_genesis_block(&mut self)
        requires
            old(self).chain@.len() == 0,
        ensures
            final(self).difficulty == old(self).difficulty,
            final(self).chain@.len() == 1,
            is_genesis(final(self).blocks()[0]),
            final(self).blocks()[0].mined_from(
                final(self).blocks()[0].with_nonce(0),
                old(self).difficulty as nat,
            ),
    {
        let mut genesis = Block::new(0, "0", "Genesis Block");
        let ghost start = genesis@;
        let _ = genesis.mine_block(self.difficulty);
        self.chain.push(genesis);
        assert(self.blocks()[0] == genesis@);
        proof {
            lemma_mined_from_restart(genesis@, start, self.difficulty as nat);
        }
    }

    /// Appends a block carrying `data` after the current tip, mined at the
    /// chain's difficulty. Returns whether it was appended: nothing is
    /// appended when the tip's index is the largest one, when the difficulty
    /// exceeds the digest's length, or when no nonce meets the target for the
    /// timestamp the block was given.
    pub fn add_block(&mut self, data: &str) -> (appended: bool)
        requires
            old(self).chain@.len() >= 1,
        ensures
            final(self).difficulty == old(self).difficulty,
            old(self).wf() ==> final(self).wf(),
            appended ==> final(self).blocks() == old(self).blocks().push(final(self).blocks().last()),
            appended ==> final(self).chain@.len() == old(self).chain@.len() + 1,
            appended ==> is_successor(
                final(self).blocks().last(),
                old(self).blocks().last(),
                data@,
                old(self).difficulty as nat,
            ),
            !appended ==> final(self).blocks() == old(self).blocks(),
            !appended ==> {
                ||| old(self).blocks().last().index == u32::MAX
                ||| old(self).difficulty > DIGEST_HEX_LEN
                ||| exists|timestamp: Seq<char>|
                    #[trigger] unminable(
                        (old(self).blocks().last().index + 1) as u32,
                        old(self).blocks().last().hash,
                        timestamp,
                        data@,
                        old(self).difficulty as nat,
                    )
            },
    {
        let last = self.chain.len() - 1;
        let previous_block = &self.chain[last];
        if previous_block.index == u32::MAX {
            return false;
        }
        let new_block = Block::new(previous_block.index + 1, previous_block.hash.as_str(), data);
        let ghost start = new_block@;
        let appended = self.mine_and_add_block(new_block);
        proof {
            if appended {
                lemma_mined_from_restart(self.blocks().last(), start, self.difficulty as nat);
            }
            if !appended && self.difficulty <= DIGEST_HEX_LEN {
                assert(unminable(start.index, start.previous_hash, start.timestamp, start.data, self.difficulty as nat));
            }
        }
        appended
    }

    /// Checks every block after the genesis block against its predecessor:
    /// the link to the predecessor's hash, the hash of its own fields, and
    /// the difficulty target.
    pub fn is_valid(&self) -> (r: bool)
        ensures
            r == links_valid(self.blocks(), self.difficulty as nat),
            self.wf() ==> r,
    {
        let n = self.chain.len();
        let mut i: usize = 1;
        while i < n
            invariant
                n == self.chain@.len(),
                1 <= i,
                forall|j: int|
                    1 <= j < i && j < n ==> #[trigger] valid_link(
                        self.blocks()[j - 1],
                        self.blocks()[j],
                        self.difficulty as nat,
                    ),
            decreases n - i,
        {
            let previous_block = &self.chain[i - 1];
            let current_block = &self.chain[i];
            assert(self.blocks()[i - 1] == previous_block@);
            assert(self.blocks()[i as int] == current_block@);
            if !(current_block.previous_hash == previous_block.hash) {
                assert(!valid_link(self.blocks()[i - 1], self.blocks()[i as int], self.difficulty as nat));
                return false;
            }
            let recomputed = current_block.calculate_hash();
            if !(current_block.hash == recomputed) {
                assert(!valid_link(self.blocks()[i - 1], self.blocks()[i as int], self.difficulty as nat));
                return false;
            }
            if !meets_difficulty(current_block.get_hash(), self.difficulty) {
                assert(!valid_link(self.blocks()[i - 1], self.blocks()[i as int], self.difficulty as nat));
                return false;
            }
            i = i + 1;
        }
        true
    }

    /// Number of blocks, genesis included.
    pub fn length(&self) -> (r: usize)
        ensures
            r == self.chain@.len(),
    {
        self.chain.len()
    }

    /// The hash of the last block.
    pub fn tip_hash(&self) -> (r: &str)
        requires
            self.chain@.len() >= 1,
        ensures
            r@ == self.blocks().last().hash,
    {
        self.chain[self.chain.len() - 1].get_hash()
    }

    /// An independent copy of the chain and of every block in it.
    pub fn duplicate(&self) -> (r: Blockchain)
        ensures
            r.blocks() == self.blocks(),
            r.difficulty == self.difficulty,
    {
        let mut chain: Vec<Block> = Vec::new();
        let n = self.chain.len();
        let mut i: usize = 0;
        while i < n
            invariant
                n == self.chain@.len(),
                i <= n,
                chain@.len() == i,
                forall|j: int| 0 <= j < i ==> (#[trigger] chain@[j])@ == self.chain@[j]@,
            decreases n - i,
        {
            chain.push(self.chain[i].duplicate());
            i = i + 1;
        }
        let r = Blockchain { chain, difficulty: self.difficulty };
        assert(r.blocks() =~= self.blocks());
        r
    }

    /// Mines `new_block` at the chain's difficulty and pushes it if the
    /// target was met.
    fn mine_and_add_block(&mut self, mut new_block: Block) -> (appended: bool)
        requires
            old(self).chain@.len() >= 1,
            new_block@.previous_hash == old(self).blocks().last().hash,
            new_block@.nonce == 0,
        ensures
            final(self).difficulty == old(self).difficulty,
            old(self).wf() ==> final(self).wf(),
            appended ==> final(self).blocks() == old(self).blocks().push(final(self).blocks().last()),
            appended ==> final(self).blocks().last().mined_from(new_block@, old(self).difficulty as nat),
            appended ==> has_zero_prefix(final(self).blocks().last().hash, old(self).difficulty as nat),
            !appended ==> final(self).blocks() == old(self).blocks(),
            !appended ==> {
                ||| old(self).difficulty > DIGEST_HEX_LEN
                ||| unminable(
                    new_block@.index,
                    new_block@.previous_hash,
                    new_block@.timestamp,
                    new_block@.data,
                    old(self).difficulty as nat,
                )
            },
    {
        let ghost start = new_block@;
        if new_block.mine_block(self.difficulty) {
            self.chain.push(new_block);
            assert(self.blocks() == old(self).blocks().push(new_block@));
            proof {
                let bs = self.blocks();
                let d = self.difficulty as nat;
                if old(self).wf() {
                    assert forall|i: int| 1 <= i < bs.len() implies #[trigger] valid_link(
                        bs[i - 1],
                        bs[i],
                        d,
                    ) by {
                        if i < bs.len() - 1 {
                            assert(valid_link(old(self).blocks()[i - 1], old(self).blocks()[i], d));
                        }
                    }
                }
            }
            true
        } else {
            proof {
                if self.difficulty <= DIGEST_HEX_LEN {
                    let m = new_block@;
                    assert forall|n: u64|
                        !has_zero_prefix(
                            #[trigger] sha256_hex(
                                hash_text(start.index, start.previous_hash, start.timestamp, start.data, n),
                            ),
                            self.difficulty as nat,
                        ) by {
                        assert(start.hash_with_nonce(n) == sha256_hex(
                            hash_text(start.index, start.previous_hash, start.timestamp, start.data, n),
                        ));
                        if n == u64::MAX {
                            assert(m.hash == start.hash_with_nonce(n));
                        }
                    }
                }
            }
            false
        }
    }
}

} // verus!
