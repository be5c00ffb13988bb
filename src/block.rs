//! Blocks: their content hash and their proof-of-work search.
use sha2::Digest;
use vstd::prelude::*;
use vstd::string::*;

verus! {

/// Number of hex characters in a SHA-256 digest.
pub const DIGEST_HEX_LEN: usize = 64;

/// The ASCII character of a decimal digit.
pub open spec fn digit_char(d: nat) -> char {
    ((d + 48) as u8) as char
}

/// The decimal text of a natural number, most significant digit first.
pub open spec fn decimal(n: nat) -> Seq<char>
    decreases n,
{
    if n < 10 {
        seq![digit_char(n)]
    } else {
        decimal(n / 10) + seq![digit_char(n % 10)]
    }
}

proof fn lemma_decimal_len(n: nat)
    ensures
        decimal(n).len() >= 1,
        n >= 10 ==> decimal(n).len() >= 2,
    decreases n,
{
    if n >= 10 {
        lemma_decimal_len(n / 10);
    }
}

proof fn lemma_digit_char_injective(x: nat, y: nat)
    requires
        x < 10,
        y < 10,
        digit_char(x) == digit_char(y),
    ensures
        x == y,
{
    assert(((x + 48) as u8) as u32 == ((y + 48) as u8) as u32);
}

/// Distinct numbers have distinct decimal texts.
pub proof fn lemma_decimal_injective(a: nat, b: nat)
    requires
        decimal(a) == decimal(b),
    ensures
        a == b,
    decreases a,
{
    lemma_decimal_len(a);
    lemma_decimal_len(b);
    if a >= 10 && b >= 10 {
        let da = decimal(a);
        let db = decimal(b);
        assert(da.last() == db.last());
        lemma_digit_char_injective(a % 10, b % 10);
        assert(da.drop_last() =~= decimal(a / 10));
        assert(db.drop_last() =~= decimal(b / 10));
        lemma_decimal_injective(a / 10, b / 10);
    } else if a < 10 && b < 10 {
        assert(decimal(a)[0] == digit_char(a));
        assert(decimal(b)[0] == digit_char(b));
        lemma_digit_char_injective(a, b);
    } else if a < 10 {
        assert(decimal(a).len() == 1);
    } else {
        assert(decimal(b).len() == 1);
    }
}

/// The lowercase hex SHA-256 digest of the UTF-8 encoding of `text`.
pub uninterp spec fn sha256_hex(text: Seq<char>) -> Seq<char>;

/// Relies on `ToString` for `u64` (its `Display`): plain decimal digits,
/// with no sign, padding or separators.
#[verifier::external_body]
pub(crate) fn decimal_text(n: u64) -> (r: String)
    ensures
        r@ == decimal(n as nat),
{
    n.to_string()
}

/// Relies on sha2's `Sha256::digest` over the UTF-8 bytes of `text`, printed
/// through generic-array's `LowerHex`: 32 bytes, two lowercase hex digits each.
#[verifier::external_body]
fn sha256_hex_of(text: &str) -> (r: String)
    ensures
        r@ == sha256_hex(text@),
        r@.len() == DIGEST_HEX_LEN,
{
    format!("{:x}", sha2::Sha256::digest(text.as_bytes()))
}

/// No nonce gives the block with these fields a hash that meets `difficulty`.
pub open spec fn unminable(
    index: u32,
    previous_hash: Seq<char>,
    timestamp: Seq<char>,
    data: Seq<char>,
    difficulty: nat,
) -> bool {
    forall|n: u64|
        !has_zero_prefix(
            #[trigger] sha256_hex(hash_text(index, previous_hash, timestamp, data, n)),
            difficulty,
        )
}

/// Whether `hash` starts with at least `difficulty` zero characters.
pub open spec fn has_zero_prefix(hash: Seq<char>, difficulty: nat) -> bool {
    &&& difficulty <= hash.len()
    &&& forall|i: int| 0 <= i < difficulty ==> hash[i] == '0'
}

/// Checks the proof-of-work target: `difficulty` leading zero characters.
pub fn meets_difficulty(hash: &str, difficulty: usize) -> (r: bool)
    ensures
        r == has_zero_prefix(hash@, difficulty as nat),
{
    let len = hash.unicode_len();
    if difficulty > len {
        return false;
    }
    let mut i: usize = 0;
    while i < difficulty
        invariant
            difficulty <= len,
            len == hash@.len(),
            i <= difficulty,
            forall|j: int| 0 <= j < i ==> hash@[j] == '0',
        decreases difficulty - i,
    {
        if hash.get_char(i) != '0' {
            return false;
        }
        i = i + 1;
    }
    true
}

/// What a block holds, as plain values.
pub struct BlockView {
    pub index: u32,
    pub previous_hash: Seq<char>,
    pub timestamp: Seq<char>,
    pub data: Seq<char>,
    pub nonce: u64,
    pub hash: Seq<char>,
}

/// The text that a block's hash is computed over: index, previous hash,
/// timestamp, data and nonce, in that order.
pub open spec fn hash_text(
    index: u32,
    previous_hash: Seq<char>,
    timestamp: Seq<char>,
    data: Seq<char>,
    nonce: u64,
) -> Seq<char> {
    decimal(index as nat) + previous_hash + timestamp + data + decimal(nonce as nat)
}

impl BlockView {
    /// The text that the block's hash is computed over.
    pub open spec fn hashed_text(self) -> Seq<char> {
        hash_text(self.index, self.previous_hash, self.timestamp, self.data, self.nonce)
    }

    /// The hash of the block's current fields.
    pub open spec fn computed_hash(self) -> Seq<char> {
        sha256_hex(self.hashed_text())
    }

    /// The same block with `hash` in place of its own.
    pub open spec fn with_hash(self, hash: Seq<char>) -> BlockView {
        BlockView { hash, ..self }
    }

    /// The hash that the block would have with `nonce` in place of its own.
    pub open spec fn hash_with_nonce(self, nonce: u64) -> Seq<char> {
        sha256_hex(hash_text(self.index, self.previous_hash, self.timestamp, self.data, nonce))
    }

    /// The same block with `nonce` in place of its own.
    pub open spec fn with_nonce(self, nonce: u64) -> BlockView {
        BlockView { nonce, ..self }
    }

    /// The stored hash is the hash of the current fields.
    pub open spec fn hash_consistent(self) -> bool {
        self.hash == self.computed_hash()
    }

    /// Both blocks hold the same index, previous hash, timestamp and data.
    pub open spec fn same_content(self, other: BlockView) -> bool {
        &&& self.index == other.index
        &&& self.previous_hash == other.previous_hash
        &&& self.timestamp == other.timestamp
        &&& self.data == other.data
    }

    /// `self` is what mining `start` at `difficulty` leaves: the same content,
    /// a consistent hash, and the first nonce from `start.nonce` on whose hash
    /// meets the target; where none is found, the search stopped at the end of
    /// the nonce space, or was not started because no digest is that long.
    pub open spec fn mined_from(self, start: BlockView, difficulty: nat) -> bool {
        &&& self.same_content(start)
        &&& self.hash_consistent()
        &&& start.nonce <= self.nonce
        &&& forall|n: u64|
            start.nonce <= n < self.nonce ==> !has_zero_prefix(
                #[trigger] start.hash_with_nonce(n),
                difficulty,
            )
        &&& !has_zero_prefix(self.hash, difficulty) ==> {
            ||| self.nonce == u64::MAX
            ||| (difficulty > DIGEST_HEX_LEN && self.nonce == start.nonce)
        }
    }
}

/// The hash is a function of the five hashed fields alone: two blocks that
/// agree on index, previous hash, timestamp, data and nonce hash alike,
/// whatever hash each one stores.
pub proof fn lemma_hash_determined_by_fields(a: BlockView, b: BlockView)
    requires
        a.same_content(b),
        a.nonce == b.nonce,
    ensures
        a.computed_hash() == b.computed_hash(),
{
}

/// Changing exactly one of the hashed fields changes the text that is
/// hashed, so the hash changes unless the digest collides.
pub proof fn lemma_one_field_change_changes_hashed_text(a: BlockView, b: BlockView)
    requires
        a != b.with_hash(a.hash),
        (a.index == b.index && a.previous_hash == b.previous_hash && a.timestamp == b.timestamp
            && a.data == b.data) || (a.index == b.index && a.previous_hash == b.previous_hash
            && a.timestamp == b.timestamp && a.nonce == b.nonce) || (a.index == b.index
            && a.previous_hash == b.previous_hash && a.data == b.data && a.nonce == b.nonce) || (
        a.index == b.index && a.timestamp == b.timestamp && a.data == b.data && a.nonce == b.nonce)
            || (a.previous_hash == b.previous_hash && a.timestamp == b.timestamp && a.data == b.data
            && a.nonce == b.nonce),
    ensures
        a.hashed_text() != b.hashed_text(),
{
    let di_a = decimal(a.index as nat);
    let di_b = decimal(b.index as nat);
    let dn_a = decimal(a.nonce as nat);
    let dn_b = decimal(b.nonce as nat);
    if a.hashed_text() == b.hashed_text() {
        let ta = a.hashed_text();
        if a.nonce != b.nonce {
            assert(di_a == di_b);
            let p = di_a + a.previous_hash + a.timestamp + a.data;
            assert(ta == p + dn_a);
            assert(b.hashed_text() == p + dn_b);
            assert(ta.len() == p.len() + dn_a.len());
            assert(b.hashed_text().len() == p.len() + dn_b.len());
            assert(dn_a.len() == dn_b.len());
            assert(ta.subrange(p.len() as int, ta.len() as int) =~= dn_a);
            assert(b.hashed_text().subrange(p.len() as int, ta.len() as int) =~= dn_b);
            lemma_decimal_injective(a.nonce as nat, b.nonce as nat);
        } else if a.index != b.index {
            assert(dn_a == dn_b);
            assert(di_a.len() == di_b.len());
            assert(ta.subrange(0, di_a.len() as int) =~= di_a);
            assert(b.hashed_text().subrange(0, di_a.len() as int) =~= di_b);
            lemma_decimal_injective(a.index as nat, b.index as nat);
        } else {
            let pa = di_a;
            let sa = dn_a;
            let mid_a = a.previous_hash + a.timestamp + a.data;
            let mid_b = b.previous_hash + b.timestamp + b.data;
            assert(ta.subrange(pa.len() as int, ta.len() - sa.len()) =~= mid_a);
            assert(b.hashed_text().subrange(pa.len() as int, ta.len() - sa.len()) =~= mid_b);
            if a.previous_hash != b.previous_hash {
                assert(mid_a.subrange(0, a.previous_hash.len() as int) =~= a.previous_hash);
                assert(mid_b.subrange(0, a.previous_hash.len() as int) =~= b.previous_hash);
            } else if a.timestamp != b.timestamp {
                let o = a.previous_hash.len() as int;
                assert(mid_a.subrange(o, mid_a.len() - a.data.len()) =~= a.timestamp);
                assert(mid_b.subrange(o, mid_a.len() - a.data.len()) =~= b.timestamp);
            } else {
                let o = a.previous_hash.len() + a.timestamp.len();
                assert(mid_a.subrange(o as int, mid_a.len() as int) =~= a.data);
                assert(mid_b.subrange(o as int, mid_a.len() as int) =~= b.data);
            }
        }
    }
}

/// Mining depends on the starting block only through its content and nonce.
pub proof fn lemma_mined_from_restart(b: BlockView, start: BlockView, difficulty: nat)
    requires
        b.mined_from(start, difficulty),
    ensures
        b.mined_from(b.with_nonce(start.nonce), difficulty),
{
    assert forall|n: u64| start.nonce <= n < b.nonce implies !has_zero_prefix(
        #[trigger] b.with_nonce(start.nonce).hash_with_nonce(n),
        difficulty,
    ) by {
        assert(start.hash_with_nonce(n) == b.with_nonce(start.nonce).hash_with_nonce(n));
    }
}

/// At most the first `SHORT_HASH_LEN` characters of `s`.
pub open spec fn short_hash(s: Seq<char>) -> Seq<char> {
    if s.len() > SHORT_HASH_LEN {
        s.subrange(0, SHORT_HASH_LEN as int)
    } else {
        s
    }
}

/// Number of characters of a hash shown in a block's description.
pub const SHORT_HASH_LEN: usize = 16;

/// A one-line description of a block: index, data, shortened hashes, timestamp.
pub open spec fn description(b: BlockView) -> Seq<char> {
    "Block "@ + decimal(b.index as nat) + " [Data: "@ + b.data + ", Hash: "@ + short_hash(b.hash)
        + ", Previous Hash: "@ + short_hash(b.previous_hash) + ", Timestamp: "@ + b.timestamp
        + "]"@
}

fn shorten(s: &str) -> (r: &str)
    ensures
        r@ == short_hash(s@),
{
    let len = s.unicode_len();
    if len > SHORT_HASH_LEN {
        s.substring_char(0, SHORT_HASH_LEN)
    } else {
        s
    }
}

/// A block of the ledger.
pub struct Block {
    /// Position in its chain; the genesis block has index 0.
    pub index: u32,
    /// Hash of the preceding block.
    pub previous_hash: String,
    /// Creation time, as text.
    pub timestamp: String,
    /// Payload; never interpreted.
    pub data: String,
    /// Proof-of-work search variable.
    pub nonce: u64,
    /// Hex digest of the other fields, once computed.
    pub hash: String,
}

impl View for Block {
    type V = BlockView;

    open spec fn view(&self) -> BlockView {
        BlockView {
            index: self.index,
            previous_hash: self.previous_hash@,
            timestamp: self.timestamp@,
            data: self.data@,
            nonce: self.nonce,
            hash: self.hash@,
        }
    }
}

/// Relies on chrono's `Utc::now` and its `format`: the current UTC time as
/// text, down to the millisecond.
#[verifier::external_body]
fn current_timestamp() -> String {
    chrono::Utc::now().format("%Y-%m-%dT%H:%M:%S%.3f").to_string()
}

impl Block {
    /// A block stamped with the current time, nonce 0 and the hash of its fields.
    pub fn new(index: u32, previous_hash: &str, data: &str) -> (r: Block)
        ensures
            r@.index == index,
            r@.previous_hash == previous_hash@,
            r@.data == data@,
            r@.nonce == 0,
            r@.hash_consistent(),
    {
        let timestamp = current_timestamp();
        Block::with_timestamp(index, previous_hash, timestamp.as_str(), data)
    }

    /// A block with the given timestamp, nonce 0 and the hash of its fields.
    pub fn with_timestamp(index: u32, previous_hash: &str, timestamp: &str, data: &str) -> (r:
        Block)
        ensures
            r@.index == index,
            r@.previous_hash == previous_hash@,
            r@.timestamp == timestamp@,
            r@.data == data@,
            r@.nonce == 0,
            r@.hash_consistent(),
    {
        let mut block = Block {
            index,
            previous_hash: String::from_str(previous_hash),
            timestamp: String::from_str(timestamp),
            data: String::from_str(data),
            nonce: 0,
            hash: String::new(),
        };
        block.hash = block.calculate_hash();
        block
    }

    /// The hash of the block's current fields.
    pub fn calculate_hash(&self) -> (r: String)
        ensures
            r@ == self@.computed_hash(),
            r@.len() == DIGEST_HEX_LEN,
    {
        let mut text = decimal_text(self.index as u64);
        text.append(self.previous_hash.as_str());
        text.append(self.timestamp.as_str());
        text.append(self.data.as_str());
        let nonce = decimal_text(self.nonce);
        text.append(nonce.as_str());
        sha256_hex_of(text.as_str())
    }

    /// Searches nonces upward from the current one until the hash has
    /// `difficulty` leading zeros. Returns whether the target was met; the
    /// search gives up at the end of the nonce space, and is not started when
    /// `difficulty` exceeds the digest's length.
    pub fn mine_block(&mut self, difficulty: usize) -> (found: bool)
        ensures
            final(self)@.mined_from(old(self)@, difficulty as nat),
            found == has_zero_prefix(final(self)@.hash, difficulty as nat),
    {
        self.hash = self.calculate_hash();
        if difficulty > DIGEST_HEX_LEN {
            return false;
        }
        let ghost start = old(self)@;
        let mut found = meets_difficulty(self.hash.as_str(), difficulty);
        while !found && self.nonce < u64::MAX
            invariant
                self@.same_content(start),
                self@.hash_consistent(),
                start.nonce <= self.nonce,
                found == has_zero_prefix(self@.hash, difficulty as nat),
                forall|n: u64|
                    start.nonce <= n < self.nonce ==> !has_zero_prefix(
                        #[trigger] start.hash_with_nonce(n),
                        difficulty as nat,
                    ),
            decreases u64::MAX - self.nonce,
        {
            self.nonce = self.nonce + 1;
            self.hash = self.calculate_hash();
            found = meets_difficulty(self.hash.as_str(), difficulty);
        }
        found
    }

    /// An independent copy of every field.
    pub fn duplicate(&self) -> (r: Block)
        ensures
            r@ == self@,
    {
        Block {
            index: self.index,
            previous_hash: self.previous_hash.clone(),
            timestamp: self.timestamp.clone(),
            data: self.data.clone(),
            nonce: self.nonce,
            hash: self.hash.clone(),
        }
    }

    /// A one-line description for display.
    pub fn describe(&self) -> (r: String)
        ensures
            r@ == description(self@),
    {
        let mut text = String::from_str("Block ");
        let index = decimal_text(self.index as u64);
        text.append(index.as_str());
        text.append(" [Data: ");
        text.append(self.data.as_str());
        text.append(", Hash: ");
        text.append(shorten(self.hash.as_str()));
        text.append(", Previous Hash: ");
        text.append(shorten(self.previous_hash.as_str()));
        text.append(", Timestamp: ");
        text.append(self.timestamp.as_str());
        text.append("]");
        text
    }

    /// The block's hash.
    pub fn get_hash(&self) -> (r: &str)
        ensures
            r@ == self@.hash,
    {
        self.hash.as_str()
    }
}

/// Two blocks are equal when their hashes are.
impl PartialEq for Block {
    fn eq(&self, other: &Block) -> (r: bool) {
        self.hash == other.hash
    }
}

impl vstd::std_specs::cmp::PartialEqSpecImpl for Block {
    open spec fn obeys_eq_spec() -> bool {
        true
    }

    open spec fn eq_spec(&self, other: &Block) -> bool {
        self.hash@ == other.hash@
    }
}

} // verus!
