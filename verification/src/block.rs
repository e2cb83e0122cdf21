//! Block format: the header (with its double-SHA-256 hash and leading-zero-bit
//! work check), the transaction Merkle tree, and structural and linkage validation.
use vstd::prelude::*;
use crate::transport::{decimal_string, push_decimal, push_str, string_of};
use crate::pow::{
    hash_eq, push_hash, push_u32_le, push_u64_le, sha256d, spec_sha256d, u32_le_bytes,
    u64_le_bytes,
};
use crate::transaction::Transaction;

verus! {

/// Maximum number of transactions per block.
pub const MAX_TXS_PER_BLOCK: usize = 4096;

/// Genesis block height.
pub const GENESIS_HEIGHT: u64 = 0;

/// The all-zero 32-byte string.
pub open spec fn zero_hash() -> Seq<u8> {
    Seq::new(32, |i: int| 0u8)
}

// ─── Block header ────────────────────────────────────────────────────────────

/// The header of a block.
#[derive(Debug, Clone, PartialEq, Eq)]
pub struct BlockHeader {
    /// Block height (0 = genesis).
    pub height: u64,
    /// Hash of the previous block (all-zero for genesis).
    pub prev_hash: [u8; 32],
    /// Merkle root of all transaction hashes in this block.
    pub tx_root: [u8; 32],
    /// State root after applying all transactions.
    pub state_root: [u8; 32],
    /// Unix timestamp of block creation.
    pub timestamp: u64,
    /// Difficulty bits (number of leading zero bits required in block hash).
    pub difficulty: u32,
    /// Nonce found during mining.
    pub nonce: u64,
    /// Address of the miner who produced this block.
    pub miner: [u8; 32],
}

/// The header's hashing bytes, all integers little-endian, in field order.
pub open spec fn core_header_bytes(h: BlockHeader) -> Seq<u8> {
    u64_le_bytes(h.height) + h.prev_hash@ + h.tx_root@ + h.state_root@ + u64_le_bytes(h.timestamp)
        + u32_le_bytes(h.difficulty) + u64_le_bytes(h.nonce) + h.miner@
}

/// The block hash: double SHA-256 of the header bytes.
pub open spec fn core_header_hash(h: BlockHeader) -> Seq<u8> {
    spec_sha256d(core_header_bytes(h))
}

/// `true` iff the first `bits` bits of `hash` are zero (bits past the end are ignored).
pub open spec fn has_leading_zero_bits(hash: Seq<u8>, bits: u32) -> bool {
    let full = bits / 8;
    let rem = bits % 8;
    &&& forall|i: int| 0 <= i < full && i < 32 ==> #[trigger] hash[i] == 0u8
    &&& (full < 32 && rem > 0) ==> hash[full as int] & (0xFFu8 << ((8 - rem) as u8)) == 0u8
}

/// `true` iff the header's hash has `difficulty` leading zero bits.
pub open spec fn header_has_work(h: BlockHeader) -> bool {
    has_leading_zero_bits(core_header_hash(h), h.difficulty)
}

impl BlockHeader {
    /// Serialises the header for hashing.
    pub fn to_bytes(&self) -> (buf: Vec<u8>)
        ensures
            buf@ == core_header_bytes(*self),
            buf@.len() == 156,
    {
        let mut buf: Vec<u8> = Vec::new();
        push_u64_le(&mut buf, self.height);
        push_hash(&mut buf, &self.prev_hash);
        push_hash(&mut buf, &self.tx_root);
        push_hash(&mut buf, &self.state_root);
        push_u64_le(&mut buf, self.timestamp);
        push_u32_le(&mut buf, self.difficulty);
        push_u64_le(&mut buf, self.nonce);
        push_hash(&mut buf, &self.miner);
        assert(buf@ =~= core_header_bytes(*self));
        buf
    }

    /// Computes the block hash (double-SHA-256 of header bytes).
    pub fn hash(&self) -> (h: [u8; 32])
        ensures
            h@ == core_header_hash(*self),
    {
        let bytes = self.to_bytes();
        sha256d(bytes.as_slice())
    }

    /// Returns `true` if the block hash has `difficulty` leading zero bits.
    pub fn meets_difficulty(&self) -> (r: bool)
        ensures
            r == header_has_work(*self),
    {
        let hash = self.hash();
        let full_bytes = self.difficulty / 8;
        let remainder = self.difficulty % 8;
        let mut i: usize = 0;
        while i < 32 && (i as u32) < full_bytes
            invariant
                i <= 32,
                full_bytes == self.difficulty / 8,
                hash@ == core_header_hash(*self),
                forall|j: int| 0 <= j < i ==> hash@[j] == 0u8,
            decreases 32 - i,
        {
            if hash[i] != 0 {
                return false;
            }
            i = i + 1;
        }
        if full_bytes < 32 && remainder > 0 {
            let mask: u8 = 0xFFu8 << ((8 - remainder) as u8);
            if hash[full_bytes as usize] & mask != 0 {
                return false;
            }
        }
        true
    }
}

// ─── Merkle tree ─────────────────────────────────────────────────────────────

/// The parent of two Merkle nodes: double SHA-256 of their concatenation.
pub open spec fn merkle_parent(a: Seq<u8>, b: Seq<u8>) -> Seq<u8> {
    spec_sha256d(a + b)
}

/// A layer with its last element duplicated when its length is odd.
pub open spec fn merkle_even(layer: Seq<Seq<u8>>) -> Seq<Seq<u8>> {
    if layer.len() % 2 == 1 {
        layer.push(layer.last())
    } else {
        layer
    }
}

/// The next layer up: the parents of consecutive pairs of the evened layer.
pub open spec fn merkle_next(layer: Seq<Seq<u8>>) -> Seq<Seq<u8>> {
    let l = merkle_even(layer);
    Seq::new(l.len() / 2, |i: int| merkle_parent(l[2 * i], l[2 * i + 1]))
}

/// The Merkle root of a layer: all zero when empty, the element itself when
/// single, else the root of the next layer.
pub open spec fn merkle_root_of(layer: Seq<Seq<u8>>) -> Seq<u8>
    decreases layer.len(),
{
    if layer.len() == 0 {
        zero_hash()
    } else if layer.len() == 1 {
        layer[0]
    } else {
        merkle_root_of(merkle_next(layer))
    }
}

/// The byte strings of a list of hashes.
pub open spec fn hash_views(hashes: Seq<[u8; 32]>) -> Seq<Seq<u8>> {
    hashes.map_values(|h: [u8; 32]| h@)
}

/// Computes the Merkle root of a list of transaction hashes.
pub fn merkle_root(tx_hashes: &[[u8; 32]]) -> (root: [u8; 32])
    requires
        tx_hashes@.len() < usize::MAX,
    ensures
        root@ == merkle_root_of(hash_views(tx_hashes@)),
{
    if tx_hashes.len() == 0 {
        let z: [u8; 32] = [0u8; 32];
        assert(z@ =~= zero_hash());
        return z;
    }
    let mut layer: Vec<[u8; 32]> = Vec::new();
    let mut i: usize = 0;
    while i < tx_hashes.len()
        invariant
            i <= tx_hashes@.len(),
            layer@ == tx_hashes@.subrange(0, i as int),
        decreases tx_hashes@.len() - i,
    {
        layer.push(tx_hashes[i]);
        i = i + 1;
    }
    assert(layer@ =~= tx_hashes@);
    while layer.len() > 1
        invariant
            layer@.len() >= 1,
            layer@.len() < usize::MAX,
            merkle_root_of(hash_views(layer@)) == merkle_root_of(hash_views(tx_hashes@)),
        decreases layer@.len(),
    {
        let ghost before = hash_views(layer@);
        if layer.len() % 2 == 1 {
            let last = layer[layer.len() - 1];
            layer.push(last);
        }
        assert(hash_views(layer@) =~= merkle_even(before));
        let mut next: Vec<[u8; 32]> = Vec::new();
        let mut k: usize = 0;
        let half = layer.len() / 2;
        while k < half
            invariant
                half == layer@.len() / 2,
                layer@.len() % 2 == 0,
                2 * half == layer@.len(),
                layer@.len() < usize::MAX,
                k <= half,
                hash_views(layer@) == merkle_even(before),
                next@.len() == k,
                forall|j: int|
                    0 <= j < k ==> (#[trigger] next@[j])@ == merkle_parent(
                        layer@[2 * j]@,
                        layer@[2 * j + 1]@,
                    ),
            decreases half - k,
        {
            let mut combined: Vec<u8> = Vec::new();
            push_hash(&mut combined, &layer[2 * k]);
            push_hash(&mut combined, &layer[2 * k + 1]);
            let parent = sha256d(combined.as_slice());
            next.push(parent);
            k = k + 1;
        }
        assert(hash_views(next@) =~= merkle_next(before));
        layer = next;
    }
    layer[0]
}

// ─── Block ───────────────────────────────────────────────────────────────────

/// A complete block: header and transactions (coinbase first).
#[derive(Debug, Clone)]
pub struct Block {
    /// The block header.
    pub header: BlockHeader,
    /// Transactions included in this block (coinbase first).
    pub transactions: Vec<Transaction>,
}

/// The identifying hashes of a list of transactions.
pub open spec fn tx_hash_list(txs: Seq<Transaction>) -> Seq<Seq<u8>> {
    txs.map_values(|tx: Transaction| tx.spec_hash())
}

/// The Merkle root of a list of transactions.
pub open spec fn tx_merkle_root(txs: Seq<Transaction>) -> Seq<u8> {
    merkle_root_of(tx_hash_list(txs))
}

/// Sum of the fees of the non-coinbase transactions.
pub open spec fn fee_sum(txs: Seq<Transaction>) -> int
    decreases txs.len(),
{
    if txs.len() == 0 {
        0
    } else {
        fee_sum(txs.drop_last()) + if txs.last().spec_is_coinbase() {
            0
        } else {
            txs.last().fee as int
        }
    }
}

/// Sum of the burned amounts of all transactions.
pub open spec fn burn_sum(txs: Seq<Transaction>) -> int
    decreases txs.len(),
{
    if txs.len() == 0 {
        0
    } else {
        burn_sum(txs.drop_last()) + txs.last().burned as int
    }
}

/// Number of coinbase transactions.
pub open spec fn coinbase_count(txs: Seq<Transaction>) -> nat
    decreases txs.len(),
{
    if txs.len() == 0 {
        0
    } else {
        coinbase_count(txs.drop_last()) + if txs.last().spec_is_coinbase() {
            1nat
        } else {
            0nat
        }
    }
}

/// Collects the hashes of a list of transactions.
fn collect_tx_hashes(txs: &Vec<Transaction>) -> (hashes: Vec<[u8; 32]>)
    ensures
        hash_views(hashes@) == tx_hash_list(txs@),
        hashes@.len() == txs@.len(),
{
    let mut hashes: Vec<[u8; 32]> = Vec::new();
    let mut i: usize = 0;
    while i < txs.len()
        invariant
            i <= txs@.len(),
            hashes@.len() == i,
            forall|j: int| 0 <= j < i ==> (#[trigger] hashes@[j])@ == txs@[j].spec_hash(),
        decreases txs@.len() - i,
    {
        hashes.push(*txs[i].hash());
        i = i + 1;
    }
    assert(hash_views(hashes@) =~= tx_hash_list(txs@));
    hashes
}

impl Block {
    /// Creates a new block, computing the Merkle root from its transactions.
    pub fn new(
        height: u64,
        prev_hash: [u8; 32],
        state_root: [u8; 32],
        timestamp: u64,
        difficulty: u32,
        nonce: u64,
        miner: [u8; 32],
        transactions: Vec<Transaction>,
    ) -> (b: Block)
        requires
            transactions@.len() < usize::MAX,
        ensures
            b.header.height == height,
            b.header.prev_hash == prev_hash,
            b.header.tx_root@ == tx_merkle_root(transactions@),
            b.header.state_root == state_root,
            b.header.timestamp == timestamp,
            b.header.difficulty == difficulty,
            b.header.nonce == nonce,
            b.header.miner == miner,
            b.transactions == transactions,
    {
        let tx_hashes = collect_tx_hashes(&transactions);
        let tx_root = merkle_root(tx_hashes.as_slice());
        Block {
            header: BlockHeader {
                height,
                prev_hash,
                tx_root,
                state_root,
                timestamp,
                difficulty,
                nonce,
                miner,
            },
            transactions,
        }
    }

    /// Returns the block hash.
    pub fn hash(&self) -> (h: [u8; 32])
        ensures
            h@ == core_header_hash(self.header),
    {
        self.header.hash()
    }

    /// Returns the block height.
    pub fn height(&self) -> (h: u64)
        ensures
            h == self.header.height,
    {
        self.header.height
    }

    /// `true` iff the block is at the genesis height with an all-zero prev_hash.
    pub open spec fn spec_is_genesis(&self) -> bool {
        self.header.height == GENESIS_HEIGHT && self.header.prev_hash@ == zero_hash()
    }

    /// Returns `true` if this is the genesis block.
    pub fn is_genesis(&self) -> (r: bool)
        ensures
            r == self.spec_is_genesis(),
    {
        let zero: [u8; 32] = [0u8; 32];
        assert(zero@ =~= zero_hash());
        self.header.height == GENESIS_HEIGHT && hash_eq(&self.header.prev_hash, &zero)
    }

    /// Returns the total fees collected in this block.
    pub fn total_fees(&self) -> (total: u64)
        requires
            fee_sum(self.transactions@) <= u64::MAX,
        ensures
            total == fee_sum(self.transactions@),
    {
        let mut total: u64 = 0;
        let mut i: usize = 0;
        while i < self.transactions.len()
            invariant
                i <= self.transactions@.len(),
                fee_sum(self.transactions@) <= u64::MAX,
                total == fee_sum(self.transactions@.subrange(0, i as int)),
            decreases self.transactions@.len() - i,
        {
            let ghost prefix = self.transactions@.subrange(0, i + 1);
            assert(prefix.drop_last() =~= self.transactions@.subrange(0, i as int));
            proof {
                lemma_fee_sum_prefix(self.transactions@, i + 1);
            }
            if !self.transactions[i].is_coinbase() {
                total = total + self.transactions[i].fee;
            }
            i = i + 1;
        }
        assert(self.transactions@.subrange(0, i as int) =~= self.transactions@);
        total
    }

    /// Returns the total tokens burned in this block.
    pub fn total_burned(&self) -> (total: u64)
        requires
            burn_sum(self.transactions@) <= u64::MAX,
        ensures
            total == burn_sum(self.transactions@),
    {
        let mut total: u64 = 0;
        let mut i: usize = 0;
        while i < self.transactions.len()
            invariant
                i <= self.transactions@.len(),
                burn_sum(self.transactions@) <= u64::MAX,
                total == burn_sum(self.transactions@.subrange(0, i as int)),
            decreases self.transactions@.len() - i,
        {
            let ghost prefix = self.transactions@.subrange(0, i + 1);
            assert(prefix.drop_last() =~= self.transactions@.subrange(0, i as int));
            proof {
                lemma_burn_sum_prefix(self.transactions@, i + 1);
            }
            total = total + self.transactions[i].burned;
            i = i + 1;
        }
        assert(self.transactions@.subrange(0, i as int) =~= self.transactions@);
        total
    }

    /// Returns the first coinbase transaction, if any.
    pub fn coinbase(&self) -> (r: Option<&Transaction>)
        ensures
            match r {
                Some(tx) => exists|i: int|
                    0 <= i < self.transactions@.len() && self.transactions@[i] == *tx
                        && tx.spec_is_coinbase() && forall|j: int|
                        0 <= j < i ==> !(#[trigger] self.transactions@[j]).spec_is_coinbase(),
                None => forall|j: int|
                    0 <= j < self.transactions@.len()
                        ==> !(#[trigger] self.transactions@[j]).spec_is_coinbase(),
            },
    {
        let mut i: usize = 0;
        while i < self.transactions.len()
            invariant
                i <= self.transactions@.len(),
                forall|j: int| 0 <= j < i ==> !(#[trigger] self.transactions@[j]).spec_is_coinbase(),
            decreases self.transactions@.len() - i,
        {
            if self.transactions[i].is_coinbase() {
                return Some(&self.transactions[i]);
            }
            i = i + 1;
        }
        None
    }

    /// Returns the number of non-coinbase transactions.
    pub fn tx_count(&self) -> (n: usize)
        ensures
            n == self.transactions@.len() - coinbase_count(self.transactions@),
    {
        let mut n: usize = 0;
        let mut i: usize = 0;
        while i < self.transactions.len()
            invariant
                i <= self.transactions@.len(),
                n == i - coinbase_count(self.transactions@.subrange(0, i as int)),
                coinbase_count(self.transactions@.subrange(0, i as int)) <= i,
            decreases self.transactions@.len() - i,
        {
            let ghost prefix = self.transactions@.subrange(0, i + 1);
            assert(prefix.drop_last() =~= self.transactions@.subrange(0, i as int));
            if !self.transactions[i].is_coinbase() {
                n = n + 1;
            }
            i = i + 1;
        }
        assert(self.transactions@.subrange(0, i as int) =~= self.transactions@);
        n
    }
}

proof fn lemma_fee_sum_prefix(txs: Seq<Transaction>, n: int)
    requires
        0 <= n <= txs.len(),
    ensures
        fee_sum(txs.subrange(0, n)) <= fee_sum(txs),
        fee_sum(txs.subrange(0, n)) >= 0,
    decreases txs.len(),
{
    lemma_fee_sum_nonneg(txs.subrange(0, n));
    if n < txs.len() {
        assert(txs.drop_last().subrange(0, n) =~= txs.subrange(0, n));
        lemma_fee_sum_prefix(txs.drop_last(), n);
    } else {
        assert(txs.subrange(0, n) =~= txs);
    }
}

proof fn lemma_fee_sum_nonneg(txs: Seq<Transaction>)
    ensures
        fee_sum(txs) >= 0,
    decreases txs.len(),
{
    if txs.len() > 0 {
        lemma_fee_sum_nonneg(txs.drop_last());
    }
}

proof fn lemma_burn_sum_prefix(txs: Seq<Transaction>, n: int)
    requires
        0 <= n <= txs.len(),
    ensures
        burn_sum(txs.subrange(0, n)) <= burn_sum(txs),
        burn_sum(txs.subrange(0, n)) >= 0,
    decreases txs.len(),
{
    lemma_burn_sum_nonneg(txs.subrange(0, n));
    if n < txs.len() {
        assert(txs.drop_last().subrange(0, n) =~= txs.subrange(0, n));
        lemma_burn_sum_prefix(txs.drop_last(), n);
    } else {
        assert(txs.subrange(0, n) =~= txs);
    }
}

proof fn lemma_burn_sum_nonneg(txs: Seq<Transaction>)
    ensures
        burn_sum(txs) >= 0,
    decreases txs.len(),
{
    if txs.len() > 0 {
        lemma_burn_sum_nonneg(txs.drop_last());
    }
}

// ─── Block validation ────────────────────────────────────────────────────────

/// Errors from block validation.
#[derive(Debug, Clone, PartialEq, Eq, Structural)]
pub enum BlockError {
    /// Block hash does not meet the difficulty target.
    InsufficientWork,
    /// Merkle root in header does not match computed root.
    MerkleRootMismatch,
    /// Block exceeds the maximum transaction count.
    TooManyTransactions(usize),
    /// Block has no coinbase transaction.
    MissingCoinbase,
    /// Block has more than one coinbase transaction.
    DuplicateCoinbase,
    /// Coinbase is not the first transaction.
    CoinbaseNotFirst,
    /// Previous hash does not match the expected value.
    PrevHashMismatch,
    /// Block height is not one more than the previous block height.
    InvalidHeight { expected: u64, got: u64 },
}

/// The sentence that describes a block error.
pub open spec fn block_error_text(e: BlockError) -> Seq<char> {
    match e {
        BlockError::InsufficientWork => "block hash does not meet difficulty"@,
        BlockError::MerkleRootMismatch => "Merkle root mismatch"@,
        BlockError::TooManyTransactions(n) => "too many transactions: "@ + decimal_string(n as nat),
        BlockError::MissingCoinbase => "block has no coinbase transaction"@,
        BlockError::DuplicateCoinbase => "block has multiple coinbase transactions"@,
        BlockError::CoinbaseNotFirst => "coinbase is not the first transaction"@,
        BlockError::PrevHashMismatch => "prev_hash does not match parent block"@,
        BlockError::InvalidHeight { expected, got } => "invalid height: expected "@ + decimal_string(
            expected as nat,
        ) + ", got "@ + decimal_string(got as nat),
    }
}

impl BlockError {
    /// A sentence that describes the error.
    pub fn message(&self) -> (s: String)
        ensures
            s@ == block_error_text(*self),
    {
        match self {
            BlockError::InsufficientWork => string_of("block hash does not meet difficulty"),
            BlockError::MerkleRootMismatch => string_of("Merkle root mismatch"),
            BlockError::TooManyTransactions(n) => {
                let mut s = string_of("too many transactions: ");
                push_decimal(&mut s, *n as u64);
                s
            },
            BlockError::MissingCoinbase => string_of("block has no coinbase transaction"),
            BlockError::DuplicateCoinbase => string_of("block has multiple coinbase transactions"),
            BlockError::CoinbaseNotFirst => string_of("coinbase is not the first transaction"),
            BlockError::PrevHashMismatch => string_of("prev_hash does not match parent block"),
            BlockError::InvalidHeight { expected, got } => {
                let mut s = string_of("invalid height: expected ");
                push_decimal(&mut s, *expected);
                push_str(&mut s, ", got ");
                push_decimal(&mut s, *got);
                s
            },
        }
    }
}

/// The first structural defect of a block, in the order the checks are made:
/// work, transaction count, coinbase count, coinbase position, Merkle root.
pub open spec fn block_defect(b: Block) -> Option<BlockError> {
    let txs = b.transactions@;
    if !header_has_work(b.header) {
        Some(BlockError::InsufficientWork)
    } else if txs.len() > MAX_TXS_PER_BLOCK {
        Some(BlockError::TooManyTransactions(txs.len() as usize))
    } else if coinbase_count(txs) == 0 {
        Some(BlockError::MissingCoinbase)
    } else if coinbase_count(txs) > 1 {
        Some(BlockError::DuplicateCoinbase)
    } else if !txs[0].spec_is_coinbase() {
        Some(BlockError::CoinbaseNotFirst)
    } else if tx_merkle_root(txs) != b.header.tx_root@ {
        Some(BlockError::MerkleRootMismatch)
    } else {
        None
    }
}

proof fn lemma_coinbase_count_nonempty(txs: Seq<Transaction>)
    requires
        coinbase_count(txs) > 0,
    ensures
        txs.len() > 0,
    decreases txs.len(),
{
}

proof fn lemma_first_coinbase_counted(txs: Seq<Transaction>)
    requires
        txs.len() > 0,
        txs[0].spec_is_coinbase(),
    ensures
        coinbase_count(txs) >= 1,
        coinbase_count(txs) == 1 <==> forall|i: int| 0 < i < txs.len() ==> !(#[trigger] txs[i]).spec_is_coinbase(),
    decreases txs.len(),
{
    if txs.len() > 1 {
        let init = txs.drop_last();
        lemma_first_coinbase_counted(init);
        if coinbase_count(txs) == 1 {
            assert forall|i: int| 0 < i < txs.len() implies !(#[trigger] txs[i]).spec_is_coinbase() by {
                if i < txs.len() - 1 {
                    assert(init[i] == txs[i]);
                }
            }
        }
        if forall|i: int| 0 < i < txs.len() ==> !(#[trigger] txs[i]).spec_is_coinbase() {
            assert forall|i: int| 0 < i < init.len() implies !(#[trigger] init[i]).spec_is_coinbase() by {
                assert(init[i] == txs[i]);
            }
            assert(!txs[txs.len() - 1].spec_is_coinbase());
        }
    } else {
        assert(coinbase_count(txs.drop_last()) == 0);
    }
}

/// A block passes validation exactly when its header carries the work its
/// difficulty asks for, it holds at most `MAX_TXS_PER_BLOCK` transactions,
/// the first is a coinbase and no other is, and the header's Merkle root is
/// that of the transaction hashes.
pub proof fn lemma_valid_block_shape(b: Block)
    ensures
        block_defect(b) is None <==> {
            let txs = b.transactions@;
            &&& header_has_work(b.header)
            &&& txs.len() <= MAX_TXS_PER_BLOCK
            &&& txs.len() > 0
            &&& txs[0].spec_is_coinbase()
            &&& forall|i: int| 0 < i < txs.len() ==> !(#[trigger] txs[i]).spec_is_coinbase()
            &&& tx_merkle_root(txs) == b.header.tx_root@
        },
{
    let txs = b.transactions@;
    if txs.len() > 0 && txs[0].spec_is_coinbase() {
        lemma_first_coinbase_counted(txs);
    }
    if coinbase_count(txs) > 0 {
        lemma_coinbase_count_nonempty(txs);
    }
}

/// Validates a block's structure: work, transaction count, coinbase presence,
/// uniqueness and position, and the Merkle root.
pub fn validate_block(block: &Block) -> (r: Result<(), BlockError>)
    ensures
        match r {
            Ok(()) => block_defect(*block) is None,
            Err(e) => block_defect(*block) == Some(e),
        },
{
    if !block.header.meets_difficulty() {
        return Err(BlockError::InsufficientWork);
    }
    if block.transactions.len() > MAX_TXS_PER_BLOCK {
        return Err(BlockError::TooManyTransactions(block.transactions.len()));
    }
    let mut coinbases: usize = 0;
    let mut i: usize = 0;
    while i < block.transactions.len()
        invariant
            i <= block.transactions@.len(),
            block.transactions@.len() <= MAX_TXS_PER_BLOCK,
            coinbases == coinbase_count(block.transactions@.subrange(0, i as int)),
            coinbases <= i,
        decreases block.transactions@.len() - i,
    {
        let ghost prefix = block.transactions@.subrange(0, i + 1);
        assert(prefix.drop_last() =~= block.transactions@.subrange(0, i as int));
        if block.transactions[i].is_coinbase() {
            coinbases = coinbases + 1;
        }
        i = i + 1;
    }
    assert(block.transactions@.subrange(0, i as int) =~= block.transactions@);
    if coinbases == 0 {
        return Err(BlockError::MissingCoinbase);
    }
    if coinbases > 1 {
        return Err(BlockError::DuplicateCoinbase);
    }
    proof {
        lemma_coinbase_count_nonempty(block.transactions@);
    }
    if !block.transactions[0].is_coinbase() {
        return Err(BlockError::CoinbaseNotFirst);
    }
    let tx_hashes = collect_tx_hashes(&block.transactions);
    let computed_root = merkle_root(tx_hashes.as_slice());
    if !hash_eq(&computed_root, &block.header.tx_root) {
        return Err(BlockError::MerkleRootMismatch);
    }
    Ok(())
}

/// The linkage defect of a block against its parent, if any.
pub open spec fn linkage_defect(b: Block, parent_hash: Seq<u8>, parent_height: u64) -> Option<
    BlockError,
> {
    if b.header.prev_hash@ != parent_hash {
        Some(BlockError::PrevHashMismatch)
    } else if b.header.height != parent_height + 1 {
        Some(BlockError::InvalidHeight { expected: (parent_height + 1) as u64, got: b.header.height })
    } else {
        None
    }
}

/// A block links to its parent exactly when it names the parent's hash as
/// its previous hash and sits one above the parent's height.
pub proof fn lemma_linkage_exact(b: Block, parent_hash: Seq<u8>, parent_height: u64)
    requires
        parent_height < u64::MAX,
    ensures
        linkage_defect(b, parent_hash, parent_height) is None <==> (b.header.prev_hash@
            == parent_hash && b.header.height == parent_height + 1),
{
}

/// Validates a block's linkage to its parent.
pub fn validate_block_linkage(block: &Block, parent_hash: &[u8; 32], parent_height: u64) -> (r:
    Result<(), BlockError>)
    requires
        parent_height < u64::MAX,
    ensures
        match r {
            Ok(()) => linkage_defect(*block, parent_hash@, parent_height) is None,
            Err(e) => linkage_defect(*block, parent_hash@, parent_height) == Some(e),
        },
{
    if !hash_eq(&block.header.prev_hash, parent_hash) {
        return Err(BlockError::PrevHashMismatch);
    }
    let expected_height = parent_height + 1;
    if block.header.height != expected_height {
        return Err(BlockError::InvalidHeight { expected: expected_height, got: block.header.height });
    }
    Ok(())
}

} // verus!
