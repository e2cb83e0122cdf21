//! The ledger: account balances and nonces, the chain tip and the height
//! index, and the all-or-nothing application of a block's transactions.
use vstd::prelude::*;
use crate::transport::{push_hex_byte, push_str, spec_hex_encode, string_of};
use std::collections::{HashMap, HashSet};
use crate::block::{
    Block, BlockError, block_defect, block_error_text, core_header_hash, linkage_defect, validate_block,
    validate_block_linkage,
};
use crate::bytemap::ByteMap;
use crate::pow::hash_eq;
use crate::transaction::{Transaction, TxError, tx_error_text, tx_rejection, validate_tx};

verus! {

broadcast use vstd::std_specs::hash::group_hash_axioms;

// ─── Account state ───────────────────────────────────────────────────────────

/// The on-chain state of a single account.
#[derive(Debug, Clone, Copy, PartialEq, Eq, Structural)]
pub struct AccountState {
    /// Token balance in base units.
    pub balance: u64,
    /// Next expected transaction nonce (prevents replay).
    pub nonce: u64,
}

impl AccountState {
    /// Creates a new account with the given initial balance and nonce 0.
    pub fn new(balance: u64) -> (a: AccountState)
        ensures
            a.balance == balance,
            a.nonce == 0,
    {
        AccountState { balance, nonce: 0 }
    }
}

impl Default for AccountState {
    fn default() -> (a: Self)
        ensures
            a.balance == 0,
            a.nonce == 0,
    {
        AccountState { balance: 0, nonce: 0 }
    }
}

// ─── Ledger errors ───────────────────────────────────────────────────────────

/// Errors from ledger operations.
#[derive(Debug, Clone, PartialEq, Eq)]
pub enum LedgerError {
    /// Block structural validation failed.
    BlockInvalid(BlockError),
    /// Transaction validation failed.
    TxInvalid { tx_hash: [u8; 32], reason: TxError },
    /// The block does not extend the current chain tip.
    NotExtendingTip { expected_prev: [u8; 32], got_prev: [u8; 32] },
    /// Genesis block already applied.
    GenesisAlreadyApplied,
    /// No genesis block has been applied yet.
    NoGenesis,
    /// Attempted to apply a block at height 0 that is not a genesis block.
    InvalidGenesisBlock,
}

/// The sentence that describes a ledger error.
pub open spec fn ledger_error_text(e: LedgerError) -> Seq<char> {
    match e {
        LedgerError::BlockInvalid(b) => "block invalid: "@ + block_error_text(b),
        LedgerError::TxInvalid { tx_hash, reason } => "tx "@ + spec_hex_encode(seq![tx_hash[0]])
            + spec_hex_encode(seq![tx_hash[1]]) + ".. invalid: "@ + tx_error_text(reason),
        LedgerError::NotExtendingTip { .. } => "block does not extend chain tip"@,
        LedgerError::GenesisAlreadyApplied => "genesis already applied"@,
        LedgerError::NoGenesis => "no genesis block applied"@,
        LedgerError::InvalidGenesisBlock => "block at height 0 is not a valid genesis"@,
    }
}

impl LedgerError {
    /// A sentence that describes the error.
    pub fn message(&self) -> (s: String)
        ensures
            s@ == ledger_error_text(*self),
    {
        match self {
            LedgerError::BlockInvalid(b) => {
                let mut s = string_of("block invalid: ");
                let inner = b.message();
                push_str(&mut s, inner.as_str());
                s
            },
            LedgerError::TxInvalid { tx_hash, reason } => {
                let mut s = string_of("tx ");
                push_hex_byte(&mut s, tx_hash[0]);
                push_hex_byte(&mut s, tx_hash[1]);
                push_str(&mut s, ".. invalid: ");
                let inner = reason.message();
                push_str(&mut s, inner.as_str());
                s
            },
            LedgerError::NotExtendingTip { .. } => string_of("block does not extend chain tip"),
            LedgerError::GenesisAlreadyApplied => string_of("genesis already applied"),
            LedgerError::NoGenesis => string_of("no genesis block applied"),
            LedgerError::InvalidGenesisBlock => string_of("block at height 0 is not a valid genesis"),
        }
    }
}

// ─── State transition model ──────────────────────────────────────────────────

/// Account states keyed by address.
pub type Accounts = Map<[u8; 32], AccountState>;

/// The state of an address: the stored one, or zero balance and nonce.
pub open spec fn account_of(m: Accounts, a: [u8; 32]) -> AccountState {
    if m.dom().contains(a) {
        m[a]
    } else {
        AccountState { balance: 0, nonce: 0 }
    }
}

/// The nonces a transfer may not use: every nonce below the sender's
/// confirmed nonce, and the nonce of every other transaction of the block
/// (by hash) from the same sender.
pub open spec fn used_nonces(all: Seq<Transaction>, tx: Transaction, floor: u64) -> Set<u64> {
    Set::new(
        |n: u64|
            n < floor || exists|j: int|
                0 <= j < all.len() && (#[trigger] all[j]).sender == tx.sender && all[j].spec_hash()
                    != tx.spec_hash() && all[j].nonce == n,
    )
}

/// Accounts, coins minted and coins burned so far in a block.
pub type Progress = (Accounts, u64, u64);

/// Applies one transaction of the block `all` to the progress `s`.
/// A coinbase credits its recipient and counts as minted. A transfer is
/// checked by `tx_rejection` against the sender's state; if accepted the
/// sender pays `amount + fee` (saturating) and its nonce becomes at least
/// `tx.nonce + 1`, then the recipient (seeing the sender's update) is credited
/// `amount`, and the burned part counts as burned.
pub open spec fn apply_tx(s: Progress, tx: Transaction, all: Seq<Transaction>) -> Result<
    Progress,
    LedgerError,
> {
    if tx.spec_is_coinbase() {
        let acc = account_of(s.0, tx.recipient);
        Ok(
            (
                s.0.insert(
                    tx.recipient,
                    AccountState { balance: acc.balance.saturating_add(tx.amount), nonce: acc.nonce },
                ),
                s.1.saturating_add(tx.amount),
                s.2,
            ),
        )
    } else {
        let sender = account_of(s.0, tx.sender);
        match tx_rejection(tx, sender.balance, used_nonces(all, tx, sender.nonce)) {
            Some(reason) => Err(LedgerError::TxInvalid { tx_hash: tx.hash, reason }),
            None => {
                let new_nonce: u64 = if sender.nonce < tx.nonce + 1 {
                    (tx.nonce + 1) as u64
                } else {
                    sender.nonce
                };
                let m1 = s.0.insert(
                    tx.sender,
                    AccountState {
                        balance: sender.balance.saturating_sub(tx.spec_total_cost()),
                        nonce: new_nonce,
                    },
                );
                let r = account_of(m1, tx.recipient);
                Ok(
                    (
                        m1.insert(
                            tx.recipient,
                            AccountState {
                                balance: r.balance.saturating_add(tx.amount),
                                nonce: r.nonce,
                            },
                        ),
                        s.1,
                        s.2.saturating_add(tx.burned),
                    ),
                )
            },
        }
    }
}

/// Applies the transactions `txs` (a prefix of the block `all`) in order,
/// stopping at the first rejected one.
pub open spec fn apply_txs(m: Accounts, txs: Seq<Transaction>, all: Seq<Transaction>) -> Result<
    Progress,
    LedgerError,
>
    decreases txs.len(),
{
    if txs.len() == 0 {
        Ok((m, 0u64, 0u64))
    } else {
        match apply_txs(m, txs.drop_last(), all) {
            Err(e) => Err(e),
            Ok(s) => apply_tx(s, txs.last(), all),
        }
    }
}

/// The result of applying all of a block's transactions to `m`.
pub open spec fn block_effect(m: Accounts, b: Block) -> Result<Progress, LedgerError> {
    apply_txs(m, b.transactions@, b.transactions@)
}

/// Applying the block's transactions to `m` accepts a transfer whose nonce
/// is the largest `u64`, whose successor does not exist.
pub open spec fn accepts_max_nonce(m: Accounts, b: Block) -> bool {
    let txs = b.transactions@;
    exists|i: int|
        0 <= i < txs.len() && !(#[trigger] txs[i]).spec_is_coinbase() && txs[i].nonce == u64::MAX
            && apply_txs(m, txs.subrange(0, i + 1), txs) is Ok
}

// ─── Ledger ──────────────────────────────────────────────────────────────────

/// The blockchain state machine.
#[derive(Debug)]
pub struct Ledger {
    pub(crate) accounts: ByteMap<AccountState>,
    /// Hash of the current chain tip (last accepted block).
    pub tip_hash: Option<[u8; 32]>,
    /// Height of the current chain tip.
    pub tip_height: u64,
    /// Total circulating supply: minted minus burned, saturating.
    pub circulating_supply: u64,
    /// Total tokens burned since genesis.
    pub total_burned: u64,
    pub(crate) block_index: HashMap<u64, [u8; 32]>,
}

impl Ledger {
    /// Hash of the chain tip.
    pub open(crate) spec fn spec_tip_hash(&self) -> Option<[u8; 32]> {
        self.tip_hash
    }

    /// Height of the chain tip.
    pub open(crate) spec fn spec_tip_height(&self) -> u64 {
        self.tip_height
    }

    /// Circulating supply.
    pub open(crate) spec fn spec_circulating_supply(&self) -> u64 {
        self.circulating_supply
    }

    /// Total burned.
    pub open(crate) spec fn spec_total_burned(&self) -> u64 {
        self.total_burned
    }

    /// The account states.
    pub closed spec fn accounts_map(&self) -> Accounts {
        self.accounts@
    }

    /// The addresses in storage order.
    pub closed spec fn account_order(&self) -> Seq<[u8; 32]> {
        self.accounts.order()
    }

    /// The block index: height to block hash.
    pub closed spec fn index_map(&self) -> Map<u64, [u8; 32]> {
        self.block_index@
    }

    /// Well-formedness of the account store.
    pub closed spec fn wf(&self) -> bool {
        self.accounts.wf()
    }

    /// The storage order lists every account exactly once.
    pub proof fn lemma_account_order(&self)
        requires
            self.wf(),
        ensures
            self.account_order().no_duplicates(),
            forall|k: [u8; 32]| #[trigger]
                self.accounts_map().dom().contains(k) <==> self.account_order().contains(k),
            self.accounts_map().dom().len() == self.account_order().len(),
    {
        self.accounts.lemma_order();
    }

    /// Creates a new, empty ledger.
    pub fn new() -> (l: Ledger)
        ensures
            l.wf(),
            l.accounts_map() == Map::<[u8; 32], AccountState>::empty(),
            l.index_map() == Map::<u64, [u8; 32]>::empty(),
            l.spec_tip_hash() is None,
            l.spec_tip_height() == 0,
            l.spec_circulating_supply() == 0,
            l.spec_total_burned() == 0,
    {
        Ledger {
            accounts: ByteMap::new(),
            tip_hash: None,
            tip_height: 0,
            circulating_supply: 0,
            total_burned: 0,
            block_index: HashMap::new(),
        }
    }

    /// Returns the account state for the address (zero if unknown).
    pub fn account(&self, address: &[u8; 32]) -> (a: AccountState)
        requires
            self.wf(),
        ensures
            a == account_of(self.accounts_map(), *address),
    {
        match self.accounts.get(address) {
            Some(a) => *a,
            None => AccountState { balance: 0, nonce: 0 },
        }
    }

    /// Returns the balance of the address (0 if unknown).
    pub fn balance(&self, address: &[u8; 32]) -> (b: u64)
        requires
            self.wf(),
        ensures
            b == account_of(self.accounts_map(), *address).balance,
    {
        match self.accounts.get(address) {
            Some(a) => a.balance,
            None => 0,
        }
    }

    /// Returns the nonce of the address (0 if unknown).
    pub fn nonce(&self, address: &[u8; 32]) -> (n: u64)
        requires
            self.wf(),
        ensures
            n == account_of(self.accounts_map(), *address).nonce,
    {
        match self.accounts.get(address) {
            Some(a) => a.nonce,
            None => 0,
        }
    }

    /// Returns `true` if the ledger has a genesis block.
    pub fn has_genesis(&self) -> (r: bool)
        ensures
            r == self.spec_tip_hash() is Some,
    {
        self.tip_hash.is_some()
    }

    /// Applies the genesis block: it must be at height 0 with an all-zero
    /// prev_hash, and no genesis may have been applied. Its transactions are
    /// applied all or nothing; on any error the ledger is unchanged.
    pub fn apply_genesis(&mut self, block: Block) -> (r: Result<[u8; 32], LedgerError>)
        requires
            old(self).wf(),
            old(self).spec_tip_hash() is None && block.spec_is_genesis() ==> !accepts_max_nonce(
                old(self).accounts_map(),
                block,
            ),
        ensures
            final(self).wf(),
            old(self).spec_tip_hash() is Some ==> r == Err::<[u8; 32], LedgerError>(
                LedgerError::GenesisAlreadyApplied,
            ),
            old(self).spec_tip_hash() is None && !block.spec_is_genesis() ==> r == Err::<
                [u8; 32],
                LedgerError,
            >(LedgerError::InvalidGenesisBlock),
            old(self).spec_tip_hash() is None && block.spec_is_genesis() ==> match block_effect(old(self).accounts_map(), block) {
                Err(e) => r == Err::<[u8; 32], LedgerError>(e),
                Ok(p) => r is Ok && r->Ok_0@ == core_header_hash(block.header)
                    && committed(*old(self), *final(self), p)
                    && final(self).spec_tip_hash() == Some(r->Ok_0) && final(self).spec_tip_height() == 0
                    && final(self).index_map() == old(self).index_map().insert(0, r->Ok_0),
            },
            r is Err ==> *final(self) == *old(self),
    {
        if self.has_genesis() {
            return Err(LedgerError::GenesisAlreadyApplied);
        }
        if !block.is_genesis() {
            return Err(LedgerError::InvalidGenesisBlock);
        }
        let block_hash = match self.apply_block_transactions(&block) {
            Ok(h) => h,
            Err(e) => return Err(e),
        };
        self.tip_hash = Some(block_hash);
        self.tip_height = 0;
        self.block_index.insert(0, block_hash);
        Ok(block_hash)
    }

    /// Applies a block extending the chain tip: requires a genesis, a
    /// structurally valid block, correct linkage to the tip, and valid
    /// transactions. On any error the ledger is unchanged.
    pub fn apply_block(&mut self, block: Block) -> (r: Result<[u8; 32], LedgerError>)
        requires
            old(self).wf(),
            old(self).spec_tip_height() < u64::MAX,
            old(self).spec_tip_hash() is Some && block_defect(block) is None && linkage_defect(
                block,
                old(self).spec_tip_hash()->Some_0@,
                old(self).spec_tip_height(),
            ) is None ==> !accepts_max_nonce(old(self).accounts_map(), block),
        ensures
            final(self).wf(),
            r is Err ==> *final(self) == *old(self),
            old(self).spec_tip_hash() is None ==> r == Err::<[u8; 32], LedgerError>(LedgerError::NoGenesis),
            old(self).spec_tip_hash() is Some ==> match block_defect(block) {
                Some(e) => r == Err::<[u8; 32], LedgerError>(LedgerError::BlockInvalid(e)),
                None => match linkage_defect(
                    block,
                    old(self).spec_tip_hash()->Some_0@,
                    old(self).spec_tip_height(),
                ) {
                    Some(e) => r == Err::<[u8; 32], LedgerError>(LedgerError::BlockInvalid(e)),
                    None => match block_effect(old(self).accounts_map(), block) {
                        Err(e) => r == Err::<[u8; 32], LedgerError>(e),
                        Ok(p) => r is Ok && r->Ok_0@ == core_header_hash(block.header)
                            && committed(*old(self), *final(self), p)
                            && final(self).spec_tip_hash() == Some(r->Ok_0)
                            && final(self).spec_tip_height() == block.header.height
                            && final(self).index_map() == old(self).index_map().insert(block.header.height, r->Ok_0),
                    },
                },
            },
    {
        if !self.has_genesis() {
            return Err(LedgerError::NoGenesis);
        }
        let tip = match self.tip_hash {
            Some(t) => t,
            None => return Err(LedgerError::NoGenesis),
        };
        let tip_height = self.tip_height;
        match validate_block(&block) {
            Ok(()) => {},
            Err(e) => return Err(LedgerError::BlockInvalid(e)),
        }
        match validate_block_linkage(&block, &tip, tip_height) {
            Ok(()) => {},
            Err(e) => return Err(LedgerError::BlockInvalid(e)),
        }
        let block_hash = match self.apply_block_transactions(&block) {
            Ok(h) => h,
            Err(e) => return Err(e),
        };
        self.tip_hash = Some(block_hash);
        self.tip_height = block.height();
        self.block_index.insert(block.height(), block_hash);
        Ok(block_hash)
    }

    /// Validates and applies all transactions of a block through a staging
    /// area, so that either all apply or none do.
    fn apply_block_transactions(&mut self, block: &Block) -> (r: Result<[u8; 32], LedgerError>)
        requires
            old(self).wf(),
            !accepts_max_nonce(old(self).accounts_map(), *block),
        ensures
            final(self).wf(),
            final(self).spec_tip_hash() == old(self).spec_tip_hash(),
            final(self).spec_tip_height() == old(self).spec_tip_height(),
            final(self).index_map() == old(self).index_map(),
            match block_effect(old(self).accounts_map(), *block) {
                Err(e) => r == Err::<[u8; 32], LedgerError>(e) && *final(self) == *old(self),
                Ok(p) => r is Ok && r->Ok_0@ == core_header_hash(block.header)
                    && committed(*old(self), *final(self), p),
            },
    {
        let txs = &block.transactions;
        let ghost all = txs@;
        let ghost base = self.accounts@;
        let mut staged: ByteMap<AccountState> = ByteMap::new();
        let mut burned_in_block: u64 = 0;
        let mut minted_in_block: u64 = 0;
        let mut i: usize = 0;
        assert(base.union_prefer_right(staged@) =~= base);
        assert(all.subrange(0, 0) =~= Seq::<Transaction>::empty());
        while i < txs.len()
            invariant
                self.wf(),
                staged.wf(),
                *self == *old(self),
                base == self.accounts@,
                all == txs@,
                !accepts_max_nonce(base, *block),
                txs == &block.transactions,
                i <= txs@.len(),
                apply_txs(base, all.subrange(0, i as int), all) == Ok::<Progress, LedgerError>(
                    (base.union_prefer_right(staged@), minted_in_block, burned_in_block),
                ),
            decreases txs@.len() - i,
        {
            let ghost prefix = all.subrange(0, i + 1);
            assert(prefix.drop_last() =~= all.subrange(0, i as int));
            let ghost cur = base.union_prefer_right(staged@);
            let tx = &txs[i];
            if tx.is_coinbase() {
                let mut acc = get_account(&staged, &self.accounts, &tx.recipient);
                acc.balance = acc.balance.saturating_add(tx.amount);
                minted_in_block = minted_in_block.saturating_add(tx.amount);
                staged.insert(tx.recipient, acc);
                assert(base.union_prefer_right(staged@) =~= cur.insert(tx.recipient, acc));
                i = i + 1;
                continue;
            }
            let sender_acc = get_account(&staged, &self.accounts, &tx.sender);
            let mut seen_nonces: HashSet<u64> = HashSet::new();
            let mut j: usize = 0;
            while j < txs.len()
                invariant
                    txs == &block.transactions,
                    all == txs@,
                    i < txs@.len(),
                    *tx == all[i as int],
                    j <= txs@.len(),
                    forall|n: u64|
                        seen_nonces@.contains(n) <==> exists|k: int|
                            0 <= k < j && (#[trigger] all[k]).sender == tx.sender
                                && all[k].spec_hash() != tx.spec_hash() && all[k].nonce == n,
                decreases txs@.len() - j,
            {
                let prev = &txs[j];
                if hash_eq(&prev.sender, &tx.sender) && !hash_eq(prev.hash(), tx.hash()) {
                    seen_nonces.insert(prev.nonce);
                    proof {
                        assert(prev.sender =~= tx.sender);
                    }
                } else {
                    proof {
                        if prev.sender == tx.sender {
                            assert(prev.sender@ == tx.sender@);
                        }
                    }
                }
                proof {
                    assert forall|n: u64|
                        seen_nonces@.contains(n) <==> exists|k: int|
                            0 <= k < j + 1 && (#[trigger] all[k]).sender == tx.sender
                                && all[k].spec_hash() != tx.spec_hash() && all[k].nonce == n by {
                        if exists|k: int|
                            0 <= k < j + 1 && (#[trigger] all[k]).sender == tx.sender
                                && all[k].spec_hash() != tx.spec_hash() && all[k].nonce == n {
                            let k = choose|k: int|
                                0 <= k < j + 1 && (#[trigger] all[k]).sender == tx.sender
                                    && all[k].spec_hash() != tx.spec_hash() && all[k].nonce == n;
                            if k < j {
                            }
                        }
                    }
                }
                j = j + 1;
            }
            let mut n: u64 = 0;
            while n < sender_acc.nonce
                invariant
                    n <= sender_acc.nonce,
                    forall|m: u64|
                        seen_nonces@.contains(m) <==> (m < n || exists|k: int|
                            0 <= k < all.len() && (#[trigger] all[k]).sender == tx.sender
                                && all[k].spec_hash() != tx.spec_hash() && all[k].nonce == m),
                decreases sender_acc.nonce - n,
            {
                seen_nonces.insert(n);
                n = n + 1;
            }
            assert(seen_nonces@ =~= used_nonces(all, *tx, sender_acc.nonce));
            match validate_tx(tx, sender_acc.balance, &seen_nonces) {
                Ok(()) => {},
                Err(reason) => {
                    proof {
                        assert(apply_txs(base, all.subrange(0, i + 1), all) == Err::<
                            Progress,
                            LedgerError,
                        >(LedgerError::TxInvalid { tx_hash: tx.hash, reason }));
                        lemma_apply_txs_error_sticks(base, all, i as int + 1);
                    }
                    return Err(LedgerError::TxInvalid { tx_hash: tx.hash, reason });
                },
            }
            proof {
                assert(apply_txs(base, all.subrange(0, i + 1), all) is Ok);
                if tx.nonce == u64::MAX {
                    assert(all[i as int] == *tx);
                    assert(accepts_max_nonce(base, *block));
                }
            }
            let mut sender = get_account(&staged, &self.accounts, &tx.sender);
            sender.balance = sender.balance.saturating_sub(tx.total_cost());
            let next_nonce = tx.nonce + 1;
            if sender.nonce < next_nonce {
                sender.nonce = next_nonce;
            }
            staged.insert(tx.sender, sender);
            let ghost m1 = cur.insert(tx.sender, sender);
            assert(base.union_prefer_right(staged@) =~= m1);
            let mut recipient = get_account(&staged, &self.accounts, &tx.recipient);
            recipient.balance = recipient.balance.saturating_add(tx.amount);
            staged.insert(tx.recipient, recipient);
            assert(base.union_prefer_right(staged@) =~= m1.insert(tx.recipient, recipient));
            burned_in_block = burned_in_block.saturating_add(tx.burned);
            i = i + 1;
        }
        assert(all.subrange(0, i as int) =~= all);
        let mut k: usize = 0;
        let n_staged = staged.len();
        let ghost staged_map = staged@;
        proof {
            staged.lemma_order();
        }
        while k < n_staged
            invariant
                staged.wf(),
                self.accounts.wf(),
                staged_map == staged@,
                n_staged == staged.order().len(),
                staged.order().no_duplicates(),
                forall|a: [u8; 32]| #[trigger]
                    staged_map.dom().contains(a) <==> staged.order().contains(a),
                k <= n_staged,
                self.accounts@ == base.union_prefer_right(
                    staged_map.restrict(staged.order().subrange(0, k as int).to_set()),
                ),
                self.tip_hash == old(self).spec_tip_hash(),
                self.tip_height == old(self).spec_tip_height(),
                self.block_index == old(self).block_index,
                self.total_burned == old(self).spec_total_burned(),
                self.circulating_supply == old(self).spec_circulating_supply(),
            decreases n_staged - k,
        {
            let addr = *staged.key_at(k);
            let state = *staged.value_at(k);
            self.accounts.insert(addr, state);
            proof {
                let before = staged.order().subrange(0, k as int).to_set();
                let after = staged.order().subrange(0, k + 1).to_set();
                let sb = staged.order().subrange(0, k as int);
                let sa = staged.order().subrange(0, k + 1);
                assert(sa =~= sb.push(addr));
                assert forall|x: [u8; 32]| after.contains(x) <==> #[trigger] before.insert(
                    addr,
                ).contains(x) by {
                    if sa.contains(x) {
                        let w = choose|w: int| 0 <= w < sa.len() && sa[w] == x;
                        if w < k {
                            assert(sb[w] == x);
                        }
                    }
                    if sb.contains(x) {
                        let w = choose|w: int| 0 <= w < sb.len() && sb[w] == x;
                        assert(sa[w] == x);
                    }
                    if x == addr {
                        assert(sa[k as int] == x);
                    }
                }
                assert(after =~= before.insert(addr));
                assert(base.union_prefer_right(staged_map.restrict(after)) =~= base.union_prefer_right(
                    staged_map.restrict(before),
                ).insert(addr, state));
            }
            k = k + 1;
        }
        proof {
            assert(staged.order().subrange(0, k as int) =~= staged.order());
            assert(staged_map.restrict(staged.order().to_set()) =~= staged_map);
        }
        self.total_burned = self.total_burned.saturating_add(burned_in_block);
        self.circulating_supply = self.circulating_supply.saturating_add(
            minted_in_block,
        ).saturating_sub(burned_in_block);
        Ok(block.hash())
    }

    /// Returns the block hash at the given height, if known.
    pub fn block_hash_at(&self, height: u64) -> (r: Option<[u8; 32]>)
        ensures
            match r {
                Some(h) => self.index_map().dom().contains(height) && self.index_map()[height] == h,
                None => !self.index_map().dom().contains(height),
            },
    {
        match self.block_index.get(&height) {
            Some(h) => Some(*h),
            None => None,
        }
    }

    /// Returns the number of accounts with non-zero balances.
    pub fn active_account_count(&self) -> (n: usize)
        requires
            self.wf(),
        ensures
            n == active_count_of(self.account_order(), self.accounts_map()),
    {
        let len = self.accounts.len();
        let mut n: usize = 0;
        let mut i: usize = 0;
        while i < len
            invariant
                self.wf(),
                len == self.account_order().len(),
                i <= len,
                n <= i,
                n == active_count_of(self.account_order().subrange(0, i as int), self.accounts_map()),
            decreases len - i,
        {
            let ghost pre = self.account_order().subrange(0, i + 1);
            assert(pre.drop_last() =~= self.account_order().subrange(0, i as int));
            if self.accounts.value_at(i).balance > 0 {
                n = n + 1;
            }
            i = i + 1;
        }
        assert(self.account_order().subrange(0, i as int) =~= self.account_order());
        n
    }

    /// Returns the balance of every account, in storage order.
    pub fn all_balances(&self) -> (v: Vec<u64>)
        requires
            self.wf(),
        ensures
            v@ == self.account_order().map_values(|a: [u8; 32]| self.accounts_map()[a].balance),
    {
        let len = self.accounts.len();
        let mut v: Vec<u64> = Vec::new();
        let mut i: usize = 0;
        while i < len
            invariant
                self.wf(),
                len == self.account_order().len(),
                i <= len,
                v@ == self.account_order().subrange(0, i as int).map_values(
                    |a: [u8; 32]| self.accounts_map()[a].balance,
                ),
            decreases len - i,
        {
            v.push(self.accounts.value_at(i).balance);
            i = i + 1;
            assert(v@ =~= self.account_order().subrange(0, i as int).map_values(
                |a: [u8; 32]| self.accounts_map()[a].balance,
            ));
        }
        assert(self.account_order().subrange(0, i as int) =~= self.account_order());
        v
    }
}

/// The ledger `post` is `pre` with the block progress `p` committed: its
/// accounts are `p.0`, burned coins are added to the burn total, and the
/// circulating supply gains the minted and loses the burned coins (saturating).
pub open spec fn committed(pre: Ledger, post: Ledger, p: Progress) -> bool {
    &&& post.wf()
    &&& post.accounts_map() == p.0
    &&& post.spec_total_burned() == pre.spec_total_burned().saturating_add(p.2)
    &&& post.spec_circulating_supply() == pre.spec_circulating_supply().saturating_add(p.1).saturating_sub(p.2)
}

/// Number of addresses in `order` whose account in `m` has a non-zero balance.
pub open spec fn active_count_of(order: Seq<[u8; 32]>, m: Accounts) -> nat
    decreases order.len(),
{
    if order.len() == 0 {
        0
    } else {
        active_count_of(order.drop_last(), m) + if m[order.last()].balance > 0 {
            1nat
        } else {
            0nat
        }
    }
}

impl Default for Ledger {
    fn default() -> (l: Self)
        ensures
            l.wf(),
            l.accounts_map() == Map::<[u8; 32], AccountState>::empty(),
            l.spec_tip_hash() is None,
    {
        Ledger::new()
    }
}

/// The state of `addr` seen through the staging area.
fn get_account(
    staged: &ByteMap<AccountState>,
    accounts: &ByteMap<AccountState>,
    addr: &[u8; 32],
) -> (a: AccountState)
    requires
        staged.wf(),
        accounts.wf(),
    ensures
        a == account_of(accounts@.union_prefer_right(staged@), *addr),
{
    match staged.get(addr) {
        Some(a) => *a,
        None => match accounts.get(addr) {
            Some(a) => *a,
            None => AccountState { balance: 0, nonce: 0 },
        },
    }
}

proof fn lemma_apply_txs_error_sticks(m: Accounts, all: Seq<Transaction>, k: int)
    requires
        0 <= k <= all.len(),
        apply_txs(m, all.subrange(0, k), all) is Err,
    ensures
        apply_txs(m, all, all) == apply_txs(m, all.subrange(0, k), all),
    decreases all.len() - k,
{
    if k < all.len() {
        let next = all.subrange(0, k + 1);
        assert(next.drop_last() =~= all.subrange(0, k));
        lemma_apply_txs_error_sticks(m, all, k + 1);
    } else {
        assert(all.subrange(0, k) =~= all);
    }
}

/// Replay protection for one transfer: a transfer whose nonce lies below
/// the sender's confirmed nonce is rejected, and with `NonceReused` whenever
/// its burn does not exceed its fee (the one check made before the nonce).
pub proof fn lemma_stale_nonce_rejected(s: Progress, tx: Transaction, all: Seq<Transaction>)
    requires
        !tx.spec_is_coinbase(),
        tx.nonce < account_of(s.0, tx.sender).nonce,
    ensures
        apply_tx(s, tx, all) is Err,
        tx.burned <= tx.fee ==> apply_tx(s, tx, all) == Err::<Progress, LedgerError>(
            LedgerError::TxInvalid { tx_hash: tx.hash, reason: TxError::NonceReused(tx.nonce) },
        ),
{
    assert(used_nonces(all, tx, account_of(s.0, tx.sender).nonce).contains(tx.nonce));
}

/// An accepted transfer between two different addresses takes amount plus
/// fee from the sender, gives the amount to the recipient (saturating), adds
/// the burned part to the block's burn, and touches no other account.
pub proof fn lemma_transfer_moves_coins(s: Progress, tx: Transaction, all: Seq<Transaction>)
    requires
        !tx.spec_is_coinbase(),
        tx.sender != tx.recipient,
        tx.amount + tx.fee <= u64::MAX,
        apply_tx(s, tx, all) is Ok,
    ensures
        ({
            let t = apply_tx(s, tx, all)->Ok_0;
            &&& account_of(t.0, tx.sender).balance + tx.amount + tx.fee == account_of(s.0, tx.sender).balance
            &&& account_of(t.0, tx.recipient).balance == account_of(s.0, tx.recipient).balance.saturating_add(tx.amount)
            &&& t.1 == s.1
            &&& t.2 == s.2.saturating_add(tx.burned)
            &&& forall|a: [u8; 32]| a != tx.sender && a != tx.recipient ==> #[trigger] account_of(t.0, a) == account_of(s.0, a)
        }),
{
    let t = apply_tx(s, tx, all)->Ok_0;
    let sender = account_of(s.0, tx.sender);
    assert(tx_rejection(tx, sender.balance, used_nonces(all, tx, sender.nonce)) is None);
    assert(tx.spec_total_cost() == tx.amount + tx.fee);
    assert(tx.spec_total_cost() <= sender.balance);
    assert forall|a: [u8; 32]| a != tx.sender && a != tx.recipient implies #[trigger] account_of(t.0, a) == account_of(s.0, a) by {
        assert(t.0.dom().contains(a) == s.0.dom().contains(a));
    }
}

/// A coinbase is always accepted: it credits its amount to the recipient
/// (saturating), counts it as minted, burns nothing and touches no other
/// account.
pub proof fn lemma_coinbase_mints(s: Progress, tx: Transaction, all: Seq<Transaction>)
    requires
        tx.spec_is_coinbase(),
    ensures
        apply_tx(s, tx, all) is Ok,
        ({
            let t = apply_tx(s, tx, all)->Ok_0;
            &&& account_of(t.0, tx.recipient).balance == account_of(s.0, tx.recipient).balance.saturating_add(tx.amount)
            &&& account_of(t.0, tx.recipient).nonce == account_of(s.0, tx.recipient).nonce
            &&& t.1 == s.1.saturating_add(tx.amount)
            &&& t.2 == s.2
            &&& forall|a: [u8; 32]| a != tx.recipient ==> #[trigger] account_of(t.0, a) == account_of(s.0, a)
        }),
{
    let t = apply_tx(s, tx, all)->Ok_0;
    assert forall|a: [u8; 32]| a != tx.recipient implies #[trigger] account_of(t.0, a) == account_of(s.0, a) by {
        assert(t.0.dom().contains(a) == s.0.dom().contains(a));
    }
}

/// Within transactions whose only coinbase, if any, comes first, what is
/// minted is that coinbase's amount.
proof fn lemma_minted_by_first(m: Accounts, txs: Seq<Transaction>, all: Seq<Transaction>)
    requires
        forall|i: int| 0 < i < txs.len() ==> !(#[trigger] txs[i]).spec_is_coinbase(),
    ensures
        apply_txs(m, txs, all) matches Ok(p) ==> p.1 == if txs.len() > 0 && txs[0].spec_is_coinbase() {
            txs[0].amount
        } else {
            0
        },
    decreases txs.len(),
{
    if txs.len() > 0 {
        let init = txs.drop_last();
        assert forall|i: int| 0 < i < init.len() implies !(#[trigger] init[i]).spec_is_coinbase() by {
            assert(init[i] == txs[i]);
        }
        lemma_minted_by_first(m, init, all);
        if txs.len() == 1 {
            assert(init.len() == 0);
        } else {
            assert(init[0] == txs[0]);
        }
    }
}

/// A valid block mints exactly its coinbase amount.
pub proof fn lemma_block_mints_coinbase(m: Accounts, b: Block)
    requires
        block_defect(b) is None,
        block_effect(m, b) is Ok,
    ensures
        block_effect(m, b)->Ok_0.1 == b.transactions@[0].amount,
{
    crate::block::lemma_valid_block_shape(b);
    lemma_minted_by_first(m, b.transactions@, b.transactions@);
}

/// Applying one transaction never lowers an account's nonce, and an accepted
/// transfer leaves its sender's nonce above the transfer's own.
proof fn lemma_apply_tx_nonces(s: Progress, tx: Transaction, all: Seq<Transaction>)
    requires
        !tx.spec_is_coinbase() ==> tx.nonce < u64::MAX,
    ensures
        apply_tx(s, tx, all) matches Ok(s2) ==> {
            &&& forall|a: [u8; 32]| #[trigger] account_of(s2.0, a).nonce >= account_of(s.0, a).nonce
            &&& !tx.spec_is_coinbase() ==> account_of(s2.0, tx.sender).nonce > tx.nonce
            &&& !tx.spec_is_coinbase() ==> tx.nonce >= account_of(s.0, tx.sender).nonce
        },
{
    if tx.spec_is_coinbase() {
        if let Ok(s2) = apply_tx(s, tx, all) {
            assert forall|a: [u8; 32]| #[trigger] account_of(s2.0, a).nonce >= account_of(s.0, a).nonce by {
                if a != tx.recipient {
                    assert(s2.0.dom().contains(a) == s.0.dom().contains(a));
                }
            }
        }
    } else {
        let sender = account_of(s.0, tx.sender);
        if tx.nonce < sender.nonce {
            lemma_stale_nonce_rejected(s, tx, all);
        }
        if let Ok(s2) = apply_tx(s, tx, all) {
            let new_nonce: u64 = if sender.nonce < tx.nonce + 1 {
                (tx.nonce + 1) as u64
            } else {
                sender.nonce
            };
            let m1 = s.0.insert(
                tx.sender,
                AccountState { balance: sender.balance.saturating_sub(tx.spec_total_cost()), nonce: new_nonce },
            );
            assert(account_of(m1, tx.sender).nonce == new_nonce);
            assert forall|a: [u8; 32]| #[trigger] account_of(m1, a).nonce >= account_of(s.0, a).nonce by {
                if a != tx.sender {
                    assert(m1.dom().contains(a) == s.0.dom().contains(a));
                }
            }
            assert forall|a: [u8; 32]| #[trigger] account_of(s2.0, a).nonce >= account_of(m1, a).nonce by {
                if a != tx.recipient {
                    assert(s2.0.dom().contains(a) == m1.dom().contains(a));
                }
            }
            assert(account_of(s2.0, tx.sender).nonce >= account_of(m1, tx.sender).nonce);
        }
    }
}

/// Applying transactions in order never lowers an account's nonce; every
/// transfer accepted had a nonce at or above its sender's nonce before, and
/// leaves the sender's nonce above it (for transfers whose nonce has a
/// successor).
pub proof fn lemma_apply_txs_nonces(m: Accounts, txs: Seq<Transaction>, all: Seq<Transaction>)
    requires
        forall|i: int| 0 <= i < txs.len() && !(#[trigger] txs[i]).spec_is_coinbase() ==> txs[i].nonce < u64::MAX,
    ensures
        apply_txs(m, txs, all) matches Ok(s) ==> {
            &&& forall|a: [u8; 32]| #[trigger] account_of(s.0, a).nonce >= account_of(m, a).nonce
            &&& forall|i: int|
                0 <= i < txs.len() && !(#[trigger] txs[i]).spec_is_coinbase() ==> {
                    &&& txs[i].nonce >= account_of(m, txs[i].sender).nonce
                    &&& account_of(s.0, txs[i].sender).nonce > txs[i].nonce
                }
        },
    decreases txs.len(),
{
    if txs.len() > 0 {
        let init = txs.drop_last();
        assert forall|i: int| 0 <= i < init.len() && !(#[trigger] init[i]).spec_is_coinbase() implies init[i].nonce < u64::MAX by {
            assert(init[i] == txs[i]);
        }
        lemma_apply_txs_nonces(m, init, all);
        if let Ok(s1) = apply_txs(m, init, all) {
            lemma_apply_tx_nonces(s1, txs.last(), all);
            if let Ok(s) = apply_txs(m, txs, all) {
                assert forall|i: int|
                    0 <= i < txs.len() && !(#[trigger] txs[i]).spec_is_coinbase() implies {
                        &&& txs[i].nonce >= account_of(m, txs[i].sender).nonce
                        &&& account_of(s.0, txs[i].sender).nonce > txs[i].nonce
                    } by {
                    if i < txs.len() - 1 {
                        assert(init[i] == txs[i]);
                        assert(account_of(s.0, txs[i].sender).nonce >= account_of(s1.0, txs[i].sender).nonce);
                    } else {
                        assert(account_of(s1.0, txs[i].sender).nonce >= account_of(m, txs[i].sender).nonce);
                    }
                }
            }
        }
    }
}

/// A block is accepted only if each of its transfers carries a nonce at or
/// above its sender's confirmed nonce before the block, and afterwards the
/// sender's nonce is above the transfer's (for blocks that accept no transfer
/// with the largest nonce, which has no successor).
pub proof fn lemma_block_transfers_fresh(m: Accounts, b: Block, i: int)
    requires
        block_effect(m, b) is Ok,
        !accepts_max_nonce(m, b),
        0 <= i < b.transactions@.len(),
        !b.transactions@[i].spec_is_coinbase(),
    ensures
        b.transactions@[i].nonce >= account_of(m, b.transactions@[i].sender).nonce,
        account_of(block_effect(m, b)->Ok_0.0, b.transactions@[i].sender).nonce
            > b.transactions@[i].nonce,
{
    let txs = b.transactions@;
    assert forall|k: int| 0 <= k < txs.len() && !(#[trigger] txs[k]).spec_is_coinbase() implies txs[k].nonce < u64::MAX by {
        if txs[k].nonce == u64::MAX {
            if apply_txs(m, txs.subrange(0, k + 1), txs) is Err {
                lemma_apply_txs_error_sticks(m, txs, k + 1);
            }
            assert(accepts_max_nonce(m, b));
        }
    }
    lemma_apply_txs_nonces(m, txs, txs);
}

/// A transfer is never applied twice: once a block holding it has been
/// applied, no later block that holds it again can be applied to the result
/// (for blocks that accept no transfer with the largest nonce, whose
/// successor does not exist; `apply_block` requires that too).
pub proof fn lemma_no_replay(m: Accounts, b1: Block, b2: Block, i: int, j: int)
    requires
        block_effect(m, b1) is Ok,
        !accepts_max_nonce(m, b1),
        !accepts_max_nonce(block_effect(m, b1)->Ok_0.0, b2),
        0 <= i < b1.transactions@.len(),
        !b1.transactions@[i].spec_is_coinbase(),
        0 <= j < b2.transactions@.len(),
        b2.transactions@[j] == b1.transactions@[i],
    ensures
        block_effect(block_effect(m, b1)->Ok_0.0, b2) is Err,
{
    let s = block_effect(m, b1)->Ok_0;
    lemma_block_transfers_fresh(m, b1, i);
    if block_effect(s.0, b2) is Ok {
        lemma_block_transfers_fresh(s.0, b2, j);
    }
}

} // verus!
