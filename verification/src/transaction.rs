//! The transaction model: coinbase issuance and fee-paying transfers, each
//! identified by the double SHA-256 of its canonical encoding.
use vstd::prelude::*;
use crate::transport::{decimal_string, push_decimal, push_str, string_of};
use crate::pow::{push_hash, push_u64_le, sha256d, spec_sha256d, u64_le_bytes};

verus! {

/// The kind of a transaction.
#[derive(Debug, Clone, Copy, PartialEq, Eq, Structural)]
pub enum TxKind {
    /// Newly minted coins credited to a block's miner.
    Coinbase,
    /// A transfer from `sender` to `recipient`, paying `fee`.
    Transfer,
}

/// A transaction. Its `hash` is computed once, from the canonical encoding.
#[derive(Debug, Clone)]
pub struct Transaction {
    /// Coinbase or transfer.
    pub kind: TxKind,
    /// Paying account (all zero for a coinbase).
    pub sender: [u8; 32],
    /// Receiving account.
    pub recipient: [u8; 32],
    /// Amount credited to the recipient.
    pub amount: u64,
    /// Fee paid by the sender on top of the amount.
    pub fee: u64,
    /// Part of the fee that is destroyed.
    pub burned: u64,
    /// Sender's sequence number (the block height for a coinbase).
    pub nonce: u64,
    /// The identifying hash, computed by the constructors.
    pub hash: [u8; 32],
}

/// Errors from transaction validation.
#[derive(Debug, Clone, PartialEq, Eq, Structural)]
pub enum TxError {
    /// The sender cannot pay `amount + fee`.
    InsufficientBalance { needed: u64, available: u64 },
    /// The nonce was already used by this sender.
    NonceReused(u64),
    /// A coinbase cannot be validated as a transfer.
    UnexpectedCoinbase,
    /// The burned part exceeds the fee.
    BurnExceedsFee,
}

/// The sentence that describes a transaction error.
pub open spec fn tx_error_text(e: TxError) -> Seq<char> {
    match e {
        TxError::InsufficientBalance { needed, available } => "insufficient balance: needed "@
            + decimal_string(needed as nat) + ", available "@ + decimal_string(available as nat),
        TxError::NonceReused(n) => "nonce already used: "@ + decimal_string(n as nat),
        TxError::UnexpectedCoinbase => "coinbase cannot be validated as a transfer"@,
        TxError::BurnExceedsFee => "burned amount exceeds the fee"@,
    }
}

impl TxError {
    /// A sentence that describes the error.
    pub fn message(&self) -> (s: String)
        ensures
            s@ == tx_error_text(*self),
    {
        match self {
            TxError::InsufficientBalance { needed, available } => {
                let mut s = string_of("insufficient balance: needed ");
                push_decimal(&mut s, *needed);
                push_str(&mut s, ", available ");
                push_decimal(&mut s, *available);
                s
            },
            TxError::NonceReused(n) => {
                let mut s = string_of("nonce already used: ");
                push_decimal(&mut s, *n);
                s
            },
            TxError::UnexpectedCoinbase => string_of("coinbase cannot be validated as a transfer"),
            TxError::BurnExceedsFee => string_of("burned amount exceeds the fee"),
        }
    }
}

/// One byte for the kind: 0 for a coinbase, 1 for a transfer.
pub open spec fn kind_byte(kind: TxKind) -> u8 {
    match kind {
        TxKind::Coinbase => 0u8,
        TxKind::Transfer => 1u8,
    }
}

/// The canonical encoding of a transaction's fields.
pub open spec fn tx_encoding(
    kind: TxKind,
    sender: Seq<u8>,
    recipient: Seq<u8>,
    amount: u64,
    fee: u64,
    burned: u64,
    nonce: u64,
) -> Seq<u8> {
    seq![kind_byte(kind)] + sender + recipient + u64_le_bytes(amount) + u64_le_bytes(fee)
        + u64_le_bytes(burned) + u64_le_bytes(nonce)
}

/// The identifying hash of a transaction with the given fields.
pub open spec fn tx_hash_of(
    kind: TxKind,
    sender: Seq<u8>,
    recipient: Seq<u8>,
    amount: u64,
    fee: u64,
    burned: u64,
    nonce: u64,
) -> Seq<u8> {
    spec_sha256d(tx_encoding(kind, sender, recipient, amount, fee, burned, nonce))
}

fn compute_tx_hash(
    kind: TxKind,
    sender: &[u8; 32],
    recipient: &[u8; 32],
    amount: u64,
    fee: u64,
    burned: u64,
    nonce: u64,
) -> (h: [u8; 32])
    ensures
        h@ == tx_hash_of(kind, sender@, recipient@, amount, fee, burned, nonce),
{
    let mut buf: Vec<u8> = Vec::new();
    match kind {
        TxKind::Coinbase => buf.push(0u8),
        TxKind::Transfer => buf.push(1u8),
    }
    push_hash(&mut buf, sender);
    push_hash(&mut buf, recipient);
    push_u64_le(&mut buf, amount);
    push_u64_le(&mut buf, fee);
    push_u64_le(&mut buf, burned);
    push_u64_le(&mut buf, nonce);
    assert(buf@ =~= tx_encoding(kind, sender@, recipient@, amount, fee, burned, nonce));
    sha256d(buf.as_slice())
}

impl Transaction {
    /// The stored identifying hash.
    pub open spec fn spec_hash(&self) -> Seq<u8> {
        self.hash@
    }

    /// The stored hash is the hash of the current fields.
    pub open spec fn hash_is_current(&self) -> bool {
        self.spec_hash() == tx_hash_of(
            self.kind,
            self.sender@,
            self.recipient@,
            self.amount,
            self.fee,
            self.burned,
            self.nonce,
        )
    }

    /// `true` iff this is a coinbase transaction.
    pub open spec fn spec_is_coinbase(&self) -> bool {
        self.kind == TxKind::Coinbase
    }

    /// What the sender pays: amount plus fee, saturating.
    pub open spec fn spec_total_cost(&self) -> u64 {
        self.amount.saturating_add(self.fee)
    }

    /// Creates the coinbase of the block at `height`, crediting `amount` to `recipient`.
    pub fn coinbase(recipient: [u8; 32], amount: u64, height: u64) -> (tx: Transaction)
        ensures
            tx.kind == TxKind::Coinbase,
            tx.sender@ == Seq::new(32, |i: int| 0u8),
            tx.recipient == recipient,
            tx.amount == amount,
            tx.fee == 0,
            tx.burned == 0,
            tx.nonce == height,
            tx.hash_is_current(),
    {
        let sender: [u8; 32] = [0u8; 32];
        let hash = compute_tx_hash(TxKind::Coinbase, &sender, &recipient, amount, 0, 0, height);
        assert(sender@ =~= Seq::new(32, |i: int| 0u8));
        Transaction {
            kind: TxKind::Coinbase,
            sender,
            recipient,
            amount,
            fee: 0,
            burned: 0,
            nonce: height,
            hash,
        }
    }

    /// Creates a transfer.
    pub fn transfer(
        sender: [u8; 32],
        recipient: [u8; 32],
        amount: u64,
        fee: u64,
        burned: u64,
        nonce: u64,
    ) -> (tx: Transaction)
        ensures
            tx.kind == TxKind::Transfer,
            tx.sender == sender,
            tx.recipient == recipient,
            tx.amount == amount,
            tx.fee == fee,
            tx.burned == burned,
            tx.nonce == nonce,
            tx.hash_is_current(),
    {
        let hash = compute_tx_hash(
            TxKind::Transfer,
            &sender,
            &recipient,
            amount,
            fee,
            burned,
            nonce,
        );
        Transaction { kind: TxKind::Transfer, sender, recipient, amount, fee, burned, nonce, hash }
    }

    /// Returns the transaction's identifying hash.
    pub fn hash(&self) -> (h: &[u8; 32])
        ensures
            h@ == self.spec_hash(),
    {
        &self.hash
    }

    /// Returns `true` if this is a coinbase transaction.
    pub fn is_coinbase(&self) -> (r: bool)
        ensures
            r == self.spec_is_coinbase(),
    {
        match self.kind {
            TxKind::Coinbase => true,
            TxKind::Transfer => false,
        }
    }

    /// Returns what the sender pays: amount plus fee (saturating).
    pub fn total_cost(&self) -> (c: u64)
        ensures
            c == self.spec_total_cost(),
    {
        self.amount.saturating_add(self.fee)
    }
}

/// The reason a transfer is rejected, if it is; checked in this order:
/// a coinbase, a burn above the fee, a nonce in `used`, and a total cost
/// above `balance`.
pub open spec fn tx_rejection(tx: Transaction, balance: u64, used: Set<u64>) -> Option<TxError> {
    if tx.spec_is_coinbase() {
        Some(TxError::UnexpectedCoinbase)
    } else if tx.burned > tx.fee {
        Some(TxError::BurnExceedsFee)
    } else if used.contains(tx.nonce) {
        Some(TxError::NonceReused(tx.nonce))
    } else if tx.spec_total_cost() > balance {
        Some(TxError::InsufficientBalance { needed: tx.spec_total_cost(), available: balance })
    } else {
        None
    }
}

/// A transfer is accepted exactly when it is no coinbase, burns no more than
/// its fee, uses a fresh nonce, and its amount plus fee is covered by the
/// balance (a cost beyond `u64::MAX` counts as `u64::MAX`, which only a full
/// balance covers).
pub proof fn lemma_tx_acceptance(tx: Transaction, balance: u64, used: Set<u64>)
    ensures
        tx_rejection(tx, balance, used) is None <==> (!tx.spec_is_coinbase() && tx.burned <= tx.fee
            && !used.contains(tx.nonce) && (tx.amount + tx.fee <= balance || balance == u64::MAX)),
{
}

/// Validates a transfer against the sender's balance and the nonces already used.
pub fn validate_tx(
    tx: &Transaction,
    balance: u64,
    used_nonces: &std::collections::HashSet<u64>,
) -> (r: Result<(), TxError>)
    ensures
        match r {
            Ok(()) => tx_rejection(*tx, balance, used_nonces@) is None,
            Err(e) => tx_rejection(*tx, balance, used_nonces@) == Some(e),
        },
{
    broadcast use vstd::std_specs::hash::group_hash_axioms;

    if tx.is_coinbase() {
        return Err(TxError::UnexpectedCoinbase);
    }
    if tx.burned > tx.fee {
        return Err(TxError::BurnExceedsFee);
    }
    if used_nonces.contains(&tx.nonce) {
        return Err(TxError::NonceReused(tx.nonce));
    }
    let cost = tx.total_cost();
    if cost > balance {
        return Err(TxError::InsufficientBalance { needed: cost, available: balance });
    }
    Ok(())
}

} // verus!
