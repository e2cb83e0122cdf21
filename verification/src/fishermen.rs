//! Fishermen: auditors that lock a stake, report fraud, and are rewarded for
//! valid reports or slashed for invalid ones.
use vstd::prelude::*;
use crate::bytemap::ByteMap;
use crate::pow::hash_eq;
use crate::transport::string_of;

verus! {

/// Minimum stake (in base units) required to register as a Fisherman.
pub const MIN_STAKE: u64 = 1_000;

/// Share of the minimum stake paid to a Fisherman for a valid report, in percent.
pub const FISHERMAN_REWARD_PCT: u64 = 30;

/// Share of its own stake a Fisherman loses for an invalid report, in percent.
pub const FALSE_REPORT_SLASH_PCT: u64 = 10;

/// A 32-byte hash alias.
pub type Hash32 = [u8; 32];

/// The reward paid for a valid report.
pub open spec fn report_reward() -> u64 {
    (MIN_STAKE * FISHERMAN_REWARD_PCT / 100) as u64
}

// ─── Fraud proof ─────────────────────────────────────────────────────────────

/// The category of fraud being reported.
#[derive(Debug, Clone, PartialEq, Eq)]
pub enum FraudKind {
    /// A block contains a transaction that violates the protocol rules.
    InvalidTransaction { block_hash: Hash32, tx_index: u32, tx_bytes: Vec<u8> },
    /// A block's stated state root does not match the computed root.
    StateRootMismatch { block_hash: Hash32, claimed_root: Hash32, actual_root: Hash32 },
    /// A validator produced two conflicting blocks at the same height.
    EquivocatingBlock { block_a: Hash32, block_b: Hash32, height: u64 },
}

/// A signed report of a protocol violation.
#[derive(Debug, Clone)]
pub struct FraudProof {
    /// Unique identifier for this proof.
    pub id: Hash32,
    /// Identity of the reporting Fisherman.
    pub reporter: Hash32,
    /// Identity of the accused validator.
    pub accused: Hash32,
    /// The nature of the alleged fraud.
    pub kind: FraudKind,
    /// Fisherman's signature over the proof payload.
    pub signature: Vec<u8>,
    /// Whether this proof has been verified by the network.
    pub verified: bool,
}

/// Errors from Fisherman operations.
#[derive(Debug, Clone, Copy, PartialEq, Eq, Structural)]
pub enum FishermanError {
    /// The node is not registered as a Fisherman.
    NotRegistered,
    /// The node is already registered.
    AlreadyRegistered,
    /// The provided stake is below the minimum required.
    InsufficientStake,
    /// The Fisherman has been deactivated due to slashing.
    Deactivated,
    /// The fraud proof's signature is missing.
    InvalidSignature,
    /// The reporter and accused are the same node.
    SelfReport,
    /// The proof does not demonstrate any actual fraud.
    NoFraudEvidence,
    /// A proof with this ID has already been submitted.
    DuplicateProof,
}

/// The sentence that describes a Fisherman error.
pub open spec fn fisherman_error_text(e: FishermanError) -> Seq<char> {
    match e {
        FishermanError::NotRegistered => "node is not a registered Fisherman"@,
        FishermanError::AlreadyRegistered => "node is already registered"@,
        FishermanError::InsufficientStake => "stake below minimum"@,
        FishermanError::Deactivated => "Fisherman has been deactivated"@,
        FishermanError::InvalidSignature => "invalid or missing signature"@,
        FishermanError::SelfReport => "reporter and accused are the same node"@,
        FishermanError::NoFraudEvidence => "proof contains no fraud evidence"@,
        FishermanError::DuplicateProof => "proof ID already submitted"@,
    }
}

impl FishermanError {
    /// A sentence that describes the error.
    pub fn message(&self) -> (s: String)
        ensures
            s@ == fisherman_error_text(*self),
    {
        match self {
            FishermanError::NotRegistered => string_of("node is not a registered Fisherman"),
            FishermanError::AlreadyRegistered => string_of("node is already registered"),
            FishermanError::InsufficientStake => string_of("stake below minimum"),
            FishermanError::Deactivated => string_of("Fisherman has been deactivated"),
            FishermanError::InvalidSignature => string_of("invalid or missing signature"),
            FishermanError::SelfReport => string_of("reporter and accused are the same node"),
            FishermanError::NoFraudEvidence => string_of("proof contains no fraud evidence"),
            FishermanError::DuplicateProof => string_of("proof ID already submitted"),
        }
    }
}

/// The first structural defect of a fraud proof, if any: a self-report, a
/// missing signature, or evidence that shows no discrepancy.
pub open spec fn fraud_defect(p: FraudProof) -> Option<FishermanError> {
    if p.reporter == p.accused {
        Some(FishermanError::SelfReport)
    } else if p.signature@.len() == 0 {
        Some(FishermanError::InvalidSignature)
    } else {
        match p.kind {
            FraudKind::StateRootMismatch { claimed_root, actual_root, .. } => {
                if claimed_root == actual_root {
                    Some(FishermanError::NoFraudEvidence)
                } else {
                    None
                }
            },
            FraudKind::EquivocatingBlock { block_a, block_b, .. } => {
                if block_a == block_b {
                    Some(FishermanError::NoFraudEvidence)
                } else {
                    None
                }
            },
            FraudKind::InvalidTransaction { tx_bytes, .. } => {
                if tx_bytes@.len() == 0 {
                    Some(FishermanError::NoFraudEvidence)
                } else {
                    None
                }
            },
        }
    }
}

impl FraudProof {
    /// Creates a new, unverified fraud proof.
    pub fn new(
        id: Hash32,
        reporter: Hash32,
        accused: Hash32,
        kind: FraudKind,
        signature: Vec<u8>,
    ) -> (p: FraudProof)
        ensures
            p.id == id,
            p.reporter == reporter,
            p.accused == accused,
            p.kind == kind,
            p.signature == signature,
            !p.verified,
    {
        FraudProof { id, reporter, accused, kind, signature, verified: false }
    }

    /// Structural validation: the reporter does not accuse itself, the
    /// signature is present, and the evidence shows an actual discrepancy.
    pub fn validate(&self) -> (r: Result<(), FishermanError>)
        ensures
            match fraud_defect(*self) {
                Some(e) => r == Err::<(), FishermanError>(e),
                None => r is Ok,
            },
    {
        if hash_eq(&self.reporter, &self.accused) {
            assert(self.reporter =~= self.accused);
            return Err(FishermanError::SelfReport);
        }
        if self.signature.len() == 0 {
            return Err(FishermanError::InvalidSignature);
        }
        match &self.kind {
            FraudKind::StateRootMismatch { claimed_root, actual_root, .. } => {
                if hash_eq(claimed_root, actual_root) {
                    assert(*claimed_root =~= *actual_root);
                    return Err(FishermanError::NoFraudEvidence);
                }
            },
            FraudKind::EquivocatingBlock { block_a, block_b, .. } => {
                if hash_eq(block_a, block_b) {
                    assert(*block_a =~= *block_b);
                    return Err(FishermanError::NoFraudEvidence);
                }
            },
            FraudKind::InvalidTransaction { tx_bytes, .. } => {
                if tx_bytes.len() == 0 {
                    return Err(FishermanError::NoFraudEvidence);
                }
            },
        }
        Ok(())
    }
}

// ─── Fisherman record ────────────────────────────────────────────────────────

/// The registration record of one Fisherman.
#[derive(Debug, Clone)]
pub struct FishermanRecord {
    /// The node's identity.
    pub id: Hash32,
    /// Current locked stake in base units.
    pub stake: u64,
    /// Cumulative rewards earned.
    pub rewards_earned: u64,
    /// Number of successful fraud proofs submitted.
    pub successful_reports: u32,
    /// Number of invalid fraud proofs submitted.
    pub failed_reports: u32,
    /// Whether this Fisherman is currently active.
    pub active: bool,
}

/// `x` clipped to the range of `u64`.
pub open spec fn clip_u64(x: int) -> u64 {
    if x < 0 {
        0
    } else if x > u64::MAX {
        u64::MAX
    } else {
        x as u64
    }
}

/// The stake left after slashing `pct` percent of `stake` (the product
/// saturates at `u64::MAX` before the division).
pub open spec fn slashed_stake(stake: u64, pct: u64) -> u64 {
    clip_u64(stake - clip_u64(stake * pct) / 100)
}

/// The record after a slash of `pct` percent; it is deactivated when the
/// remaining stake falls below the minimum.
pub open spec fn slashed_record(r: FishermanRecord, pct: u64) -> FishermanRecord {
    FishermanRecord {
        stake: slashed_stake(r.stake, pct),
        active: r.active && slashed_stake(r.stake, pct) >= MIN_STAKE,
        ..r
    }
}

/// The record after a reward of `amount` is credited.
pub open spec fn credited_record(r: FishermanRecord, amount: u64) -> FishermanRecord {
    FishermanRecord {
        rewards_earned: clip_u64(r.rewards_earned + amount),
        successful_reports: (r.successful_reports + 1) as u32,
        ..r
    }
}

/// The record after an invalid report: slashed, with one more failure.
pub open spec fn penalised_record(r: FishermanRecord) -> FishermanRecord {
    FishermanRecord {
        failed_reports: (r.failed_reports + 1) as u32,
        ..slashed_record(r, FALSE_REPORT_SLASH_PCT)
    }
}

impl FishermanRecord {
    /// Creates an active record with the given stake and no history.
    pub fn new(id: Hash32, stake: u64) -> (r: FishermanRecord)
        ensures
            r == (FishermanRecord {
                id,
                stake,
                rewards_earned: 0,
                successful_reports: 0,
                failed_reports: 0,
                active: true,
            }),
    {
        FishermanRecord {
            id,
            stake,
            rewards_earned: 0,
            successful_reports: 0,
            failed_reports: 0,
            active: true,
        }
    }

    /// Adds stake, saturating at `u64::MAX`.
    pub fn add_stake(&mut self, amount: u64)
        ensures
            *final(self) == (FishermanRecord {
                stake: clip_u64(old(self).stake + amount),
                ..*old(self)
            }),
    {
        self.stake = self.stake.saturating_add(amount);
    }

    /// Slashes `slash_pct` percent of the stake; the Fisherman is deactivated
    /// when the remaining stake falls below `MIN_STAKE`.
    pub fn slash(&mut self, slash_pct: u64)
        ensures
            *final(self) == slashed_record(*old(self), slash_pct),
    {
        let product: u64 = match self.stake.checked_mul(slash_pct) {
            Some(p) => p,
            None => u64::MAX,
        };
        let slash_amount = product / 100;
        self.stake = self.stake.saturating_sub(slash_amount);
        if self.stake < MIN_STAKE {
            self.active = false;
        }
    }

    /// Credits a reward (saturating) and counts one more successful report.
    pub fn credit_reward(&mut self, amount: u64)
        requires
            old(self).successful_reports < u32::MAX,
        ensures
            *final(self) == credited_record(*old(self), amount),
    {
        self.rewards_earned = self.rewards_earned.saturating_add(amount);
        self.successful_reports = self.successful_reports + 1;
    }
}

// ─── Fisherman registry ──────────────────────────────────────────────────────

/// All registered Fishermen and the identifiers of the proofs already seen.
#[derive(Debug)]
pub struct FishermanRegistry {
    fishermen: ByteMap<FishermanRecord>,
    seen_proofs: ByteMap<()>,
}

/// The number of active records among the keys `order`.
pub open spec fn active_fishermen(order: Seq<Hash32>, m: Map<Hash32, FishermanRecord>) -> nat
    decreases order.len(),
{
    if order.len() == 0 {
        0
    } else {
        active_fishermen(order.drop_last(), m) + if m[order.last()].active {
            1nat
        } else {
            0nat
        }
    }
}

/// Records under keys outside `order` do not change the active count.
proof fn lemma_active_insert_absent(
    order: Seq<Hash32>,
    m: Map<Hash32, FishermanRecord>,
    id: Hash32,
    v: FishermanRecord,
)
    requires
        !order.contains(id),
    ensures
        active_fishermen(order, m.insert(id, v)) == active_fishermen(order, m),
    decreases order.len(),
{
    if order.len() > 0 {
        assert(!order.drop_last().contains(id)) by {
            if order.drop_last().contains(id) {
                let i = choose|i: int| 0 <= i < order.drop_last().len() && order.drop_last()[i] == id;
                assert(order[i] == id);
            }
        }
        assert(order.last() != id) by {
            assert(order[order.len() - 1] == order.last());
        }
        lemma_active_insert_absent(order.drop_last(), m, id, v);
    }
}

/// What submitting `proof` must leave in a registry whose records are `m`,
/// once the proof is accepted for processing.
pub open spec fn after_report(
    m: Map<Hash32, FishermanRecord>,
    proof: FraudProof,
) -> Map<Hash32, FishermanRecord> {
    match fraud_defect(proof) {
        None => m.insert(proof.reporter, credited_record(m[proof.reporter], report_reward())),
        Some(_) => m.insert(proof.reporter, penalised_record(m[proof.reporter])),
    }
}

/// The outcome of submitting `proof`, when it is neither a duplicate nor from
/// an unknown or inactive reporter.
pub open spec fn report_outcome(proof: FraudProof) -> Result<u64, FishermanError> {
    match fraud_defect(proof) {
        None => Ok(report_reward()),
        Some(e) => Err(e),
    }
}

/// A report is paid only for real evidence: a proof validates, and a
/// submission's outcome is the reward, exactly when the reporter is not the accused, the proof is signed,
/// and its evidence shows a discrepancy (two different roots, two different
/// blocks, or some transaction bytes). A report of an invalid transaction
/// without bytes, signed and against another party, fails with
/// `NoFraudEvidence`.
pub proof fn lemma_reward_needs_evidence(proof: FraudProof)
    ensures
        report_outcome(proof) is Ok <==> {
            &&& proof.reporter != proof.accused
            &&& proof.signature@.len() > 0
            &&& match proof.kind {
                FraudKind::InvalidTransaction { tx_bytes, .. } => tx_bytes@.len() > 0,
                FraudKind::StateRootMismatch { claimed_root, actual_root, .. } => claimed_root
                    != actual_root,
                FraudKind::EquivocatingBlock { block_a, block_b, .. } => block_a != block_b,
            }
        },
        report_outcome(proof) matches Ok(v) ==> v == report_reward(),
        fraud_defect(proof) is None <==> report_outcome(proof) is Ok,
        proof.kind matches FraudKind::InvalidTransaction { tx_bytes, .. } && tx_bytes@.len() == 0
            && proof.reporter != proof.accused && proof.signature@.len() > 0 ==> report_outcome(proof)
            == Err::<u64, FishermanError>(FishermanError::NoFraudEvidence),
        proof.reporter == proof.accused ==> report_outcome(proof) == Err::<u64, FishermanError>(
            FishermanError::SelfReport,
        ),
{
}

/// Slashing takes `pct` percent of the stake, rounded down, and never more
/// than the stake: the stake never grows, and for `pct` of at most 100 (with
/// the product in range) exactly `stake * pct / 100` is taken.
pub proof fn lemma_slash_takes_percent(stake: u64, pct: u64)
    ensures
        slashed_stake(stake, pct) <= stake,
        stake * pct <= u64::MAX && pct <= 100 ==> slashed_stake(stake, pct) == stake - stake * pct
            / 100,
        pct == 0 ==> slashed_stake(stake, pct) == stake,
        pct >= 100 ==> slashed_stake(stake, pct) == 0 || stake * pct > u64::MAX,
{
    if stake * pct <= u64::MAX && pct <= 100 {
        assert(stake * pct <= stake * 100) by (nonlinear_arith) requires pct <= 100, stake >= 0;
        assert(stake * pct / 100 <= stake) by (nonlinear_arith) requires stake * pct <= stake * 100;
    }
    if pct >= 100 && stake * pct <= u64::MAX {
        assert(stake * pct / 100 >= stake) by (nonlinear_arith) requires pct >= 100, stake >= 0;
    }
}

/// What a report does to the reporter: a valid one leaves the stake alone
/// and counts one more success, with the reward added to the earnings
/// (saturating); an invalid one takes a tenth of the stake (rounded down),
/// counts one more failure, pays nothing, and leaves the reporter active only
/// if it was and keeps at least `MIN_STAKE`. No other record changes.
pub proof fn lemma_report_effect(m: Map<Hash32, FishermanRecord>, proof: FraudProof)
    requires
        m.dom().contains(proof.reporter),
        m[proof.reporter].successful_reports < u32::MAX,
        m[proof.reporter].failed_reports < u32::MAX,
    ensures
        after_report(m, proof).dom() == m.dom(),
        forall|k: Hash32| k != proof.reporter && #[trigger] m.dom().contains(k) ==> after_report(
            m,
            proof,
        )[k] == m[k],
        after_report(m, proof)[proof.reporter].id == m[proof.reporter].id,
        fraud_defect(proof) is None ==> {
            let (a, b) = (m[proof.reporter], after_report(m, proof)[proof.reporter]);
            &&& b.stake == a.stake
            &&& b.active == a.active
            &&& b.successful_reports == a.successful_reports + 1
            &&& b.failed_reports == a.failed_reports
            &&& b.rewards_earned == clip_u64(a.rewards_earned + report_reward())
        },
        fraud_defect(proof) is Some ==> {
            let (a, b) = (m[proof.reporter], after_report(m, proof)[proof.reporter]);
            &&& b.stake <= a.stake
            &&& a.stake * FALSE_REPORT_SLASH_PCT <= u64::MAX ==> b.stake == a.stake - a.stake / 10
            &&& b.active == (a.active && b.stake >= MIN_STAKE)
            &&& b.successful_reports == a.successful_reports
            &&& b.failed_reports == a.failed_reports + 1
            &&& b.rewards_earned == a.rewards_earned
        },
{
    let a = m[proof.reporter];
    let x = a.stake;
    if x * 10 <= u64::MAX {
        assert((x * 10) / 100 == x / 10) by (nonlinear_arith) requires x >= 0;
    } else {
        assert(u64::MAX as int / 100 <= x);
    }
    assert(m.insert(proof.reporter, penalised_record(a)).dom() =~= m.dom());
    assert(m.insert(proof.reporter, credited_record(a, report_reward())).dom() =~= m.dom());
}

impl FishermanRegistry {
    /// The records by identity.
    pub closed spec fn records(&self) -> Map<Hash32, FishermanRecord> {
        self.fishermen@
    }

    /// The identifiers of the proofs already submitted.
    pub closed spec fn seen(&self) -> Set<Hash32> {
        self.seen_proofs@.dom()
    }

    /// The identities in storage order.
    pub closed spec fn order(&self) -> Seq<Hash32> {
        self.fishermen.order()
    }

    /// Well-formedness of the two stores.
    pub closed spec fn wf(&self) -> bool {
        self.fishermen.wf() && self.seen_proofs.wf()
    }

    /// Creates an empty registry.
    pub fn new() -> (r: FishermanRegistry)
        ensures
            r.wf(),
            r.records() == Map::<Hash32, FishermanRecord>::empty(),
            r.seen() == Set::<Hash32>::empty(),
    {
        let r = FishermanRegistry { fishermen: ByteMap::new(), seen_proofs: ByteMap::new() };
        assert(r.seen() =~= Set::<Hash32>::empty());
        r
    }

    /// Registers a Fisherman with the given stake. Fails with
    /// `AlreadyRegistered` for a known identity, else with
    /// `InsufficientStake` below `MIN_STAKE`.
    pub fn register(&mut self, id: Hash32, stake: u64) -> (r: Result<(), FishermanError>)
        requires
            old(self).wf(),
        ensures
            final(self).wf(),
            final(self).seen() == old(self).seen(),
            final(self).records().dom().finite(),
            r is Err ==> final(self).order() == old(self).order(),
            r is Ok ==> final(self).order() == old(self).order().push(id) && final(self).records().dom().len()
                == old(self).records().dom().len() + 1 && active_fishermen(
                final(self).order(),
                final(self).records(),
            ) == active_fishermen(old(self).order(), old(self).records()) + 1,
            old(self).records().dom().contains(id) ==> r == Err::<(), FishermanError>(
                FishermanError::AlreadyRegistered,
            ) && final(self).records() == old(self).records(),
            !old(self).records().dom().contains(id) && stake < MIN_STAKE ==> r == Err::<
                (),
                FishermanError,
            >(FishermanError::InsufficientStake) && final(self).records() == old(self).records(),
            !old(self).records().dom().contains(id) && stake >= MIN_STAKE ==> r is Ok
                && final(self).records() == old(self).records().insert(
                id,
                FishermanRecord {
                    id,
                    stake,
                    rewards_earned: 0,
                    successful_reports: 0,
                    failed_reports: 0,
                    active: true,
                },
            ),
    {
        proof {
            self.fishermen.lemma_order();
        }
        if self.fishermen.contains_key(&id) {
            return Err(FishermanError::AlreadyRegistered);
        }
        if stake < MIN_STAKE {
            return Err(FishermanError::InsufficientStake);
        }
        proof {
            self.fishermen.lemma_order();
        }
        let rec = FishermanRecord::new(id, stake);
        self.fishermen.insert(id, rec);
        proof {
            self.fishermen.lemma_order();
            lemma_active_insert_absent(old(self).order(), old(self).records(), id, rec);
            assert(self.order().drop_last() =~= old(self).order());
            assert(self.order().last() == id);
        }
        Ok(())
    }

    /// Adds stake (saturating) to a registered Fisherman; fails with
    /// `NotRegistered` for an unknown identity.
    pub fn add_stake(&mut self, id: &Hash32, amount: u64) -> (r: Result<(), FishermanError>)
        requires
            old(self).wf(),
        ensures
            final(self).wf(),
            final(self).seen() == old(self).seen(),
            !old(self).records().dom().contains(*id) ==> r == Err::<(), FishermanError>(
                FishermanError::NotRegistered,
            ) && final(self).records() == old(self).records(),
            old(self).records().dom().contains(*id) ==> r is Ok && final(self).records()
                == old(self).records().insert(
                *id,
                FishermanRecord {
                    stake: clip_u64(old(self).records()[*id].stake + amount),
                    ..old(self).records()[*id]
                },
            ),
    {
        let mut record = match self.fishermen.get(id) {
            Some(rec) => copy_record(rec),
            None => return Err(FishermanError::NotRegistered),
        };
        record.add_stake(amount);
        self.fishermen.insert(*id, record);
        Ok(())
    }

    /// Submits a fraud proof. A proof whose id was already seen fails with
    /// `DuplicateProof`; an unknown reporter with `NotRegistered`; an
    /// inactive one with `Deactivated`; none of these change the registry.
    /// Otherwise the id is recorded, and a structurally valid proof credits
    /// the reporter with the reward (returned), while an invalid one slashes
    /// the reporter by 10% and returns the validation error.
    pub fn submit_proof(&mut self, proof: FraudProof) -> (r: Result<u64, FishermanError>)
        requires
            old(self).wf(),
            !old(self).seen().contains(proof.id) && old(self).records().dom().contains(
                proof.reporter,
            ) && old(self).records()[proof.reporter].active ==> (fraud_defect(proof) is None
                ==> old(self).records()[proof.reporter].successful_reports < u32::MAX) && (
            fraud_defect(proof) is Some ==> old(self).records()[proof.reporter].failed_reports
                < u32::MAX),
        ensures
            final(self).wf(),
            old(self).seen().contains(proof.id) ==> r == Err::<u64, FishermanError>(
                FishermanError::DuplicateProof,
            ) && final(self).records() == old(self).records() && final(self).seen() == old(
                self,
            ).seen(),
            !old(self).seen().contains(proof.id) && !old(self).records().dom().contains(
                proof.reporter,
            ) ==> r == Err::<u64, FishermanError>(FishermanError::NotRegistered)
                && final(self).records() == old(self).records() && final(self).seen() == old(
                self,
            ).seen(),
            !old(self).seen().contains(proof.id) && old(self).records().dom().contains(
                proof.reporter,
            ) && !old(self).records()[proof.reporter].active ==> r == Err::<u64, FishermanError>(
                FishermanError::Deactivated,
            ) && final(self).records() == old(self).records() && final(self).seen() == old(
                self,
            ).seen(),
            !old(self).seen().contains(proof.id) && old(self).records().dom().contains(
                proof.reporter,
            ) && old(self).records()[proof.reporter].active ==> r == report_outcome(proof)
                && final(self).records() == after_report(old(self).records(), proof)
                && final(self).seen() == old(self).seen().insert(proof.id),
    {
        if self.seen_proofs.contains_key(&proof.id) {
            return Err(FishermanError::DuplicateProof);
        }
        let mut record = match self.fishermen.get(&proof.reporter) {
            Some(rec) => copy_record(rec),
            None => return Err(FishermanError::NotRegistered),
        };
        if !record.active {
            return Err(FishermanError::Deactivated);
        }
        self.seen_proofs.insert(proof.id, ());
        proof {
            assert(self.seen() =~= old(self).seen().insert(proof.id));
        }
        match proof.validate() {
            Ok(()) => {
                let reward = MIN_STAKE * FISHERMAN_REWARD_PCT / 100;
                record.credit_reward(reward);
                self.fishermen.insert(proof.reporter, record);
                Ok(reward)
            },
            Err(e) => {
                record.slash(FALSE_REPORT_SLASH_PCT);
                record.failed_reports = record.failed_reports + 1;
                self.fishermen.insert(proof.reporter, record);
                Err(e)
            },
        }
    }

    /// Returns the record of a Fisherman.
    pub fn get(&self, id: &Hash32) -> (r: Option<&FishermanRecord>)
        requires
            self.wf(),
        ensures
            match r {
                Some(rec) => self.records().dom().contains(*id) && self.records()[*id] == *rec,
                None => !self.records().dom().contains(*id),
            },
    {
        self.fishermen.get(id)
    }

    /// Returns the number of registered Fishermen, deactivated ones included.
    pub fn count(&self) -> (n: usize)
        requires
            self.wf(),
        ensures
            n == self.records().dom().len(),
    {
        self.fishermen.len()
    }

    /// Returns the number of currently active Fishermen.
    pub fn active_count(&self) -> (n: usize)
        requires
            self.wf(),
        ensures
            n == active_fishermen(self.order(), self.records()),
    {
        let len = self.fishermen.len();
        let mut n: usize = 0;
        let mut i: usize = 0;
        while i < len
            invariant
                self.wf(),
                len == self.order().len(),
                i <= len,
                n <= i,
                n == active_fishermen(self.order().subrange(0, i as int), self.records()),
            decreases len - i,
        {
            let ghost pre = self.order().subrange(0, i + 1);
            assert(pre.drop_last() =~= self.order().subrange(0, i as int));
            if self.fishermen.value_at(i).active {
                n = n + 1;
            }
            i = i + 1;
        }
        assert(self.order().subrange(0, i as int) =~= self.order());
        n
    }
}

/// A field-by-field copy of a record.
fn copy_record(r: &FishermanRecord) -> (c: FishermanRecord)
    ensures
        c == *r,
{
    FishermanRecord {
        id: r.id,
        stake: r.stake,
        rewards_earned: r.rewards_earned,
        successful_reports: r.successful_reports,
        failed_reports: r.failed_reports,
        active: r.active,
    }
}

impl Default for FishermanRegistry {
    fn default() -> (r: Self)
        ensures
            r.wf(),
            r.records() == Map::<Hash32, FishermanRecord>::empty(),
            r.seen() == Set::<Hash32>::empty(),
    {
        FishermanRegistry::new()
    }
}

} // verus!
