//! Vertical patches: auditor-signed corrections of the state at a past block
//! height, authorised by a quorum of distinct auditors and applied once.
use vstd::prelude::*;
use std::collections::HashMap;
use crate::pow::hash_eq;
use crate::transport::string_of;

verus! {

broadcast use vstd::std_specs::hash::group_hash_axioms;

/// The minimum number of auditor signatures required to authorise a patch.
pub const PATCH_QUORUM: usize = 3;

/// A 32-byte hash alias used for block hashes, state roots, and patch IDs.
pub type Hash32 = [u8; 32];

/// The lifecycle state of a vertical patch.
#[derive(Debug, Clone, PartialEq, Eq)]
pub enum PatchStatus {
    /// Created but not yet signed by a quorum.
    Pending,
    /// Signed by a quorum and ready to apply.
    Authorised,
    /// Applied to the local ledger.
    Applied,
    /// Rejected, with the reason.
    Rejected(String),
}

/// The kind of state error a patch corrects.
#[derive(Debug, Clone, PartialEq, Eq)]
pub enum PatchKind {
    /// An invalid transaction was included in a block.
    InvalidTransaction { tx_index: u32 },
    /// The block's stated state root does not match the computed root.
    StateRootMismatch { stored_root: Hash32, correct_root: Hash32 },
    /// A double-spend was detected across two conflicting blocks.
    DoubleSpend { conflicting_block: Hash32 },
}

/// A signed, auditor-authorised correction to one block height's state.
#[derive(Debug, Clone)]
pub struct VerticalPatch {
    /// Unique patch identifier.
    pub id: Hash32,
    /// The block height at which the erroneous state was introduced.
    pub target_height: u64,
    /// Hash of the block being corrected.
    pub target_block_hash: Hash32,
    /// The corrected state root.
    pub corrected_state_root: Hash32,
    /// The kind of error this patch addresses.
    pub kind: PatchKind,
    /// Auditor signatures collected so far, as (auditor id, signature bytes).
    pub signatures: Vec<(Hash32, Vec<u8>)>,
    /// Current lifecycle status.
    pub status: PatchStatus,
}

/// Errors of patch operations.
#[derive(Debug, Clone, Copy, PartialEq, Eq, Structural)]
pub enum PatchError {
    /// The patch does not have a quorum of signatures.
    NotAuthorised,
    /// A patch for this block height already exists.
    DuplicatePatch,
    /// The patch references a block height in the future.
    FutureHeight,
    /// The corrected state root is identical to the stored root.
    NoCorrection,
}

/// The sentence that describes a patch error.
pub open spec fn patch_error_text(e: PatchError) -> Seq<char> {
    match e {
        PatchError::NotAuthorised => "patch not yet authorised by quorum"@,
        PatchError::DuplicatePatch => "a patch for this block height already exists"@,
        PatchError::FutureHeight => "patch targets a future block height"@,
        PatchError::NoCorrection => "corrected root is identical to stored root"@,
    }
}

impl PatchError {
    /// A sentence that describes the error.
    pub fn message(&self) -> (s: String)
        ensures
            s@ == patch_error_text(*self),
    {
        match self {
            PatchError::NotAuthorised => string_of("patch not yet authorised by quorum"),
            PatchError::DuplicatePatch => string_of("a patch for this block height already exists"),
            PatchError::FutureHeight => string_of("patch targets a future block height"),
            PatchError::NoCorrection => string_of("corrected root is identical to stored root"),
        }
    }
}

/// The auditors who signed, in signing order.
pub open spec fn signer_ids(sigs: Seq<(Hash32, Vec<u8>)>) -> Seq<Hash32> {
    sigs.map_values(|s: (Hash32, Vec<u8>)| s.0)
}

/// `new` is `old` with its status replaced by `status`.
pub open spec fn with_status(old: VerticalPatch, new: VerticalPatch, status: PatchStatus) -> bool {
    &&& new.id == old.id
    &&& new.target_height == old.target_height
    &&& new.target_block_hash == old.target_block_hash
    &&& new.corrected_state_root == old.corrected_state_root
    &&& new.kind == old.kind
    &&& new.signatures@ == old.signatures@
    &&& new.status == status
}

/// Adding the signature of `auditor` to `old` gives `new` and answers `r`:
/// a pending patch not yet signed by `auditor` gains the signature (and is
/// authorised once it holds `PATCH_QUORUM` of them); any other patch is
/// left as it is and the answer is `false`.
pub open spec fn signing(
    old: VerticalPatch,
    new: VerticalPatch,
    auditor: Hash32,
    signature: Vec<u8>,
    r: bool,
) -> bool {
    if !(old.status is Pending) || signer_ids(old.signatures@).contains(auditor) {
        !r && new == old
    } else {
        &&& r
        &&& new.id == old.id
        &&& new.target_height == old.target_height
        &&& new.target_block_hash == old.target_block_hash
        &&& new.corrected_state_root == old.corrected_state_root
        &&& new.kind == old.kind
        &&& new.signatures@ == old.signatures@.push((auditor, signature))
        &&& new.status == if new.signatures@.len() >= PATCH_QUORUM {
            PatchStatus::Authorised
        } else {
            PatchStatus::Pending
        }
    }
}

/// The quorum rule on a patch: its signers are distinct, a pending patch has
/// fewer than `PATCH_QUORUM` signatures, and an authorised one at least that
/// many.
pub open spec fn quorum_respected(p: VerticalPatch) -> bool {
    &&& signer_ids(p.signatures@).no_duplicates()
    &&& p.status is Pending ==> p.signatures@.len() < PATCH_QUORUM
    &&& p.status is Authorised ==> p.signatures@.len() >= PATCH_QUORUM
}

/// Signing keeps the quorum rule: a patch is authorised only once
/// `PATCH_QUORUM` distinct auditors have signed it, and becomes authorised as
/// soon as they have. An accepted signature comes from an auditor who had not
/// signed, and adds exactly one signature.
pub proof fn lemma_signing_keeps_quorum(
    old: VerticalPatch,
    new: VerticalPatch,
    auditor: Hash32,
    signature: Vec<u8>,
    r: bool,
)
    requires
        signing(old, new, auditor, signature, r),
        quorum_respected(old),
    ensures
        quorum_respected(new),
        r ==> !signer_ids(old.signatures@).contains(auditor) && signer_ids(new.signatures@)
            == signer_ids(old.signatures@).push(auditor),
        r ==> old.status is Pending && (new.status is Authorised <==> new.signatures@.len()
            >= PATCH_QUORUM),
        !r ==> new == old,
{
    if r {
        assert(signer_ids(new.signatures@) =~= signer_ids(old.signatures@).push(auditor));
        let ids = signer_ids(new.signatures@);
        assert forall|i: int, j: int| 0 <= i < j < ids.len() implies ids[i] != ids[j] by {
            if j == ids.len() - 1 {
                assert(signer_ids(old.signatures@)[i] == ids[i]);
            } else {
                assert(signer_ids(old.signatures@)[i] == ids[i]);
                assert(signer_ids(old.signatures@)[j] == ids[j]);
            }
        }
    }
}

impl VerticalPatch {
    /// Creates a pending patch with no signatures.
    pub fn new(
        id: Hash32,
        target_height: u64,
        target_block_hash: Hash32,
        corrected_state_root: Hash32,
        kind: PatchKind,
    ) -> (p: VerticalPatch)
        ensures
            p.id == id,
            p.target_height == target_height,
            p.target_block_hash == target_block_hash,
            p.corrected_state_root == corrected_state_root,
            p.kind == kind,
            p.signatures@ == Seq::<(Hash32, Vec<u8>)>::empty(),
            p.status == PatchStatus::Pending,
    {
        VerticalPatch {
            id,
            target_height,
            target_block_hash,
            corrected_state_root,
            kind,
            signatures: Vec::new(),
            status: PatchStatus::Pending,
        }
    }

    /// Adds an auditor's signature to a pending patch, authorising it once
    /// `PATCH_QUORUM` auditors have signed. Returns `false`, changing
    /// nothing, for a patch that is not pending or an auditor who already
    /// signed. Distinct signers stay distinct.
    pub fn add_signature(&mut self, auditor_id: Hash32, signature: Vec<u8>) -> (r: bool)
        ensures
            signing(*old(self), *final(self), auditor_id, signature, r),
            signer_ids(old(self).signatures@).no_duplicates() ==> signer_ids(
                final(self).signatures@,
            ).no_duplicates(),
    {
        match &self.status {
            PatchStatus::Pending => {},
            _ => return false,
        }
        let mut i: usize = 0;
        while i < self.signatures.len()
            invariant
                i <= self.signatures@.len(),
                forall|j: int| 0 <= j < i ==> (#[trigger] self.signatures@[j]).0 != auditor_id,
            decreases self.signatures@.len() - i,
        {
            if hash_eq(&self.signatures[i].0, &auditor_id) {
                proof {
                    assert(self.signatures@[i as int].0 =~= auditor_id);
                    assert(signer_ids(self.signatures@)[i as int] == auditor_id);
                }
                return false;
            }
            i = i + 1;
        }
        proof {
            assert forall|j: int| 0 <= j < self.signatures@.len() implies #[trigger] signer_ids(
                self.signatures@,
            )[j] != auditor_id by {
                assert(self.signatures@[j].0 != auditor_id);
            }
        }
        let ghost before = self.signatures@;
        self.signatures.push((auditor_id, signature));
        proof {
            assert(signer_ids(self.signatures@) =~= signer_ids(before).push(auditor_id));
        }
        if self.signatures.len() >= PATCH_QUORUM {
            self.status = PatchStatus::Authorised;
        }
        true
    }

    /// Returns `true` iff the patch is authorised.
    pub fn is_authorised(&self) -> (r: bool)
        ensures
            r == (self.status is Authorised),
    {
        match &self.status {
            PatchStatus::Authorised => true,
            _ => false,
        }
    }

    /// Marks an authorised patch as applied; fails with `NotAuthorised`,
    /// changing nothing, in any other status.
    pub fn mark_applied(&mut self) -> (r: Result<(), PatchError>)
        ensures
            old(self).status is Authorised ==> r is Ok && with_status(
                *old(self),
                *final(self),
                PatchStatus::Applied,
            ),
            !(old(self).status is Authorised) ==> r == Err::<(), PatchError>(
                PatchError::NotAuthorised,
            ) && *final(self) == *old(self),
    {
        match &self.status {
            PatchStatus::Authorised => {},
            _ => return Err(PatchError::NotAuthorised),
        }
        self.status = PatchStatus::Applied;
        Ok(())
    }

    /// Rejects the patch with a reason.
    pub fn reject(&mut self, reason: String)
        ensures
            with_status(*old(self), *final(self), PatchStatus::Rejected(reason)),
    {
        self.status = PatchStatus::Rejected(reason);
    }

    /// Returns the number of signatures collected so far.
    pub fn signature_count(&self) -> (n: usize)
        ensures
            n == self.signatures@.len(),
    {
        self.signatures.len()
    }
}

/// The reason `patch` is refused by a registry holding patches at the
/// heights of `m` with chain tip `tip`, if any: a future height, a height
/// already patched, or a state-root correction that corrects nothing.
pub open spec fn submit_defect(
    m: Map<u64, VerticalPatch>,
    tip: u64,
    patch: VerticalPatch,
) -> Option<PatchError> {
    if patch.target_height > tip {
        Some(PatchError::FutureHeight)
    } else if m.contains_key(patch.target_height) {
        Some(PatchError::DuplicatePatch)
    } else if patch.kind matches PatchKind::StateRootMismatch { stored_root, correct_root }
        && stored_root == correct_root {
        Some(PatchError::NoCorrection)
    } else {
        None
    }
}

/// The known patches, keyed by target block height.
#[derive(Debug)]
pub struct PatchRegistry {
    patches: HashMap<u64, VerticalPatch>,
    chain_tip: u64,
}

impl PatchRegistry {
    /// The patches by height.
    pub closed spec fn patch_map(&self) -> Map<u64, VerticalPatch> {
        self.patches@
    }

    /// The chain tip height.
    pub closed spec fn tip(&self) -> u64 {
        self.chain_tip
    }

    /// Creates an empty registry anchored at the given chain tip height.
    pub fn new(chain_tip: u64) -> (r: PatchRegistry)
        ensures
            r.patch_map() == Map::<u64, VerticalPatch>::empty(),
            r.tip() == chain_tip,
    {
        PatchRegistry { patches: HashMap::new(), chain_tip }
    }

    /// Submits a patch: refused with `FutureHeight` past the chain tip, with
    /// `DuplicatePatch` at a height already patched, with `NoCorrection` for
    /// a state-root correction equal to the stored root; otherwise stored.
    pub fn submit(&mut self, patch: VerticalPatch) -> (r: Result<(), PatchError>)
        ensures
            final(self).tip() == old(self).tip(),
            match submit_defect(old(self).patch_map(), old(self).tip(), patch) {
                Some(e) => r == Err::<(), PatchError>(e) && final(self).patch_map() == old(
                    self,
                ).patch_map(),
                None => r is Ok && final(self).patch_map() == old(self).patch_map().insert(
                    patch.target_height,
                    patch,
                ),
            },
    {
        if patch.target_height > self.chain_tip {
            return Err(PatchError::FutureHeight);
        }
        if self.patches.contains_key(&patch.target_height) {
            return Err(PatchError::DuplicatePatch);
        }
        if let PatchKind::StateRootMismatch { stored_root, correct_root } = &patch.kind {
            if hash_eq(stored_root, correct_root) {
                assert(*stored_root =~= *correct_root);
                return Err(PatchError::NoCorrection);
            }
        }
        self.patches.insert(patch.target_height, patch);
        Ok(())
    }

    /// Adds an auditor's signature to the patch at `height`, as
    /// `VerticalPatch::add_signature` does; `false` when there is none.
    pub fn sign(&mut self, height: u64, auditor_id: Hash32, signature: Vec<u8>) -> (r: bool)
        ensures
            final(self).tip() == old(self).tip(),
            !old(self).patch_map().contains_key(height) ==> !r && final(self).patch_map()
                == old(self).patch_map(),
            old(self).patch_map().contains_key(height) ==> final(self).patch_map().contains_key(
                height,
            ) && signing(
                old(self).patch_map()[height],
                final(self).patch_map()[height],
                auditor_id,
                signature,
                r,
            ) && final(self).patch_map() == old(self).patch_map().insert(
                height,
                final(self).patch_map()[height],
            ),
    {
        match self.patches.remove(&height) {
            Some(mut patch) => {
                let r = patch.add_signature(auditor_id, signature);
                self.patches.insert(height, patch);
                proof {
                    assert(self.patches@ =~= old(self).patches@.insert(height, patch));
                }
                r
            },
            None => false,
        }
    }

    /// Applies the authorised patch at `height`, marking it applied and
    /// returning its corrected state root. Fails with `NotAuthorised`,
    /// changing nothing, when there is no patch there or it is not
    /// authorised.
    pub fn apply(&mut self, height: u64) -> (r: Result<Hash32, PatchError>)
        ensures
            final(self).tip() == old(self).tip(),
            old(self).patch_map().contains_key(height) && old(self).patch_map()[height].status is Authorised
                ==> r == Ok::<Hash32, PatchError>(
                old(self).patch_map()[height].corrected_state_root,
            ) && final(self).patch_map().contains_key(height) && with_status(
                old(self).patch_map()[height],
                final(self).patch_map()[height],
                PatchStatus::Applied,
            ) && final(self).patch_map() == old(self).patch_map().insert(
                height,
                final(self).patch_map()[height],
            ),
            !(old(self).patch_map().contains_key(height) && old(self).patch_map()[height].status is Authorised)
                ==> r == Err::<Hash32, PatchError>(PatchError::NotAuthorised)
                && final(self).patch_map() == old(self).patch_map(),
    {
        match self.patches.remove(&height) {
            Some(mut patch) => {
                let r = patch.mark_applied();
                let root = patch.corrected_state_root;
                self.patches.insert(height, patch);
                proof {
                    assert(self.patches@ =~= old(self).patches@.insert(height, patch));
                    if r is Err {
                        assert(self.patches@ =~= old(self).patches@);
                    }
                }
                match r {
                    Ok(()) => Ok(root),
                    Err(e) => Err(e),
                }
            },
            None => Err(PatchError::NotAuthorised),
        }
    }

    /// Returns the patch at the given height, if any.
    pub fn get(&self, height: u64) -> (r: Option<&VerticalPatch>)
        ensures
            match r {
                Some(p) => self.patch_map().contains_key(height) && self.patch_map()[height] == *p,
                None => !self.patch_map().contains_key(height),
            },
    {
        self.patches.get(&height)
    }

    /// Moves the chain tip to `new_tip`.
    pub fn advance_tip(&mut self, new_tip: u64)
        ensures
            final(self).tip() == new_tip,
            final(self).patch_map() == old(self).patch_map(),
    {
        self.chain_tip = new_tip;
    }
}

impl Default for PatchRegistry {
    fn default() -> (r: Self)
        ensures
            r.patch_map() == Map::<u64, VerticalPatch>::empty(),
            r.tip() == 0,
    {
        PatchRegistry::new(0)
    }
}

} // verus!
