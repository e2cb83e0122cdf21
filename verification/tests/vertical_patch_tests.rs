use lib::vertical_patch::{
    Hash32, PatchError, PatchKind, PatchRegistry, PatchStatus, VerticalPatch, PATCH_QUORUM,
};

fn dummy_hash(byte: u8) -> Hash32 {
    [byte; 32]
}

fn make_patch(height: u64) -> VerticalPatch {
    VerticalPatch::new(
        dummy_hash(0),
        height,
        dummy_hash(1),
        dummy_hash(2),
        PatchKind::StateRootMismatch { stored_root: dummy_hash(1), correct_root: dummy_hash(2) },
    )
}

#[test]
fn test_patch_reaches_quorum() {
    let mut patch = make_patch(10);
    assert_eq!(patch.status, PatchStatus::Pending);
    for i in 0..PATCH_QUORUM as u8 {
        patch.add_signature(dummy_hash(i + 10), vec![i]);
    }
    assert_eq!(patch.status, PatchStatus::Authorised);
}

#[test]
fn test_duplicate_signature_ignored() {
    let mut patch = make_patch(10);
    let auditor = dummy_hash(99);
    assert!(patch.add_signature(auditor, vec![1]));
    assert!(!patch.add_signature(auditor, vec![2]));
    assert_eq!(patch.signature_count(), 1);
}

#[test]
fn test_apply_requires_authorisation() {
    let mut patch = make_patch(10);
    assert_eq!(patch.mark_applied(), Err(PatchError::NotAuthorised));
}

#[test]
fn test_registry_submit_and_apply() {
    let mut registry = PatchRegistry::new(100);
    let patch = make_patch(50);
    registry.submit(patch).unwrap();
    for i in 0..PATCH_QUORUM as u8 {
        registry.sign(50, dummy_hash(i + 20), vec![i]);
    }
    let root = registry.apply(50).unwrap();
    assert_eq!(root, dummy_hash(2));
    assert_eq!(registry.get(50).unwrap().status, PatchStatus::Applied);
}

#[test]
fn test_registry_rejects_future_height() {
    let mut registry = PatchRegistry::new(10);
    let patch = make_patch(99);
    assert_eq!(registry.submit(patch), Err(PatchError::FutureHeight));
}

#[test]
fn test_registry_rejects_duplicate() {
    let mut registry = PatchRegistry::new(100);
    registry.submit(make_patch(50)).unwrap();
    assert_eq!(registry.submit(make_patch(50)), Err(PatchError::DuplicatePatch));
}

#[test]
fn test_no_correction_rejected() {
    let mut registry = PatchRegistry::new(100);
    let patch = VerticalPatch::new(
        dummy_hash(0),
        50,
        dummy_hash(1),
        dummy_hash(5),
        PatchKind::StateRootMismatch { stored_root: dummy_hash(5), correct_root: dummy_hash(5) },
    );
    assert_eq!(registry.submit(patch), Err(PatchError::NoCorrection));
}

// ── Further cases ────────────────────────────────────────────────────────────

#[test]
fn quorum_needs_distinct_auditors() {
    let mut patch = make_patch(7);
    assert!(patch.add_signature(dummy_hash(1), vec![1]));
    assert!(!patch.add_signature(dummy_hash(1), vec![1]));
    assert!(patch.add_signature(dummy_hash(2), vec![1]));
    assert!(!patch.is_authorised());
    assert_eq!(patch.status, PatchStatus::Pending);
    assert!(patch.add_signature(dummy_hash(3), vec![1]));
    assert!(patch.is_authorised());
    assert_eq!(patch.mark_applied(), Ok(()));
    assert_eq!(patch.status, PatchStatus::Applied);
}

#[test]
fn rejected_patch_keeps_reason() {
    let mut patch = make_patch(7);
    patch.reject("auditors disagree".to_string());
    assert_eq!(patch.status, PatchStatus::Rejected("auditors disagree".to_string()));
    assert!(!patch.is_authorised());
}

#[test]
fn registry_apply_and_sign_unknown_height() {
    let mut registry = PatchRegistry::new(100);
    assert!(!registry.sign(42, dummy_hash(1), vec![1]));
    assert_eq!(registry.apply(42), Err(PatchError::NotAuthorised));
    assert!(registry.get(42).is_none());
}

#[test]
fn registry_tip_advances_admit_later_heights() {
    let mut registry = PatchRegistry::new(10);
    assert_eq!(registry.submit(make_patch(20)), Err(PatchError::FutureHeight));
    registry.advance_tip(20);
    assert!(registry.submit(make_patch(20)).is_ok());
    // a patch at exactly the tip height is accepted
    assert!(registry.get(20).is_some());
}

#[test]
fn other_patch_kinds_need_no_root_check() {
    let mut registry = PatchRegistry::new(100);
    let p = VerticalPatch::new(
        dummy_hash(9),
        30,
        dummy_hash(1),
        dummy_hash(1),
        PatchKind::InvalidTransaction { tx_index: 4 },
    );
    assert!(registry.submit(p).is_ok());
}
