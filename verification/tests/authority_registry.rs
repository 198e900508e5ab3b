use mnir_core::{
    AllocationCounterState, AllocationNamespaceId, AuthorityClaimError, AuthorityRegistry,
    IdentifierCategory, PersistenceRestoreError, ProgramId, RevisionId, counter_is_older,
    restore_failure_of,
};

fn program(tag: u8) -> ProgramId {
    ProgramId(u128::from(tag))
}

fn namespace(tag: u8) -> AllocationNamespaceId {
    AllocationNamespaceId(u128::from(tag) << 8)
}

#[test]
fn fresh_claims_reject_known_program_and_namespace_identities() {
    let mut registry = AuthorityRegistry::new();
    let lease = registry
        .claim_fresh(program(1), namespace(1), RevisionId(1), AllocationCounterState::Available(1))
        .unwrap();
    assert_eq!(lease.claim, 1);
    assert_eq!(
        registry.claim_fresh(program(1), namespace(2), RevisionId(1), AllocationCounterState::Available(1)),
        Err(AuthorityClaimError::IdentityCollision(IdentifierCategory::Program))
    );
    assert_eq!(
        registry.claim_fresh(program(2), namespace(1), RevisionId(1), AllocationCounterState::Available(1)),
        Err(AuthorityClaimError::IdentityCollision(IdentifierCategory::AllocationNamespace))
    );
    assert_eq!(registry.known_program_ids(), vec![program(1)]);
    assert_eq!(registry.known_namespaces(), vec![namespace(1)]);
}

#[test]
fn one_active_continuation_and_stale_checkpoints_are_refused() {
    let mut registry = AuthorityRegistry::new();
    let lease = registry
        .claim_restored(program(3), namespace(3), RevisionId(1), AllocationCounterState::Available(1))
        .unwrap();
    assert_eq!(lease.claim, 1);
    assert_eq!(
        registry.claim_restored(program(3), namespace(3), RevisionId(1), AllocationCounterState::Available(1)),
        Err(AuthorityClaimError::AlreadyActive)
    );
    registry.observe(&lease, RevisionId(1), AllocationCounterState::Available(5));
    registry.release(&lease);
    assert_eq!(
        registry.claim_restored(program(3), namespace(3), RevisionId(1), AllocationCounterState::Available(1)),
        Err(AuthorityClaimError::Stale)
    );
    assert_eq!(
        registry.claim_restored(program(3), namespace(4), RevisionId(1), AllocationCounterState::Available(5)),
        Err(AuthorityClaimError::IdentityCollision(IdentifierCategory::AllocationNamespace))
    );
    let current = registry
        .claim_restored(program(3), namespace(3), RevisionId(2), AllocationCounterState::Available(5))
        .unwrap();
    assert_eq!(current.claim, 2);
    registry.release(&lease);
    assert_eq!(
        registry.claim_restored(program(3), namespace(3), RevisionId(2), AllocationCounterState::Available(5)),
        Err(AuthorityClaimError::AlreadyActive)
    );
    registry.release(&current);
    assert!(registry
        .claim_restored(program(3), namespace(3), RevisionId(2), AllocationCounterState::Exhausted)
        .is_ok());
}

#[test]
fn an_unknown_restored_lineage_cannot_take_a_known_namespace() {
    let mut registry = AuthorityRegistry::new();
    registry
        .claim_fresh(program(5), namespace(5), RevisionId(1), AllocationCounterState::Available(1))
        .unwrap();
    assert_eq!(
        registry.claim_restored(program(6), namespace(5), RevisionId(1), AllocationCounterState::Available(1)),
        Err(AuthorityClaimError::IdentityCollision(IdentifierCategory::AllocationNamespace))
    );
    assert_eq!(registry.known_program_ids(), vec![program(5)]);
}

#[test]
fn counter_age_orders_available_before_exhausted() {
    assert!(counter_is_older(AllocationCounterState::Available(1), AllocationCounterState::Available(2)));
    assert!(!counter_is_older(AllocationCounterState::Available(2), AllocationCounterState::Available(2)));
    assert!(counter_is_older(AllocationCounterState::Available(u64::MAX), AllocationCounterState::Exhausted));
    assert!(!counter_is_older(AllocationCounterState::Exhausted, AllocationCounterState::Available(0)));
    assert!(!counter_is_older(AllocationCounterState::Exhausted, AllocationCounterState::Exhausted));
}

#[test]
fn refused_claims_are_reported_as_restore_failures() {
    assert_eq!(
        restore_failure_of(AuthorityClaimError::AlreadyActive),
        PersistenceRestoreError::AuthorityAlreadyActive
    );
    assert_eq!(restore_failure_of(AuthorityClaimError::Stale), PersistenceRestoreError::StaleAuthority);
    assert_eq!(
        restore_failure_of(AuthorityClaimError::IdentityCollision(IdentifierCategory::Program)),
        PersistenceRestoreError::AuthorityIdentityCollision
    );
}
