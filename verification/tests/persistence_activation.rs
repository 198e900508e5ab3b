use mnir_core::{
    AllocationCounterState, AuthorityRegistry, MnirProgram, PersistenceProgram, PersistenceRestoreError,
    RevisionCounterState,
};

fn empty_candidate(program: u8, namespace: u8) -> PersistenceProgram {
    PersistenceProgram::new(
        [program; 16],
        41,
        RevisionCounterState::Available(42),
        [namespace; 16],
        AllocationCounterState::Available(104),
        Vec::new(),
    )
}

// Validation and activation restore exact persisted authority.
#[test]
fn persistence_activation_is_entropy_free_and_identity_exact() {
    let validated = MnirProgram::validate_persistence(empty_candidate(0xe8, 0xe9)).unwrap();
    let program_id = validated.program_id();
    let namespace = validated.allocation_namespace_id();

    let restored = MnirProgram::activate_persistence(&mut AuthorityRegistry::new(), validated).unwrap().0;
    assert_eq!(restored.program_id(), program_id);
    assert_eq!(restored.allocation_namespace_id(), namespace);
    assert_eq!(restored.revision_id().persistent_value(), 41);
    assert_eq!(
        restored.allocation_counter_state(),
        AllocationCounterState::Available(104)
    );
}

// Validation failure claims nothing and leaves later validation unaffected.
#[test]
fn failed_validation_leaves_no_authority_claim() {
    let mut invalid = empty_candidate(0xea, 0xeb);
    invalid.revision_counter_state = RevisionCounterState::Available(99);
    assert_eq!(
        MnirProgram::validate_persistence(invalid).unwrap_err(),
        PersistenceRestoreError::InvalidRevisionAllocator
    );
    let validated = MnirProgram::validate_persistence(empty_candidate(0xea, 0xeb)).unwrap();
    assert!(MnirProgram::activate_persistence(&mut AuthorityRegistry::new(), validated).is_ok());
}

// A live continuation excludes every other activation of its lineage; a
// refused activation claims nothing, and ending the lease frees the lineage.
#[test]
fn live_activation_excludes_a_second_until_released() {
    let mut registry = AuthorityRegistry::new();
    let first = MnirProgram::validate_persistence(empty_candidate(0xec, 0xed)).unwrap();
    let (program, lease) = MnirProgram::activate_persistence(&mut registry, first).unwrap();
    let known = registry.known_program_ids();

    let second = MnirProgram::validate_persistence(empty_candidate(0xec, 0xed)).unwrap();
    assert_eq!(
        MnirProgram::activate_persistence(&mut registry, second).unwrap_err(),
        PersistenceRestoreError::AuthorityAlreadyActive
    );
    assert_eq!(registry.known_program_ids(), known);

    registry.observe(&lease, program.revision_id(), program.allocation_counter_state());
    registry.release(&lease);
    drop(program);
    let third = MnirProgram::validate_persistence(empty_candidate(0xec, 0xed)).unwrap();
    assert!(MnirProgram::activate_persistence(&mut registry, third).is_ok());
}

// A checkpoint older than what its lineage has reached is refused.
#[test]
fn activation_of_a_stale_checkpoint_is_refused() {
    let mut registry = AuthorityRegistry::new();
    let current = MnirProgram::validate_persistence(empty_candidate(0xee, 0xef)).unwrap();
    let (program, lease) = MnirProgram::activate_persistence(&mut registry, current).unwrap();
    registry.release(&lease);
    drop(program);

    let mut older = empty_candidate(0xee, 0xef);
    older.allocation_counter_state = AllocationCounterState::Available(103);
    let older = MnirProgram::validate_persistence(older).unwrap();
    assert_eq!(
        MnirProgram::activate_persistence(&mut registry, older).unwrap_err(),
        PersistenceRestoreError::StaleAuthority
    );
}
