use mnir_core::{
    IDENTITY_GENERATION_ATTEMPTS, IdentifierCategory, MutationError, accept_identity,
    allocate_identity_with,
};

// A detected collision is retried with the next drawn candidate.
#[test]
fn detected_random_identity_collision_is_retried() {
    let collision = [7_u8; 16];
    let distinct = [8_u8; 16];
    let known = vec![u128::from_be_bytes(collision)];
    let candidates = vec![collision, distinct];

    let (allocated, taken) =
        allocate_identity_with(IdentifierCategory::AllocationNamespace, &known, &candidates);

    assert_eq!(allocated.unwrap(), u128::from_be_bytes(distinct));
    assert_eq!(taken, 2);
}

// Bounded retry exhaustion is a typed construction failure.
#[test]
fn repeated_detected_identity_collision_is_rejected() {
    let collision = [7_u8; 16];
    let known = vec![u128::from_be_bytes(collision)];
    let candidates = vec![collision; IDENTITY_GENERATION_ATTEMPTS + 5];

    let (error, attempts) = allocate_identity_with(IdentifierCategory::Program, &known, &candidates);

    assert_eq!(attempts, IDENTITY_GENERATION_ATTEMPTS);
    assert_eq!(
        error.unwrap_err(),
        MutationError::IdentityCollision(IdentifierCategory::Program)
    );
}

#[test]
fn an_identity_source_that_runs_dry_fails_generation() {
    let collision = [7_u8; 16];
    let known = vec![u128::from_be_bytes(collision)];
    let (error, taken) = allocate_identity_with(IdentifierCategory::Module, &known, &vec![collision]);
    assert_eq!(
        error.unwrap_err(),
        MutationError::IdentityGenerationFailed(IdentifierCategory::Module)
    );
    assert_eq!(taken, 1);
}

#[test]
fn drawn_identity_is_accepted_only_when_unknown() {
    let drawn = [0_u8, 1, 2, 3, 4, 5, 6, 7, 8, 9, 10, 11, 12, 13, 14, 15];
    let value = u128::from_be_bytes(drawn);
    assert_eq!(accept_identity(&vec![], drawn), Some(value));
    assert_eq!(accept_identity(&vec![1, value], drawn), None);
}
