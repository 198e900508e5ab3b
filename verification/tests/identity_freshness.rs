use mnir_core::{IntrinsicType, MnirProgram, MutationError, RevisionCounterState, TransactionState};

#[test]
fn added_module_is_found_by_its_fresh_identity() {
    let mut program = MnirProgram::new().unwrap();
    let mut transaction = program.begin_transaction();
    let first = transaction.add_module().unwrap();
    let second = transaction.add_module().unwrap();
    assert_ne!(first, second);
    assert_eq!(transaction.module_count(), 2);
    assert_eq!(transaction.module(second).unwrap().id(), second);
    assert_eq!(transaction.module(second).unwrap().function_count(), 0);
    assert!(transaction.is_module_id_provisional(second));
}

#[test]
fn second_removal_of_a_module_is_refused() {
    let mut program = MnirProgram::new().unwrap();
    let mut transaction = program.begin_transaction();
    let module_id = transaction.add_module().unwrap();
    transaction.remove_module(module_id).unwrap();
    assert!(transaction.module(module_id).is_none());
    assert_eq!(
        transaction.remove_module(module_id),
        Err(MutationError::UnknownModule(module_id))
    );
    assert_eq!(transaction.state(), TransactionState::Failed);
}

#[test]
fn removed_module_identity_is_committed_and_never_issued_again() {
    let mut program = MnirProgram::new().unwrap();
    let mut transaction = program.begin_transaction();
    let module_id = transaction.add_module().unwrap();
    transaction.remove_module(module_id).unwrap();
    transaction.commit().unwrap();
    drop(transaction);
    assert_eq!(program.module_count(), 0);
    assert!(program.is_module_id_committed(module_id));

    let mut transaction = program.begin_transaction();
    let later = transaction.add_module().unwrap();
    assert_ne!(later, module_id);
    assert!(!transaction.is_module_id_provisional(module_id));
}

#[test]
fn added_functions_and_parameters_have_fresh_identities() {
    let mut program = MnirProgram::new().unwrap();
    let mut transaction = program.begin_transaction();
    let module_id = transaction.add_module().unwrap();
    let first = transaction.add_function(module_id, IntrinsicType::Unit).unwrap();
    let second = transaction.add_function(module_id, IntrinsicType::Bool).unwrap();
    assert_ne!(first, second);
    assert_eq!(transaction.function(second).unwrap().id(), second);
    let parameter = transaction.add_parameter(second, IntrinsicType::Int64).unwrap();
    assert_eq!(transaction.parameter(parameter).unwrap().id(), parameter);
    assert_eq!(transaction.function(second).unwrap().parameter_count(), 1);
    assert_eq!(transaction.function(first).unwrap().parameter_count(), 0);
}

#[test]
fn persistence_snapshot_next_revision_follows_the_head() {
    let mut program = MnirProgram::new().unwrap();
    let mut transaction = program.begin_transaction();
    transaction.add_module().unwrap();
    transaction.commit().unwrap();
    drop(transaction);
    let snapshot = program.persistence_snapshot();
    assert_eq!(snapshot.revision_id().persistent_value(), 2);
    assert_eq!(snapshot.revision_counter_state(), RevisionCounterState::Available(3));
}
