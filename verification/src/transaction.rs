//! Controlled mutation: a transaction stages sequential changes against one
//! head revision and commits them atomically as the next revision.
use vstd::prelude::*;

use crate::body::{
    block_index, dependencies_of, expression_index, fresh_block, fresh_body, Block, BlockView,
    Expression, ExpressionKind, ExpressionView, FunctionBody, KindView, Terminator,
};
use crate::edit::{
    block_with_expression, push_block, push_domain_type, push_expression, push_function,
    push_module, push_parameter, remove_block_at, remove_domain_type_at, remove_function_at,
    remove_module_at, remove_parameter_at, set_domain_type_presentation,
    set_domain_type_representation, set_effect_sequence, set_function_body,
    set_function_presentation, set_function_return_type, set_module_presentation,
    set_parameter_presentation, set_parameter_type, set_terminator, with_block, with_blocks,
    with_domain_type, with_function, with_parameter,
};
use crate::error::{ExpressionTypeError, MutationError, StructuralError, TransactionState};
use crate::ids::{
    AllocationCounterState, AllocationNamespaceId, BlockId, ExpressionId, FunctionId,
    IdentifierCategory, ModuleId, ParameterId, RevisionId, TypeId,
};
use crate::intrinsic::{IntoValueType, IntrinsicType, ValueType};
use crate::inventory::{block_key, expression_key, function_key, module_key, parameter_key};
use crate::locate::{
    block_location, domain_type_location, expression_location, find_block, find_domain_type,
    find_expression, find_function, find_parameter, function_blocks, function_location,
    locate_block, locate_domain_type, locate_expression, locate_function, locate_parameter,
    lookup_block, lookup_domain_type, lookup_expression, lookup_function, lookup_module,
    lookup_parameter, parameter_location,
};
use crate::model::{
    find_module_in, find_parameter_in, fresh_domain_type, fresh_function, fresh_module,
    fresh_parameter, module_index, module_views, position_of_module, DomainType, Function,
    FunctionView, Module, ModuleView, Parameter,
};
use crate::presentation::{copy_text, PresentationMetadata};
use crate::program::{
    advanced, history_issued, holds_key, keys_issued, lemma_next_key_fresh, lemma_history_issued_advanced, lemma_merged_issued,
    lemma_keys_issued_advanced, lemma_module_ids_kept, functions_issued, lemma_function_ids_kept, parameters_issued, lemma_parameter_ids_kept, merge_keys, merged, History, HistoryView, MnirProgram, ProgramSnapshot,
    ProgramView, RevisionView, SnapshotView,
};
use crate::typing::{derive_expression_type, expression_type};
use crate::validation::{contains_block, contains_expression, program_violation, structurally_valid, validate_modules};

verus! {

/// The observable state of a transaction: the lineage it will commit to,
/// the revision it started from, the candidate Modules, the identities it
/// issued, and its lifecycle state.
pub struct TransactionView {
    pub program: ProgramView,
    pub source_revision: RevisionId,
    pub candidate: Seq<ModuleView>,
    pub provisional: HistoryView,
    pub state: TransactionState,
}

/// A controlled set of sequential changes against one Program head revision.
#[derive(Debug)]
pub struct MutationTransaction<'a> {
    program: &'a mut MnirProgram,
    source_revision_id: RevisionId,
    candidate: Vec<Module>,
    provisional: History,
    state: TransactionState,
}

impl<'a> MutationTransaction<'a> {
    /// The borrow of the lineage that this transaction changes.
    pub closed spec fn program_ref(&self) -> &'a mut MnirProgram {
        self.program
    }

    /// Every identity that the transaction issued is one the lineage's
    /// counter has passed.
    #[verifier::type_invariant]
    spec fn provisional_issued(self) -> bool {
        &&& history_issued(self.provisional@, (*self.program)@.namespace_id, (*self.program)@.counter)
        &&& keys_issued(
            crate::inventory::module_keys(module_views(self.candidate@)),
            (*self.program)@.namespace_id,
            (*self.program)@.counter,
        )
        &&& functions_issued(module_views(self.candidate@), (*self.program)@.namespace_id, (*self.program)@.counter)
        &&& parameters_issued(module_views(self.candidate@), (*self.program)@.namespace_id, (*self.program)@.counter)
        &&& crate::inventory::module_keys(module_views(self.candidate@)).no_duplicates()
    }

    /// The observable state of this transaction.
    pub closed spec fn observe(&self) -> TransactionView {
        TransactionView {
            program: (*self.program)@,
            source_revision: self.source_revision_id,
            candidate: module_views(self.candidate@),
            provisional: self.provisional@,
            state: self.state,
        }
    }
}

impl<'a> View for MutationTransaction<'a> {
    type V = TransactionView;

    open spec fn view(&self) -> TransactionView {
        self.observe()
    }
}

/// The transaction after a rejected operation: poisoned, otherwise as it was.
pub open spec fn failed(t: TransactionView) -> TransactionView {
    TransactionView { state: TransactionState::Failed, ..t }
}

/// An operation's outcome where it was rejected with `error`.
pub open spec fn rejected<T>(t: TransactionView, error: MutationError) -> (TransactionView, Result<T, MutationError>) {
    (failed(t), Err(error))
}

/// An operation's outcome where it replaced the candidate.
pub open spec fn edited<T>(t: TransactionView, candidate: Seq<ModuleView>, value: T) -> (TransactionView, Result<T, MutationError>) {
    (TransactionView { candidate, ..t }, Ok(value))
}

/// An operation's outcome: `outcome` while the transaction is active, and
/// otherwise a refusal that changes nothing.
pub open spec fn when_active<T>(
    t: TransactionView,
    outcome: (TransactionView, Result<T, MutationError>),
) -> (TransactionView, Result<T, MutationError>) {
    if t.state == TransactionState::Active {
        outcome
    } else {
        (t, Err(MutationError::TransactionNotActive(t.state)))
    }
}

/// The transaction after the lineage issued entity counter `c`.
pub open spec fn issued(t: TransactionView, c: u64) -> TransactionView {
    TransactionView { program: ProgramView { counter: advanced(c), ..t.program }, ..t }
}

/// The provisional identities with a Module identity added.
pub open spec fn with_provisional_module(h: HistoryView, id: ModuleId) -> HistoryView {
    HistoryView { modules: h.modules.push(module_key(id)), ..h }
}

/// The provisional identities with a Function identity added.
pub open spec fn with_provisional_function(h: HistoryView, id: FunctionId) -> HistoryView {
    HistoryView { functions: h.functions.push(function_key(id)), ..h }
}

/// The provisional identities with a Parameter identity added.
pub open spec fn with_provisional_parameter(h: HistoryView, id: ParameterId) -> HistoryView {
    HistoryView { parameters: h.parameters.push(parameter_key(id)), ..h }
}

/// The provisional identities with a Block identity added.
pub open spec fn with_provisional_block(h: HistoryView, id: BlockId) -> HistoryView {
    HistoryView { blocks: h.blocks.push(block_key(id)), ..h }
}

/// The provisional identities with an Expression identity added.
pub open spec fn with_provisional_expression(h: HistoryView, id: ExpressionId) -> HistoryView {
    HistoryView { expressions: h.expressions.push(expression_key(id)), ..h }
}

/// The presentation with its preferred name replaced.
pub open spec fn renamed(p: PresentationMetadata, name: Option<String>) -> PresentationMetadata {
    PresentationMetadata { preferred_name: name, ..p }
}

/// The presentation with its documentation replaced.
pub open spec fn documented(p: PresentationMetadata, documentation: Option<String>) -> PresentationMetadata {
    PresentationMetadata { documentation, ..p }
}

/// The failure of an operation that refers to Expression `x` from a Block:
/// none where the Block owns `x`.
pub open spec fn ownership_error(modules: Seq<ModuleView>, block: BlockView, x: ExpressionId) -> Option<
    MutationError,
> {
    if contains_expression(block, x) {
        None
    } else if find_expression(modules, x) is Some {
        Some(MutationError::ExpressionNotOwnedByBlock { expression_id: x, block_id: block.id })
    } else {
        Some(MutationError::UnknownExpression(x))
    }
}

/// The first failure among references `xs` from position `q` on.
pub open spec fn first_ownership_error(
    modules: Seq<ModuleView>,
    block: BlockView,
    xs: Seq<ExpressionId>,
    q: int,
) -> Option<MutationError>
    decreases xs.len() - q,
{
    if 0 <= q < xs.len() {
        match ownership_error(modules, block, xs[q]) {
            Some(e) => Some(e),
            None => first_ownership_error(modules, block, xs, q + 1),
        }
    } else {
        None
    }
}

/// The failure of a new Expression's references to Parameters, Functions,
/// and Domain Types, from a Block of `function`.
pub open spec fn reference_error(modules: Seq<ModuleView>, function: FunctionView, kind: KindView) -> Option<
    MutationError,
> {
    match kind {
        KindView::ParameterReference(p) => if find_parameter_in(function.parameters, p) is Some {
            None
        } else if find_parameter(modules, p) is Some {
            Some(MutationError::ParameterNotOwnedByFunction { parameter_id: p, function_id: function.id })
        } else {
            Some(MutationError::UnknownParameter(p))
        },
        KindView::Call { target, .. } => if find_function(modules, target) is Some {
            None
        } else {
            Some(MutationError::UnknownFunction(target))
        },
        KindView::DomainConstruct { type_id, .. } => if find_domain_type(modules, type_id) is Some {
            None
        } else {
            Some(MutationError::UnknownType(type_id))
        },
        _ => None,
    }
}

/// The outcome of adding an Expression of `kind` to Block `block_id`.
pub open spec fn add_expression_outcome(t: TransactionView, block_id: BlockId, kind: KindView) -> (
    TransactionView,
    Result<ExpressionId, MutationError>,
) {
    match block_location(t.candidate, block_id) {
        None => rejected(t, MutationError::UnknownBlock(block_id)),
        Some((i, j, k)) => {
            let function = t.candidate[i].functions[j];
            let block = function_blocks(function)[k];
            match reference_error(t.candidate, function, kind) {
                Some(e) => rejected(t, e),
                None => match first_ownership_error(t.candidate, block, dependencies_of(kind), 0) {
                    Some(e) => rejected(t, e),
                    None => match t.program.counter {
                        AllocationCounterState::Available(c) => {
                            let id = ExpressionId { namespace_id: t.program.namespace_id, counter: c };
                            (
                                TransactionView {
                                    candidate: with_block(
                                        t.candidate,
                                        i,
                                        j,
                                        k,
                                        block_with_expression(block, ExpressionView { id, kind }),
                                    ),
                                    provisional: with_provisional_expression(t.provisional, id),
                                    ..issued(t, c)
                                },
                                Ok(id),
                            )
                        },
                        AllocationCounterState::Exhausted => rejected(
                            t,
                            MutationError::IdentifierExhausted(IdentifierCategory::Expression),
                        ),
                    },
                },
            }
        },
    }
}


/// The outcome of adding a Module.
pub open spec fn add_module_outcome(t: TransactionView) -> (TransactionView, Result<ModuleId, MutationError>) {
    match t.program.counter {
        AllocationCounterState::Available(c) => {
            let id = ModuleId { namespace_id: t.program.namespace_id, counter: c };
            (
                TransactionView {
                    candidate: t.candidate.push(fresh_module(id)),
                    provisional: with_provisional_module(t.provisional, id),
                    ..issued(t, c)
                },
                Ok(id),
            )
        },
        AllocationCounterState::Exhausted => rejected(t, MutationError::IdentifierExhausted(IdentifierCategory::Module)),
    }
}

/// The outcome of removing Module `id`.
pub open spec fn remove_module_outcome(t: TransactionView, id: ModuleId) -> (TransactionView, Result<(), MutationError>) {
    let i = module_index(t.candidate, id);
    if i >= 0 {
        edited(t, t.candidate.remove(i), ())
    } else {
        rejected(t, MutationError::UnknownModule(id))
    }
}

/// The outcome of replacing the presentation of Module `id` by `presentation(old)`.
pub open spec fn module_presentation_outcome(
    t: TransactionView,
    id: ModuleId,
    presentation: spec_fn(PresentationMetadata) -> PresentationMetadata,
) -> (TransactionView, Result<(), MutationError>) {
    let i = module_index(t.candidate, id);
    if i >= 0 {
        edited(
            t,
            t.candidate.update(i, ModuleView { presentation: presentation(t.candidate[i].presentation), ..t.candidate[i] }),
            (),
        )
    } else {
        rejected(t, MutationError::UnknownModule(id))
    }
}

/// The outcome of adding a Domain Type to Module `module_id`.
pub open spec fn add_domain_type_outcome(t: TransactionView, module_id: ModuleId, representation: IntrinsicType) -> (
    TransactionView,
    Result<TypeId, MutationError>,
) {
    let i = module_index(t.candidate, module_id);
    if i < 0 {
        rejected(t, MutationError::UnknownModule(module_id))
    } else {
        match t.program.counter {
            AllocationCounterState::Available(c) => {
                let id = TypeId { namespace_id: t.program.namespace_id, counter: c };
                let m = t.candidate[i];
                (
                    TransactionView {
                        candidate: t.candidate.update(
                            i,
                            ModuleView { domain_types: m.domain_types.push(fresh_domain_type(id, representation)), ..m },
                        ),
                        ..issued(t, c)
                    },
                    Ok(id),
                )
            },
            AllocationCounterState::Exhausted => rejected(t, MutationError::IdentifierExhausted(IdentifierCategory::Type)),
        }
    }
}

/// The outcome of removing Domain Type `id`.
pub open spec fn remove_domain_type_outcome(t: TransactionView, id: TypeId) -> (TransactionView, Result<(), MutationError>) {
    match domain_type_location(t.candidate, id) {
        Some((i, k)) => {
            let m = t.candidate[i];
            edited(t, t.candidate.update(i, ModuleView { domain_types: m.domain_types.remove(k), ..m }), ())
        },
        None => rejected(t, MutationError::UnknownType(id)),
    }
}

/// The outcome of replacing Domain Type `id` by `change(old)`.
pub open spec fn domain_type_outcome(
    t: TransactionView,
    id: TypeId,
    change: spec_fn(DomainType) -> DomainType,
) -> (TransactionView, Result<(), MutationError>) {
    match domain_type_location(t.candidate, id) {
        Some((i, k)) => edited(t, with_domain_type(t.candidate, i, k, change(t.candidate[i].domain_types[k])), ()),
        None => rejected(t, MutationError::UnknownType(id)),
    }
}

/// The outcome of adding a Function to Module `module_id`.
pub open spec fn add_function_outcome(t: TransactionView, module_id: ModuleId, return_type: ValueType) -> (
    TransactionView,
    Result<FunctionId, MutationError>,
) {
    let i = module_index(t.candidate, module_id);
    if i < 0 {
        rejected(t, MutationError::UnknownModule(module_id))
    } else {
        match t.program.counter {
            AllocationCounterState::Available(c) => {
                let id = FunctionId { namespace_id: t.program.namespace_id, counter: c };
                let m = t.candidate[i];
                (
                    TransactionView {
                        candidate: t.candidate.update(
                            i,
                            ModuleView { functions: m.functions.push(fresh_function(id, return_type)), ..m },
                        ),
                        provisional: with_provisional_function(t.provisional, id),
                        ..issued(t, c)
                    },
                    Ok(id),
                )
            },
            AllocationCounterState::Exhausted => rejected(t, MutationError::IdentifierExhausted(IdentifierCategory::Function)),
        }
    }
}

/// The outcome of removing Function `id`.
pub open spec fn remove_function_outcome(t: TransactionView, id: FunctionId) -> (TransactionView, Result<(), MutationError>) {
    match function_location(t.candidate, id) {
        Some((i, j)) => {
            let m = t.candidate[i];
            edited(t, t.candidate.update(i, ModuleView { functions: m.functions.remove(j), ..m }), ())
        },
        None => rejected(t, MutationError::UnknownFunction(id)),
    }
}

/// The outcome of replacing Function `id` by `change(old)`.
pub open spec fn function_outcome(
    t: TransactionView,
    id: FunctionId,
    change: spec_fn(FunctionView) -> FunctionView,
) -> (TransactionView, Result<(), MutationError>) {
    match function_location(t.candidate, id) {
        Some((i, j)) => edited(t, with_function(t.candidate, i, j, change(t.candidate[i].functions[j])), ()),
        None => rejected(t, MutationError::UnknownFunction(id)),
    }
}

/// The outcome of adding a Parameter to Function `function_id`.
pub open spec fn add_parameter_outcome(t: TransactionView, function_id: FunctionId, value_type: ValueType) -> (
    TransactionView,
    Result<ParameterId, MutationError>,
) {
    match function_location(t.candidate, function_id) {
        None => rejected(t, MutationError::UnknownFunction(function_id)),
        Some((i, j)) => match t.program.counter {
            AllocationCounterState::Available(c) => {
                let id = ParameterId { namespace_id: t.program.namespace_id, counter: c };
                let f = t.candidate[i].functions[j];
                (
                    TransactionView {
                        candidate: with_function(
                            t.candidate,
                            i,
                            j,
                            FunctionView { parameters: f.parameters.push(fresh_parameter(id, value_type)), ..f },
                        ),
                        provisional: with_provisional_parameter(t.provisional, id),
                        ..issued(t, c)
                    },
                    Ok(id),
                )
            },
            AllocationCounterState::Exhausted => rejected(t, MutationError::IdentifierExhausted(IdentifierCategory::Parameter)),
        },
    }
}

/// The outcome of removing Parameter `id`.
pub open spec fn remove_parameter_outcome(t: TransactionView, id: ParameterId) -> (TransactionView, Result<(), MutationError>) {
    match parameter_location(t.candidate, id) {
        Some((i, j, p)) => {
            let f = t.candidate[i].functions[j];
            edited(t, with_function(t.candidate, i, j, FunctionView { parameters: f.parameters.remove(p), ..f }), ())
        },
        None => rejected(t, MutationError::UnknownParameter(id)),
    }
}

/// The outcome of replacing Parameter `id` by `change(old)`.
pub open spec fn parameter_outcome(
    t: TransactionView,
    id: ParameterId,
    change: spec_fn(Parameter) -> Parameter,
) -> (TransactionView, Result<(), MutationError>) {
    match parameter_location(t.candidate, id) {
        Some((i, j, p)) => edited(
            t,
            with_parameter(t.candidate, i, j, p, change(t.candidate[i].functions[j].parameters[p])),
            (),
        ),
        None => rejected(t, MutationError::UnknownParameter(id)),
    }
}

/// The outcome of creating the body of Function `function_id`.
pub open spec fn create_body_outcome(t: TransactionView, function_id: FunctionId) -> (
    TransactionView,
    Result<BlockId, MutationError>,
) {
    match function_location(t.candidate, function_id) {
        None => rejected(t, MutationError::UnknownFunction(function_id)),
        Some((i, j)) => {
            let f = t.candidate[i].functions[j];
            if f.body is Some {
                rejected(t, MutationError::FunctionBodyAlreadyExists(function_id))
            } else {
                match t.program.counter {
                    AllocationCounterState::Available(c) => {
                        let id = BlockId { namespace_id: t.program.namespace_id, counter: c };
                        (
                            TransactionView {
                                candidate: with_function(t.candidate, i, j, FunctionView { body: Some(fresh_body(id)), ..f }),
                                provisional: with_provisional_block(t.provisional, id),
                                ..issued(t, c)
                            },
                            Ok(id),
                        )
                    },
                    AllocationCounterState::Exhausted => rejected(t, MutationError::IdentifierExhausted(IdentifierCategory::Block)),
                }
            }
        },
    }
}

/// The outcome of removing the body of Function `function_id`.
pub open spec fn remove_body_outcome(t: TransactionView, function_id: FunctionId) -> (TransactionView, Result<(), MutationError>) {
    match function_location(t.candidate, function_id) {
        None => rejected(t, MutationError::UnknownFunction(function_id)),
        Some((i, j)) => {
            let f = t.candidate[i].functions[j];
            if f.body is None {
                rejected(t, MutationError::FunctionBodyAbsent(function_id))
            } else {
                edited(t, with_function(t.candidate, i, j, FunctionView { body: None, ..f }), ())
            }
        },
    }
}

/// The outcome of adding a Block to the body of Function `function_id`.
pub open spec fn add_block_outcome(t: TransactionView, function_id: FunctionId) -> (
    TransactionView,
    Result<BlockId, MutationError>,
) {
    match function_location(t.candidate, function_id) {
        None => rejected(t, MutationError::UnknownFunction(function_id)),
        Some((i, j)) => {
            let f = t.candidate[i].functions[j];
            if f.body is None {
                rejected(t, MutationError::FunctionBodyAbsent(function_id))
            } else {
                match t.program.counter {
                    AllocationCounterState::Available(c) => {
                        let id = BlockId { namespace_id: t.program.namespace_id, counter: c };
                        (
                            TransactionView {
                                candidate: with_function(t.candidate, i, j, with_blocks(f, f.body->0.blocks.push(fresh_block(id)))),
                                provisional: with_provisional_block(t.provisional, id),
                                ..issued(t, c)
                            },
                            Ok(id),
                        )
                    },
                    AllocationCounterState::Exhausted => rejected(t, MutationError::IdentifierExhausted(IdentifierCategory::Block)),
                }
            }
        },
    }
}

/// The outcome of removing Block `id`.
pub open spec fn remove_block_outcome(t: TransactionView, id: BlockId) -> (TransactionView, Result<(), MutationError>) {
    match block_location(t.candidate, id) {
        None => rejected(t, MutationError::UnknownBlock(id)),
        Some((i, j, k)) => {
            let f = t.candidate[i].functions[j];
            if f.body->0.entry_block_id == id {
                rejected(t, MutationError::EntryBlockCannotBeRemoved(id))
            } else {
                edited(t, with_function(t.candidate, i, j, with_blocks(f, f.body->0.blocks.remove(k))), ())
            }
        },
    }
}

/// The failure of a Branch target `target` from a Block of `function`:
/// none where the body of `function` owns it.
pub open spec fn target_error(modules: Seq<ModuleView>, function: FunctionView, target: BlockId) -> Option<MutationError> {
    if function.body is Some && contains_block(function.body->0, target) {
        None
    } else if find_block(modules, target) is Some {
        Some(MutationError::BlockNotOwnedByFunctionBody { block_id: target, function_id: function.id })
    } else {
        Some(MutationError::UnknownBlock(target))
    }
}

/// The outcome of installing terminator `terminator` in Block `block_id`,
/// whose references are checked by `check(function, block)`.
pub open spec fn terminator_outcome(
    t: TransactionView,
    block_id: BlockId,
    terminator: Terminator,
) -> (TransactionView, Result<(), MutationError>) {
    match block_location(t.candidate, block_id) {
        None => rejected(t, MutationError::UnknownBlock(block_id)),
        Some((i, j, k)) => {
            let function = t.candidate[i].functions[j];
            let block = function_blocks(function)[k];
            let error = match terminator {
                Terminator::Return { expression } => ownership_error(t.candidate, block, expression),
                Terminator::Branch { condition, true_block, false_block } => match ownership_error(
                    t.candidate,
                    block,
                    condition,
                ) {
                    Some(e) => Some(e),
                    None => match target_error(t.candidate, function, true_block) {
                        Some(e) => Some(e),
                        None => target_error(t.candidate, function, false_block),
                    },
                },
            };
            match error {
                Some(e) => rejected(t, e),
                None => edited(
                    t,
                    with_block(t.candidate, i, j, k, BlockView { terminator: Some(terminator), ..block }),
                    (),
                ),
            }
        },
    }
}

/// The failure of effect sequence entry `q`, given the entries before it.
pub open spec fn effect_entry_error(
    modules: Seq<ModuleView>,
    block: BlockView,
    entries: Seq<ExpressionId>,
    q: int,
) -> Option<MutationError> {
    match ownership_error(modules, block, entries[q]) {
        Some(e) => Some(e),
        None => if !crate::validation::is_call_expression(block, entries[q]) {
            Some(MutationError::EffectSequenceEntryNotCall(entries[q]))
        } else if entries.take(q).contains(entries[q]) {
            Some(MutationError::DuplicateEffectSequenceEntry(entries[q]))
        } else {
            None
        },
    }
}

/// The first failure among effect sequence entries from position `q` on.
pub open spec fn first_effect_error(
    modules: Seq<ModuleView>,
    block: BlockView,
    entries: Seq<ExpressionId>,
    q: int,
) -> Option<MutationError>
    decreases entries.len() - q,
{
    if 0 <= q < entries.len() {
        match effect_entry_error(modules, block, entries, q) {
            Some(e) => Some(e),
            None => first_effect_error(modules, block, entries, q + 1),
        }
    } else {
        None
    }
}

/// The outcome of replacing the effect sequence of Block `block_id`.
pub open spec fn effect_sequence_outcome(t: TransactionView, block_id: BlockId, entries: Seq<ExpressionId>) -> (
    TransactionView,
    Result<(), MutationError>,
) {
    match block_location(t.candidate, block_id) {
        None => rejected(t, MutationError::UnknownBlock(block_id)),
        Some((i, j, k)) => {
            let block = function_blocks(t.candidate[i].functions[j])[k];
            match first_effect_error(t.candidate, block, entries, 0) {
                Some(e) => rejected(t, e),
                None => edited(t, with_block(t.candidate, i, j, k, BlockView { effect_sequence: entries, ..block }), ()),
            }
        },
    }
}

/// A Module identity whose key none of `modules` holds is found nowhere in
/// them, and, once a fresh Module with it is appended, found there.
proof fn lemma_fresh_module_found(modules: Seq<ModuleView>, id: ModuleId)
    requires
        !crate::inventory::module_keys(modules).contains(module_key(id)),
    ensures
        module_index(modules, id) == -1,
        find_module_in(modules.push(fresh_module(id)), id) == Some(fresh_module(id)),
{
    let p = crate::model::module_has_id(id);
    crate::lookup::lemma_first_index_facts(modules, p);
    if module_index(modules, id) != -1 {
        let q = module_index(modules, id);
        assert(crate::inventory::module_keys(modules)[q] == module_key(id));
    }
    let now = modules.push(fresh_module(id));
    assert forall|j: int| 0 <= j < modules.len() implies !p(#[trigger] now[j]) by {
        assert(now[j] == modules[j]);
    }
    crate::lookup::lemma_first_index_is(now, p, modules.len() as int);
}

impl MnirProgram {
    /// Begins a transaction against this lineage's head revision.
    pub fn begin_transaction(&mut self) -> (r: MutationTransaction<'_>)
        ensures
            r@ == (TransactionView {
                program: old(self)@,
                source_revision: old(self)@.revision.revision_id,
                candidate: old(self)@.revision.modules,
                provisional: History::empty_view(),
                state: TransactionState::Active,
            }),
            *final(self) == *final(r.program_ref()),
            history_issued(old(self)@.revision.history, old(self)@.namespace_id, old(self)@.counter),
    {
        proof {
            use_type_invariant(&*self);
            (*self).lemma_head_issued();
        }
        let candidate = self.copy_head_modules();
        let source_revision_id = self.revision_id();
        MutationTransaction {
            program: self,
            source_revision_id,
            candidate,
            provisional: History::empty(),
            state: TransactionState::Active,
        }
    }
}

impl<'a> MutationTransaction<'a> {
    fn require_active(&self) -> (r: Result<(), MutationError>)
        ensures
            r == (if self@.state == TransactionState::Active {
                Ok::<(), MutationError>(())
            } else {
                Err::<(), MutationError>(MutationError::TransactionNotActive(self@.state))
            }),
    {
        if self.state == TransactionState::Active {
            Ok(())
        } else {
            Err(MutationError::TransactionNotActive(self.state))
        }
    }

    fn fail(&mut self, error: MutationError) -> (r: MutationError)
        ensures
            *final(final(self).program_ref()) == *final(old(self).program_ref()),
            r == error,
            final(self)@ == failed(old(self)@),
            final(self).candidate == old(self).candidate,
    {
        proof {
            use_type_invariant(&*self);
        }
        self.state = TransactionState::Failed;
        error
    }

    /// Issues the lineage's next entity counter for `category`, or fails.
    fn issue(&mut self, category: IdentifierCategory) -> (r: Result<(AllocationNamespaceId, u64), MutationError>)
        ensures
            *final(final(self).program_ref()) == *final(old(self).program_ref()),
            final(self).candidate == old(self).candidate,
            match old(self)@.program.counter {
                AllocationCounterState::Available(c) => r == Ok::<(AllocationNamespaceId, u64), MutationError>(
                    (old(self)@.program.namespace_id, c),
                ) && final(self)@ == issued(old(self)@, c),
                AllocationCounterState::Exhausted => r == Err::<(AllocationNamespaceId, u64), MutationError>(
                    MutationError::IdentifierExhausted(category),
                ) && final(self)@ == failed(old(self)@),
            },
    {
        proof {
            use_type_invariant(&*self);
            if let AllocationCounterState::Available(c) = self@.program.counter {
                lemma_history_issued_advanced(self.provisional@, self@.program.namespace_id, c);
                lemma_keys_issued_advanced(
                    crate::inventory::module_keys(module_views(self.candidate@)),
                    self@.program.namespace_id,
                    c,
                );
                let cv = module_views(self.candidate@);
                assert forall|i: int, j: int| 0 <= i < cv.len() && 0 <= j < cv[i].functions.len() implies keys_issued(
                    crate::inventory::function_parameter_keys(#[trigger] cv[i].functions[j]),
                    self@.program.namespace_id,
                    advanced(c),
                ) by {
                    lemma_keys_issued_advanced(crate::inventory::function_parameter_keys(cv[i].functions[j]), self@.program.namespace_id, c);
                }
                assert forall|i: int| 0 <= i < cv.len() implies keys_issued(
                    crate::inventory::function_key_list(#[trigger] cv[i].functions),
                    self@.program.namespace_id,
                    advanced(c),
                ) by {
                    lemma_keys_issued_advanced(crate::inventory::function_key_list(cv[i].functions), self@.program.namespace_id, c);
                }
            }
        }
        match self.program.reserve(category) {
            Ok(issued) => Ok(issued),
            Err(e) => Err(self.fail(e)),
        }
    }

    /// Returns the transaction's lifecycle state.
    pub fn state(&self) -> (r: TransactionState)
        ensures
            r == self@.state,
    {
        self.state
    }

    /// Returns the revision this transaction started from.
    pub fn source_revision_id(&self) -> (r: RevisionId)
        ensures
            r == self@.source_revision,
    {
        self.source_revision_id
    }

    /// Returns the lineage's allocation namespace.
    pub fn allocation_namespace_id(&self) -> (r: AllocationNamespaceId)
        ensures
            r == self@.program.namespace_id,
    {
        self.program.allocation_namespace_id()
    }

    /// Returns the state of the lineage's entity counter.
    pub fn allocation_counter_state(&self) -> (r: AllocationCounterState)
        ensures
            r == self@.program.counter,
    {
        self.program.allocation_counter_state()
    }

    /// Returns the number of candidate Modules.
    pub fn module_count(&self) -> (r: usize)
        ensures
            r == self@.candidate.len(),
    {
        self.candidate.len()
    }

    /// Looks up a candidate Module.
    pub fn module(&self, id: ModuleId) -> (r: Option<&Module>)
        ensures
            match r {
                Some(m) => find_module_in(self@.candidate, id) == Some(m@),
                None => find_module_in(self@.candidate, id) is None,
            },
    {
        lookup_module(&self.candidate, id)
    }

    /// Looks up a candidate Function.
    pub fn function(&self, id: FunctionId) -> (r: Option<&Function>)
        ensures
            match r {
                Some(f) => find_function(self@.candidate, id) == Some(f@),
                None => find_function(self@.candidate, id) is None,
            },
    {
        lookup_function(&self.candidate, id)
    }

    /// Looks up a candidate Domain Type.
    pub fn domain_type(&self, id: TypeId) -> (r: Option<&DomainType>)
        ensures
            match r {
                Some(t) => find_domain_type(self@.candidate, id) == Some(*t),
                None => find_domain_type(self@.candidate, id) is None,
            },
    {
        lookup_domain_type(&self.candidate, id)
    }

    /// Looks up a candidate Parameter.
    pub fn parameter(&self, id: ParameterId) -> (r: Option<&Parameter>)
        ensures
            match r {
                Some(p) => find_parameter(self@.candidate, id) == Some(*p),
                None => find_parameter(self@.candidate, id) is None,
            },
    {
        lookup_parameter(&self.candidate, id)
    }

    /// Looks up a candidate Block.
    pub fn block(&self, id: BlockId) -> (r: Option<&Block>)
        ensures
            match r {
                Some(b) => find_block(self@.candidate, id) == Some(b@),
                None => find_block(self@.candidate, id) is None,
            },
    {
        lookup_block(&self.candidate, id)
    }

    /// Looks up a candidate Expression.
    pub fn expression(&self, id: ExpressionId) -> (r: Option<&Expression>)
        ensures
            match r {
                Some(e) => find_expression(self@.candidate, id) == Some(e@),
                None => find_expression(self@.candidate, id) is None,
            },
    {
        lookup_expression(&self.candidate, id)
    }

    /// Derives the value type of a candidate Expression. This never poisons
    /// the transaction.
    pub fn expression_type(&self, id: ExpressionId) -> (r: Option<Result<ValueType, ExpressionTypeError>>)
        ensures
            r == expression_type(self@.candidate, id),
    {
        derive_expression_type(&self.candidate, id)
    }

    /// Whether the candidate is semantically equal to the source revision's
    /// Modules.
    pub fn is_semantic_no_op(&self) -> (r: bool)
        ensures
            r == crate::semantic::same_modules(self@.candidate, self@.program.revision.modules),
    {
        crate::semantic::same_modules_of(&self.candidate, self.program.head_modules())
    }

    /// Whether this active transaction issued Module identity `id`.
    pub fn is_module_id_provisional(&self, id: ModuleId) -> (r: bool)
        ensures
            r == (self@.state == TransactionState::Active && self@.provisional.modules.contains(module_key(id))),
    {
        self.state == TransactionState::Active && holds_key(&self.provisional.modules, (id.namespace_id.0, id.counter))
    }

    /// Whether this active transaction issued Function identity `id`.
    pub fn is_function_id_provisional(&self, id: FunctionId) -> (r: bool)
        ensures
            r == (self@.state == TransactionState::Active && self@.provisional.functions.contains(function_key(id))),
    {
        self.state == TransactionState::Active && holds_key(&self.provisional.functions, (id.namespace_id.0, id.counter))
    }

    /// Whether this active transaction issued Parameter identity `id`.
    pub fn is_parameter_id_provisional(&self, id: ParameterId) -> (r: bool)
        ensures
            r == (self@.state == TransactionState::Active && self@.provisional.parameters.contains(parameter_key(id))),
    {
        self.state == TransactionState::Active && holds_key(&self.provisional.parameters, (id.namespace_id.0, id.counter))
    }

    /// Whether this active transaction issued Block identity `id`.
    pub fn is_block_id_provisional(&self, id: BlockId) -> (r: bool)
        ensures
            r == (self@.state == TransactionState::Active && self@.provisional.blocks.contains(block_key(id))),
    {
        self.state == TransactionState::Active && holds_key(&self.provisional.blocks, (id.namespace_id.0, id.counter))
    }

    /// Whether this active transaction issued Expression identity `id`.
    pub fn is_expression_id_provisional(&self, id: ExpressionId) -> (r: bool)
        ensures
            r == (self@.state == TransactionState::Active && self@.provisional.expressions.contains(expression_key(id))),
    {
        self.state == TransactionState::Active && holds_key(&self.provisional.expressions, (id.namespace_id.0, id.counter))
    }
}

impl<'a> MutationTransaction<'a> {
    /// Adds a new, empty Module with a freshly issued identity.
    pub fn add_module(&mut self) -> (r: Result<ModuleId, MutationError>)
        ensures
            *final(final(self).program_ref()) == *final(old(self).program_ref()),
            (final(self)@, r) == when_active(old(self)@, add_module_outcome(old(self)@)),
            r matches Ok(id) ==> {
                &&& module_index(old(self)@.candidate, id) == -1
                &&& find_module_in(final(self)@.candidate, id) == Some(fresh_module(id))
                &&& !old(self)@.provisional.modules.contains(module_key(id))
                &&& !old(self)@.program.revision.history.modules.contains(module_key(id))
            },
    {
        proof {
            use_type_invariant(&*self);
            use_type_invariant(&*self.program);
            (*self.program).lemma_head_issued();
        }
        let ghost old_candidate = module_views(self.candidate@);
        let ghost old_view = self@;
        if let Err(e) = self.require_active() {
            return Err(e);
        }
        let (namespace_id, counter) = match self.issue(IdentifierCategory::Module) {
            Ok(issued) => issued,
            Err(e) => {
                return Err(e);
            },
        };
        let id = ModuleId { namespace_id, counter };
        proof {
            lemma_next_key_fresh(crate::inventory::module_keys(old_candidate), namespace_id, counter);
            lemma_next_key_fresh(old_view.provisional.modules, namespace_id, counter);
            lemma_next_key_fresh(old_view.program.revision.history.modules, namespace_id, counter);
            lemma_fresh_module_found(old_candidate, id);
        }
        let mut candidate = Vec::new();
        std::mem::swap(&mut candidate, &mut self.candidate);
        let ghost prior = module_views(candidate@);
        push_module(&mut candidate, Module::new(id));
        proof {
            let now = module_views(candidate@);
            assert(crate::inventory::module_keys(now) =~= crate::inventory::module_keys(prior).push(
                (namespace_id.0, counter),
            ));
        }
        self.candidate = candidate;
        let mut provisional = History::empty();
        std::mem::swap(&mut provisional, &mut self.provisional);
        provisional.modules.push((namespace_id.0, counter));
        self.provisional = provisional;
        Ok(id)
    }

    /// Removes Module `id` and everything it owns.
    pub fn remove_module(&mut self, id: ModuleId) -> (r: Result<(), MutationError>)
        ensures
            *final(final(self).program_ref()) == *final(old(self).program_ref()),
            (final(self)@, r) == when_active(old(self)@, remove_module_outcome(old(self)@, id)),
            r is Ok ==> module_index(final(self)@.candidate, id) == -1,
    {
        proof {
            use_type_invariant(&*self);
        }
        if let Err(e) = self.require_active() {
            return Err(e);
        }
        match position_of_module(&self.candidate, id) {
            Some(i) => {
                let mut candidate = Vec::new();
                std::mem::swap(&mut candidate, &mut self.candidate);
                let ghost prior = module_views(candidate@);
                remove_module_at(&mut candidate, i);
                proof {
                    let now = module_views(candidate@);
                    let pk = crate::inventory::module_keys(prior);
                    let nk = crate::inventory::module_keys(now);
                    assert forall|k: int| 0 <= k < nk.len() implies crate::program::key_issued(
                        #[trigger] nk[k],
                        self@.program.namespace_id,
                        self@.program.counter,
                    ) by {
                        if k < i {
                            assert(nk[k] == pk[k]);
                        } else {
                            assert(nk[k] == pk[k + 1]);
                        }
                    }
                    assert forall|a: int, b: int| 0 <= a < nk.len() && 0 <= b < nk.len() && a != b implies #[trigger] nk[a]
                        != #[trigger] nk[b] by {
                        let pa = if a < i { a } else { a + 1 };
                        let pb = if b < i { b } else { b + 1 };
                        assert(nk[a] == pk[pa]);
                        assert(nk[b] == pk[pb]);
                    }
                    let p = crate::model::module_has_id(id);
                    assert(prior[i as int].id == id);
                    assert forall|j: int| 0 <= j < now.len() implies !p(#[trigger] now[j]) by {
                        let pj = if j < i { j } else { j + 1 };
                        assert(now[j] == prior[pj]);
                        assert(pk[pj] == module_key(prior[pj].id));
                        assert(pk[i as int] == module_key(id));
                    }
                    crate::lookup::lemma_first_index_facts(now, p);
                }
                self.candidate = candidate;
                Ok(())
            },
            None => Err(self.fail(MutationError::UnknownModule(id))),
        }
    }

    /// Replaces the preferred name of Module `id`.
    pub fn set_module_preferred_name(&mut self, id: ModuleId, preferred_name: Option<String>) -> (r: Result<
        (),
        MutationError,
    >)
        ensures
            *final(final(self).program_ref()) == *final(old(self).program_ref()),
            (final(self)@, r) == when_active(
                old(self)@,
                module_presentation_outcome(old(self)@, id, |p: PresentationMetadata| renamed(p, preferred_name)),
            ),
    {
        proof {
            use_type_invariant(&*self);
        }
        if let Err(e) = self.require_active() {
            return Err(e);
        }
        match position_of_module(&self.candidate, id) {
            Some(i) => {
                let documentation = copy_text(&self.candidate[i].presentation.documentation);
                let presentation = PresentationMetadata { preferred_name, documentation };
                let mut candidate = Vec::new();
                std::mem::swap(&mut candidate, &mut self.candidate);
                let ghost prior = module_views(candidate@);
                set_module_presentation(&mut candidate, i, presentation);
                proof {
                    lemma_module_ids_kept(prior, module_views(candidate@));
            lemma_function_ids_kept(prior, module_views(candidate@));
            lemma_parameter_ids_kept(prior, module_views(candidate@));
                }
                self.candidate = candidate;
                Ok(())
            },
            None => Err(self.fail(MutationError::UnknownModule(id))),
        }
    }

    /// Replaces the documentation of Module `id`.
    pub fn set_module_documentation(&mut self, id: ModuleId, documentation: Option<String>) -> (r: Result<
        (),
        MutationError,
    >)
        ensures
            *final(final(self).program_ref()) == *final(old(self).program_ref()),
            (final(self)@, r) == when_active(
                old(self)@,
                module_presentation_outcome(old(self)@, id, |p: PresentationMetadata| documented(p, documentation)),
            ),
    {
        proof {
            use_type_invariant(&*self);
        }
        if let Err(e) = self.require_active() {
            return Err(e);
        }
        match position_of_module(&self.candidate, id) {
            Some(i) => {
                let preferred_name = copy_text(&self.candidate[i].presentation.preferred_name);
                let presentation = PresentationMetadata { preferred_name, documentation };
                let mut candidate = Vec::new();
                std::mem::swap(&mut candidate, &mut self.candidate);
                let ghost prior = module_views(candidate@);
                set_module_presentation(&mut candidate, i, presentation);
                proof {
                    lemma_module_ids_kept(prior, module_views(candidate@));
            lemma_function_ids_kept(prior, module_views(candidate@));
            lemma_parameter_ids_kept(prior, module_views(candidate@));
                }
                self.candidate = candidate;
                Ok(())
            },
            None => Err(self.fail(MutationError::UnknownModule(id))),
        }
    }

    /// Adds a Domain Type with intrinsic representation `representation` to
    /// Module `module_id`.
    pub fn add_domain_type(&mut self, module_id: ModuleId, representation: IntrinsicType) -> (r: Result<
        TypeId,
        MutationError,
    >)
        ensures
            *final(final(self).program_ref()) == *final(old(self).program_ref()),
            (final(self)@, r) == when_active(old(self)@, add_domain_type_outcome(old(self)@, module_id, representation)),
    {
        proof {
            use_type_invariant(&*self);
        }
        if let Err(e) = self.require_active() {
            return Err(e);
        }
        let i = match position_of_module(&self.candidate, module_id) {
            Some(i) => i,
            None => {
                return Err(self.fail(MutationError::UnknownModule(module_id)));
            },
        };
        let (namespace_id, counter) = match self.issue(IdentifierCategory::Type) {
            Ok(issued) => issued,
            Err(e) => {
                return Err(e);
            },
        };
        let id = TypeId { namespace_id, counter };
        let mut candidate = Vec::new();
        std::mem::swap(&mut candidate, &mut self.candidate);
        let ghost prior = module_views(candidate@);
        push_domain_type(&mut candidate, i, DomainType::new(id, representation));
        proof {
            lemma_module_ids_kept(prior, module_views(candidate@));
            lemma_function_ids_kept(prior, module_views(candidate@));
            lemma_parameter_ids_kept(prior, module_views(candidate@));
        }
        self.candidate = candidate;
        Ok(id)
    }

    /// Removes Domain Type `id`. References to it are left for commit to
    /// reject.
    pub fn remove_domain_type(&mut self, id: TypeId) -> (r: Result<(), MutationError>)
        ensures
            *final(final(self).program_ref()) == *final(old(self).program_ref()),
            (final(self)@, r) == when_active(old(self)@, remove_domain_type_outcome(old(self)@, id)),
    {
        proof {
            use_type_invariant(&*self);
        }
        if let Err(e) = self.require_active() {
            return Err(e);
        }
        match locate_domain_type(&self.candidate, id) {
            Some((i, k)) => {
                let mut candidate = Vec::new();
                std::mem::swap(&mut candidate, &mut self.candidate);
                let ghost prior = module_views(candidate@);
                remove_domain_type_at(&mut candidate, i, k);
                proof {
                    lemma_module_ids_kept(prior, module_views(candidate@));
            lemma_function_ids_kept(prior, module_views(candidate@));
            lemma_parameter_ids_kept(prior, module_views(candidate@));
                }
                self.candidate = candidate;
                Ok(())
            },
            None => Err(self.fail(MutationError::UnknownType(id))),
        }
    }

    /// Replaces the intrinsic representation of Domain Type `id`.
    pub fn set_domain_type_representation(&mut self, id: TypeId, representation: IntrinsicType) -> (r: Result<
        (),
        MutationError,
    >)
        ensures
            *final(final(self).program_ref()) == *final(old(self).program_ref()),
            (final(self)@, r) == when_active(
                old(self)@,
                domain_type_outcome(old(self)@, id, |d: DomainType| DomainType { representation, ..d }),
            ),
    {
        proof {
            use_type_invariant(&*self);
        }
        if let Err(e) = self.require_active() {
            return Err(e);
        }
        match locate_domain_type(&self.candidate, id) {
            Some((i, k)) => {
                let mut candidate = Vec::new();
                std::mem::swap(&mut candidate, &mut self.candidate);
                let ghost prior = module_views(candidate@);
                set_domain_type_representation(&mut candidate, i, k, representation);
                proof {
                    lemma_module_ids_kept(prior, module_views(candidate@));
            lemma_function_ids_kept(prior, module_views(candidate@));
            lemma_parameter_ids_kept(prior, module_views(candidate@));
                }
                self.candidate = candidate;
                Ok(())
            },
            None => Err(self.fail(MutationError::UnknownType(id))),
        }
    }

    /// Replaces the preferred name of Domain Type `id`.
    pub fn set_domain_type_preferred_name(&mut self, id: TypeId, preferred_name: Option<String>) -> (r: Result<
        (),
        MutationError,
    >)
        ensures
            *final(final(self).program_ref()) == *final(old(self).program_ref()),
            (final(self)@, r) == when_active(
                old(self)@,
                domain_type_outcome(
                    old(self)@,
                    id,
                    |d: DomainType| DomainType { presentation: renamed(d.presentation, preferred_name), ..d },
                ),
            ),
    {
        proof {
            use_type_invariant(&*self);
        }
        if let Err(e) = self.require_active() {
            return Err(e);
        }
        match locate_domain_type(&self.candidate, id) {
            Some((i, k)) => {
                let documentation = copy_text(&self.candidate[i].domain_types[k].presentation.documentation);
                let presentation = PresentationMetadata { preferred_name, documentation };
                let mut candidate = Vec::new();
                std::mem::swap(&mut candidate, &mut self.candidate);
                let ghost prior = module_views(candidate@);
                set_domain_type_presentation(&mut candidate, i, k, presentation);
                proof {
                    lemma_module_ids_kept(prior, module_views(candidate@));
            lemma_function_ids_kept(prior, module_views(candidate@));
            lemma_parameter_ids_kept(prior, module_views(candidate@));
                }
                self.candidate = candidate;
                Ok(())
            },
            None => Err(self.fail(MutationError::UnknownType(id))),
        }
    }

    /// Replaces the documentation of Domain Type `id`.
    pub fn set_domain_type_documentation(&mut self, id: TypeId, documentation: Option<String>) -> (r: Result<
        (),
        MutationError,
    >)
        ensures
            *final(final(self).program_ref()) == *final(old(self).program_ref()),
            (final(self)@, r) == when_active(
                old(self)@,
                domain_type_outcome(
                    old(self)@,
                    id,
                    |d: DomainType| DomainType { presentation: documented(d.presentation, documentation), ..d },
                ),
            ),
    {
        proof {
            use_type_invariant(&*self);
        }
        if let Err(e) = self.require_active() {
            return Err(e);
        }
        match locate_domain_type(&self.candidate, id) {
            Some((i, k)) => {
                let preferred_name = copy_text(&self.candidate[i].domain_types[k].presentation.preferred_name);
                let presentation = PresentationMetadata { preferred_name, documentation };
                let mut candidate = Vec::new();
                std::mem::swap(&mut candidate, &mut self.candidate);
                let ghost prior = module_views(candidate@);
                set_domain_type_presentation(&mut candidate, i, k, presentation);
                proof {
                    lemma_module_ids_kept(prior, module_views(candidate@));
            lemma_function_ids_kept(prior, module_views(candidate@));
            lemma_parameter_ids_kept(prior, module_views(candidate@));
                }
                self.candidate = candidate;
                Ok(())
            },
            None => Err(self.fail(MutationError::UnknownType(id))),
        }
    }

    /// Adds a signature-only Function returning `return_type` to Module
    /// `module_id`.
    pub fn add_function<R: IntoValueType>(&mut self, module_id: ModuleId, return_type: R) -> (r: Result<
        FunctionId,
        MutationError,
    >)
        ensures
            *final(final(self).program_ref()) == *final(old(self).program_ref()),
            (final(self)@, r) == when_active(
                old(self)@,
                add_function_outcome(old(self)@, module_id, return_type.denoted_value_type()),
            ),
            r matches Ok(id) ==> {
                &&& function_location(old(self)@.candidate, id) is None
                &&& find_function(final(self)@.candidate, id) == Some(fresh_function(id, return_type.denoted_value_type()))
                &&& !old(self)@.provisional.functions.contains(function_key(id))
                &&& !old(self)@.program.revision.history.functions.contains(function_key(id))
            },
    {
        proof {
            use_type_invariant(&*self);
            use_type_invariant(&*self.program);
            (*self.program).lemma_head_issued();
        }
        let ghost old_view = self@;
        let ghost denoted = return_type.denoted_value_type();
        let return_type = return_type.into_value_type();
        if let Err(e) = self.require_active() {
            return Err(e);
        }
        let i = match position_of_module(&self.candidate, module_id) {
            Some(i) => i,
            None => {
                return Err(self.fail(MutationError::UnknownModule(module_id)));
            },
        };
        let (namespace_id, counter) = match self.issue(IdentifierCategory::Function) {
            Ok(issued) => issued,
            Err(e) => {
                return Err(e);
            },
        };
        let id = FunctionId { namespace_id, counter };
        proof {
            let oc = old_view.candidate;
            let ctr = AllocationCounterState::Available(counter);
            assert forall|k: int, j: int| 0 <= k < oc.len() && 0 <= j < oc[k].functions.len() implies #[trigger] oc[k].functions[j].id
                != id by {
                let keys = crate::inventory::function_key_list(oc[k].functions);
                assert(keys_issued(keys, namespace_id, ctr));
                assert(keys[j] == function_key(oc[k].functions[j].id));
                assert(crate::program::key_issued(keys[j], namespace_id, ctr));
            }
            crate::locate::lemma_function_absent(oc, id, 0);
            crate::locate::lemma_appended_function_found(oc, i as int, fresh_function(id, denoted), 0);
            lemma_next_key_fresh(old_view.provisional.functions, namespace_id, counter);
            lemma_next_key_fresh(old_view.program.revision.history.functions, namespace_id, counter);
        }
        let mut candidate = Vec::new();
        std::mem::swap(&mut candidate, &mut self.candidate);
        let ghost prior = module_views(candidate@);
        push_function(&mut candidate, i, Function::new(id, return_type));
        proof {
            lemma_module_ids_kept(prior, module_views(candidate@));
            let now = module_views(candidate@);
            let ns = self@.program.namespace_id;
            let ctr = self@.program.counter;
            assert forall|k: int| 0 <= k < now.len() implies keys_issued(
                crate::inventory::function_key_list(#[trigger] now[k].functions),
                ns,
                ctr,
            ) by {
                if k == i {
                    let pk = crate::inventory::function_key_list(prior[k].functions);
                    let nk = crate::inventory::function_key_list(now[k].functions);
                    assert(nk =~= pk.push((namespace_id.0, counter)));
                    assert(keys_issued(pk, ns, ctr));
                } else {
                    assert(now[k] == prior[k]);
                }
            }
        }
        self.candidate = candidate;
        let mut provisional = History::empty();
        std::mem::swap(&mut provisional, &mut self.provisional);
        provisional.functions.push((namespace_id.0, counter));
        self.provisional = provisional;
        Ok(id)
    }

    /// Removes Function `id` with its Parameters and body.
    pub fn remove_function(&mut self, id: FunctionId) -> (r: Result<(), MutationError>)
        ensures
            *final(final(self).program_ref()) == *final(old(self).program_ref()),
            (final(self)@, r) == when_active(old(self)@, remove_function_outcome(old(self)@, id)),
    {
        proof {
            use_type_invariant(&*self);
        }
        if let Err(e) = self.require_active() {
            return Err(e);
        }
        match locate_function(&self.candidate, id) {
            Some((i, j)) => {
                let mut candidate = Vec::new();
                std::mem::swap(&mut candidate, &mut self.candidate);
                let ghost prior = module_views(candidate@);
                remove_function_at(&mut candidate, i, j);
                proof {
                    lemma_module_ids_kept(prior, module_views(candidate@));
                    let now = module_views(candidate@);
                    let ns = self@.program.namespace_id;
                    let ctr = self@.program.counter;
                    assert forall|k: int| 0 <= k < now.len() implies keys_issued(
                        crate::inventory::function_key_list(#[trigger] now[k].functions),
                        ns,
                        ctr,
                    ) by {
                        if k == i {
                            let pk = crate::inventory::function_key_list(prior[k].functions);
                            let nk = crate::inventory::function_key_list(now[k].functions);
                            assert(keys_issued(pk, ns, ctr));
                            assert forall|q: int| 0 <= q < nk.len() implies crate::program::key_issued(#[trigger] nk[q], ns, ctr) by {
                                if q < j {
                                    assert(nk[q] == pk[q]);
                                } else {
                                    assert(nk[q] == pk[q + 1]);
                                }
                            }
                        } else {
                            assert(now[k] == prior[k]);
                        }
                    }
                }
                self.candidate = candidate;
                Ok(())
            },
            None => Err(self.fail(MutationError::UnknownFunction(id))),
        }
    }

    /// Replaces the preferred name of Function `id`.
    pub fn set_function_preferred_name(&mut self, id: FunctionId, preferred_name: Option<String>) -> (r: Result<
        (),
        MutationError,
    >)
        ensures
            *final(final(self).program_ref()) == *final(old(self).program_ref()),
            (final(self)@, r) == when_active(
                old(self)@,
                function_outcome(
                    old(self)@,
                    id,
                    |f: FunctionView| FunctionView { presentation: renamed(f.presentation, preferred_name), ..f },
                ),
            ),
    {
        proof {
            use_type_invariant(&*self);
        }
        if let Err(e) = self.require_active() {
            return Err(e);
        }
        match locate_function(&self.candidate, id) {
            Some((i, j)) => {
                let documentation = copy_text(&self.candidate[i].functions[j].presentation.documentation);
                let presentation = PresentationMetadata { preferred_name, documentation };
                let mut candidate = Vec::new();
                std::mem::swap(&mut candidate, &mut self.candidate);
                let ghost prior = module_views(candidate@);
                set_function_presentation(&mut candidate, i, j, presentation);
                proof {
                    lemma_module_ids_kept(prior, module_views(candidate@));
            lemma_function_ids_kept(prior, module_views(candidate@));
            lemma_parameter_ids_kept(prior, module_views(candidate@));
                }
                self.candidate = candidate;
                Ok(())
            },
            None => Err(self.fail(MutationError::UnknownFunction(id))),
        }
    }

    /// Replaces the documentation of Function `id`.
    pub fn set_function_documentation(&mut self, id: FunctionId, documentation: Option<String>) -> (r: Result<
        (),
        MutationError,
    >)
        ensures
            *final(final(self).program_ref()) == *final(old(self).program_ref()),
            (final(self)@, r) == when_active(
                old(self)@,
                function_outcome(
                    old(self)@,
                    id,
                    |f: FunctionView| FunctionView { presentation: documented(f.presentation, documentation), ..f },
                ),
            ),
    {
        proof {
            use_type_invariant(&*self);
        }
        if let Err(e) = self.require_active() {
            return Err(e);
        }
        match locate_function(&self.candidate, id) {
            Some((i, j)) => {
                let preferred_name = copy_text(&self.candidate[i].functions[j].presentation.preferred_name);
                let presentation = PresentationMetadata { preferred_name, documentation };
                let mut candidate = Vec::new();
                std::mem::swap(&mut candidate, &mut self.candidate);
                let ghost prior = module_views(candidate@);
                set_function_presentation(&mut candidate, i, j, presentation);
                proof {
                    lemma_module_ids_kept(prior, module_views(candidate@));
            lemma_function_ids_kept(prior, module_views(candidate@));
            lemma_parameter_ids_kept(prior, module_views(candidate@));
                }
                self.candidate = candidate;
                Ok(())
            },
            None => Err(self.fail(MutationError::UnknownFunction(id))),
        }
    }

    /// Replaces the return type of Function `id`.
    pub fn set_function_return_type<R: IntoValueType>(&mut self, id: FunctionId, return_type: R) -> (r: Result<
        (),
        MutationError,
    >)
        ensures
            *final(final(self).program_ref()) == *final(old(self).program_ref()),
            (final(self)@, r) == when_active(
                old(self)@,
                function_outcome(
                    old(self)@,
                    id,
                    |f: FunctionView| FunctionView { return_type: return_type.denoted_value_type(), ..f },
                ),
            ),
    {
        proof {
            use_type_invariant(&*self);
        }
        let value_type = return_type.into_value_type();
        if let Err(e) = self.require_active() {
            return Err(e);
        }
        match locate_function(&self.candidate, id) {
            Some((i, j)) => {
                let mut candidate = Vec::new();
                std::mem::swap(&mut candidate, &mut self.candidate);
                let ghost prior = module_views(candidate@);
                set_function_return_type(&mut candidate, i, j, value_type);
                proof {
                    lemma_module_ids_kept(prior, module_views(candidate@));
            lemma_function_ids_kept(prior, module_views(candidate@));
            lemma_parameter_ids_kept(prior, module_views(candidate@));
                }
                self.candidate = candidate;
                Ok(())
            },
            None => Err(self.fail(MutationError::UnknownFunction(id))),
        }
    }

    /// Appends a Parameter of type `value_type` to Function `function_id`.
    pub fn add_parameter<R: IntoValueType>(&mut self, function_id: FunctionId, value_type: R) -> (r: Result<
        ParameterId,
        MutationError,
    >)
        ensures
            *final(final(self).program_ref()) == *final(old(self).program_ref()),
            (final(self)@, r) == when_active(
                old(self)@,
                add_parameter_outcome(old(self)@, function_id, value_type.denoted_value_type()),
            ),
            r matches Ok(id) ==> {
                &&& parameter_location(old(self)@.candidate, id) is None
                &&& find_parameter(final(self)@.candidate, id) == Some(fresh_parameter(id, value_type.denoted_value_type()))
                &&& !old(self)@.provisional.parameters.contains(parameter_key(id))
                &&& !old(self)@.program.revision.history.parameters.contains(parameter_key(id))
            },
    {
        proof {
            use_type_invariant(&*self);
            use_type_invariant(&*self.program);
            (*self.program).lemma_head_issued();
        }
        let ghost old_view = self@;
        let ghost denoted = value_type.denoted_value_type();
        let value_type = value_type.into_value_type();
        if let Err(e) = self.require_active() {
            return Err(e);
        }
        let (i, j) = match locate_function(&self.candidate, function_id) {
            Some(position) => position,
            None => {
                return Err(self.fail(MutationError::UnknownFunction(function_id)));
            },
        };
        let (namespace_id, counter) = match self.issue(IdentifierCategory::Parameter) {
            Ok(issued) => issued,
            Err(e) => {
                return Err(e);
            },
        };
        let id = ParameterId { namespace_id, counter };
        proof {
            let oc = old_view.candidate;
            let ctr = AllocationCounterState::Available(counter);
            assert forall|k: int, l: int, q: int|
                0 <= k < oc.len() && 0 <= l < oc[k].functions.len() && 0 <= q < oc[k].functions[l].parameters.len()
                implies #[trigger] oc[k].functions[l].parameters[q].id != id by {
                let keys = crate::inventory::function_parameter_keys(oc[k].functions[l]);
                assert(keys_issued(keys, namespace_id, ctr));
                assert(keys[q] == parameter_key(oc[k].functions[l].parameters[q].id));
                assert(crate::program::key_issued(keys[q], namespace_id, ctr));
            }
            crate::locate::lemma_parameter_absent(oc, id, 0);
            crate::locate::lemma_appended_parameter_found(oc, i as int, j as int, fresh_parameter(id, denoted), 0);
            lemma_next_key_fresh(old_view.provisional.parameters, namespace_id, counter);
            lemma_next_key_fresh(old_view.program.revision.history.parameters, namespace_id, counter);
        }
        let mut candidate = Vec::new();
        std::mem::swap(&mut candidate, &mut self.candidate);
        let ghost prior = module_views(candidate@);
        push_parameter(&mut candidate, i, j, Parameter::new(id, value_type));
        proof {
            lemma_module_ids_kept(prior, module_views(candidate@));
            lemma_function_ids_kept(prior, module_views(candidate@));
            let now = module_views(candidate@);
            let ns = self@.program.namespace_id;
            let ctr = self@.program.counter;
            assert forall|k: int, l: int| 0 <= k < now.len() && 0 <= l < now[k].functions.len() implies keys_issued(
                crate::inventory::function_parameter_keys(#[trigger] now[k].functions[l]),
                ns,
                ctr,
            ) by {
                if k == i && l == j {
                    let pk = crate::inventory::function_parameter_keys(prior[k].functions[l]);
                    let nk = crate::inventory::function_parameter_keys(now[k].functions[l]);
                    assert(nk =~= pk.push((namespace_id.0, counter)));
                    assert(keys_issued(pk, ns, ctr));
                } else {
                    assert(now[k].functions[l] == prior[k].functions[l]);
                }
            }
        }
        self.candidate = candidate;
        let mut provisional = History::empty();
        std::mem::swap(&mut provisional, &mut self.provisional);
        provisional.parameters.push((namespace_id.0, counter));
        self.provisional = provisional;
        Ok(id)
    }

    /// Removes Parameter `id` from its Function.
    pub fn remove_parameter(&mut self, id: ParameterId) -> (r: Result<(), MutationError>)
        ensures
            *final(final(self).program_ref()) == *final(old(self).program_ref()),
            (final(self)@, r) == when_active(old(self)@, remove_parameter_outcome(old(self)@, id)),
    {
        proof {
            use_type_invariant(&*self);
        }
        if let Err(e) = self.require_active() {
            return Err(e);
        }
        match locate_parameter(&self.candidate, id) {
            Some((i, j, p)) => {
                let mut candidate = Vec::new();
                std::mem::swap(&mut candidate, &mut self.candidate);
                let ghost prior = module_views(candidate@);
                remove_parameter_at(&mut candidate, i, j, p);
                proof {
                    lemma_module_ids_kept(prior, module_views(candidate@));
                    lemma_function_ids_kept(prior, module_views(candidate@));
                    let now = module_views(candidate@);
                    let ns = self@.program.namespace_id;
                    let ctr = self@.program.counter;
                    assert forall|k: int, l: int| 0 <= k < now.len() && 0 <= l < now[k].functions.len() implies keys_issued(
                        crate::inventory::function_parameter_keys(#[trigger] now[k].functions[l]),
                        ns,
                        ctr,
                    ) by {
                        if k == i && l == j {
                            let pk = crate::inventory::function_parameter_keys(prior[k].functions[l]);
                            let nk = crate::inventory::function_parameter_keys(now[k].functions[l]);
                            assert(keys_issued(pk, ns, ctr));
                            assert forall|q: int| 0 <= q < nk.len() implies crate::program::key_issued(#[trigger] nk[q], ns, ctr) by {
                                if q < p {
                                    assert(nk[q] == pk[q]);
                                } else {
                                    assert(nk[q] == pk[q + 1]);
                                }
                            }
                        } else {
                            assert(now[k].functions[l] == prior[k].functions[l]);
                        }
                    }
                }
                self.candidate = candidate;
                Ok(())
            },
            None => Err(self.fail(MutationError::UnknownParameter(id))),
        }
    }

    /// Replaces the preferred name of Parameter `id`.
    pub fn set_parameter_preferred_name(&mut self, id: ParameterId, preferred_name: Option<String>) -> (r: Result<
        (),
        MutationError,
    >)
        ensures
            *final(final(self).program_ref()) == *final(old(self).program_ref()),
            (final(self)@, r) == when_active(
                old(self)@,
                parameter_outcome(
                    old(self)@,
                    id,
                    |p: Parameter| Parameter { presentation: renamed(p.presentation, preferred_name), ..p },
                ),
            ),
    {
        proof {
            use_type_invariant(&*self);
        }
        if let Err(e) = self.require_active() {
            return Err(e);
        }
        match locate_parameter(&self.candidate, id) {
            Some((i, j, p)) => {
                let documentation = copy_text(&self.candidate[i].functions[j].parameters[p].presentation.documentation);
                let presentation = PresentationMetadata { preferred_name, documentation };
                let mut candidate = Vec::new();
                std::mem::swap(&mut candidate, &mut self.candidate);
                let ghost prior = module_views(candidate@);
                set_parameter_presentation(&mut candidate, i, j, p, presentation);
                proof {
                    lemma_module_ids_kept(prior, module_views(candidate@));
            lemma_function_ids_kept(prior, module_views(candidate@));
            lemma_parameter_ids_kept(prior, module_views(candidate@));
                }
                self.candidate = candidate;
                Ok(())
            },
            None => Err(self.fail(MutationError::UnknownParameter(id))),
        }
    }

    /// Replaces the documentation of Parameter `id`.
    pub fn set_parameter_documentation(&mut self, id: ParameterId, documentation: Option<String>) -> (r: Result<
        (),
        MutationError,
    >)
        ensures
            *final(final(self).program_ref()) == *final(old(self).program_ref()),
            (final(self)@, r) == when_active(
                old(self)@,
                parameter_outcome(
                    old(self)@,
                    id,
                    |p: Parameter| Parameter { presentation: documented(p.presentation, documentation), ..p },
                ),
            ),
    {
        proof {
            use_type_invariant(&*self);
        }
        if let Err(e) = self.require_active() {
            return Err(e);
        }
        match locate_parameter(&self.candidate, id) {
            Some((i, j, p)) => {
                let preferred_name = copy_text(&self.candidate[i].functions[j].parameters[p].presentation.preferred_name);
                let presentation = PresentationMetadata { preferred_name, documentation };
                let mut candidate = Vec::new();
                std::mem::swap(&mut candidate, &mut self.candidate);
                let ghost prior = module_views(candidate@);
                set_parameter_presentation(&mut candidate, i, j, p, presentation);
                proof {
                    lemma_module_ids_kept(prior, module_views(candidate@));
            lemma_function_ids_kept(prior, module_views(candidate@));
            lemma_parameter_ids_kept(prior, module_views(candidate@));
                }
                self.candidate = candidate;
                Ok(())
            },
            None => Err(self.fail(MutationError::UnknownParameter(id))),
        }
    }

    /// Replaces the type of Parameter `id`.
    pub fn set_parameter_type<R: IntoValueType>(&mut self, id: ParameterId, value_type: R) -> (r: Result<
        (),
        MutationError,
    >)
        ensures
            *final(final(self).program_ref()) == *final(old(self).program_ref()),
            (final(self)@, r) == when_active(
                old(self)@,
                parameter_outcome(
                    old(self)@,
                    id,
                    |p: Parameter| Parameter { value_type: value_type.denoted_value_type(), ..p },
                ),
            ),
    {
        proof {
            use_type_invariant(&*self);
        }
        let value_type = value_type.into_value_type();
        if let Err(e) = self.require_active() {
            return Err(e);
        }
        match locate_parameter(&self.candidate, id) {
            Some((i, j, p)) => {
                let mut candidate = Vec::new();
                std::mem::swap(&mut candidate, &mut self.candidate);
                let ghost prior = module_views(candidate@);
                set_parameter_type(&mut candidate, i, j, p, value_type);
                proof {
                    lemma_module_ids_kept(prior, module_views(candidate@));
            lemma_function_ids_kept(prior, module_views(candidate@));
            lemma_parameter_ids_kept(prior, module_views(candidate@));
                }
                self.candidate = candidate;
                Ok(())
            },
            None => Err(self.fail(MutationError::UnknownParameter(id))),
        }
    }
}

/// Checks a reference to Expression `x` from Block position (i, j, k).
fn ownership_check(modules: &Vec<Module>, i: usize, j: usize, k: usize, x: ExpressionId) -> (r: Option<MutationError>)
    requires
        crate::edit::block_at(modules@, i as int, j as int, k as int),
    ensures
        r == ownership_error(
            module_views(modules@),
            function_blocks(module_views(modules@)[i as int].functions[j as int])[k as int],
            x,
        ),
{
    match &modules[i].functions[j].body {
        Some(body) => {
            let block = &body.blocks[k];
            if crate::body::position_of_expression(&block.expressions, x).is_some() {
                None
            } else if locate_expression(modules, x).is_some() {
                Some(MutationError::ExpressionNotOwnedByBlock { expression_id: x, block_id: block.id })
            } else {
                Some(MutationError::UnknownExpression(x))
            }
        },
        None => None,
    }
}

/// Checks references `xs` from Block position (i, j, k), in order.
fn first_ownership_check(modules: &Vec<Module>, i: usize, j: usize, k: usize, xs: &Vec<ExpressionId>) -> (r: Option<
    MutationError,
>)
    requires
        crate::edit::block_at(modules@, i as int, j as int, k as int),
    ensures
        r == first_ownership_error(
            module_views(modules@),
            function_blocks(module_views(modules@)[i as int].functions[j as int])[k as int],
            xs@,
            0,
        ),
{
    let ghost mv = module_views(modules@);
    let ghost block = function_blocks(mv[i as int].functions[j as int])[k as int];
    let mut q: usize = 0;
    while q < xs.len()
        invariant
            q <= xs@.len(),
            mv == module_views(modules@),
            block == function_blocks(mv[i as int].functions[j as int])[k as int],
            crate::edit::block_at(modules@, i as int, j as int, k as int),
            first_ownership_error(mv, block, xs@, 0) == first_ownership_error(mv, block, xs@, q as int),
        decreases xs.len() - q,
    {
        match ownership_check(modules, i, j, k, xs[q]) {
            Some(e) => {
                return Some(e);
            },
            None => {},
        }
        q = q + 1;
    }
    None
}

/// Checks the references of a new Expression of `kind` from a Block of the
/// Function at position (i, j).
fn reference_check(modules: &Vec<Module>, i: usize, j: usize, kind: &ExpressionKind) -> (r: Option<MutationError>)
    requires
        crate::edit::function_at(modules@, i as int, j as int),
    ensures
        r == reference_error(module_views(modules@), module_views(modules@)[i as int].functions[j as int], kind@),
{
    let function = &modules[i].functions[j];
    match kind {
        ExpressionKind::ParameterReference(p) => {
            if function.parameter(*p).is_some() {
                None
            } else if locate_parameter(modules, *p).is_some() {
                Some(MutationError::ParameterNotOwnedByFunction { parameter_id: *p, function_id: function.id })
            } else {
                Some(MutationError::UnknownParameter(*p))
            }
        },
        ExpressionKind::Call { target, .. } => {
            if locate_function(modules, *target).is_some() {
                None
            } else {
                Some(MutationError::UnknownFunction(*target))
            }
        },
        ExpressionKind::DomainConstruct { type_id, .. } => {
            if locate_domain_type(modules, *type_id).is_some() {
                None
            } else {
                Some(MutationError::UnknownType(*type_id))
            }
        },
        _ => None,
    }
}

/// Checks a Branch target from a Block of the Function at position (i, j).
fn target_check(modules: &Vec<Module>, i: usize, j: usize, target: BlockId) -> (r: Option<MutationError>)
    requires
        crate::edit::function_at(modules@, i as int, j as int),
    ensures
        r == target_error(module_views(modules@), module_views(modules@)[i as int].functions[j as int], target),
{
    let function = &modules[i].functions[j];
    let owned = match &function.body {
        Some(body) => crate::body::position_of_block(&body.blocks, target).is_some(),
        None => false,
    };
    if owned {
        None
    } else if locate_block(modules, target).is_some() {
        Some(MutationError::BlockNotOwnedByFunctionBody { block_id: target, function_id: function.id })
    } else {
        Some(MutationError::UnknownBlock(target))
    }
}

/// Whether `entries` holds `x` before position `q`.
fn held_before(entries: &Vec<ExpressionId>, q: usize, x: ExpressionId) -> (r: bool)
    requires
        q <= entries@.len(),
    ensures
        r == entries@.take(q as int).contains(x),
{
    let mut p: usize = 0;
    while p < q
        invariant
            p <= q <= entries@.len(),
            forall|a: int| 0 <= a < p ==> entries@[a] != x,
        decreases q - p,
    {
        if entries[p] == x {
            assert(entries@.take(q as int)[p as int] == x);
            return true;
        }
        p = p + 1;
    }
    assert forall|a: int| 0 <= a < q implies entries@.take(q as int)[a] != x by {
        assert(entries@.take(q as int)[a] == entries@[a]);
    }
    false
}

/// Checks effect sequence `entries` for Block position (i, j, k), in order.
fn effect_check(modules: &Vec<Module>, i: usize, j: usize, k: usize, entries: &Vec<ExpressionId>) -> (r: Option<
    MutationError,
>)
    requires
        crate::edit::block_at(modules@, i as int, j as int, k as int),
    ensures
        r == first_effect_error(
            module_views(modules@),
            function_blocks(module_views(modules@)[i as int].functions[j as int])[k as int],
            entries@,
            0,
        ),
{
    let ghost mv = module_views(modules@);
    let ghost block = function_blocks(mv[i as int].functions[j as int])[k as int];
    let mut q: usize = 0;
    while q < entries.len()
        invariant
            q <= entries@.len(),
            mv == module_views(modules@),
            block == function_blocks(mv[i as int].functions[j as int])[k as int],
            crate::edit::block_at(modules@, i as int, j as int, k as int),
            first_effect_error(mv, block, entries@, 0) == first_effect_error(mv, block, entries@, q as int),
        decreases entries.len() - q,
    {
        let x = entries[q];
        match ownership_check(modules, i, j, k, x) {
            Some(e) => {
                return Some(e);
            },
            None => {},
        }
        let is_call = match &modules[i].functions[j].body {
            Some(body) => match crate::body::position_of_expression(&body.blocks[k].expressions, x) {
                Some(l) => body.blocks[k].expressions[l].kind.is_call(),
                None => false,
            },
            None => false,
        };
        if !is_call {
            return Some(MutationError::EffectSequenceEntryNotCall(x));
        }
        if held_before(entries, q, x) {
            return Some(MutationError::DuplicateEffectSequenceEntry(x));
        }
        q = q + 1;
    }
    None
}

impl<'a> MutationTransaction<'a> {
    /// Creates the body of Function `function_id` with one fresh, empty entry
    /// Block, and returns the entry Block's identity.
    pub fn create_function_body(&mut self, function_id: FunctionId) -> (r: Result<BlockId, MutationError>)
        ensures
            *final(final(self).program_ref()) == *final(old(self).program_ref()),
            (final(self)@, r) == when_active(old(self)@, create_body_outcome(old(self)@, function_id)),
    {
        proof {
            use_type_invariant(&*self);
        }
        if let Err(e) = self.require_active() {
            return Err(e);
        }
        let (i, j) = match locate_function(&self.candidate, function_id) {
            Some(position) => position,
            None => {
                return Err(self.fail(MutationError::UnknownFunction(function_id)));
            },
        };
        if self.candidate[i].functions[j].body.is_some() {
            return Err(self.fail(MutationError::FunctionBodyAlreadyExists(function_id)));
        }
        let (namespace_id, counter) = match self.issue(IdentifierCategory::Block) {
            Ok(issued) => issued,
            Err(e) => {
                return Err(e);
            },
        };
        let id = BlockId { namespace_id, counter };
        let mut candidate = Vec::new();
        std::mem::swap(&mut candidate, &mut self.candidate);
        let ghost prior = module_views(candidate@);
        set_function_body(&mut candidate, i, j, Some(FunctionBody::new(id)));
        proof {
            lemma_module_ids_kept(prior, module_views(candidate@));
            lemma_function_ids_kept(prior, module_views(candidate@));
            lemma_parameter_ids_kept(prior, module_views(candidate@));
        }
        self.candidate = candidate;
        let mut provisional = History::empty();
        std::mem::swap(&mut provisional, &mut self.provisional);
        provisional.blocks.push((namespace_id.0, counter));
        self.provisional = provisional;
        Ok(id)
    }

    /// Removes the body of Function `function_id`, leaving its signature.
    pub fn remove_function_body(&mut self, function_id: FunctionId) -> (r: Result<(), MutationError>)
        ensures
            *final(final(self).program_ref()) == *final(old(self).program_ref()),
            (final(self)@, r) == when_active(old(self)@, remove_body_outcome(old(self)@, function_id)),
    {
        proof {
            use_type_invariant(&*self);
        }
        if let Err(e) = self.require_active() {
            return Err(e);
        }
        let (i, j) = match locate_function(&self.candidate, function_id) {
            Some(position) => position,
            None => {
                return Err(self.fail(MutationError::UnknownFunction(function_id)));
            },
        };
        if self.candidate[i].functions[j].body.is_none() {
            return Err(self.fail(MutationError::FunctionBodyAbsent(function_id)));
        }
        let mut candidate = Vec::new();
        std::mem::swap(&mut candidate, &mut self.candidate);
        let ghost prior = module_views(candidate@);
        set_function_body(&mut candidate, i, j, None);
        proof {
            lemma_module_ids_kept(prior, module_views(candidate@));
            lemma_function_ids_kept(prior, module_views(candidate@));
            lemma_parameter_ids_kept(prior, module_views(candidate@));
        }
        self.candidate = candidate;
        Ok(())
    }

    /// Adds a fresh, empty Block to the body of Function `function_id`.
    pub fn add_block(&mut self, function_id: FunctionId) -> (r: Result<BlockId, MutationError>)
        ensures
            *final(final(self).program_ref()) == *final(old(self).program_ref()),
            (final(self)@, r) == when_active(old(self)@, add_block_outcome(old(self)@, function_id)),
            r matches Ok(id) ==> !old(self)@.provisional.blocks.contains(block_key(id))
                && !old(self)@.program.revision.history.blocks.contains(block_key(id)),
    {
        proof {
            use_type_invariant(&*self);
            use_type_invariant(&*self.program);
            (*self.program).lemma_head_issued();
        }
        let ghost old_view = self@;
        if let Err(e) = self.require_active() {
            return Err(e);
        }
        let (i, j) = match locate_function(&self.candidate, function_id) {
            Some(position) => position,
            None => {
                return Err(self.fail(MutationError::UnknownFunction(function_id)));
            },
        };
        if self.candidate[i].functions[j].body.is_none() {
            return Err(self.fail(MutationError::FunctionBodyAbsent(function_id)));
        }
        let (namespace_id, counter) = match self.issue(IdentifierCategory::Block) {
            Ok(issued) => issued,
            Err(e) => {
                return Err(e);
            },
        };
        let id = BlockId { namespace_id, counter };
        proof {
            lemma_next_key_fresh(old_view.provisional.blocks, namespace_id, counter);
            lemma_next_key_fresh(old_view.program.revision.history.blocks, namespace_id, counter);
        }
        let mut candidate = Vec::new();
        std::mem::swap(&mut candidate, &mut self.candidate);
        let ghost prior = module_views(candidate@);
        push_block(&mut candidate, i, j, Block::new(id));
        proof {
            lemma_module_ids_kept(prior, module_views(candidate@));
            lemma_function_ids_kept(prior, module_views(candidate@));
            lemma_parameter_ids_kept(prior, module_views(candidate@));
        }
        self.candidate = candidate;
        let mut provisional = History::empty();
        std::mem::swap(&mut provisional, &mut self.provisional);
        provisional.blocks.push((namespace_id.0, counter));
        self.provisional = provisional;
        Ok(id)
    }

    /// Removes Block `id`, which must not be its body's entry Block.
    /// References to it are left for commit to reject.
    pub fn remove_block(&mut self, id: BlockId) -> (r: Result<(), MutationError>)
        ensures
            *final(final(self).program_ref()) == *final(old(self).program_ref()),
            (final(self)@, r) == when_active(old(self)@, remove_block_outcome(old(self)@, id)),
    {
        proof {
            use_type_invariant(&*self);
        }
        if let Err(e) = self.require_active() {
            return Err(e);
        }
        let (i, j, k) = match locate_block(&self.candidate, id) {
            Some(position) => position,
            None => {
                return Err(self.fail(MutationError::UnknownBlock(id)));
            },
        };
        let is_entry = match &self.candidate[i].functions[j].body {
            Some(body) => body.entry_block_id == id,
            None => false,
        };
        if is_entry {
            return Err(self.fail(MutationError::EntryBlockCannotBeRemoved(id)));
        }
        let mut candidate = Vec::new();
        std::mem::swap(&mut candidate, &mut self.candidate);
        let ghost prior = module_views(candidate@);
        remove_block_at(&mut candidate, i, j, k);
        proof {
            lemma_module_ids_kept(prior, module_views(candidate@));
            lemma_function_ids_kept(prior, module_views(candidate@));
            lemma_parameter_ids_kept(prior, module_views(candidate@));
        }
        self.candidate = candidate;
        Ok(())
    }

    /// Adds an Expression of `kind` to Block `block_id`, after checking every
    /// reference it carries.
    fn add_expression(&mut self, block_id: BlockId, kind: ExpressionKind) -> (r: Result<ExpressionId, MutationError>)
        ensures
            *final(final(self).program_ref()) == *final(old(self).program_ref()),
            (final(self)@, r) == when_active(old(self)@, add_expression_outcome(old(self)@, block_id, kind@)),
            r matches Ok(id) ==> !old(self)@.provisional.expressions.contains(expression_key(id))
                && !old(self)@.program.revision.history.expressions.contains(expression_key(id)),
    {
        proof {
            use_type_invariant(&*self);
            use_type_invariant(&*self.program);
            (*self.program).lemma_head_issued();
        }
        let ghost old_view = self@;
        if let Err(e) = self.require_active() {
            return Err(e);
        }
        let (i, j, k) = match locate_block(&self.candidate, block_id) {
            Some(position) => position,
            None => {
                return Err(self.fail(MutationError::UnknownBlock(block_id)));
            },
        };
        if let Some(e) = reference_check(&self.candidate, i, j, &kind) {
            return Err(self.fail(e));
        }
        let dependencies = kind.dependencies();
        if let Some(e) = first_ownership_check(&self.candidate, i, j, k, &dependencies) {
            return Err(self.fail(e));
        }
        let (namespace_id, counter) = match self.issue(IdentifierCategory::Expression) {
            Ok(issued) => issued,
            Err(e) => {
                return Err(e);
            },
        };
        let id = ExpressionId { namespace_id, counter };
        proof {
            lemma_next_key_fresh(old_view.provisional.expressions, namespace_id, counter);
            lemma_next_key_fresh(old_view.program.revision.history.expressions, namespace_id, counter);
        }
        let mut candidate = Vec::new();
        std::mem::swap(&mut candidate, &mut self.candidate);
        let ghost prior = module_views(candidate@);
        push_expression(&mut candidate, i, j, k, Expression { id, kind });
        proof {
            lemma_module_ids_kept(prior, module_views(candidate@));
            lemma_function_ids_kept(prior, module_views(candidate@));
            lemma_parameter_ids_kept(prior, module_views(candidate@));
        }
        self.candidate = candidate;
        let mut provisional = History::empty();
        std::mem::swap(&mut provisional, &mut self.provisional);
        provisional.expressions.push((namespace_id.0, counter));
        self.provisional = provisional;
        Ok(id)
    }

    /// Installs terminator `terminator` in Block `block_id`, after checking
    /// its references.
    fn install_terminator(&mut self, block_id: BlockId, terminator: Terminator) -> (r: Result<(), MutationError>)
        ensures
            *final(final(self).program_ref()) == *final(old(self).program_ref()),
            (final(self)@, r) == when_active(old(self)@, terminator_outcome(old(self)@, block_id, terminator)),
    {
        proof {
            use_type_invariant(&*self);
        }
        if let Err(e) = self.require_active() {
            return Err(e);
        }
        let (i, j, k) = match locate_block(&self.candidate, block_id) {
            Some(position) => position,
            None => {
                return Err(self.fail(MutationError::UnknownBlock(block_id)));
            },
        };
        let error = match terminator {
            Terminator::Return { expression } => ownership_check(&self.candidate, i, j, k, expression),
            Terminator::Branch { condition, true_block, false_block } => {
                match ownership_check(&self.candidate, i, j, k, condition) {
                    Some(e) => Some(e),
                    None => match target_check(&self.candidate, i, j, true_block) {
                        Some(e) => Some(e),
                        None => target_check(&self.candidate, i, j, false_block),
                    },
                }
            },
        };
        if let Some(e) = error {
            return Err(self.fail(e));
        }
        let mut candidate = Vec::new();
        std::mem::swap(&mut candidate, &mut self.candidate);
        let ghost prior = module_views(candidate@);
        set_terminator(&mut candidate, i, j, k, terminator);
        proof {
            lemma_module_ids_kept(prior, module_views(candidate@));
            lemma_function_ids_kept(prior, module_views(candidate@));
            lemma_parameter_ids_kept(prior, module_views(candidate@));
        }
        self.candidate = candidate;
        Ok(())
    }

    /// Makes Block `block_id` return Expression `expression`.
    pub fn set_return(&mut self, block_id: BlockId, expression: ExpressionId) -> (r: Result<(), MutationError>)
        ensures
            *final(final(self).program_ref()) == *final(old(self).program_ref()),
            (final(self)@, r) == when_active(
                old(self)@,
                terminator_outcome(old(self)@, block_id, Terminator::Return { expression }),
            ),
    {
        proof {
            use_type_invariant(&*self);
        }
        self.install_terminator(block_id, Terminator::Return { expression })
    }

    /// Makes Block `block_id` branch on `condition` to `true_block` or
    /// `false_block` of the same body.
    pub fn set_branch(
        &mut self,
        block_id: BlockId,
        condition: ExpressionId,
        true_block: BlockId,
        false_block: BlockId,
    ) -> (r: Result<(), MutationError>)
        ensures
            (final(self)@, r) == when_active(
                old(self)@,
                terminator_outcome(old(self)@, block_id, Terminator::Branch { condition, true_block, false_block }),
            ),
    {
        self.install_terminator(block_id, Terminator::Branch { condition, true_block, false_block })
    }

    /// Replaces the effect sequence of Block `block_id`.
    pub fn set_effect_sequence(&mut self, block_id: BlockId, entries: Vec<ExpressionId>) -> (r: Result<
        (),
        MutationError,
    >)
        ensures
            *final(final(self).program_ref()) == *final(old(self).program_ref()),
            (final(self)@, r) == when_active(old(self)@, effect_sequence_outcome(old(self)@, block_id, entries@)),
    {
        proof {
            use_type_invariant(&*self);
        }
        if let Err(e) = self.require_active() {
            return Err(e);
        }
        let (i, j, k) = match locate_block(&self.candidate, block_id) {
            Some(position) => position,
            None => {
                return Err(self.fail(MutationError::UnknownBlock(block_id)));
            },
        };
        if let Some(e) = effect_check(&self.candidate, i, j, k, &entries) {
            return Err(self.fail(e));
        }
        let mut candidate = Vec::new();
        std::mem::swap(&mut candidate, &mut self.candidate);
        let ghost prior = module_views(candidate@);
        set_effect_sequence(&mut candidate, i, j, k, entries);
        proof {
            lemma_module_ids_kept(prior, module_views(candidate@));
            lemma_function_ids_kept(prior, module_views(candidate@));
            lemma_parameter_ids_kept(prior, module_views(candidate@));
        }
        self.candidate = candidate;
        Ok(())
    }
}

impl<'a> MutationTransaction<'a> {
    /// Adds a signed 32-bit integer literal to Block `block_id`.
    pub fn add_int32_literal(&mut self, block_id: BlockId, value: i32) -> (r: Result<ExpressionId, MutationError>)
        ensures
            *final(final(self).program_ref()) == *final(old(self).program_ref()),
            (final(self)@, r) == when_active(old(self)@, add_expression_outcome(old(self)@, block_id, KindView::Int32Literal(value))),
            r matches Ok(id) ==> !old(self)@.provisional.expressions.contains(expression_key(id))
                && !old(self)@.program.revision.history.expressions.contains(expression_key(id)),
    {
        proof {
            use_type_invariant(&*self);
        }
        self.add_expression(block_id, ExpressionKind::Int32Literal(value))
    }

    /// Adds a signed 64-bit integer literal to Block `block_id`.
    pub fn add_int64_literal(&mut self, block_id: BlockId, value: i64) -> (r: Result<ExpressionId, MutationError>)
        ensures
            *final(final(self).program_ref()) == *final(old(self).program_ref()),
            (final(self)@, r) == when_active(old(self)@, add_expression_outcome(old(self)@, block_id, KindView::Int64Literal(value))),
            r matches Ok(id) ==> !old(self)@.provisional.expressions.contains(expression_key(id))
                && !old(self)@.program.revision.history.expressions.contains(expression_key(id)),
    {
        proof {
            use_type_invariant(&*self);
        }
        self.add_expression(block_id, ExpressionKind::Int64Literal(value))
    }

    /// Adds a Bool literal to Block `block_id`.
    pub fn add_bool_literal(&mut self, block_id: BlockId, value: bool) -> (r: Result<ExpressionId, MutationError>)
        ensures
            *final(final(self).program_ref()) == *final(old(self).program_ref()),
            (final(self)@, r) == when_active(old(self)@, add_expression_outcome(old(self)@, block_id, KindView::BoolLiteral(value))),
            r matches Ok(id) ==> !old(self)@.provisional.expressions.contains(expression_key(id))
                && !old(self)@.program.revision.history.expressions.contains(expression_key(id)),
    {
        proof {
            use_type_invariant(&*self);
        }
        self.add_expression(block_id, ExpressionKind::BoolLiteral(value))
    }

    /// Adds the Unit literal to Block `block_id`.
    pub fn add_unit_literal(&mut self, block_id: BlockId) -> (r: Result<ExpressionId, MutationError>)
        ensures
            *final(final(self).program_ref()) == *final(old(self).program_ref()),
            (final(self)@, r) == when_active(old(self)@, add_expression_outcome(old(self)@, block_id, KindView::UnitLiteral)),
            r matches Ok(id) ==> !old(self)@.provisional.expressions.contains(expression_key(id))
                && !old(self)@.program.revision.history.expressions.contains(expression_key(id)),
    {
        proof {
            use_type_invariant(&*self);
        }
        self.add_expression(block_id, ExpressionKind::UnitLiteral)
    }

    /// Adds a Text literal holding exactly `value` to Block `block_id`.
    pub fn add_text_literal(&mut self, block_id: BlockId, value: &str) -> (r: Result<ExpressionId, MutationError>)
        ensures
            *final(final(self).program_ref()) == *final(old(self).program_ref()),
            (final(self)@, r) == when_active(old(self)@, add_expression_outcome(old(self)@, block_id, KindView::TextLiteral(value@))),
            r matches Ok(id) ==> !old(self)@.provisional.expressions.contains(expression_key(id))
                && !old(self)@.program.revision.history.expressions.contains(expression_key(id)),
    {
        proof {
            use_type_invariant(&*self);
        }
        self.add_expression(block_id, ExpressionKind::TextLiteral(value.to_owned()))
    }

    /// Adds a Bytes literal holding exactly `value` to Block `block_id`.
    pub fn add_bytes_literal(&mut self, block_id: BlockId, value: Vec<u8>) -> (r: Result<ExpressionId, MutationError>)
        ensures
            *final(final(self).program_ref()) == *final(old(self).program_ref()),
            (final(self)@, r) == when_active(old(self)@, add_expression_outcome(old(self)@, block_id, KindView::BytesLiteral(value@))),
            r matches Ok(id) ==> !old(self)@.provisional.expressions.contains(expression_key(id))
                && !old(self)@.program.revision.history.expressions.contains(expression_key(id)),
    {
        proof {
            use_type_invariant(&*self);
        }
        self.add_expression(block_id, ExpressionKind::BytesLiteral(value))
    }

    /// Adds a reference to Parameter `parameter_id` of the owning Function to Block `block_id`.
    pub fn add_parameter_reference(&mut self, block_id: BlockId, parameter_id: ParameterId) -> (r: Result<ExpressionId, MutationError>)
        ensures
            *final(final(self).program_ref()) == *final(old(self).program_ref()),
            (final(self)@, r) == when_active(old(self)@, add_expression_outcome(old(self)@, block_id, KindView::ParameterReference(parameter_id))),
            r matches Ok(id) ==> !old(self)@.provisional.expressions.contains(expression_key(id))
                && !old(self)@.program.revision.history.expressions.contains(expression_key(id)),
    {
        proof {
            use_type_invariant(&*self);
        }
        self.add_expression(block_id, ExpressionKind::ParameterReference(parameter_id))
    }

    /// Adds an addition of two Expressions of Block `block_id` to it.
    pub fn add_add_expression(&mut self, block_id: BlockId, left: ExpressionId, right: ExpressionId) -> (r: Result<ExpressionId, MutationError>)
        ensures
            *final(final(self).program_ref()) == *final(old(self).program_ref()),
            (final(self)@, r) == when_active(old(self)@, add_expression_outcome(old(self)@, block_id, KindView::Add { left, right })),
            r matches Ok(id) ==> !old(self)@.provisional.expressions.contains(expression_key(id))
                && !old(self)@.program.revision.history.expressions.contains(expression_key(id)),
    {
        proof {
            use_type_invariant(&*self);
        }
        self.add_expression(block_id, ExpressionKind::Add { left, right })
    }

    /// Adds a subtraction of two Expressions of Block `block_id` to it.
    pub fn add_subtract_expression(&mut self, block_id: BlockId, left: ExpressionId, right: ExpressionId) -> (r: Result<ExpressionId, MutationError>)
        ensures
            *final(final(self).program_ref()) == *final(old(self).program_ref()),
            (final(self)@, r) == when_active(old(self)@, add_expression_outcome(old(self)@, block_id, KindView::Subtract { left, right })),
            r matches Ok(id) ==> !old(self)@.provisional.expressions.contains(expression_key(id))
                && !old(self)@.program.revision.history.expressions.contains(expression_key(id)),
    {
        proof {
            use_type_invariant(&*self);
        }
        self.add_expression(block_id, ExpressionKind::Subtract { left, right })
    }

    /// Adds a multiplication of two Expressions of Block `block_id` to it.
    pub fn add_multiply_expression(&mut self, block_id: BlockId, left: ExpressionId, right: ExpressionId) -> (r: Result<ExpressionId, MutationError>)
        ensures
            *final(final(self).program_ref()) == *final(old(self).program_ref()),
            (final(self)@, r) == when_active(old(self)@, add_expression_outcome(old(self)@, block_id, KindView::Multiply { left, right })),
            r matches Ok(id) ==> !old(self)@.provisional.expressions.contains(expression_key(id))
                && !old(self)@.program.revision.history.expressions.contains(expression_key(id)),
    {
        proof {
            use_type_invariant(&*self);
        }
        self.add_expression(block_id, ExpressionKind::Multiply { left, right })
    }

    /// Adds a division of two Expressions of Block `block_id` to it.
    pub fn add_divide_expression(&mut self, block_id: BlockId, left: ExpressionId, right: ExpressionId) -> (r: Result<ExpressionId, MutationError>)
        ensures
            *final(final(self).program_ref()) == *final(old(self).program_ref()),
            (final(self)@, r) == when_active(old(self)@, add_expression_outcome(old(self)@, block_id, KindView::Divide { left, right })),
            r matches Ok(id) ==> !old(self)@.provisional.expressions.contains(expression_key(id))
                && !old(self)@.program.revision.history.expressions.contains(expression_key(id)),
    {
        proof {
            use_type_invariant(&*self);
        }
        self.add_expression(block_id, ExpressionKind::Divide { left, right })
    }

    /// Adds a remainder of two Expressions of Block `block_id` to it.
    pub fn add_remainder_expression(&mut self, block_id: BlockId, left: ExpressionId, right: ExpressionId) -> (r: Result<ExpressionId, MutationError>)
        ensures
            *final(final(self).program_ref()) == *final(old(self).program_ref()),
            (final(self)@, r) == when_active(old(self)@, add_expression_outcome(old(self)@, block_id, KindView::Remainder { left, right })),
            r matches Ok(id) ==> !old(self)@.provisional.expressions.contains(expression_key(id))
                && !old(self)@.program.revision.history.expressions.contains(expression_key(id)),
    {
        proof {
            use_type_invariant(&*self);
        }
        self.add_expression(block_id, ExpressionKind::Remainder { left, right })
    }

    /// Adds an equality comparison of two Expressions of Block `block_id` to it.
    pub fn add_equal_expression(&mut self, block_id: BlockId, left: ExpressionId, right: ExpressionId) -> (r: Result<ExpressionId, MutationError>)
        ensures
            *final(final(self).program_ref()) == *final(old(self).program_ref()),
            (final(self)@, r) == when_active(old(self)@, add_expression_outcome(old(self)@, block_id, KindView::Equal { left, right })),
            r matches Ok(id) ==> !old(self)@.provisional.expressions.contains(expression_key(id))
                && !old(self)@.program.revision.history.expressions.contains(expression_key(id)),
    {
        proof {
            use_type_invariant(&*self);
        }
        self.add_expression(block_id, ExpressionKind::Equal { left, right })
    }

    /// Adds an inequality comparison of two Expressions of Block `block_id` to it.
    pub fn add_not_equal_expression(&mut self, block_id: BlockId, left: ExpressionId, right: ExpressionId) -> (r: Result<ExpressionId, MutationError>)
        ensures
            *final(final(self).program_ref()) == *final(old(self).program_ref()),
            (final(self)@, r) == when_active(old(self)@, add_expression_outcome(old(self)@, block_id, KindView::NotEqual { left, right })),
            r matches Ok(id) ==> !old(self)@.provisional.expressions.contains(expression_key(id))
                && !old(self)@.program.revision.history.expressions.contains(expression_key(id)),
    {
        proof {
            use_type_invariant(&*self);
        }
        self.add_expression(block_id, ExpressionKind::NotEqual { left, right })
    }

    /// Adds a less-than comparison of two Expressions of Block `block_id` to it.
    pub fn add_less_than_expression(&mut self, block_id: BlockId, left: ExpressionId, right: ExpressionId) -> (r: Result<ExpressionId, MutationError>)
        ensures
            *final(final(self).program_ref()) == *final(old(self).program_ref()),
            (final(self)@, r) == when_active(old(self)@, add_expression_outcome(old(self)@, block_id, KindView::LessThan { left, right })),
            r matches Ok(id) ==> !old(self)@.provisional.expressions.contains(expression_key(id))
                && !old(self)@.program.revision.history.expressions.contains(expression_key(id)),
    {
        proof {
            use_type_invariant(&*self);
        }
        self.add_expression(block_id, ExpressionKind::LessThan { left, right })
    }

    /// Adds a less-than-or-equal comparison of two Expressions of Block `block_id` to it.
    pub fn add_less_than_or_equal_expression(&mut self, block_id: BlockId, left: ExpressionId, right: ExpressionId) -> (r: Result<ExpressionId, MutationError>)
        ensures
            *final(final(self).program_ref()) == *final(old(self).program_ref()),
            (final(self)@, r) == when_active(old(self)@, add_expression_outcome(old(self)@, block_id, KindView::LessThanOrEqual { left, right })),
            r matches Ok(id) ==> !old(self)@.provisional.expressions.contains(expression_key(id))
                && !old(self)@.program.revision.history.expressions.contains(expression_key(id)),
    {
        proof {
            use_type_invariant(&*self);
        }
        self.add_expression(block_id, ExpressionKind::LessThanOrEqual { left, right })
    }

    /// Adds a greater-than comparison of two Expressions of Block `block_id` to it.
    pub fn add_greater_than_expression(&mut self, block_id: BlockId, left: ExpressionId, right: ExpressionId) -> (r: Result<ExpressionId, MutationError>)
        ensures
            *final(final(self).program_ref()) == *final(old(self).program_ref()),
            (final(self)@, r) == when_active(old(self)@, add_expression_outcome(old(self)@, block_id, KindView::GreaterThan { left, right })),
            r matches Ok(id) ==> !old(self)@.provisional.expressions.contains(expression_key(id))
                && !old(self)@.program.revision.history.expressions.contains(expression_key(id)),
    {
        proof {
            use_type_invariant(&*self);
        }
        self.add_expression(block_id, ExpressionKind::GreaterThan { left, right })
    }

    /// Adds a greater-than-or-equal comparison of two Expressions of Block `block_id` to it.
    pub fn add_greater_than_or_equal_expression(&mut self, block_id: BlockId, left: ExpressionId, right: ExpressionId) -> (r: Result<ExpressionId, MutationError>)
        ensures
            *final(final(self).program_ref()) == *final(old(self).program_ref()),
            (final(self)@, r) == when_active(old(self)@, add_expression_outcome(old(self)@, block_id, KindView::GreaterThanOrEqual { left, right })),
            r matches Ok(id) ==> !old(self)@.provisional.expressions.contains(expression_key(id))
                && !old(self)@.program.revision.history.expressions.contains(expression_key(id)),
    {
        proof {
            use_type_invariant(&*self);
        }
        self.add_expression(block_id, ExpressionKind::GreaterThanOrEqual { left, right })
    }

    /// Adds a direct Call of Function `target` with Expressions of Block `block_id` as arguments.
    pub fn add_call_expression(&mut self, block_id: BlockId, target: FunctionId, arguments: Vec<ExpressionId>) -> (r: Result<ExpressionId, MutationError>)
        ensures
            *final(final(self).program_ref()) == *final(old(self).program_ref()),
            (final(self)@, r) == when_active(old(self)@, add_expression_outcome(old(self)@, block_id, KindView::Call { target, arguments: arguments@ })),
            r matches Ok(id) ==> !old(self)@.provisional.expressions.contains(expression_key(id))
                && !old(self)@.program.revision.history.expressions.contains(expression_key(id)),
    {
        proof {
            use_type_invariant(&*self);
        }
        self.add_expression(block_id, ExpressionKind::Call { target, arguments })
    }

    /// Adds a construction of Domain Type `type_id` from Expression `value` of Block `block_id`.
    pub fn add_domain_construct(&mut self, block_id: BlockId, type_id: TypeId, value: ExpressionId) -> (r: Result<ExpressionId, MutationError>)
        ensures
            *final(final(self).program_ref()) == *final(old(self).program_ref()),
            (final(self)@, r) == when_active(old(self)@, add_expression_outcome(old(self)@, block_id, KindView::DomainConstruct { type_id, value })),
            r matches Ok(id) ==> !old(self)@.provisional.expressions.contains(expression_key(id))
                && !old(self)@.program.revision.history.expressions.contains(expression_key(id)),
    {
        proof {
            use_type_invariant(&*self);
        }
        self.add_expression(block_id, ExpressionKind::DomainConstruct { type_id, value })
    }

    /// Adds a projection of Domain value `value` of Block `block_id` to its representation.
    pub fn add_domain_project(&mut self, block_id: BlockId, value: ExpressionId) -> (r: Result<ExpressionId, MutationError>)
        ensures
            *final(final(self).program_ref()) == *final(old(self).program_ref()),
            (final(self)@, r) == when_active(old(self)@, add_expression_outcome(old(self)@, block_id, KindView::DomainProject { value })),
            r matches Ok(id) ==> !old(self)@.provisional.expressions.contains(expression_key(id))
                && !old(self)@.program.revision.history.expressions.contains(expression_key(id)),
    {
        proof {
            use_type_invariant(&*self);
        }
        self.add_expression(block_id, ExpressionKind::DomainProject { value })
    }

}

/// The identity History after committing a transaction: the lineage's
/// History extended by the identities the transaction issued.
pub open spec fn committed_history(t: TransactionView) -> HistoryView {
    HistoryView {
        modules: merged(t.program.revision.history.modules, t.provisional.modules),
        functions: merged(t.program.revision.history.functions, t.provisional.functions),
        parameters: merged(t.program.revision.history.parameters, t.provisional.parameters),
        blocks: merged(t.program.revision.history.blocks, t.provisional.blocks),
        expressions: merged(t.program.revision.history.expressions, t.provisional.expressions),
    }
}

/// The committed History holds exactly the lineage's earlier History and
/// every identity the transaction issued.
pub proof fn lemma_committed_history_joins(t: TransactionView)
    ensures
        crate::program::history_joins(committed_history(t), t.program.revision.history, t.provisional),
{
    let h = committed_history(t);
    let a = t.program.revision.history;
    let b = t.provisional;
    assert forall|key: (u128, u64)| #[trigger] h.modules.contains(key) <==> a.modules.contains(key) || b.modules.contains(key) by {
        crate::program::lemma_merged_contains(a.modules, b.modules, key);
    }
    assert forall|key: (u128, u64)| #[trigger] h.functions.contains(key) <==> a.functions.contains(key) || b.functions.contains(key) by {
        crate::program::lemma_merged_contains(a.functions, b.functions, key);
    }
    assert forall|key: (u128, u64)| #[trigger] h.parameters.contains(key) <==> a.parameters.contains(key) || b.parameters.contains(key) by {
        crate::program::lemma_merged_contains(a.parameters, b.parameters, key);
    }
    assert forall|key: (u128, u64)| #[trigger] h.blocks.contains(key) <==> a.blocks.contains(key) || b.blocks.contains(key) by {
        crate::program::lemma_merged_contains(a.blocks, b.blocks, key);
    }
    assert forall|key: (u128, u64)| #[trigger] h.expressions.contains(key) <==> a.expressions.contains(key) || b.expressions.contains(key) by {
        crate::program::lemma_merged_contains(a.expressions, b.expressions, key);
    }
}

/// The transaction after committing its candidate as revision `n`.
pub open spec fn committed(t: TransactionView, n: u64) -> TransactionView {
    TransactionView {
        program: ProgramView {
            revision: RevisionView {
                revision_id: RevisionId(n),
                modules: t.candidate,
                history: committed_history(t),
            },
            next_revision: if n == u64::MAX {
                None
            } else {
                Some((n + 1) as u64)
            },
            ..t.program
        },
        state: TransactionState::Committed,
        ..t
    }
}

impl<'a> MutationTransaction<'a> {
    /// Validates the candidate and, when the lineage's head is still the
    /// source revision, installs it as the next committed revision and
    /// returns a snapshot of it. Any failure poisons the transaction and
    /// leaves the lineage's head unchanged.
    pub fn commit(&mut self) -> (r: Result<ProgramSnapshot, MutationError>)
        ensures
            *final(final(self).program_ref()) == *final(old(self).program_ref()),
            old(self)@.state != TransactionState::Active ==> final(self)@ == old(self)@ && (r matches Err(e)
                && e == MutationError::TransactionNotActive(old(self)@.state)),
            old(self)@.state == TransactionState::Active && old(self)@.program.revision.revision_id
                != old(self)@.source_revision ==> final(self)@ == failed(old(self)@) && (r matches Err(e)
                && e == (MutationError::SourceRevisionChanged {
                expected: old(self)@.source_revision,
                actual: old(self)@.program.revision.revision_id,
            })),
            old(self)@.state == TransactionState::Active && old(self)@.program.revision.revision_id
                == old(self)@.source_revision && !structurally_valid(old(self)@.candidate) ==> final(self)@
                == failed(old(self)@) && (r matches Err(MutationError::StructuralViolation(e))
                && program_violation(old(self)@.candidate, e)),
            old(self)@.state == TransactionState::Active && old(self)@.program.revision.revision_id
                == old(self)@.source_revision && structurally_valid(old(self)@.candidate) ==> match old(
                self,
            )@.program.next_revision {
                None => final(self)@ == failed(old(self)@) && (r matches Err(e) && e
                    == MutationError::IdentifierExhausted(IdentifierCategory::Revision)),
                Some(n) => final(self)@ == committed(old(self)@, n) && (r matches Ok(snapshot)
                    && snapshot@ == (SnapshotView {
                    program_id: final(self)@.program.program_id,
                    revision: final(self)@.program.revision,
                    namespace_id: final(self)@.program.namespace_id,
                    counter: final(self)@.program.counter,
                })),
            },
            r is Ok ==> crate::program::history_joins(
                final(self)@.program.revision.history,
                old(self)@.program.revision.history,
                old(self)@.provisional,
            ),
    {
        proof {
            use_type_invariant(&*self);
            lemma_committed_history_joins(self@);
        }
        if let Err(e) = self.require_active() {
            return Err(e);
        }
        let actual = self.program.revision_id();
        if actual != self.source_revision_id {
            let expected = self.source_revision_id;
            return Err(self.fail(MutationError::SourceRevisionChanged { expected, actual }));
        }
        if let Err(e) = validate_modules(&self.candidate) {
            return Err(self.fail(MutationError::StructuralViolation(e)));
        }
        let mut history = self.program.copy_history();
        let ghost before = history@;
        let ghost ns = self@.program.namespace_id;
        let ghost counter = self@.program.counter;
        proof {
            lemma_merged_issued(before.modules, self.provisional@.modules, ns, counter);
            lemma_merged_issued(before.functions, self.provisional@.functions, ns, counter);
            lemma_merged_issued(before.parameters, self.provisional@.parameters, ns, counter);
            lemma_merged_issued(before.blocks, self.provisional@.blocks, ns, counter);
            lemma_merged_issued(before.expressions, self.provisional@.expressions, ns, counter);
        }
        merge_keys(&mut history.modules, &self.provisional.modules);
        merge_keys(&mut history.functions, &self.provisional.functions);
        merge_keys(&mut history.parameters, &self.provisional.parameters);
        merge_keys(&mut history.blocks, &self.provisional.blocks);
        merge_keys(&mut history.expressions, &self.provisional.expressions);
        let modules = crate::model::copy_modules(&self.candidate);
        match self.program.install(modules, history) {
            Err(e) => Err(self.fail(e)),
            Ok(_) => {
                self.state = TransactionState::Committed;
                Ok(self.program.snapshot())
            },
        }
    }

    /// Abandons an active or failed transaction without changing the
    /// lineage.
    pub fn discard(&mut self) -> (r: Result<(), MutationError>)
        ensures
            *final(final(self).program_ref()) == *final(old(self).program_ref()),
            old(self)@.state == TransactionState::Active || old(self)@.state == TransactionState::Failed
                ==> r is Ok && final(self)@ == (TransactionView { state: TransactionState::Discarded, ..old(self)@ }),
            !(old(self)@.state == TransactionState::Active || old(self)@.state == TransactionState::Failed)
                ==> r == Err::<(), MutationError>(MutationError::TransactionNotActive(old(self)@.state))
                && final(self)@ == old(self)@,
    {
        proof {
            use_type_invariant(&*self);
        }
        match self.state {
            TransactionState::Active | TransactionState::Failed => {
                self.state = TransactionState::Discarded;
                Ok(())
            },
            state => Err(MutationError::TransactionNotActive(state)),
        }
    }
}


/// Once a transaction is done with, the lineage it borrowed is what the
/// transaction last saw of it.
pub proof fn lemma_transaction_resolved<'a>(t: MutationTransaction<'a>)
    requires
        has_resolved(t),
    ensures
        (*final(t.program_ref()))@ == t@.program,
{
}

} // verus!
