//! Canonical encoding of a persistence checkpoint.
//!
//! The wire form is described as a sequence of pieces: the bytes that the
//! writer appends, in order, and the checks that fail the encoding where a
//! checkpoint cannot be written. Collections are written in canonical
//! identity order, whatever order the checkpoint holds them in.
use vstd::prelude::*;
use vstd::string::StringSliceAdditionalSpecFns;
use vstd::utf8::encode_utf8;

use crate::body::{
    Block, BlockView, BodyView, Expression, ExpressionKind, ExpressionView, FunctionBody, KindView,
    Terminator, block_views, body_view, expression_views,
};
use crate::cbor::{bool_item, bytes_item, head, signed_item, text_item};
use crate::format::{
    ENVELOPE_LEN, EncodeError, FORMAT_MAJOR, FORMAT_MINOR, MAGIC, MAX_COLLECTION_COUNT, MAX_FILE_SIZE,
    MAX_ITEM_SIZE, PAYLOAD_LIMIT, envelope,
};
use crate::writer::{
    Piece, outcome, emit_array, emit_bool, emit_bytes, emit_i32, emit_i64, emit_text, emit_u64, emit_u8,
    encode_count, lemma_list_end, lemma_list_start, lemma_list_step, pieces_array, pieces_bool,
    pieces_bytes, pieces_count, pieces_list, pieces_signed, pieces_text, pieces_u64, wrote,
};
use crate::ids::{
    AllocationCounterState, AllocationNamespaceId, BlockId, ExpressionId, FunctionId,
    ParameterId, TypeId, be_bytes_of,
};
use crate::intrinsic::{IntrinsicType, ValueType};
use crate::model::{
    DomainType, Function, FunctionView, Module, ModuleView, Parameter, function_views,
    module_views,
};
use crate::order::{sorted_order, sorted_positions};
use crate::persistence::{CheckpointView, PersistenceSnapshot, RevisionCounterState, counter_state_of};
use crate::presentation::PresentationMetadata;

verus! {

broadcast use crate::writer::lemma_wrote_then, crate::writer::lemma_wrote_stop,
    crate::writer::lemma_wrote_within_limit, crate::writer::lemma_wrote_fail;

// ---------------------------------------------------------------------
// The pieces of each wire element.
// ---------------------------------------------------------------------

/// An entity identity: its namespace bytes and its counter.
pub open spec fn pieces_id(namespace: AllocationNamespaceId, counter: u64) -> Seq<Piece> {
    pieces_array(2) + pieces_bytes(be_bytes_of(namespace.0)) + pieces_u64(counter)
}

/// The stable wire tag of an intrinsic type.
pub open spec fn intrinsic_tag(intrinsic: IntrinsicType) -> u8 {
    match intrinsic {
        IntrinsicType::Int32 => 0,
        IntrinsicType::Int64 => 1,
        IntrinsicType::Bool => 2,
        IntrinsicType::Unit => 3,
        IntrinsicType::Text => 4,
        IntrinsicType::Bytes => 5,
    }
}

/// A value type: tag 0 and an intrinsic tag, or tag 1 and a Type identity.
pub open spec fn pieces_value_type(value_type: ValueType) -> Seq<Piece> {
    match value_type {
        ValueType::Intrinsic(intrinsic) => pieces_array(2) + pieces_u64(0) + pieces_u64(
            intrinsic_tag(intrinsic) as u64,
        ),
        ValueType::Domain(id) => pieces_array(2) + pieces_u64(1) + pieces_id(id.namespace_id, id.counter),
    }
}

/// An optional string: `[0]`, or `[1, text]`.
pub open spec fn pieces_text_option(value: Option<String>) -> Seq<Piece> {
    match value {
        None => pieces_array(1) + pieces_u64(0),
        Some(text) => if encode_utf8(text@).len() > MAX_ITEM_SIZE {
            seq![Piece::Fail(EncodeError::ResourceLimitExceeded)]
        } else {
            pieces_array(2) + pieces_u64(1) + pieces_text(encode_utf8(text@))
        },
    }
}

/// Presentation metadata: the optional preferred name and documentation.
pub open spec fn pieces_presentation(presentation: PresentationMetadata) -> Seq<Piece> {
    pieces_array(2) + pieces_text_option(presentation.preferred_name) + pieces_text_option(
        presentation.documentation,
    )
}

/// An Expression identity.
pub open spec fn pieces_expression_id(id: ExpressionId) -> Seq<Piece> {
    pieces_id(id.namespace_id, id.counter)
}

/// A binary Expression: its tag and two operands.
pub open spec fn pieces_binary(tag: u8, left: ExpressionId, right: ExpressionId) -> Seq<Piece> {
    pieces_array(3) + pieces_u64(tag as u64) + pieces_expression_id(left) + pieces_expression_id(right)
}

/// A list of Expression identities, in order: the arguments of a Call or
/// the effect sequence of a Block.
pub open spec fn id_list_parts(ids: Seq<ExpressionId>) -> Seq<Seq<Piece>> {
    Seq::new(ids.len(), |k: int| pieces_expression_id(ids[k]))
}

/// An Expression kind: its stable tag and its data.
pub open spec fn pieces_kind(kind: KindView) -> Seq<Piece> {
    match kind {
        KindView::Int32Literal(v) => pieces_array(2) + pieces_u64(0) + pieces_signed(v as int),
        KindView::Int64Literal(v) => pieces_array(2) + pieces_u64(1) + pieces_signed(v as int),
        KindView::BoolLiteral(v) => pieces_array(2) + pieces_u64(2) + pieces_bool(v),
        KindView::UnitLiteral => pieces_array(1) + pieces_u64(3),
        KindView::TextLiteral(text) => if encode_utf8(text).len() > MAX_ITEM_SIZE {
            seq![Piece::Fail(EncodeError::ResourceLimitExceeded)]
        } else {
            pieces_array(2) + pieces_u64(4) + pieces_text(encode_utf8(text))
        },
        KindView::BytesLiteral(bytes) => if bytes.len() > MAX_ITEM_SIZE {
            seq![Piece::Fail(EncodeError::ResourceLimitExceeded)]
        } else {
            pieces_array(2) + pieces_u64(5) + pieces_bytes(bytes)
        },
        KindView::ParameterReference(id) => pieces_array(2) + pieces_u64(6) + pieces_id(
            id.namespace_id,
            id.counter,
        ),
        KindView::Add { left, right } => pieces_binary(7, left, right),
        KindView::Subtract { left, right } => pieces_binary(8, left, right),
        KindView::Multiply { left, right } => pieces_binary(9, left, right),
        KindView::Divide { left, right } => pieces_binary(10, left, right),
        KindView::Remainder { left, right } => pieces_binary(11, left, right),
        KindView::Equal { left, right } => pieces_binary(12, left, right),
        KindView::NotEqual { left, right } => pieces_binary(13, left, right),
        KindView::LessThan { left, right } => pieces_binary(14, left, right),
        KindView::LessThanOrEqual { left, right } => pieces_binary(15, left, right),
        KindView::GreaterThan { left, right } => pieces_binary(16, left, right),
        KindView::GreaterThanOrEqual { left, right } => pieces_binary(17, left, right),
        KindView::Call { target, arguments } => pieces_array(3) + pieces_u64(18) + pieces_id(
            target.namespace_id,
            target.counter,
        ) + pieces_list(arguments.len() as int, id_list_parts(arguments)),
        KindView::DomainConstruct { type_id, value } => pieces_array(3) + pieces_u64(19) + pieces_id(
            type_id.namespace_id,
            type_id.counter,
        ) + pieces_expression_id(value),
        KindView::DomainProject { value } => pieces_array(2) + pieces_u64(20) + pieces_expression_id(
            value,
        ),
    }
}

/// A terminator: `[0, expression]` or `[1, condition, true, false]`.
pub open spec fn pieces_terminator(terminator: Terminator) -> Seq<Piece> {
    match terminator {
        Terminator::Return { expression } => pieces_array(2) + pieces_u64(0) + pieces_expression_id(
            expression,
        ),
        Terminator::Branch { condition, true_block, false_block } => pieces_array(4) + pieces_u64(1)
            + pieces_expression_id(condition) + pieces_id(true_block.namespace_id, true_block.counter)
            + pieces_id(false_block.namespace_id, false_block.counter),
    }
}

/// A Block terminator; a Block without one is no valid checkpoint.
pub open spec fn pieces_block_terminator(terminator: Option<Terminator>) -> Seq<Piece> {
    match terminator {
        Some(t) => pieces_terminator(t),
        None => seq![Piece::Fail(EncodeError::InvalidCheckpoint)],
    }
}

/// An Expression entry of a Block: its identity and kind.
pub open spec fn pieces_expression(expression: ExpressionView) -> Seq<Piece> {
    pieces_array(2) + pieces_expression_id(expression.id) + pieces_kind(expression.kind)
}

/// The keys of Expressions, in stored order.
pub open spec fn expression_key_list(expressions: Seq<ExpressionView>) -> Seq<(u128, u64)> {
    expressions.map_values(|e: ExpressionView| (e.id.namespace_id.0, e.id.counter))
}

/// The Expressions of a Block, in canonical order.
pub open spec fn expression_parts(expressions: Seq<ExpressionView>) -> Seq<Seq<Piece>> {
    let order = sorted_order(expression_key_list(expressions));
    Seq::new(order.len(), |k: int| pieces_expression(expressions[order[k]]))
}

/// A Block: identity, Expressions, effect sequence, and terminator.
pub open spec fn pieces_block(block: BlockView) -> Seq<Piece> {
    pieces_array(4) + pieces_id(block.id.namespace_id, block.id.counter) + pieces_list(
        block.expressions.len() as int,
        expression_parts(block.expressions),
    ) + pieces_list(block.effect_sequence.len() as int, id_list_parts(block.effect_sequence))
        + pieces_block_terminator(block.terminator)
}

/// The keys of Blocks, in stored order.
pub open spec fn block_key_list(blocks: Seq<BlockView>) -> Seq<(u128, u64)> {
    blocks.map_values(|b: BlockView| (b.id.namespace_id.0, b.id.counter))
}

/// The Blocks of a body, in canonical order.
pub open spec fn block_parts(blocks: Seq<BlockView>) -> Seq<Seq<Piece>> {
    let order = sorted_order(block_key_list(blocks));
    Seq::new(order.len(), |k: int| pieces_block(blocks[order[k]]))
}

/// An optional body: `[0]`, or `[1, [entry, blocks]]`.
pub open spec fn pieces_body(body: Option<BodyView>) -> Seq<Piece> {
    match body {
        None => pieces_array(1) + pieces_u64(0),
        Some(b) => pieces_array(2) + pieces_u64(1) + pieces_array(2) + pieces_id(
            b.entry_block_id.namespace_id,
            b.entry_block_id.counter,
        ) + pieces_list(b.blocks.len() as int, block_parts(b.blocks)),
    }
}

/// A Parameter: identity, value type, and presentation.
pub open spec fn pieces_parameter(parameter: Parameter) -> Seq<Piece> {
    pieces_array(3) + pieces_id(parameter.id.namespace_id, parameter.id.counter) + pieces_value_type(
        parameter.value_type,
    ) + pieces_presentation(parameter.presentation)
}

/// The Parameters of a Function, in declaration order.
pub open spec fn parameter_parts(parameters: Seq<Parameter>) -> Seq<Seq<Piece>> {
    Seq::new(parameters.len(), |k: int| pieces_parameter(parameters[k]))
}

/// A Function: identity, return type, Parameters, body, and presentation.
pub open spec fn pieces_function(function: FunctionView) -> Seq<Piece> {
    pieces_array(5) + pieces_id(function.id.namespace_id, function.id.counter) + pieces_value_type(
        function.return_type,
    ) + pieces_list(function.parameters.len() as int, parameter_parts(function.parameters))
        + pieces_body(function.body) + pieces_presentation(function.presentation)
}

/// A Domain Type: identity, representation tag, and presentation.
pub open spec fn pieces_domain_type(domain_type: DomainType) -> Seq<Piece> {
    pieces_array(3) + pieces_id(domain_type.id.namespace_id, domain_type.id.counter) + pieces_u64(
        intrinsic_tag(domain_type.representation) as u64,
    ) + pieces_presentation(domain_type.presentation)
}

/// The keys of Domain Types, in stored order.
pub open spec fn domain_type_key_list(domain_types: Seq<DomainType>) -> Seq<(u128, u64)> {
    domain_types.map_values(|d: DomainType| (d.id.namespace_id.0, d.id.counter))
}

/// The Domain Types of a Module, in canonical order.
pub open spec fn domain_type_parts(domain_types: Seq<DomainType>) -> Seq<Seq<Piece>> {
    let order = sorted_order(domain_type_key_list(domain_types));
    Seq::new(order.len(), |k: int| pieces_domain_type(domain_types[order[k]]))
}

/// The keys of Functions, in stored order.
pub open spec fn function_key_list(functions: Seq<FunctionView>) -> Seq<(u128, u64)> {
    functions.map_values(|f: FunctionView| (f.id.namespace_id.0, f.id.counter))
}

/// The Functions of a Module, in canonical order.
pub open spec fn function_parts(functions: Seq<FunctionView>) -> Seq<Seq<Piece>> {
    let order = sorted_order(function_key_list(functions));
    Seq::new(order.len(), |k: int| pieces_function(functions[order[k]]))
}

/// A Module: identity, presentation, Domain Types, and Functions.
pub open spec fn pieces_module(module: ModuleView) -> Seq<Piece> {
    pieces_array(4) + pieces_id(module.id.namespace_id, module.id.counter) + pieces_presentation(
        module.presentation,
    ) + pieces_list(module.domain_types.len() as int, domain_type_parts(module.domain_types))
        + pieces_list(module.functions.len() as int, function_parts(module.functions))
}

/// The keys of Modules, in stored order.
pub open spec fn module_key_list(modules: Seq<ModuleView>) -> Seq<(u128, u64)> {
    modules.map_values(|m: ModuleView| (m.id.namespace_id.0, m.id.counter))
}

/// The Modules of a Program, in canonical order.
pub open spec fn module_parts(modules: Seq<ModuleView>) -> Seq<Seq<Piece>> {
    let order = sorted_order(module_key_list(modules));
    Seq::new(order.len(), |k: int| pieces_module(modules[order[k]]))
}

/// The revision allocator: `[0, next]` with a nonzero next revision, or
/// `[1]` when exhausted.
pub open spec fn pieces_revision_counter(state: RevisionCounterState) -> Seq<Piece> {
    match state {
        RevisionCounterState::Available(next) => if next != 0 {
            pieces_array(2) + pieces_u64(0) + pieces_u64(next)
        } else {
            seq![Piece::Fail(EncodeError::InvalidCheckpoint)]
        },
        RevisionCounterState::Exhausted => pieces_array(1) + pieces_u64(1),
    }
}

/// The allocation authority: the namespace and its counter state.
pub open spec fn pieces_allocation_authority(
    namespace: AllocationNamespaceId,
    state: AllocationCounterState,
) -> Seq<Piece> {
    match state {
        AllocationCounterState::Available(next) => pieces_array(2) + pieces_bytes(
            be_bytes_of(namespace.0),
        ) + pieces_array(2) + pieces_u64(0) + pieces_u64(next),
        AllocationCounterState::Exhausted => pieces_array(2) + pieces_bytes(be_bytes_of(namespace.0))
            + pieces_array(1) + pieces_u64(1),
    }
}

/// The payload of a checkpoint: Program identity, revision, revision
/// allocator, allocation authority, and Modules.
pub open spec fn pieces_payload(checkpoint: CheckpointView) -> Seq<Piece> {
    pieces_array(5) + pieces_bytes(be_bytes_of(checkpoint.program_id.0)) + pieces_u64(
        checkpoint.revision.revision_id.0,
    ) + pieces_revision_counter(counter_state_of(checkpoint.next_revision))
        + pieces_allocation_authority(checkpoint.namespace_id, checkpoint.counter) + pieces_list(
        checkpoint.revision.modules.len() as int,
        module_parts(checkpoint.revision.modules),
    )
}

// ---------------------------------------------------------------------
// The writer.
// ---------------------------------------------------------------------

/// Writes one persistent identity: a two-item array of its namespace bytes
/// and counter.
pub fn encode_entity_id(out: &mut Vec<u8>, namespace: AllocationNamespaceId, counter: u64) -> (r: Result<(), EncodeError>)
    requires
        old(out).len() <= PAYLOAD_LIMIT,
    ensures
        wrote(old(out)@, final(out)@, r, pieces_id(namespace, counter)),
{
    let r = emit_array(out, 2);
    if r.is_err() {
        return r;
    }
    let bytes = namespace.persistent_bytes();
    let r = emit_bytes(out, bytes.as_slice());
    if r.is_err() {
        return r;
    }
    emit_u64(out, counter)
}

fn encode_expression_id(out: &mut Vec<u8>, id: ExpressionId) -> (r: Result<(), EncodeError>)
    requires
        old(out).len() <= PAYLOAD_LIMIT,
    ensures
        wrote(old(out)@, final(out)@, r, pieces_expression_id(id)),
{
    encode_entity_id(out, id.namespace_id, id.counter)
}

/// The stable wire tag of an intrinsic type.
pub fn intrinsic_tag_of(intrinsic: IntrinsicType) -> (r: u8)
    ensures
        r == intrinsic_tag(intrinsic),
{
    match intrinsic {
        IntrinsicType::Int32 => 0,
        IntrinsicType::Int64 => 1,
        IntrinsicType::Bool => 2,
        IntrinsicType::Unit => 3,
        IntrinsicType::Text => 4,
        IntrinsicType::Bytes => 5,
    }
}

/// Writes a value type: an intrinsic by its tag, a Domain Type by its
/// identity.
pub fn encode_value_type(out: &mut Vec<u8>, value_type: ValueType) -> (r: Result<(), EncodeError>)
    requires
        old(out).len() <= PAYLOAD_LIMIT,
    ensures
        wrote(old(out)@, final(out)@, r, pieces_value_type(value_type)),
{
    let r = emit_array(out, 2);
    if r.is_err() {
        return r;
    }
    match value_type {
        ValueType::Intrinsic(intrinsic) => {
            emit_u8(out, 0)?;
            emit_u8(out, intrinsic_tag_of(intrinsic))
        },
        ValueType::Domain(id) => {
            emit_u8(out, 1)?;
            encode_entity_id(out, id.namespace_id, id.counter)
        },
    }
}

fn encode_text_option(out: &mut Vec<u8>, value: &Option<String>) -> (r: Result<(), EncodeError>)
    requires
        old(out).len() <= PAYLOAD_LIMIT,
    ensures
        wrote(old(out)@, final(out)@, r, pieces_text_option(*value)),
{
    match value {
        None => {
            let r = emit_array(out, 1);
            if r.is_err() {
                return r;
            }
            emit_u8(out, 0)
        },
        Some(text) => {
            let text = text.as_str();
            if text.as_bytes().len() as u64 > MAX_ITEM_SIZE {
                return Err(EncodeError::ResourceLimitExceeded);
            }
            let r = emit_array(out, 2);
            if r.is_err() {
                return r;
            }
            emit_u8(out, 1)?;
            emit_text(out, text)
        },
    }
}

#[verifier::rlimit(40)]
fn encode_presentation(out: &mut Vec<u8>, presentation: &PresentationMetadata) -> (r: Result<(), EncodeError>)
    requires
        old(out).len() <= PAYLOAD_LIMIT,
    ensures
        wrote(old(out)@, final(out)@, r, pieces_presentation(*presentation)),
{
    let r = emit_array(out, 2);
    if r.is_err() {
        return r;
    }
    let r = encode_text_option(out, &presentation.preferred_name);
    if r.is_err() {
        return r;
    }
    encode_text_option(out, &presentation.documentation)
}

fn encode_binary(out: &mut Vec<u8>, tag: u8, left: ExpressionId, right: ExpressionId) -> (r: Result<(), EncodeError>)
    requires
        old(out).len() <= PAYLOAD_LIMIT,
    ensures
        wrote(old(out)@, final(out)@, r, pieces_binary(tag, left, right)),
{
    let r = emit_array(out, 3);
    if r.is_err() {
        return r;
    }
    emit_u8(out, tag)?;
    let r = encode_expression_id(out, left);
    if r.is_err() {
        return r;
    }
    encode_expression_id(out, right)
}

fn encode_id_list(out: &mut Vec<u8>, ids: &Vec<ExpressionId>) -> (r: Result<(), EncodeError>)
    requires
        old(out).len() <= PAYLOAD_LIMIT,
    ensures
        wrote(old(out)@, final(out)@, r, pieces_list(ids.len() as int, id_list_parts(ids@))),
{
    let ghost o0 = out@;
    let ghost parts = id_list_parts(ids@);
    let ghost c = pieces_count(ids.len() as int);
    let r = encode_count(out, ids.len());
    if r.is_err() {
        return r;
    }
    proof {
        lemma_list_start(o0, out@, r, c, parts);
    }
    let mut i: usize = 0;
    while i < ids.len()
        invariant
            i <= ids.len(),
            o0 == old(out)@,
            parts == id_list_parts(ids@),
            parts.len() == ids.len(),
            c == pieces_count(ids.len() as int),
            wrote(o0, out@, Ok(()), c + parts.take(i as int).flatten()),
        decreases ids.len() - i,
    {
        let ghost before = out@;
        let r = encode_expression_id(out, ids[i]);
        proof {
            lemma_list_step(o0, before, out@, r, c, parts, i as int);
        }
        if r.is_err() {
            return r;
        }
        i = i + 1;
    }
    proof {
        lemma_list_end(o0, out@, c, parts);
    }
    Ok(())
}

/// Writes the kind of an Expression: its stable tag, then its payload.
#[verifier::rlimit(40)]
pub fn encode_expression_kind(out: &mut Vec<u8>, kind: &ExpressionKind) -> (r: Result<(), EncodeError>)
    requires
        old(out).len() <= PAYLOAD_LIMIT,
    ensures
        wrote(old(out)@, final(out)@, r, pieces_kind(kind@)),
{
    match kind {
        ExpressionKind::Int32Literal(value) => {
            let r = emit_array(out, 2);
            if r.is_err() {
                return r;
            }
            emit_u8(out, 0)?;
            emit_i32(out, *value)
        },
        ExpressionKind::Int64Literal(value) => {
            let r = emit_array(out, 2);
            if r.is_err() {
                return r;
            }
            emit_u8(out, 1)?;
            emit_i64(out, *value)
        },
        ExpressionKind::BoolLiteral(value) => {
            let r = emit_array(out, 2);
            if r.is_err() {
                return r;
            }
            emit_u8(out, 2)?;
            emit_bool(out, *value)
        },
        ExpressionKind::UnitLiteral => {
            let r = emit_array(out, 1);
            if r.is_err() {
                return r;
            }
            emit_u8(out, 3)
        },
        ExpressionKind::TextLiteral(value) => {
            let text = value.as_str();
            if text.as_bytes().len() as u64 > MAX_ITEM_SIZE {
                return Err(EncodeError::ResourceLimitExceeded);
            }
            let r = emit_array(out, 2);
            if r.is_err() {
                return r;
            }
            emit_u8(out, 4)?;
            emit_text(out, text)
        },
        ExpressionKind::BytesLiteral(value) => {
            if value.len() as u64 > MAX_ITEM_SIZE {
                return Err(EncodeError::ResourceLimitExceeded);
            }
            let r = emit_array(out, 2);
            if r.is_err() {
                return r;
            }
            emit_u8(out, 5)?;
            emit_bytes(out, value.as_slice())
        },
        ExpressionKind::ParameterReference(id) => {
            let r = emit_array(out, 2);
            if r.is_err() {
                return r;
            }
            emit_u8(out, 6)?;
            encode_entity_id(out, id.namespace_id, id.counter)
        },
        ExpressionKind::DomainConstruct { type_id, value } => {
            let r = emit_array(out, 3);
            if r.is_err() {
                return r;
            }
            emit_u8(out, 19)?;
            let r = encode_entity_id(out, type_id.namespace_id, type_id.counter);
            if r.is_err() {
                return r;
            }
            encode_expression_id(out, *value)
        },
        ExpressionKind::DomainProject { value } => {
            let r = emit_array(out, 2);
            if r.is_err() {
                return r;
            }
            emit_u8(out, 20)?;
            encode_expression_id(out, *value)
        },
        ExpressionKind::Call { target, arguments } => {
            let r = emit_array(out, 3);
            if r.is_err() {
                return r;
            }
            emit_u8(out, 18)?;
            let r = encode_entity_id(out, target.namespace_id, target.counter);
            if r.is_err() {
                return r;
            }
            encode_id_list(out, arguments)
        },
        ExpressionKind::Add { left, right } => encode_binary(out, 7, *left, *right),
        ExpressionKind::Subtract { left, right } => encode_binary(out, 8, *left, *right),
        ExpressionKind::Multiply { left, right } => encode_binary(out, 9, *left, *right),
        ExpressionKind::Divide { left, right } => encode_binary(out, 10, *left, *right),
        ExpressionKind::Remainder { left, right } => encode_binary(out, 11, *left, *right),
        ExpressionKind::Equal { left, right } => encode_binary(out, 12, *left, *right),
        ExpressionKind::NotEqual { left, right } => encode_binary(out, 13, *left, *right),
        ExpressionKind::LessThan { left, right } => encode_binary(out, 14, *left, *right),
        ExpressionKind::LessThanOrEqual { left, right } => encode_binary(out, 15, *left, *right),
        ExpressionKind::GreaterThan { left, right } => encode_binary(out, 16, *left, *right),
        ExpressionKind::GreaterThanOrEqual { left, right } => encode_binary(out, 17, *left, *right),
    }
}

/// Writes a Block terminator: its stable tag, then its references.
pub fn encode_terminator(out: &mut Vec<u8>, terminator: Terminator) -> (r: Result<(), EncodeError>)
    requires
        old(out).len() <= PAYLOAD_LIMIT,
    ensures
        wrote(old(out)@, final(out)@, r, pieces_terminator(terminator)),
{
    match terminator {
        Terminator::Return { expression } => {
            let r = emit_array(out, 2);
            if r.is_err() {
                return r;
            }
            let r = emit_u8(out, 0);
            if r.is_err() {
                return r;
            }
            encode_expression_id(out, expression)
        },
        Terminator::Branch { condition, true_block, false_block } => {
            let r = emit_array(out, 4);
            if r.is_err() {
                return r;
            }
            let r = emit_u8(out, 1);
            if r.is_err() {
                return r;
            }
            let r = encode_expression_id(out, condition);
            if r.is_err() {
                return r;
            }
            let r = encode_entity_id(out, true_block.namespace_id, true_block.counter);
            if r.is_err() {
                return r;
            }
            encode_entity_id(out, false_block.namespace_id, false_block.counter)
        },
    }
}

fn encode_block_terminator(out: &mut Vec<u8>, terminator: &Option<Terminator>) -> (r: Result<(), EncodeError>)
    requires
        old(out).len() <= PAYLOAD_LIMIT,
    ensures
        wrote(old(out)@, final(out)@, r, pieces_block_terminator(*terminator)),
{
    match terminator {
        Some(t) => encode_terminator(out, *t),
        None => Err(EncodeError::InvalidCheckpoint),
    }
}

fn encode_expression(out: &mut Vec<u8>, expression: &Expression) -> (r: Result<(), EncodeError>)
    requires
        old(out).len() <= PAYLOAD_LIMIT,
    ensures
        wrote(old(out)@, final(out)@, r, pieces_expression(expression@)),
{
    let r = emit_array(out, 2);
    if r.is_err() {
        return r;
    }
    let r = encode_expression_id(out, expression.id);
    if r.is_err() {
        return r;
    }
    encode_expression_kind(out, &expression.kind)
}

fn expression_keys(expressions: &Vec<Expression>) -> (keys: Vec<(u128, u64)>)
    ensures
        keys@ == expression_key_list(expression_views(expressions@)),
{
    let mut keys: Vec<(u128, u64)> = Vec::new();
    let mut i: usize = 0;
    while i < expressions.len()
        invariant
            i <= expressions.len(),
            keys.len() == i,
            forall|j: int| 0 <= j < i ==> #[trigger] keys@[j] == (expressions@[j].id.namespace_id.0, expressions@[j].id.counter),
        decreases expressions.len() - i,
    {
        let id = expressions[i].id;
        keys.push((id.namespace_id.0, id.counter));
        i = i + 1;
    }
    assert(keys@ =~= expression_key_list(expression_views(expressions@)));
    keys
}

fn encode_expressions(out: &mut Vec<u8>, expressions: &Vec<Expression>) -> (r: Result<(), EncodeError>)
    requires
        old(out).len() <= PAYLOAD_LIMIT,
    ensures
        wrote(old(out)@, final(out)@, r, pieces_list(expressions.len() as int, expression_parts(expression_views(expressions@)))),
{
    let ghost o0 = out@;
    let ghost views = expression_views(expressions@);
    let ghost parts = expression_parts(views);
    let ghost c = pieces_count(expressions.len() as int);
    let r = encode_count(out, expressions.len());
    if r.is_err() {
        return r;
    }
    proof {
        lemma_list_start(o0, out@, r, c, parts);
    }
    let keys = expression_keys(expressions);
    let order = sorted_positions(&keys);
    let mut i: usize = 0;
    while i < order.len()
        invariant
            i <= order.len(),
            o0 == old(out)@,
            order.len() == expressions.len(),
            order@.map_values(|x: usize| x as int) == sorted_order(expression_key_list(views)),
            forall|j: int| 0 <= j < order.len() ==> #[trigger] order[j] < expressions.len(),
            views == expression_views(expressions@),
            parts == expression_parts(views),
            c == pieces_count(expressions.len() as int),
            wrote(o0, out@, Ok(()), c + parts.take(i as int).flatten()),
        decreases order.len() - i,
    {
        let k = order[i];
        let ghost before = out@;
        let r = encode_expression(out, &expressions[k]);
        proof {
            assert(parts[i as int] == pieces_expression(views[k as int]));
            lemma_list_step(o0, before, out@, r, c, parts, i as int);
        }
        if r.is_err() {
            return r;
        }
        i = i + 1;
    }
    proof {
        lemma_list_end(o0, out@, c, parts);
    }
    Ok(())
}

fn encode_block(out: &mut Vec<u8>, block: &Block) -> (r: Result<(), EncodeError>)
    requires
        old(out).len() <= PAYLOAD_LIMIT,
    ensures
        wrote(old(out)@, final(out)@, r, pieces_block(block@)),
{
    let r = emit_array(out, 4);
    if r.is_err() {
        return r;
    }
    let r = encode_entity_id(out, block.id.namespace_id, block.id.counter);
    if r.is_err() {
        return r;
    }
    let r = encode_expressions(out, &block.expressions);
    if r.is_err() {
        return r;
    }
    let r = encode_id_list(out, &block.effect_sequence);
    if r.is_err() {
        return r;
    }
    encode_block_terminator(out, &block.terminator)
}

fn block_keys(blocks: &Vec<Block>) -> (keys: Vec<(u128, u64)>)
    ensures
        keys@ == block_key_list(block_views(blocks@)),
{
    let mut keys: Vec<(u128, u64)> = Vec::new();
    let mut i: usize = 0;
    while i < blocks.len()
        invariant
            i <= blocks.len(),
            keys.len() == i,
            forall|j: int| 0 <= j < i ==> #[trigger] keys@[j] == (blocks@[j].id.namespace_id.0, blocks@[j].id.counter),
        decreases blocks.len() - i,
    {
        let id = blocks[i].id;
        keys.push((id.namespace_id.0, id.counter));
        i = i + 1;
    }
    assert(keys@ =~= block_key_list(block_views(blocks@)));
    keys
}

fn encode_blocks(out: &mut Vec<u8>, blocks: &Vec<Block>) -> (r: Result<(), EncodeError>)
    requires
        old(out).len() <= PAYLOAD_LIMIT,
    ensures
        wrote(old(out)@, final(out)@, r, pieces_list(blocks.len() as int, block_parts(block_views(blocks@)))),
{
    let ghost o0 = out@;
    let ghost views = block_views(blocks@);
    let ghost parts = block_parts(views);
    let ghost c = pieces_count(blocks.len() as int);
    let r = encode_count(out, blocks.len());
    if r.is_err() {
        return r;
    }
    proof {
        lemma_list_start(o0, out@, r, c, parts);
    }
    let keys = block_keys(blocks);
    let order = sorted_positions(&keys);
    let mut i: usize = 0;
    while i < order.len()
        invariant
            i <= order.len(),
            o0 == old(out)@,
            order.len() == blocks.len(),
            order@.map_values(|x: usize| x as int) == sorted_order(block_key_list(views)),
            forall|j: int| 0 <= j < order.len() ==> #[trigger] order[j] < blocks.len(),
            views == block_views(blocks@),
            parts == block_parts(views),
            c == pieces_count(blocks.len() as int),
            wrote(o0, out@, Ok(()), c + parts.take(i as int).flatten()),
        decreases order.len() - i,
    {
        let k = order[i];
        let ghost before = out@;
        let r = encode_block(out, &blocks[k]);
        proof {
            assert(parts[i as int] == pieces_block(views[k as int]));
            lemma_list_step(o0, before, out@, r, c, parts, i as int);
        }
        if r.is_err() {
            return r;
        }
        i = i + 1;
    }
    proof {
        lemma_list_end(o0, out@, c, parts);
    }
    Ok(())
}

fn encode_body(out: &mut Vec<u8>, body: &Option<FunctionBody>) -> (r: Result<(), EncodeError>)
    requires
        old(out).len() <= PAYLOAD_LIMIT,
    ensures
        wrote(old(out)@, final(out)@, r, pieces_body(body_view(*body))),
{
    match body {
        None => {
            let r = emit_array(out, 1);
            if r.is_err() {
                return r;
            }
            emit_u8(out, 0)
        },
        Some(body) => {
            let r = emit_array(out, 2);
            if r.is_err() {
                return r;
            }
            let r = emit_u8(out, 1);
            if r.is_err() {
                return r;
            }
            let r = emit_array(out, 2);
            if r.is_err() {
                return r;
            }
            let r = encode_entity_id(out, body.entry_block_id.namespace_id, body.entry_block_id.counter);
            if r.is_err() {
                return r;
            }
            encode_blocks(out, &body.blocks)
        },
    }
}

fn encode_parameter(out: &mut Vec<u8>, parameter: &Parameter) -> (r: Result<(), EncodeError>)
    requires
        old(out).len() <= PAYLOAD_LIMIT,
    ensures
        wrote(old(out)@, final(out)@, r, pieces_parameter(*parameter)),
{
    let r = emit_array(out, 3);
    if r.is_err() {
        return r;
    }
    let r = encode_entity_id(out, parameter.id.namespace_id, parameter.id.counter);
    if r.is_err() {
        return r;
    }
    let r = encode_value_type(out, parameter.value_type);
    if r.is_err() {
        return r;
    }
    encode_presentation(out, &parameter.presentation)
}

fn encode_parameters(out: &mut Vec<u8>, parameters: &Vec<Parameter>) -> (r: Result<(), EncodeError>)
    requires
        old(out).len() <= PAYLOAD_LIMIT,
    ensures
        wrote(old(out)@, final(out)@, r, pieces_list(parameters.len() as int, parameter_parts(parameters@))),
{
    let ghost o0 = out@;
    let ghost parts = parameter_parts(parameters@);
    let ghost c = pieces_count(parameters.len() as int);
    let r = encode_count(out, parameters.len());
    if r.is_err() {
        return r;
    }
    proof {
        lemma_list_start(o0, out@, r, c, parts);
    }
    let mut i: usize = 0;
    while i < parameters.len()
        invariant
            i <= parameters.len(),
            o0 == old(out)@,
            parts == parameter_parts(parameters@),
            c == pieces_count(parameters.len() as int),
            wrote(o0, out@, Ok(()), c + parts.take(i as int).flatten()),
        decreases parameters.len() - i,
    {
        let ghost before = out@;
        let r = encode_parameter(out, &parameters[i]);
        proof {
            lemma_list_step(o0, before, out@, r, c, parts, i as int);
        }
        if r.is_err() {
            return r;
        }
        i = i + 1;
    }
    proof {
        lemma_list_end(o0, out@, c, parts);
    }
    Ok(())
}

fn encode_function(out: &mut Vec<u8>, function: &Function) -> (r: Result<(), EncodeError>)
    requires
        old(out).len() <= PAYLOAD_LIMIT,
    ensures
        wrote(old(out)@, final(out)@, r, pieces_function(function@)),
{
    let r = emit_array(out, 5);
    if r.is_err() {
        return r;
    }
    let r = encode_entity_id(out, function.id.namespace_id, function.id.counter);
    if r.is_err() {
        return r;
    }
    let r = encode_value_type(out, function.return_type);
    if r.is_err() {
        return r;
    }
    let r = encode_parameters(out, &function.parameters);
    if r.is_err() {
        return r;
    }
    let r = encode_body(out, &function.body);
    if r.is_err() {
        return r;
    }
    encode_presentation(out, &function.presentation)
}

fn function_keys(functions: &Vec<Function>) -> (keys: Vec<(u128, u64)>)
    ensures
        keys@ == function_key_list(function_views(functions@)),
{
    let mut keys: Vec<(u128, u64)> = Vec::new();
    let mut i: usize = 0;
    while i < functions.len()
        invariant
            i <= functions.len(),
            keys.len() == i,
            forall|j: int| 0 <= j < i ==> #[trigger] keys@[j] == (functions@[j].id.namespace_id.0, functions@[j].id.counter),
        decreases functions.len() - i,
    {
        let id = functions[i].id;
        keys.push((id.namespace_id.0, id.counter));
        i = i + 1;
    }
    assert(keys@ =~= function_key_list(function_views(functions@)));
    keys
}

fn encode_functions(out: &mut Vec<u8>, functions: &Vec<Function>) -> (r: Result<(), EncodeError>)
    requires
        old(out).len() <= PAYLOAD_LIMIT,
    ensures
        wrote(old(out)@, final(out)@, r, pieces_list(functions.len() as int, function_parts(function_views(functions@)))),
{
    let ghost o0 = out@;
    let ghost views = function_views(functions@);
    let ghost parts = function_parts(views);
    let ghost c = pieces_count(functions.len() as int);
    let r = encode_count(out, functions.len());
    if r.is_err() {
        return r;
    }
    proof {
        lemma_list_start(o0, out@, r, c, parts);
    }
    let keys = function_keys(functions);
    let order = sorted_positions(&keys);
    let mut i: usize = 0;
    while i < order.len()
        invariant
            i <= order.len(),
            o0 == old(out)@,
            order.len() == functions.len(),
            order@.map_values(|x: usize| x as int) == sorted_order(function_key_list(views)),
            forall|j: int| 0 <= j < order.len() ==> #[trigger] order[j] < functions.len(),
            views == function_views(functions@),
            parts == function_parts(views),
            c == pieces_count(functions.len() as int),
            wrote(o0, out@, Ok(()), c + parts.take(i as int).flatten()),
        decreases order.len() - i,
    {
        let k = order[i];
        let ghost before = out@;
        let r = encode_function(out, &functions[k]);
        proof {
            assert(parts[i as int] == pieces_function(views[k as int]));
            lemma_list_step(o0, before, out@, r, c, parts, i as int);
        }
        if r.is_err() {
            return r;
        }
        i = i + 1;
    }
    proof {
        lemma_list_end(o0, out@, c, parts);
    }
    Ok(())
}

fn encode_domain_type(out: &mut Vec<u8>, domain_type: &DomainType) -> (r: Result<(), EncodeError>)
    requires
        old(out).len() <= PAYLOAD_LIMIT,
    ensures
        wrote(old(out)@, final(out)@, r, pieces_domain_type(*domain_type)),
{
    let r = emit_array(out, 3);
    if r.is_err() {
        return r;
    }
    let r = encode_entity_id(out, domain_type.id.namespace_id, domain_type.id.counter);
    if r.is_err() {
        return r;
    }
    let r = emit_u8(out, intrinsic_tag_of(domain_type.representation));
    if r.is_err() {
        return r;
    }
    encode_presentation(out, &domain_type.presentation)
}

fn domain_type_keys(domain_types: &Vec<DomainType>) -> (keys: Vec<(u128, u64)>)
    ensures
        keys@ == domain_type_key_list(domain_types@),
{
    let mut keys: Vec<(u128, u64)> = Vec::new();
    let mut i: usize = 0;
    while i < domain_types.len()
        invariant
            i <= domain_types.len(),
            keys.len() == i,
            forall|j: int| 0 <= j < i ==> #[trigger] keys@[j] == (domain_types@[j].id.namespace_id.0, domain_types@[j].id.counter),
        decreases domain_types.len() - i,
    {
        let id = domain_types[i].id;
        keys.push((id.namespace_id.0, id.counter));
        i = i + 1;
    }
    assert(keys@ =~= domain_type_key_list(domain_types@));
    keys
}

fn encode_domain_types(out: &mut Vec<u8>, domain_types: &Vec<DomainType>) -> (r: Result<(), EncodeError>)
    requires
        old(out).len() <= PAYLOAD_LIMIT,
    ensures
        wrote(old(out)@, final(out)@, r, pieces_list(domain_types.len() as int, domain_type_parts(domain_types@))),
{
    let ghost o0 = out@;
    let ghost parts = domain_type_parts(domain_types@);
    let ghost c = pieces_count(domain_types.len() as int);
    let r = encode_count(out, domain_types.len());
    if r.is_err() {
        return r;
    }
    proof {
        lemma_list_start(o0, out@, r, c, parts);
    }
    let keys = domain_type_keys(domain_types);
    let order = sorted_positions(&keys);
    let mut i: usize = 0;
    while i < order.len()
        invariant
            i <= order.len(),
            o0 == old(out)@,
            order.len() == domain_types.len(),
            order@.map_values(|x: usize| x as int) == sorted_order(domain_type_key_list(domain_types@)),
            forall|j: int| 0 <= j < order.len() ==> #[trigger] order[j] < domain_types.len(),
            parts == domain_type_parts(domain_types@),
            c == pieces_count(domain_types.len() as int),
            wrote(o0, out@, Ok(()), c + parts.take(i as int).flatten()),
        decreases order.len() - i,
    {
        let k = order[i];
        let ghost before = out@;
        let r = encode_domain_type(out, &domain_types[k]);
        proof {
            assert(parts[i as int] == pieces_domain_type(domain_types@[k as int]));
            lemma_list_step(o0, before, out@, r, c, parts, i as int);
        }
        if r.is_err() {
            return r;
        }
        i = i + 1;
    }
    proof {
        lemma_list_end(o0, out@, c, parts);
    }
    Ok(())
}

fn encode_module(out: &mut Vec<u8>, module: &Module) -> (r: Result<(), EncodeError>)
    requires
        old(out).len() <= PAYLOAD_LIMIT,
    ensures
        wrote(old(out)@, final(out)@, r, pieces_module(module@)),
{
    let r = emit_array(out, 4);
    if r.is_err() {
        return r;
    }
    let r = encode_entity_id(out, module.id.namespace_id, module.id.counter);
    if r.is_err() {
        return r;
    }
    let r = encode_presentation(out, &module.presentation);
    if r.is_err() {
        return r;
    }
    let r = encode_domain_types(out, &module.domain_types);
    if r.is_err() {
        return r;
    }
    encode_functions(out, &module.functions)
}

fn module_keys(modules: &Vec<Module>) -> (keys: Vec<(u128, u64)>)
    ensures
        keys@ == module_key_list(module_views(modules@)),
{
    let mut keys: Vec<(u128, u64)> = Vec::new();
    let mut i: usize = 0;
    while i < modules.len()
        invariant
            i <= modules.len(),
            keys.len() == i,
            forall|j: int| 0 <= j < i ==> #[trigger] keys@[j] == (modules@[j].id.namespace_id.0, modules@[j].id.counter),
        decreases modules.len() - i,
    {
        let id = modules[i].id;
        keys.push((id.namespace_id.0, id.counter));
        i = i + 1;
    }
    assert(keys@ =~= module_key_list(module_views(modules@)));
    keys
}

fn encode_modules(out: &mut Vec<u8>, modules: &Vec<Module>) -> (r: Result<(), EncodeError>)
    requires
        old(out).len() <= PAYLOAD_LIMIT,
    ensures
        wrote(old(out)@, final(out)@, r, pieces_list(modules.len() as int, module_parts(module_views(modules@)))),
{
    let ghost o0 = out@;
    let ghost views = module_views(modules@);
    let ghost parts = module_parts(views);
    let ghost c = pieces_count(modules.len() as int);
    let r = encode_count(out, modules.len());
    if r.is_err() {
        return r;
    }
    proof {
        lemma_list_start(o0, out@, r, c, parts);
    }
    let keys = module_keys(modules);
    let order = sorted_positions(&keys);
    let mut i: usize = 0;
    while i < order.len()
        invariant
            i <= order.len(),
            o0 == old(out)@,
            order.len() == modules.len(),
            order@.map_values(|x: usize| x as int) == sorted_order(module_key_list(views)),
            forall|j: int| 0 <= j < order.len() ==> #[trigger] order[j] < modules.len(),
            views == module_views(modules@),
            parts == module_parts(views),
            c == pieces_count(modules.len() as int),
            wrote(o0, out@, Ok(()), c + parts.take(i as int).flatten()),
        decreases order.len() - i,
    {
        let k = order[i];
        let ghost before = out@;
        let r = encode_module(out, &modules[k]);
        proof {
            assert(parts[i as int] == pieces_module(views[k as int]));
            lemma_list_step(o0, before, out@, r, c, parts, i as int);
        }
        if r.is_err() {
            return r;
        }
        i = i + 1;
    }
    proof {
        lemma_list_end(o0, out@, c, parts);
    }
    Ok(())
}

fn encode_revision_counter(out: &mut Vec<u8>, state: RevisionCounterState) -> (r: Result<(), EncodeError>)
    requires
        old(out).len() <= PAYLOAD_LIMIT,
    ensures
        wrote(old(out)@, final(out)@, r, pieces_revision_counter(state)),
{
    match state {
        RevisionCounterState::Available(next) => {
            if next == 0 {
                return Err(EncodeError::InvalidCheckpoint);
            }
            let r = emit_array(out, 2);
            if r.is_err() {
                return r;
            }
            let r = emit_u8(out, 0);
            if r.is_err() {
                return r;
            }
            emit_u64(out, next)
        },
        RevisionCounterState::Exhausted => {
            let r = emit_array(out, 1);
            if r.is_err() {
                return r;
            }
            emit_u8(out, 1)
        },
    }
}

fn encode_allocation_authority(
    out: &mut Vec<u8>,
    namespace: AllocationNamespaceId,
    state: AllocationCounterState,
) -> (r: Result<(), EncodeError>)
    requires
        old(out).len() <= PAYLOAD_LIMIT,
    ensures
        wrote(old(out)@, final(out)@, r, pieces_allocation_authority(namespace, state)),
{
    let r = emit_array(out, 2);
    if r.is_err() {
        return r;
    }
    let bytes = namespace.persistent_bytes();
    let r = emit_bytes(out, bytes.as_slice());
    if r.is_err() {
        return r;
    }
    match state {
        AllocationCounterState::Available(next) => {
            let r = emit_array(out, 2);
            if r.is_err() {
                return r;
            }
            let r = emit_u8(out, 0);
            if r.is_err() {
                return r;
            }
            emit_u64(out, next)
        },
        AllocationCounterState::Exhausted => {
            let r = emit_array(out, 1);
            if r.is_err() {
                return r;
            }
            emit_u8(out, 1)
        },
    }
}

fn encode_payload(out: &mut Vec<u8>, snapshot: &PersistenceSnapshot) -> (r: Result<(), EncodeError>)
    requires
        old(out).len() <= PAYLOAD_LIMIT,
    ensures
        wrote(old(out)@, final(out)@, r, pieces_payload(snapshot@)),
{
    let r = emit_array(out, 5);
    if r.is_err() {
        return r;
    }
    let program_bytes = snapshot.program_id().persistent_bytes();
    let r = emit_bytes(out, program_bytes.as_slice());
    if r.is_err() {
        return r;
    }
    let r = emit_u64(out, snapshot.revision_id().persistent_value());
    if r.is_err() {
        return r;
    }
    let r = encode_revision_counter(out, snapshot.revision_counter_state());
    if r.is_err() {
        return r;
    }
    let r = encode_allocation_authority(out, snapshot.allocation_namespace_id(), snapshot.allocation_counter_state());
    if r.is_err() {
        return r;
    }
    encode_modules(out, snapshot.module_list())
}

/// The exact bytes of the `.mnir` file of a checkpoint: the envelope, then
/// the payload; or the first reason why the checkpoint cannot be written.
pub open spec fn encoded_file(checkpoint: CheckpointView) -> Result<Seq<u8>, EncodeError> {
    match outcome(pieces_payload(checkpoint), 0) {
        Ok(payload) => Ok(envelope() + payload),
        Err(e) => Err(e),
    }
}

/// Encodes one immutable current-lineage checkpoint into exact format-1.0
/// bytes.
pub fn encode(snapshot: &PersistenceSnapshot) -> (r: Result<Vec<u8>, EncodeError>)
    ensures
        match r {
            Ok(bytes) => encoded_file(snapshot@) == Ok::<Seq<u8>, EncodeError>(bytes@),
            Err(e) => encoded_file(snapshot@) == Err::<Seq<u8>, EncodeError>(e),
        },
{
    let mut payload: Vec<u8> = Vec::new();
    let r = encode_payload(&mut payload, snapshot);
    proof {
        reveal(wrote);
    }
    if let Err(e) = r {
        return Err(e);
    }
    assert(payload.len() <= PAYLOAD_LIMIT);
    let total_len = ENVELOPE_LEN + payload.len();
    if total_len > MAX_FILE_SIZE {
        return Err(EncodeError::ResourceLimitExceeded);
    }
    let mut output: Vec<u8> = Vec::with_capacity(total_len);
    let mut i: usize = 0;
    while i < 8
        invariant
            i <= 8,
            output@ == envelope().take(i as int),
        decreases 8 - i,
    {
        output.push(MAGIC[i]);
        assert(output@ =~= envelope().take(i + 1));
        i = i + 1;
    }
    output.push((FORMAT_MAJOR / 256) as u8);
    output.push((FORMAT_MAJOR % 256) as u8);
    output.push((FORMAT_MINOR / 256) as u8);
    output.push((FORMAT_MINOR % 256) as u8);
    assert(output@ =~= envelope());
    let ghost written = payload@;
    output.append(&mut payload);
    assert(written =~= Seq::<u8>::empty() + written);
    Ok(output)
}

} // verus!
