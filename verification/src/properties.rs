//! What each operation is for, stated over its inputs and results: the
//! typing of arithmetic and comparisons, reconstruction of Expression
//! kinds, the byte layout of terminators, semantic equality of candidates,
//! and how observations raise what a lineage has reached.
use vstd::prelude::*;

use crate::authority::{
    AuthorityRecord, counter_older, lemma_record_index_of, observed, record_index, registry_wf,
    released, restored_claim,
};
use crate::body::{find_expression_in, BlockView, KindView, Terminator};
use crate::cbor::{bytes_item, head};
use crate::decode::wire_terminator;
use crate::encode::pieces_terminator;
use crate::error::ExpressionTypeError;
use crate::ids::{
    AllocationCounterState, AllocationNamespaceId, BlockId, ExpressionId, ProgramId, RevisionId,
    be_bytes_of,
};
use crate::intrinsic::{IntrinsicType, ValueType};
use crate::model::{FunctionView, ModuleView};
use crate::persistence::{PersistenceExpressionKind, entity_namespace, kind_of};
use crate::roundtrip::{at, flat, lemma_flat_concat, lemma_flat_single, lemma_terminator_at};
use crate::semantic::same_modules;
use crate::typing::expression_type_in;

verus! {

// ---------------------------------------------------------------------
// Expression types.
// ---------------------------------------------------------------------

/// The operands of an arithmetic Expression kind.
pub open spec fn arithmetic_operands(kind: KindView) -> Option<(ExpressionId, ExpressionId)> {
    match kind {
        KindView::Add { left, right } => Some((left, right)),
        KindView::Subtract { left, right } => Some((left, right)),
        KindView::Multiply { left, right } => Some((left, right)),
        KindView::Divide { left, right } => Some((left, right)),
        KindView::Remainder { left, right } => Some((left, right)),
        _ => None,
    }
}

/// The operands of a comparison Expression kind, and whether it orders.
pub open spec fn comparison_operands(kind: KindView) -> Option<(ExpressionId, ExpressionId, bool)> {
    match kind {
        KindView::Equal { left, right } => Some((left, right, false)),
        KindView::NotEqual { left, right } => Some((left, right, false)),
        KindView::LessThan { left, right } => Some((left, right, true)),
        KindView::LessThanOrEqual { left, right } => Some((left, right, true)),
        KindView::GreaterThan { left, right } => Some((left, right, true)),
        KindView::GreaterThanOrEqual { left, right } => Some((left, right, true)),
        _ => None,
    }
}

/// `t` is a checked integer type.
pub open spec fn is_integer(t: ValueType) -> bool {
    t == ValueType::Intrinsic(IntrinsicType::Int32) || t == ValueType::Intrinsic(IntrinsicType::Int64)
}

/// Arithmetic is defined on checked integers only: an arithmetic
/// Expression whose operands both have the integer type `t` has type `t`;
/// operands of one other type are unsupported, operands of two types do
/// not match, and an operand without a type leaves the Expression without
/// one.
pub proof fn law_arithmetic_is_integer_only(
    modules: Seq<ModuleView>,
    function: FunctionView,
    block: BlockView,
    id: ExpressionId,
    fuel: nat,
)
    requires
        fuel > 0,
        find_expression_in(block.expressions, id) is Some,
        arithmetic_operands(find_expression_in(block.expressions, id)->Some_0.kind) is Some,
    ensures
        ({
            let (left, right) = arithmetic_operands(find_expression_in(block.expressions, id)->Some_0.kind)->Some_0;
            let l = expression_type_in(modules, function, block, left, (fuel - 1) as nat);
            let r = expression_type_in(modules, function, block, right, (fuel - 1) as nat);
            let result = expression_type_in(modules, function, block, id, fuel);
            &&& (l is Err || r is Err) ==> result == Err::<ValueType, ExpressionTypeError>(
                ExpressionTypeError::OperandTypeUnavailable { expression_id: id },
            )
            &&& (l matches Ok(a) && r matches Ok(b) && a != b) ==> result == Err::<ValueType, ExpressionTypeError>(
                ExpressionTypeError::OperandTypeMismatch { expression_id: id, left_type: l->Ok_0, right_type: r->Ok_0 },
            )
            &&& (l matches Ok(a) && r == l && is_integer(a)) ==> result == l
            &&& (l matches Ok(a) && r == l && !is_integer(a)) ==> result == Err::<ValueType, ExpressionTypeError>(
                ExpressionTypeError::UnsupportedOperandType { expression_id: id, operand_type: l->Ok_0 },
            )
        }),
{
}

/// Comparisons give Bool: equality on operands of one intrinsic type,
/// ordering on operands of one integer type; operands of a Domain Type, or
/// ordered operands that are not integers, are unsupported.
pub proof fn law_comparisons_give_bool(
    modules: Seq<ModuleView>,
    function: FunctionView,
    block: BlockView,
    id: ExpressionId,
    fuel: nat,
)
    requires
        fuel > 0,
        find_expression_in(block.expressions, id) is Some,
        comparison_operands(find_expression_in(block.expressions, id)->Some_0.kind) is Some,
    ensures
        ({
            let (left, right, ordering) = comparison_operands(find_expression_in(block.expressions, id)->Some_0.kind)->Some_0;
            let l = expression_type_in(modules, function, block, left, (fuel - 1) as nat);
            let r = expression_type_in(modules, function, block, right, (fuel - 1) as nat);
            let result = expression_type_in(modules, function, block, id, fuel);
            &&& (l is Err || r is Err) ==> result == Err::<ValueType, ExpressionTypeError>(
                ExpressionTypeError::OperandTypeUnavailable { expression_id: id },
            )
            &&& (l matches Ok(a) && r matches Ok(b) && a != b) ==> result == Err::<ValueType, ExpressionTypeError>(
                ExpressionTypeError::OperandTypeMismatch { expression_id: id, left_type: l->Ok_0, right_type: r->Ok_0 },
            )
            &&& (l matches Ok(a) && r == l && (a is Domain || (ordering && !is_integer(a)))) ==> result == Err::<
                ValueType,
                ExpressionTypeError,
            >(ExpressionTypeError::UnsupportedOperandType { expression_id: id, operand_type: l->Ok_0 })
            &&& (l matches Ok(a) && r == l && a is Intrinsic && (!ordering || is_integer(a))) ==> result == Ok::<
                ValueType,
                ExpressionTypeError,
            >(ValueType::Intrinsic(IntrinsicType::Bool))
        }),
{
}

/// Literals have their own type; a Call has its target's return type; a
/// Domain construction has its Domain Type; a Parameter reference has the
/// Parameter's intrinsic type; and an unresolved reference is reported as
/// such.
pub proof fn law_operand_free_types(
    modules: Seq<ModuleView>,
    function: FunctionView,
    block: BlockView,
    id: ExpressionId,
    fuel: nat,
)
    requires
        find_expression_in(block.expressions, id) is Some,
    ensures
        ({
            let result = expression_type_in(modules, function, block, id, fuel);
            match find_expression_in(block.expressions, id)->Some_0.kind {
                KindView::Int32Literal(_) => result == Ok::<ValueType, ExpressionTypeError>(
                    ValueType::Intrinsic(IntrinsicType::Int32),
                ),
                KindView::Int64Literal(_) => result == Ok::<ValueType, ExpressionTypeError>(
                    ValueType::Intrinsic(IntrinsicType::Int64),
                ),
                KindView::BoolLiteral(_) => result == Ok::<ValueType, ExpressionTypeError>(
                    ValueType::Intrinsic(IntrinsicType::Bool),
                ),
                KindView::UnitLiteral => result == Ok::<ValueType, ExpressionTypeError>(
                    ValueType::Intrinsic(IntrinsicType::Unit),
                ),
                KindView::TextLiteral(_) => result == Ok::<ValueType, ExpressionTypeError>(
                    ValueType::Intrinsic(IntrinsicType::Text),
                ),
                KindView::BytesLiteral(_) => result == Ok::<ValueType, ExpressionTypeError>(
                    ValueType::Intrinsic(IntrinsicType::Bytes),
                ),
                KindView::Call { target, .. } => match crate::locate::find_function(modules, target) {
                    Some(f) => result == Ok::<ValueType, ExpressionTypeError>(f.return_type),
                    None => result == Err::<ValueType, ExpressionTypeError>(
                        ExpressionTypeError::UnresolvedFunction { expression_id: id, function_id: target },
                    ),
                },
                KindView::DomainConstruct { type_id, .. } => if crate::locate::find_domain_type(modules, type_id) is Some {
                    result == Ok::<ValueType, ExpressionTypeError>(ValueType::Domain(type_id))
                } else {
                    result == Err::<ValueType, ExpressionTypeError>(
                        ExpressionTypeError::UnresolvedDomainType { expression_id: id, type_id },
                    )
                },
                KindView::ParameterReference(p) => match crate::model::find_parameter_in(function.parameters, p) {
                    Some(parameter) => parameter.value_type is Intrinsic ==> result == Ok::<ValueType, ExpressionTypeError>(
                        parameter.value_type,
                    ),
                    None => result == Err::<ValueType, ExpressionTypeError>(
                        ExpressionTypeError::UnresolvedParameter { expression_id: id, parameter_id: p },
                    ),
                },
                _ => true,
            }
        }),
{
}

// ---------------------------------------------------------------------
// Reconstruction of Expression kinds.
// ---------------------------------------------------------------------

/// Reconstruction keeps every Expression kind: literals keep their payload
/// exactly, and every reference keeps the namespace and counter it names,
/// in its position.
pub proof fn law_reconstruction_keeps_expression_kinds(kind: PersistenceExpressionKind)
    ensures
        match kind {
            PersistenceExpressionKind::Int32Literal(v) => kind_of(kind) == KindView::Int32Literal(v),
            PersistenceExpressionKind::Int64Literal(v) => kind_of(kind) == KindView::Int64Literal(v),
            PersistenceExpressionKind::BoolLiteral(v) => kind_of(kind) == KindView::BoolLiteral(v),
            PersistenceExpressionKind::UnitLiteral => kind_of(kind) == KindView::UnitLiteral,
            PersistenceExpressionKind::TextLiteral(v) => kind_of(kind) == KindView::TextLiteral(v@),
            PersistenceExpressionKind::BytesLiteral(v) => kind_of(kind) == KindView::BytesLiteral(v@),
            PersistenceExpressionKind::ParameterReference(p) => kind_of(kind) matches KindView::ParameterReference(q)
                && q.namespace_id == entity_namespace(p) && q.counter == p.counter,
            PersistenceExpressionKind::Add { left, right } => kind_of(kind) matches KindView::Add { left: l, right: r }
                && l.namespace_id == entity_namespace(left) && l.counter == left.counter
                && r.namespace_id == entity_namespace(right) && r.counter == right.counter,
            PersistenceExpressionKind::Subtract { left, right } => kind_of(kind) matches KindView::Subtract { left: l, right: r }
                && l.namespace_id == entity_namespace(left) && l.counter == left.counter
                && r.namespace_id == entity_namespace(right) && r.counter == right.counter,
            PersistenceExpressionKind::Multiply { left, right } => kind_of(kind) matches KindView::Multiply { left: l, right: r }
                && l.namespace_id == entity_namespace(left) && l.counter == left.counter
                && r.namespace_id == entity_namespace(right) && r.counter == right.counter,
            PersistenceExpressionKind::Divide { left, right } => kind_of(kind) matches KindView::Divide { left: l, right: r }
                && l.namespace_id == entity_namespace(left) && l.counter == left.counter
                && r.namespace_id == entity_namespace(right) && r.counter == right.counter,
            PersistenceExpressionKind::Remainder { left, right } => kind_of(kind) matches KindView::Remainder { left: l, right: r }
                && l.namespace_id == entity_namespace(left) && l.counter == left.counter
                && r.namespace_id == entity_namespace(right) && r.counter == right.counter,
            PersistenceExpressionKind::Equal { left, right } => kind_of(kind) matches KindView::Equal { left: l, right: r }
                && l.namespace_id == entity_namespace(left) && l.counter == left.counter
                && r.namespace_id == entity_namespace(right) && r.counter == right.counter,
            PersistenceExpressionKind::NotEqual { left, right } => kind_of(kind) matches KindView::NotEqual { left: l, right: r }
                && l.namespace_id == entity_namespace(left) && l.counter == left.counter
                && r.namespace_id == entity_namespace(right) && r.counter == right.counter,
            PersistenceExpressionKind::LessThan { left, right } => kind_of(kind) matches KindView::LessThan { left: l, right: r }
                && l.namespace_id == entity_namespace(left) && l.counter == left.counter
                && r.namespace_id == entity_namespace(right) && r.counter == right.counter,
            PersistenceExpressionKind::LessThanOrEqual { left, right } => kind_of(kind) matches KindView::LessThanOrEqual {
                left: l,
                right: r,
            } && l.namespace_id == entity_namespace(left) && l.counter == left.counter
                && r.namespace_id == entity_namespace(right) && r.counter == right.counter,
            PersistenceExpressionKind::GreaterThan { left, right } => kind_of(kind) matches KindView::GreaterThan { left: l, right: r }
                && l.namespace_id == entity_namespace(left) && l.counter == left.counter
                && r.namespace_id == entity_namespace(right) && r.counter == right.counter,
            PersistenceExpressionKind::GreaterThanOrEqual { left, right } => kind_of(kind) matches KindView::GreaterThanOrEqual {
                left: l,
                right: r,
            } && l.namespace_id == entity_namespace(left) && l.counter == left.counter
                && r.namespace_id == entity_namespace(right) && r.counter == right.counter,
            PersistenceExpressionKind::Call { target, arguments } => kind_of(kind) matches KindView::Call { target: t, arguments: a }
                && t.namespace_id == entity_namespace(target) && t.counter == target.counter && a.len() == arguments@.len()
                && forall|k: int| 0 <= k < a.len() ==> (#[trigger] a[k]).namespace_id == entity_namespace(arguments@[k])
                && a[k].counter == arguments@[k].counter,
            PersistenceExpressionKind::DomainConstruct { type_id, value } => kind_of(kind) matches KindView::DomainConstruct {
                type_id: t,
                value: v,
            } && t.namespace_id == entity_namespace(type_id) && t.counter == type_id.counter
                && v.namespace_id == entity_namespace(value) && v.counter == value.counter,
            PersistenceExpressionKind::DomainProject { value } => kind_of(kind) matches KindView::DomainProject { value: v }
                && v.namespace_id == entity_namespace(value) && v.counter == value.counter,
        },
{
}

/// Reconstruction keeps every terminator and value type: the same tag,
/// and the same namespace and counter in every reference, in its position.
pub proof fn law_reconstruction_keeps_terminators_and_types(
    terminator: crate::persistence::PersistenceTerminator,
    value_type: crate::persistence::PersistenceValueType,
)
    ensures
        match terminator {
            crate::persistence::PersistenceTerminator::Return { expression } => crate::persistence::terminator_of(terminator)
                matches Terminator::Return { expression: e } && e.namespace_id == entity_namespace(expression)
                && e.counter == expression.counter,
            crate::persistence::PersistenceTerminator::Branch { condition, true_block, false_block } =>
                crate::persistence::terminator_of(terminator) matches Terminator::Branch {
                condition: c,
                true_block: t,
                false_block: f,
            } && c.namespace_id == entity_namespace(condition) && c.counter == condition.counter && t.namespace_id
                == entity_namespace(true_block) && t.counter == true_block.counter && f.namespace_id == entity_namespace(
                false_block,
            ) && f.counter == false_block.counter,
        },
        match value_type {
            crate::persistence::PersistenceValueType::Intrinsic(i) => crate::persistence::value_type_of(value_type)
                == ValueType::Intrinsic(i),
            crate::persistence::PersistenceValueType::Domain(d) => crate::persistence::value_type_of(value_type) matches ValueType::Domain(
                t,
            ) && t.namespace_id == entity_namespace(d) && t.counter == d.counter,
        },
{
}

// ---------------------------------------------------------------------
// Terminator bytes.
// ---------------------------------------------------------------------

/// The canonical bytes of one identity: a two-item array of its sixteen
/// namespace bytes and its counter.
pub open spec fn identity_bytes(namespace: AllocationNamespaceId, counter: u64) -> Seq<u8> {
    head(4, 2) + bytes_item(be_bytes_of(namespace.0)) + head(0, counter)
}

/// The canonical bytes of a Branch: a four-item array of tag one, the
/// condition, the true target, then the false target.
pub open spec fn branch_bytes(condition: ExpressionId, true_block: BlockId, false_block: BlockId) -> Seq<u8> {
    head(4, 4) + head(0, 1) + identity_bytes(condition.namespace_id, condition.counter) + identity_bytes(
        true_block.namespace_id,
        true_block.counter,
    ) + identity_bytes(false_block.namespace_id, false_block.counter)
}

/// Terminators are written in a fixed layout: a Return as tag zero and its
/// Expression, a Branch as tag one, its condition, its true target and its
/// false target, in that order.
pub proof fn law_terminator_bytes(condition: ExpressionId, true_block: BlockId, false_block: BlockId)
    ensures
        flat(pieces_terminator(Terminator::Branch { condition, true_block, false_block })) == branch_bytes(
            condition,
            true_block,
            false_block,
        ),
        flat(pieces_terminator(Terminator::Return { expression: condition })) == head(4, 2) + head(0, 0)
            + identity_bytes(condition.namespace_id, condition.counter),
{
    broadcast use lemma_flat_concat, lemma_flat_single;

    let c = identity_bytes(condition.namespace_id, condition.counter);
    let t = identity_bytes(true_block.namespace_id, true_block.counter);
    let f = identity_bytes(false_block.namespace_id, false_block.counter);
    assert(flat(crate::encode::pieces_id(condition.namespace_id, condition.counter)) =~= c);
    assert(flat(crate::encode::pieces_id(true_block.namespace_id, true_block.counter)) =~= t);
    assert(flat(crate::encode::pieces_id(false_block.namespace_id, false_block.counter)) =~= f);
    assert(flat(pieces_terminator(Terminator::Branch { condition, true_block, false_block })) =~= head(4, 4)
        + head(0, 1) + c + t + f);
    assert(flat(pieces_terminator(Terminator::Return { expression: condition })) =~= head(4, 2) + head(0, 0) + c);
}

/// The array length and stable wire tag of each Expression kind.
pub open spec fn kind_shape(kind: KindView) -> (u64, u64) {
    match kind {
        KindView::Int32Literal(_) => (2, 0),
        KindView::Int64Literal(_) => (2, 1),
        KindView::BoolLiteral(_) => (2, 2),
        KindView::UnitLiteral => (1, 3),
        KindView::TextLiteral(_) => (2, 4),
        KindView::BytesLiteral(_) => (2, 5),
        KindView::ParameterReference(_) => (2, 6),
        KindView::Add { .. } => (3, 7),
        KindView::Subtract { .. } => (3, 8),
        KindView::Multiply { .. } => (3, 9),
        KindView::Divide { .. } => (3, 10),
        KindView::Remainder { .. } => (3, 11),
        KindView::Equal { .. } => (3, 12),
        KindView::NotEqual { .. } => (3, 13),
        KindView::LessThan { .. } => (3, 14),
        KindView::LessThanOrEqual { .. } => (3, 15),
        KindView::GreaterThan { .. } => (3, 16),
        KindView::GreaterThanOrEqual { .. } => (3, 17),
        KindView::Call { .. } => (3, 18),
        KindView::DomainConstruct { .. } => (3, 19),
        KindView::DomainProject { .. } => (2, 20),
    }
}

/// The two operands of a binary Expression kind, in order.
pub open spec fn binary_operands(kind: KindView) -> Option<(ExpressionId, ExpressionId)> {
    match kind {
        KindView::Add { left, right } | KindView::Subtract { left, right } | KindView::Multiply { left, right }
        | KindView::Divide { left, right } | KindView::Remainder { left, right } | KindView::Equal { left, right }
        | KindView::NotEqual { left, right } | KindView::LessThan { left, right } | KindView::LessThanOrEqual {
            left,
            right,
        } | KindView::GreaterThan { left, right } | KindView::GreaterThanOrEqual { left, right } => Some((left, right)),
        _ => None,
    }
}

/// Every Expression kind is written as an array of its fixed length whose
/// first item is its stable wire tag; a binary kind then holds its left and
/// its right operand, in that order, and Bool and Unit literals and
/// references are written in full.
pub proof fn law_expression_kind_layout(kind: KindView)
    requires
        kind matches KindView::TextLiteral(text) ==> vstd::utf8::encode_utf8(text).len() <= crate::format::MAX_ITEM_SIZE,
        kind matches KindView::BytesLiteral(bytes) ==> bytes.len() <= crate::format::MAX_ITEM_SIZE,
    ensures
        flat(crate::encode::pieces_kind(kind)).len() >= 2,
        flat(crate::encode::pieces_kind(kind)).take(2) == seq![(128 + kind_shape(kind).0) as u8, kind_shape(kind).1 as u8],
        binary_operands(kind) matches Some((left, right)) ==> flat(crate::encode::pieces_kind(kind)) == head(4, 3)
            + head(0, kind_shape(kind).1) + identity_bytes(left.namespace_id, left.counter) + identity_bytes(
            right.namespace_id,
            right.counter,
        ),
        kind matches KindView::BoolLiteral(v) ==> flat(crate::encode::pieces_kind(kind)) == seq![
            0x82u8,
            0x02u8,
            if v { 0xf5u8 } else { 0xf4u8 },
        ],
        kind == KindView::UnitLiteral ==> flat(crate::encode::pieces_kind(kind)) == seq![0x81u8, 0x03u8],
        kind matches KindView::ParameterReference(p) ==> flat(crate::encode::pieces_kind(kind)) == head(4, 2) + head(0, 6)
            + identity_bytes(p.namespace_id, p.counter),
        kind matches KindView::DomainProject { value } ==> flat(crate::encode::pieces_kind(kind)) == head(4, 2) + head(
            0,
            20,
        ) + identity_bytes(value.namespace_id, value.counter),
        kind matches KindView::DomainConstruct { type_id, value } ==> flat(crate::encode::pieces_kind(kind)) == head(4, 3)
            + head(0, 19) + identity_bytes(type_id.namespace_id, type_id.counter) + identity_bytes(
            value.namespace_id,
            value.counter,
        ),
{
    broadcast use lemma_flat_concat, lemma_flat_single;

    let (n, tag) = kind_shape(kind);
    let b = flat(crate::encode::pieces_kind(kind));
    match kind {
        KindView::Add { left, right } | KindView::Subtract { left, right } | KindView::Multiply { left, right }
        | KindView::Divide { left, right } | KindView::Remainder { left, right } | KindView::Equal { left, right }
        | KindView::NotEqual { left, right } | KindView::LessThan { left, right } | KindView::LessThanOrEqual {
            left,
            right,
        } | KindView::GreaterThan { left, right } | KindView::GreaterThanOrEqual { left, right } => {
            let l = identity_bytes(left.namespace_id, left.counter);
            let r = identity_bytes(right.namespace_id, right.counter);
            assert(flat(crate::encode::pieces_id(left.namespace_id, left.counter)) =~= l);
            assert(flat(crate::encode::pieces_id(right.namespace_id, right.counter)) =~= r);
            assert(b =~= head(4, 3) + head(0, tag) + l + r);
        },
        KindView::ParameterReference(p) => {
            let x = identity_bytes(p.namespace_id, p.counter);
            assert(flat(crate::encode::pieces_id(p.namespace_id, p.counter)) =~= x);
            assert(b =~= head(4, 2) + head(0, 6) + x);
        },
        KindView::DomainProject { value } => {
            let x = identity_bytes(value.namespace_id, value.counter);
            assert(flat(crate::encode::pieces_id(value.namespace_id, value.counter)) =~= x);
            assert(b =~= head(4, 2) + head(0, 20) + x);
        },
        KindView::DomainConstruct { type_id, value } => {
            let x = identity_bytes(type_id.namespace_id, type_id.counter);
            let y = identity_bytes(value.namespace_id, value.counter);
            assert(flat(crate::encode::pieces_id(type_id.namespace_id, type_id.counter)) =~= x);
            assert(flat(crate::encode::pieces_id(value.namespace_id, value.counter)) =~= y);
            assert(b =~= head(4, 3) + head(0, 19) + x + y);
        },
        KindView::Call { target, arguments } => {
            let x = identity_bytes(target.namespace_id, target.counter);
            assert(flat(crate::encode::pieces_id(target.namespace_id, target.counter)) =~= x);
            assert(b =~= head(4, 3) + head(0, 18) + x + flat(
                crate::writer::pieces_list(arguments.len() as int, crate::encode::id_list_parts(arguments)),
            ));
        },
        KindView::Int32Literal(v) => {
            assert(b =~= head(4, 2) + head(0, 0) + crate::cbor::signed_item(v as int));
        },
        KindView::Int64Literal(v) => {
            assert(b =~= head(4, 2) + head(0, 1) + crate::cbor::signed_item(v as int));
        },
        KindView::TextLiteral(text) => {
            assert(b =~= head(4, 2) + head(0, 4) + crate::cbor::text_item(vstd::utf8::encode_utf8(text)));
        },
        KindView::BytesLiteral(bytes) => {
            assert(b =~= head(4, 2) + head(0, 5) + bytes_item(bytes));
        },
        _ => {},
    }
    assert(b.take(2) =~= seq![(128 + n) as u8, tag as u8]);
}

/// A Branch read back from its canonical bytes keeps its targets: the first
/// target read is the true target, the second the false target.
pub proof fn law_branch_reads_back(b: Seq<u8>, pos: int, condition: ExpressionId, true_block: BlockId, false_block: BlockId)
    requires
        at(b, pos, branch_bytes(condition, true_block, false_block)),
    ensures
        wire_terminator(b, pos) == Ok::<(Terminator, int), crate::format::DecodeError>(
            (
                Terminator::Branch { condition, true_block, false_block },
                pos + branch_bytes(condition, true_block, false_block).len(),
            ),
        ),
{
    law_terminator_bytes(condition, true_block, false_block);
    lemma_terminator_at(b, pos, Terminator::Branch { condition, true_block, false_block }, 1);
}

// ---------------------------------------------------------------------
// Semantic no-ops.
// ---------------------------------------------------------------------

/// Two optional texts are both absent, or both present with the same
/// characters.
pub open spec fn same_text(a: Option<String>, b: Option<String>) -> bool {
    match (a, b) {
        (None, None) => true,
        (Some(x), Some(y)) => x@ == y@,
        _ => false,
    }
}

/// A candidate is semantically equal to its source exactly in what gives
/// it meaning: the same Modules, Domain Types, Functions and Parameters
/// with the same identities and types, and every Function with the same
/// body. Only presentation may differ, and that only in representation.
/// Every set of Modules is semantically equal to itself.
pub proof fn law_semantic_equality_keeps_meaning(a: Seq<ModuleView>, b: Seq<ModuleView>)
    ensures
        same_modules(a, a),
        same_modules(a, b) ==> {
            &&& a.len() == b.len()
            &&& forall|i: int| 0 <= i < a.len() ==> {
                &&& (#[trigger] a[i]).id == b[i].id
                &&& a[i].domain_types.len() == b[i].domain_types.len()
                &&& a[i].functions.len() == b[i].functions.len()
                &&& same_text(a[i].presentation.preferred_name, b[i].presentation.preferred_name)
                &&& same_text(a[i].presentation.documentation, b[i].presentation.documentation)
            }
            &&& forall|i: int, t: int| 0 <= i < a.len() && 0 <= t < a[i].domain_types.len() ==> {
                &&& (#[trigger] a[i].domain_types[t]).id == b[i].domain_types[t].id
                &&& a[i].domain_types[t].representation == b[i].domain_types[t].representation
            }
            &&& forall|i: int, j: int| 0 <= i < a.len() && 0 <= j < a[i].functions.len() ==> {
                &&& (#[trigger] a[i].functions[j]).id == b[i].functions[j].id
                &&& a[i].functions[j].return_type == b[i].functions[j].return_type
                &&& a[i].functions[j].body == b[i].functions[j].body
                &&& a[i].functions[j].parameters.len() == b[i].functions[j].parameters.len()
                &&& same_text(a[i].functions[j].presentation.preferred_name, b[i].functions[j].presentation.preferred_name)
                &&& same_text(a[i].functions[j].presentation.documentation, b[i].functions[j].presentation.documentation)
            }
            &&& forall|i: int, j: int, p: int|
                0 <= i < a.len() && 0 <= j < a[i].functions.len() && 0 <= p < a[i].functions[j].parameters.len() ==> {
                    &&& (#[trigger] a[i].functions[j].parameters[p]).id == b[i].functions[j].parameters[p].id
                    &&& a[i].functions[j].parameters[p].value_type == b[i].functions[j].parameters[p].value_type
                }
        },
{
    if same_modules(a, b) {
        assert forall|i: int, j: int| 0 <= i < a.len() && 0 <= j < a[i].functions.len() implies {
            &&& (#[trigger] a[i].functions[j]).id == b[i].functions[j].id
            &&& a[i].functions[j].return_type == b[i].functions[j].return_type
            &&& a[i].functions[j].body == b[i].functions[j].body
            &&& a[i].functions[j].parameters.len() == b[i].functions[j].parameters.len()
            &&& same_text(a[i].functions[j].presentation.preferred_name, b[i].functions[j].presentation.preferred_name)
            &&& same_text(a[i].functions[j].presentation.documentation, b[i].functions[j].presentation.documentation)
        } by {
            assert(crate::semantic::same_module(a[i], b[i]));
            assert(crate::semantic::same_function(a[i].functions[j], b[i].functions[j]));
        }
        assert forall|i: int, t: int| 0 <= i < a.len() && 0 <= t < a[i].domain_types.len() implies {
            &&& (#[trigger] a[i].domain_types[t]).id == b[i].domain_types[t].id
            &&& a[i].domain_types[t].representation == b[i].domain_types[t].representation
        } by {
            assert(crate::semantic::same_module(a[i], b[i]));
            assert(crate::semantic::same_domain_type(a[i].domain_types[t], b[i].domain_types[t]));
        }
        assert forall|i: int, j: int, p: int|
            0 <= i < a.len() && 0 <= j < a[i].functions.len() && 0 <= p < a[i].functions[j].parameters.len() implies {
                &&& (#[trigger] a[i].functions[j].parameters[p]).id == b[i].functions[j].parameters[p].id
                &&& a[i].functions[j].parameters[p].value_type == b[i].functions[j].parameters[p].value_type
            } by {
            assert(crate::semantic::same_module(a[i], b[i]));
            assert(crate::semantic::same_function(a[i].functions[j], b[i].functions[j]));
            assert(crate::semantic::same_parameter(a[i].functions[j].parameters[p], b[i].functions[j].parameters[p]));
        }
    }
    assert forall|i: int| 0 <= i < a.len() implies crate::semantic::same_module(#[trigger] a[i], a[i]) by {
        assert forall|j: int| 0 <= j < a[i].functions.len() implies crate::semantic::same_function(
            #[trigger] a[i].functions[j],
            a[i].functions[j],
        ) by {
            assert forall|p: int| 0 <= p < a[i].functions[j].parameters.len() implies crate::semantic::same_parameter(
                #[trigger] a[i].functions[j].parameters[p],
                a[i].functions[j].parameters[p],
            ) by {}
        }
        assert forall|t: int| 0 <= t < a[i].domain_types.len() implies crate::semantic::same_domain_type(
            #[trigger] a[i].domain_types[t],
            a[i].domain_types[t],
        ) by {}
    }
}

// ---------------------------------------------------------------------
// Observations of a lineage.
// ---------------------------------------------------------------------

/// An observation raises what a lineage has reached: the recorded revision
/// becomes the newer of the recorded and the observed one, the recorded
/// counter the more advanced of the two, and nothing else changes.
pub proof fn law_observation_raises_the_lineage(record: AuthorityRecord, revision: RevisionId, counter: AllocationCounterState)
    ensures
        ({
            let after = observed(record, revision, counter);
            &&& after.revision.0 >= revision.0
            &&& after.revision.0 >= record.revision.0
            &&& (after.revision == revision || after.revision == record.revision)
            &&& !counter_older(after.counter, counter)
            &&& !counter_older(after.counter, record.counter)
            &&& (after.counter == counter || after.counter == record.counter)
            &&& after.program_id == record.program_id
            &&& after.namespace == record.namespace
            &&& after.active_claim == record.active_claim
            &&& after.next_claim == record.next_claim
        }),
{
}

/// Ending a lease frees its lineage exactly when the lease held the active
/// claim; what the lineage reached is kept.
pub proof fn law_release_frees_only_the_holder(record: AuthorityRecord, claim: u64)
    ensures
        ({
            let after = released(record, claim);
            &&& record.active_claim == Some(claim) ==> after.active_claim is None
            &&& record.active_claim != Some(claim) ==> after == record
            &&& after.program_id == record.program_id
            &&& after.namespace == record.namespace
            &&& after.revision == record.revision
            &&& after.counter == record.counter
            &&& after.next_claim == record.next_claim
        }),
{
}

/// Once a continuation has observed revision `reached` and ended, a
/// checkpoint of an earlier revision can no longer continue the lineage.
pub proof fn law_observed_revisions_make_older_checkpoints_stale(
    records: Seq<AuthorityRecord>,
    program_id: ProgramId,
    namespace: AllocationNamespaceId,
    revision: RevisionId,
    counter: AllocationCounterState,
    reached: RevisionId,
    reached_counter: AllocationCounterState,
    older: RevisionId,
    older_counter: AllocationCounterState,
)
    requires
        registry_wf(records),
        restored_claim(records, program_id, namespace, revision, counter).1 is Ok,
        older.0 < reached.0,
    ensures
        ({
            let after = restored_claim(records, program_id, namespace, revision, counter).0;
            let lease = restored_claim(records, program_id, namespace, revision, counter).1->Ok_0;
            let k = record_index(after, program_id);
            let seen = after.update(k, observed(after[k], reached, reached_counter));
            let ended = seen.update(k, released(seen[k], lease.claim));
            &&& 0 <= k < after.len()
            &&& restored_claim(ended, program_id, namespace, older, older_counter).1 is Err
        }),
{
    let after = restored_claim(records, program_id, namespace, revision, counter).0;
    let i0 = record_index(records, program_id);
    crate::authority::lemma_record_index_facts(records, program_id);
    let k = if i0 < 0 { records.len() as int } else { i0 };
    assert(after[k].program_id == program_id);
    assert forall|a: int, b: int| 0 <= a < b < after.len() implies #[trigger] after[a].program_id != #[trigger] after[b].program_id by {
        if i0 < 0 && b == k {
            assert(after[a] == records[a]);
        } else {
            assert(after[a].program_id == records[a].program_id);
            assert(after[b].program_id == records[b].program_id);
        }
    }
    lemma_record_index_of(after, k);
    let lease = restored_claim(records, program_id, namespace, revision, counter).1->Ok_0;
    let seen = after.update(k, observed(after[k], reached, reached_counter));
    let ended = seen.update(k, released(seen[k], lease.claim));
    assert forall|a: int, b: int| 0 <= a < b < ended.len() implies #[trigger] ended[a].program_id != #[trigger] ended[b].program_id by {
        assert(ended[a].program_id == after[a].program_id);
        assert(ended[b].program_id == after[b].program_id);
    }
    assert(ended[k].program_id == program_id);
    lemma_record_index_of(ended, k);
    assert(ended[k].revision.0 >= reached.0);
}

} // verus!
