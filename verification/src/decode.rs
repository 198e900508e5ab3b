//! Reading the wire schema of a canonical payload into a reconstruction
//! candidate.
//!
//! The schema is described by spec functions that read a document from a
//! byte string, position by position; each reader in code is held to the
//! spec function of the same element. Every item is read with the reader of
//! the `minicbor` crate. Text in presentation metadata is described by its
//! characters.
use vstd::prelude::*;
use vstd::slice::slice_to_vec;
use vstd::string::StringSliceAdditionalSpecFns;
use vstd::utf8::{decode_utf8, encode_utf8};

use crate::body::{BlockView, BodyView, ExpressionView, KindView, Terminator};
use crate::cbor::{
    array_at, bool_at, bytes_at, signed_at, take_array, take_bool, take_bytes, take_i64,
    take_str, take_u64, text_at, unsigned_at,
};
use crate::format::{DecodeError, MAX_COLLECTION_COUNT};
use crate::ids::{
    AllocationCounterState, AllocationNamespaceId, BlockId, ExpressionId, FunctionId, ModuleId,
    ParameterId, ProgramId, RevisionId, TypeId, be_value_of,
};
use crate::intrinsic::{IntrinsicType, ValueType};
use crate::model::{DomainType, FunctionView, ModuleView, Parameter};
use crate::order::{key_before, key_is_before};
use crate::persistence::{
    PersistenceBlock, PersistenceBody, PersistenceDomainType, PersistenceEntityId,
    PersistenceExpression, PersistenceExpressionKind, PersistenceFunction, PersistenceModule,
    PersistenceParameter, PersistencePresentation, PersistenceProgram, PersistenceTerminator,
    PersistenceValueType, RevisionCounterState, block_id_of, entity_namespace, expression_id_of,
    expression_ids_of, function_id_of, kind_of, module_id_of, parameter_id_of, terminator_of,
    type_id_of, value_type_of,
};
use crate::presentation::{PresentationMetadata, text_of};

verus! {

broadcast use vstd::utf8::group_utf8_lib;

// ---------------------------------------------------------------------
// The decoded document.
// ---------------------------------------------------------------------

/// Decoded presentation metadata, by the characters of its text.
pub struct WirePresentation {
    pub preferred_name: Option<Seq<char>>,
    pub documentation: Option<Seq<char>>,
}

/// A decoded Parameter.
pub struct WireParameter {
    pub id: ParameterId,
    pub value_type: ValueType,
    pub presentation: WirePresentation,
}

/// A decoded Function.
pub struct WireFunction {
    pub id: FunctionId,
    pub return_type: ValueType,
    pub parameters: Seq<WireParameter>,
    pub body: Option<BodyView>,
    pub presentation: WirePresentation,
}

/// A decoded Domain Type.
pub struct WireDomainType {
    pub id: TypeId,
    pub representation: IntrinsicType,
    pub presentation: WirePresentation,
}

/// A decoded Module.
pub struct WireModule {
    pub id: ModuleId,
    pub presentation: WirePresentation,
    pub domain_types: Seq<WireDomainType>,
    pub functions: Seq<WireFunction>,
}

/// A decoded payload: identities, allocator states, and Modules, in wire
/// order.
pub struct WireProgram {
    pub program_id: ProgramId,
    pub revision_id: RevisionId,
    pub revision_counter_state: RevisionCounterState,
    pub namespace_id: AllocationNamespaceId,
    pub counter: AllocationCounterState,
    pub modules: Seq<WireModule>,
}

/// Presentation metadata that carries the decoded text.
pub open spec fn presentation_is(p: PresentationMetadata, w: WirePresentation) -> bool {
    text_of(p.preferred_name) == w.preferred_name && text_of(p.documentation) == w.documentation
}

/// A Parameter that is the decoded one.
pub open spec fn parameter_is(p: Parameter, w: WireParameter) -> bool {
    p.id == w.id && p.value_type == w.value_type && presentation_is(p.presentation, w.presentation)
}

/// A Function that is the decoded one.
pub open spec fn function_is(f: FunctionView, w: WireFunction) -> bool {
    &&& f.id == w.id
    &&& f.return_type == w.return_type
    &&& f.parameters.len() == w.parameters.len()
    &&& forall|i: int| 0 <= i < f.parameters.len() ==> parameter_is(#[trigger] f.parameters[i], w.parameters[i])
    &&& f.body == w.body
    &&& presentation_is(f.presentation, w.presentation)
}

/// A Domain Type that is the decoded one.
pub open spec fn domain_type_is(d: DomainType, w: WireDomainType) -> bool {
    d.id == w.id && d.representation == w.representation && presentation_is(d.presentation, w.presentation)
}

/// A Module that is the decoded one.
pub open spec fn module_is(m: ModuleView, w: WireModule) -> bool {
    &&& m.id == w.id
    &&& presentation_is(m.presentation, w.presentation)
    &&& m.domain_types.len() == w.domain_types.len()
    &&& forall|i: int| 0 <= i < m.domain_types.len() ==> domain_type_is(#[trigger] m.domain_types[i], w.domain_types[i])
    &&& m.functions.len() == w.functions.len()
    &&& forall|i: int| 0 <= i < m.functions.len() ==> function_is(#[trigger] m.functions[i], w.functions[i])
}

/// Modules that are the decoded ones, in order.
pub open spec fn modules_are(ms: Seq<ModuleView>, ws: Seq<WireModule>) -> bool {
    ms.len() == ws.len() && forall|i: int| 0 <= i < ms.len() ==> module_is(#[trigger] ms[i], ws[i])
}

/// The allocation namespace that sixteen wire bytes name.
pub open spec fn namespace_of(bytes: Seq<u8>) -> AllocationNamespaceId {
    AllocationNamespaceId(be_value_of(bytes) as u128)
}

// ---------------------------------------------------------------------
// Reading items.
// ---------------------------------------------------------------------

/// Prefixes the items read so far to what the rest of a list reads.
pub open spec fn prepend<T>(items: Seq<T>, rest: Result<(Seq<T>, int), DecodeError>) -> Result<(Seq<T>, int), DecodeError> {
    match rest {
        Ok((more, q)) => Ok((items + more, q)),
        Err(e) => Err(e),
    }
}

proof fn lemma_prepend_push<T>(items: Seq<T>, x: T, rest: Result<(Seq<T>, int), DecodeError>)
    ensures
        prepend(items, prepend(seq![x], rest)) == prepend(items.push(x), rest),
{
    match rest {
        Ok((more, q)) => {
            assert(items + (seq![x] + more) =~= items.push(x) + more);
        },
        Err(_) => {},
    }
}

proof fn lemma_prepend_empty<T>(rest: Result<(Seq<T>, int), DecodeError>)
    ensures
        prepend(Seq::<T>::empty(), rest) == rest,
{
    match rest {
        Ok((more, q)) => {
            assert(Seq::<T>::empty() + more =~= more);
        },
        Err(_) => {},
    }
}

/// An unsigned integer of the schema.
pub open spec fn wire_u64(b: Seq<u8>, pos: int) -> Result<(u64, int), DecodeError> {
    match unsigned_at(b, pos) {
        Some(x) => Ok(x),
        None => Err(DecodeError::InvalidWireSchema),
    }
}

/// A signed integer of the schema.
pub open spec fn wire_i64(b: Seq<u8>, pos: int) -> Result<(i64, int), DecodeError> {
    match signed_at(b, pos) {
        Some(x) => Ok(x),
        None => Err(DecodeError::InvalidWireSchema),
    }
}

/// A boolean of the schema.
pub open spec fn wire_bool(b: Seq<u8>, pos: int) -> Result<(bool, int), DecodeError> {
    match bool_at(b, pos) {
        Some(x) => Ok(x),
        None => Err(DecodeError::InvalidWireSchema),
    }
}

/// A text string of the schema, by its characters.
pub open spec fn wire_text(b: Seq<u8>, pos: int) -> Result<(Seq<char>, int), DecodeError> {
    match text_at(b, pos) {
        Some((content, q)) => Ok((decode_utf8(content), q)),
        None => Err(DecodeError::InvalidWireSchema),
    }
}

/// A byte string of the schema.
pub open spec fn wire_bytes(b: Seq<u8>, pos: int) -> Result<(Seq<u8>, int), DecodeError> {
    match bytes_at(b, pos) {
        Some(x) => Ok(x),
        None => Err(DecodeError::InvalidWireSchema),
    }
}

/// A sixteen-byte identity of the schema.
pub open spec fn wire_bytes16(b: Seq<u8>, pos: int) -> Result<(Seq<u8>, int), DecodeError> {
    match bytes_at(b, pos) {
        Some((content, q)) => if content.len() == 16 {
            Ok((content, q))
        } else {
            Err(DecodeError::InvalidWireSchema)
        },
        None => Err(DecodeError::InvalidWireSchema),
    }
}

/// The length of an array of the schema; an indefinite array is not
/// canonical.
pub open spec fn wire_array_len(b: Seq<u8>, pos: int) -> Result<(u64, int), DecodeError> {
    match array_at(b, pos) {
        Some((Some(n), q)) => Ok((n, q)),
        Some((None, _)) => Err(DecodeError::NonCanonicalEncoding),
        None => Err(DecodeError::InvalidWireSchema),
    }
}

/// An array of exactly `expected` elements.
pub open spec fn wire_fixed_array(b: Seq<u8>, pos: int, expected: u64) -> Result<int, DecodeError> {
    match wire_array_len(b, pos) {
        Ok((n, q)) => if n == expected {
            Ok(q)
        } else {
            Err(DecodeError::InvalidWireSchema)
        },
        Err(e) => Err(e),
    }
}

/// A collection of the schema: its element count, within the limit.
pub open spec fn wire_count(b: Seq<u8>, pos: int) -> Result<(u64, int), DecodeError> {
    match wire_array_len(b, pos) {
        Ok((n, q)) => if n > MAX_COLLECTION_COUNT {
            Err(DecodeError::ResourceLimitExceeded)
        } else {
            Ok((n, q))
        },
        Err(e) => Err(e),
    }
}

/// An entity identity: `[namespace bytes, counter]`.
pub open spec fn wire_entity(b: Seq<u8>, pos: int) -> Result<((Seq<u8>, u64), int), DecodeError> {
    match wire_fixed_array(b, pos, 2) {
        Ok(p1) => match wire_bytes16(b, p1) {
            Ok((ns, p2)) => match wire_u64(b, p2) {
                Ok((c, p3)) => Ok(((ns, c), p3)),
                Err(e) => Err(e),
            },
            Err(e) => Err(e),
        },
        Err(e) => Err(e),
    }
}

/// The Expression identity that a raw identity names.
pub open spec fn expression_named(raw: (Seq<u8>, u64)) -> ExpressionId {
    ExpressionId { namespace_id: namespace_of(raw.0), counter: raw.1 }
}

/// An intrinsic type tag.
pub open spec fn wire_intrinsic(b: Seq<u8>, pos: int) -> Result<(IntrinsicType, int), DecodeError> {
    match wire_u64(b, pos) {
        Ok((tag, q)) => if tag == 0 {
            Ok((IntrinsicType::Int32, q))
        } else if tag == 1 {
            Ok((IntrinsicType::Int64, q))
        } else if tag == 2 {
            Ok((IntrinsicType::Bool, q))
        } else if tag == 3 {
            Ok((IntrinsicType::Unit, q))
        } else if tag == 4 {
            Ok((IntrinsicType::Text, q))
        } else if tag == 5 {
            Ok((IntrinsicType::Bytes, q))
        } else {
            Err(DecodeError::InvalidWireSchema)
        },
        Err(e) => Err(e),
    }
}

/// A value type: `[0, intrinsic]` or `[1, type identity]`.
pub open spec fn wire_value_type(b: Seq<u8>, pos: int) -> Result<(ValueType, int), DecodeError> {
    match wire_fixed_array(b, pos, 2) {
        Ok(p1) => match wire_u64(b, p1) {
            Ok((tag, p2)) => if tag == 0 {
                match wire_intrinsic(b, p2) {
                    Ok((i, q)) => Ok((ValueType::Intrinsic(i), q)),
                    Err(e) => Err(e),
                }
            } else if tag == 1 {
                match wire_entity(b, p2) {
                    Ok((raw, q)) => Ok((ValueType::Domain(TypeId { namespace_id: namespace_of(raw.0), counter: raw.1 }), q)),
                    Err(e) => Err(e),
                }
            } else {
                Err(DecodeError::InvalidWireSchema)
            },
            Err(e) => Err(e),
        },
        Err(e) => Err(e),
    }
}

/// An optional text: `[0]` or `[1, text]`.
pub open spec fn wire_text_option(b: Seq<u8>, pos: int) -> Result<(Option<Seq<char>>, int), DecodeError> {
    match wire_array_len(b, pos) {
        Ok((len, p1)) => match wire_u64(b, p1) {
            Ok((tag, p2)) => if tag == 0 && len == 1 {
                Ok((None, p2))
            } else if tag == 1 && len == 2 {
                match wire_text(b, p2) {
                    Ok((t, q)) => Ok((Some(t), q)),
                    Err(e) => Err(e),
                }
            } else {
                Err(DecodeError::InvalidWireSchema)
            },
            Err(e) => Err(e),
        },
        Err(e) => Err(e),
    }
}

/// Presentation metadata: `[name option, documentation option]`.
pub open spec fn wire_presentation(b: Seq<u8>, pos: int) -> Result<(WirePresentation, int), DecodeError> {
    match wire_fixed_array(b, pos, 2) {
        Ok(p1) => match wire_text_option(b, p1) {
            Ok((name, p2)) => match wire_text_option(b, p2) {
                Ok((doc, q)) => Ok((WirePresentation { preferred_name: name, documentation: doc }, q)),
                Err(e) => Err(e),
            },
            Err(e) => Err(e),
        },
        Err(e) => Err(e),
    }
}

/// `n` Expression identities in a row.
pub open spec fn wire_id_list(b: Seq<u8>, pos: int, n: int) -> Result<(Seq<ExpressionId>, int), DecodeError>
    decreases n,
{
    if n <= 0 {
        Ok((Seq::empty(), pos))
    } else {
        match wire_entity(b, pos) {
            Ok((raw, q)) => prepend(seq![expression_named(raw)], wire_id_list(b, q, n - 1)),
            Err(e) => Err(e),
        }
    }
}

/// The binary Expression kind of wire tag `tag`, from 7 to 17.
pub open spec fn binary_kind(tag: u64, left: ExpressionId, right: ExpressionId) -> KindView {
    if tag == 7 {
        KindView::Add { left, right }
    } else if tag == 8 {
        KindView::Subtract { left, right }
    } else if tag == 9 {
        KindView::Multiply { left, right }
    } else if tag == 10 {
        KindView::Divide { left, right }
    } else if tag == 11 {
        KindView::Remainder { left, right }
    } else if tag == 12 {
        KindView::Equal { left, right }
    } else if tag == 13 {
        KindView::NotEqual { left, right }
    } else if tag == 14 {
        KindView::LessThan { left, right }
    } else if tag == 15 {
        KindView::LessThanOrEqual { left, right }
    } else if tag == 16 {
        KindView::GreaterThan { left, right }
    } else {
        KindView::GreaterThanOrEqual { left, right }
    }
}

/// The data of an Expression kind whose tag and array length are read.
pub open spec fn wire_kind_data(b: Seq<u8>, pos: int, tag: u64, len: u64) -> Result<(KindView, int), DecodeError> {
    if tag == 0 && len == 2 {
        match wire_i64(b, pos) {
            Ok((v, q)) => if i32::MIN <= v <= i32::MAX {
                Ok((KindView::Int32Literal(v as i32), q))
            } else {
                Err(DecodeError::InvalidWireSchema)
            },
            Err(e) => Err(e),
        }
    } else if tag == 1 && len == 2 {
        match wire_i64(b, pos) {
            Ok((v, q)) => Ok((KindView::Int64Literal(v), q)),
            Err(e) => Err(e),
        }
    } else if tag == 2 && len == 2 {
        match wire_bool(b, pos) {
            Ok((v, q)) => Ok((KindView::BoolLiteral(v), q)),
            Err(e) => Err(e),
        }
    } else if tag == 3 && len == 1 {
        Ok((KindView::UnitLiteral, pos))
    } else if tag == 4 && len == 2 {
        match wire_text(b, pos) {
            Ok((t, q)) => Ok((KindView::TextLiteral(t), q)),
            Err(e) => Err(e),
        }
    } else if tag == 5 && len == 2 {
        match wire_bytes(b, pos) {
            Ok((v, q)) => Ok((KindView::BytesLiteral(v), q)),
            Err(e) => Err(e),
        }
    } else if tag == 6 && len == 2 {
        match wire_entity(b, pos) {
            Ok((raw, q)) => Ok((KindView::ParameterReference(ParameterId { namespace_id: namespace_of(raw.0), counter: raw.1 }), q)),
            Err(e) => Err(e),
        }
    } else if 7 <= tag <= 17 && len == 3 {
        match wire_entity(b, pos) {
            Ok((l, p1)) => match wire_entity(b, p1) {
                Ok((r, q)) => Ok((binary_kind(tag, expression_named(l), expression_named(r)), q)),
                Err(e) => Err(e),
            },
            Err(e) => Err(e),
        }
    } else if tag == 18 && len == 3 {
        match wire_entity(b, pos) {
            Ok((target, p1)) => match wire_count(b, p1) {
                Ok((n, p2)) => match wire_id_list(b, p2, n as int) {
                    Ok((arguments, q)) => Ok((KindView::Call {
                        target: FunctionId { namespace_id: namespace_of(target.0), counter: target.1 },
                        arguments,
                    }, q)),
                    Err(e) => Err(e),
                },
                Err(e) => Err(e),
            },
            Err(e) => Err(e),
        }
    } else if tag == 19 && len == 3 {
        match wire_entity(b, pos) {
            Ok((t, p1)) => match wire_entity(b, p1) {
                Ok((v, q)) => Ok((KindView::DomainConstruct {
                    type_id: TypeId { namespace_id: namespace_of(t.0), counter: t.1 },
                    value: expression_named(v),
                }, q)),
                Err(e) => Err(e),
            },
            Err(e) => Err(e),
        }
    } else if tag == 20 && len == 2 {
        match wire_entity(b, pos) {
            Ok((v, q)) => Ok((KindView::DomainProject { value: expression_named(v) }, q)),
            Err(e) => Err(e),
        }
    } else {
        Err(DecodeError::InvalidWireSchema)
    }
}

/// An Expression kind: an array of its tag and its data.
pub open spec fn wire_kind(b: Seq<u8>, pos: int) -> Result<(KindView, int), DecodeError> {
    match wire_array_len(b, pos) {
        Ok((len, p1)) => match wire_u64(b, p1) {
            Ok((tag, p2)) => wire_kind_data(b, p2, tag, len),
            Err(e) => Err(e),
        },
        Err(e) => Err(e),
    }
}

/// A terminator: `[0, expression]` or `[1, condition, true block, false
/// block]`.
pub open spec fn wire_terminator(b: Seq<u8>, pos: int) -> Result<(Terminator, int), DecodeError> {
    match wire_array_len(b, pos) {
        Ok((len, p1)) => match wire_u64(b, p1) {
            Ok((tag, p2)) => if tag == 0 && len == 2 {
                match wire_entity(b, p2) {
                    Ok((e, q)) => Ok((Terminator::Return { expression: expression_named(e) }, q)),
                    Err(e) => Err(e),
                }
            } else if tag == 1 && len == 4 {
                match wire_entity(b, p2) {
                    Ok((c, p3)) => match wire_entity(b, p3) {
                        Ok((t, p4)) => match wire_entity(b, p4) {
                            Ok((f, q)) => Ok((Terminator::Branch {
                                condition: expression_named(c),
                                true_block: BlockId { namespace_id: namespace_of(t.0), counter: t.1 },
                                false_block: BlockId { namespace_id: namespace_of(f.0), counter: f.1 },
                            }, q)),
                            Err(e) => Err(e),
                        },
                        Err(e) => Err(e),
                    },
                    Err(e) => Err(e),
                }
            } else {
                Err(DecodeError::InvalidWireSchema)
            },
            Err(e) => Err(e),
        },
        Err(e) => Err(e),
    }
}

/// The check of the identity `key` of one element of an identity-ordered
/// collection against the identities before it: a repeated identity makes
/// the Program structurally invalid; one out of ascending order is not
/// canonical.
pub open spec fn id_check(seen: Seq<(u128, u64)>, key: (u128, u64)) -> Option<DecodeError> {
    if seen.contains(key) {
        Some(DecodeError::StructurallyInvalidProgram)
    } else if seen.len() > 0 && !key_before(seen.last(), key) {
        Some(DecodeError::NonCanonicalEncoding)
    } else {
        None
    }
}

/// `n` Expression entries `[identity, kind]` of a Block, after the entries
/// with identities `seen`.
pub open spec fn wire_expressions(b: Seq<u8>, pos: int, n: int, seen: Seq<(u128, u64)>) -> Result<(Seq<ExpressionView>, int), DecodeError>
    decreases n,
{
    if n <= 0 {
        Ok((Seq::empty(), pos))
    } else {
        match wire_fixed_array(b, pos, 2) {
            Ok(p1) => match wire_entity(b, p1) {
                Ok((raw, p2)) => match wire_kind(b, p2) {
                    Ok((kind, q)) => {
                        let id = expression_named(raw);
                        let key = (id.namespace_id.0, id.counter);
                        match id_check(seen, key) {
                            Some(e) => Err(e),
                            None => prepend(seq![ExpressionView { id, kind }], wire_expressions(b, q, n - 1, seen.push(key))),
                        }
                    },
                    Err(e) => Err(e),
                },
                Err(e) => Err(e),
            },
            Err(e) => Err(e),
        }
    }
}

/// A Block: `[identity, Expressions, effect sequence, terminator]`.
#[verifier::opaque]
pub open spec fn wire_block(b: Seq<u8>, pos: int) -> Result<(BlockView, int), DecodeError> {
    match wire_fixed_array(b, pos, 4) {
        Ok(p1) => match wire_entity(b, p1) {
            Ok((raw, p2)) => match wire_count(b, p2) {
                Ok((n, p3)) => match wire_expressions(b, p3, n as int, Seq::empty()) {
                    Ok((expressions, p4)) => match wire_count(b, p4) {
                        Ok((m, p5)) => match wire_id_list(b, p5, m as int) {
                            Ok((effects, p6)) => match wire_terminator(b, p6) {
                                Ok((t, q)) => Ok((BlockView {
                                    id: BlockId { namespace_id: namespace_of(raw.0), counter: raw.1 },
                                    expressions,
                                    effect_sequence: effects,
                                    terminator: Some(t),
                                }, q)),
                                Err(e) => Err(e),
                            },
                            Err(e) => Err(e),
                        },
                        Err(e) => Err(e),
                    },
                    Err(e) => Err(e),
                },
                Err(e) => Err(e),
            },
            Err(e) => Err(e),
        },
        Err(e) => Err(e),
    }
}

/// `n` Blocks of a body, after the Blocks with identities `seen`.
pub open spec fn wire_blocks(b: Seq<u8>, pos: int, n: int, seen: Seq<(u128, u64)>) -> Result<(Seq<BlockView>, int), DecodeError>
    decreases n,
{
    if n <= 0 {
        Ok((Seq::empty(), pos))
    } else {
        match wire_block(b, pos) {
            Ok((block, q)) => {
                let key = (block.id.namespace_id.0, block.id.counter);
                match id_check(seen, key) {
                    Some(e) => Err(e),
                    None => prepend(seq![block], wire_blocks(b, q, n - 1, seen.push(key))),
                }
            },
            Err(e) => Err(e),
        }
    }
}

/// An optional body: `[0]`, or `[1, [entry, Blocks]]`.
pub open spec fn wire_body(b: Seq<u8>, pos: int) -> Result<(Option<BodyView>, int), DecodeError> {
    match wire_array_len(b, pos) {
        Ok((len, p1)) => match wire_u64(b, p1) {
            Ok((tag, p2)) => if tag == 0 && len == 1 {
                Ok((None, p2))
            } else if tag == 1 && len == 2 {
                match wire_fixed_array(b, p2, 2) {
                    Ok(p3) => match wire_entity(b, p3) {
                        Ok((entry, p4)) => match wire_count(b, p4) {
                            Ok((n, p5)) => match wire_blocks(b, p5, n as int, Seq::empty()) {
                                Ok((blocks, q)) => Ok((Some(BodyView {
                                    entry_block_id: BlockId { namespace_id: namespace_of(entry.0), counter: entry.1 },
                                    blocks,
                                }), q)),
                                Err(e) => Err(e),
                            },
                            Err(e) => Err(e),
                        },
                        Err(e) => Err(e),
                    },
                    Err(e) => Err(e),
                }
            } else {
                Err(DecodeError::InvalidWireSchema)
            },
            Err(e) => Err(e),
        },
        Err(e) => Err(e),
    }
}

/// A Parameter: `[identity, value type, presentation]`.
#[verifier::opaque]
pub open spec fn wire_parameter(b: Seq<u8>, pos: int) -> Result<(WireParameter, int), DecodeError> {
    match wire_fixed_array(b, pos, 3) {
        Ok(p1) => match wire_entity(b, p1) {
            Ok((raw, p2)) => match wire_value_type(b, p2) {
                Ok((t, p3)) => match wire_presentation(b, p3) {
                    Ok((presentation, q)) => Ok((WireParameter {
                        id: ParameterId { namespace_id: namespace_of(raw.0), counter: raw.1 },
                        value_type: t,
                        presentation,
                    }, q)),
                    Err(e) => Err(e),
                },
                Err(e) => Err(e),
            },
            Err(e) => Err(e),
        },
        Err(e) => Err(e),
    }
}

/// `n` Parameters in declaration order.
pub open spec fn wire_parameters(b: Seq<u8>, pos: int, n: int) -> Result<(Seq<WireParameter>, int), DecodeError>
    decreases n,
{
    if n <= 0 {
        Ok((Seq::empty(), pos))
    } else {
        match wire_parameter(b, pos) {
            Ok((parameter, q)) => prepend(seq![parameter], wire_parameters(b, q, n - 1)),
            Err(e) => Err(e),
        }
    }
}

/// A Function: `[identity, return type, Parameters, body, presentation]`.
#[verifier::opaque]
pub open spec fn wire_function(b: Seq<u8>, pos: int) -> Result<(WireFunction, int), DecodeError> {
    match wire_fixed_array(b, pos, 5) {
        Ok(p1) => match wire_entity(b, p1) {
            Ok((raw, p2)) => match wire_value_type(b, p2) {
                Ok((t, p3)) => match wire_count(b, p3) {
                    Ok((n, p4)) => match wire_parameters(b, p4, n as int) {
                        Ok((parameters, p5)) => match wire_body(b, p5) {
                            Ok((body, p6)) => match wire_presentation(b, p6) {
                                Ok((presentation, q)) => Ok((WireFunction {
                                    id: FunctionId { namespace_id: namespace_of(raw.0), counter: raw.1 },
                                    return_type: t,
                                    parameters,
                                    body,
                                    presentation,
                                }, q)),
                                Err(e) => Err(e),
                            },
                            Err(e) => Err(e),
                        },
                        Err(e) => Err(e),
                    },
                    Err(e) => Err(e),
                },
                Err(e) => Err(e),
            },
            Err(e) => Err(e),
        },
        Err(e) => Err(e),
    }
}

/// `n` Functions of a Module, after the Functions with identities `seen`.
pub open spec fn wire_functions(b: Seq<u8>, pos: int, n: int, seen: Seq<(u128, u64)>) -> Result<(Seq<WireFunction>, int), DecodeError>
    decreases n,
{
    if n <= 0 {
        Ok((Seq::empty(), pos))
    } else {
        match wire_function(b, pos) {
            Ok((function, q)) => {
                let key = (function.id.namespace_id.0, function.id.counter);
                match id_check(seen, key) {
                    Some(e) => Err(e),
                    None => prepend(seq![function], wire_functions(b, q, n - 1, seen.push(key))),
                }
            },
            Err(e) => Err(e),
        }
    }
}

/// A Domain Type: `[identity, representation, presentation]`.
#[verifier::opaque]
pub open spec fn wire_domain_type(b: Seq<u8>, pos: int) -> Result<(WireDomainType, int), DecodeError> {
    match wire_fixed_array(b, pos, 3) {
        Ok(p1) => match wire_entity(b, p1) {
            Ok((raw, p2)) => match wire_intrinsic(b, p2) {
                Ok((representation, p3)) => match wire_presentation(b, p3) {
                    Ok((presentation, q)) => Ok((WireDomainType {
                        id: TypeId { namespace_id: namespace_of(raw.0), counter: raw.1 },
                        representation,
                        presentation,
                    }, q)),
                    Err(e) => Err(e),
                },
                Err(e) => Err(e),
            },
            Err(e) => Err(e),
        },
        Err(e) => Err(e),
    }
}

/// `n` Domain Types of a Module, after the Domain Types with identities
/// `seen`.
pub open spec fn wire_domain_types(b: Seq<u8>, pos: int, n: int, seen: Seq<(u128, u64)>) -> Result<(Seq<WireDomainType>, int), DecodeError>
    decreases n,
{
    if n <= 0 {
        Ok((Seq::empty(), pos))
    } else {
        match wire_domain_type(b, pos) {
            Ok((domain_type, q)) => {
                let key = (domain_type.id.namespace_id.0, domain_type.id.counter);
                match id_check(seen, key) {
                    Some(e) => Err(e),
                    None => prepend(seq![domain_type], wire_domain_types(b, q, n - 1, seen.push(key))),
                }
            },
            Err(e) => Err(e),
        }
    }
}

/// A Module: `[identity, presentation, Domain Types, Functions]`.
#[verifier::opaque]
pub open spec fn wire_module(b: Seq<u8>, pos: int) -> Result<(WireModule, int), DecodeError> {
    match wire_fixed_array(b, pos, 4) {
        Ok(p1) => match wire_entity(b, p1) {
            Ok((raw, p2)) => match wire_presentation(b, p2) {
                Ok((presentation, p3)) => match wire_count(b, p3) {
                    Ok((n, p4)) => match wire_domain_types(b, p4, n as int, Seq::empty()) {
                        Ok((domain_types, p5)) => match wire_count(b, p5) {
                            Ok((m, p6)) => match wire_functions(b, p6, m as int, Seq::empty()) {
                                Ok((functions, q)) => Ok((WireModule {
                                    id: ModuleId { namespace_id: namespace_of(raw.0), counter: raw.1 },
                                    presentation,
                                    domain_types,
                                    functions,
                                }, q)),
                                Err(e) => Err(e),
                            },
                            Err(e) => Err(e),
                        },
                        Err(e) => Err(e),
                    },
                    Err(e) => Err(e),
                },
                Err(e) => Err(e),
            },
            Err(e) => Err(e),
        },
        Err(e) => Err(e),
    }
}

/// `n` Modules of a Program, after the Modules with identities `seen`.
pub open spec fn wire_modules(b: Seq<u8>, pos: int, n: int, seen: Seq<(u128, u64)>) -> Result<(Seq<WireModule>, int), DecodeError>
    decreases n,
{
    if n <= 0 {
        Ok((Seq::empty(), pos))
    } else {
        match wire_module(b, pos) {
            Ok((module, q)) => {
                let key = (module.id.namespace_id.0, module.id.counter);
                match id_check(seen, key) {
                    Some(e) => Err(e),
                    None => prepend(seq![module], wire_modules(b, q, n - 1, seen.push(key))),
                }
            },
            Err(e) => Err(e),
        }
    }
}

/// The revision allocator: `[0, next]` with a nonzero next revision, or
/// `[1]`.
pub open spec fn wire_revision_counter(b: Seq<u8>, pos: int) -> Result<(RevisionCounterState, int), DecodeError> {
    match wire_array_len(b, pos) {
        Ok((len, p1)) => match wire_u64(b, p1) {
            Ok((tag, p2)) => if tag == 0 && len == 2 {
                match wire_u64(b, p2) {
                    Ok((next, q)) => if next == 0 {
                        Err(DecodeError::InvalidWireSchema)
                    } else {
                        Ok((RevisionCounterState::Available(next), q))
                    },
                    Err(e) => Err(e),
                }
            } else if tag == 1 && len == 1 {
                Ok((RevisionCounterState::Exhausted, p2))
            } else {
                Err(DecodeError::InvalidWireSchema)
            },
            Err(e) => Err(e),
        },
        Err(e) => Err(e),
    }
}

/// The allocation authority: `[namespace, [0, next] or [1]]`.
pub open spec fn wire_authority(b: Seq<u8>, pos: int) -> Result<((Seq<u8>, AllocationCounterState), int), DecodeError> {
    match wire_fixed_array(b, pos, 2) {
        Ok(p1) => match wire_bytes16(b, p1) {
            Ok((ns, p2)) => match wire_array_len(b, p2) {
                Ok((len, p3)) => match wire_u64(b, p3) {
                    Ok((tag, p4)) => if tag == 0 && len == 2 {
                        match wire_u64(b, p4) {
                            Ok((next, q)) => Ok(((ns, AllocationCounterState::Available(next)), q)),
                            Err(e) => Err(e),
                        }
                    } else if tag == 1 && len == 1 {
                        Ok(((ns, AllocationCounterState::Exhausted), p4))
                    } else {
                        Err(DecodeError::InvalidWireSchema)
                    },
                    Err(e) => Err(e),
                },
                Err(e) => Err(e),
            },
            Err(e) => Err(e),
        },
        Err(e) => Err(e),
    }
}

/// A whole payload: `[Program identity, revision, revision allocator,
/// allocation authority, Modules]`, and nothing after it.
pub open spec fn wire_payload(b: Seq<u8>) -> Result<WireProgram, DecodeError> {
    match wire_fixed_array(b, 0, 5) {
        Ok(p1) => match wire_bytes16(b, p1) {
            Ok((program, p2)) => match wire_u64(b, p2) {
                Ok((revision, p3)) => match wire_revision_counter(b, p3) {
                    Ok((revision_counter_state, p4)) => match wire_authority(b, p4) {
                        Ok(((ns, counter), p5)) => match wire_count(b, p5) {
                            Ok((n, p6)) => match wire_modules(b, p6, n as int, Seq::empty()) {
                                Ok((modules, q)) => if q != b.len() {
                                    Err(DecodeError::MalformedEncoding)
                                } else {
                                    Ok(WireProgram {
                                        program_id: ProgramId(be_value_of(program) as u128),
                                        revision_id: RevisionId(revision),
                                        revision_counter_state,
                                        namespace_id: namespace_of(ns),
                                        counter,
                                        modules,
                                    })
                                },
                                Err(e) => Err(e),
                            },
                            Err(e) => Err(e),
                        },
                        Err(e) => Err(e),
                    },
                    Err(e) => Err(e),
                },
                Err(e) => Err(e),
            },
            Err(e) => Err(e),
        },
        Err(e) => Err(e),
    }
}

// ---------------------------------------------------------------------
// The readers.
// ---------------------------------------------------------------------

/// A reader's result in code matches what the schema reads.
pub open spec fn reads<T>(r: Result<(T, usize), DecodeError>, s: Result<(T, int), DecodeError>) -> bool {
    match s {
        Ok((v, q)) => r matches Ok((v2, q2)) && v2 == v && q2 as int == q,
        Err(e) => r == Err::<(T, usize), DecodeError>(e),
    }
}

fn read_u64(b: &[u8], pos: usize) -> (r: Result<(u64, usize), DecodeError>)
    ensures
        reads(r, wire_u64(b@, pos as int)),
{
    let len = b.len();
    assert(len == b@.len());
    match take_u64(b, pos) {
        Some(x) => Ok(x),
        None => Err(DecodeError::InvalidWireSchema),
    }
}

fn read_i64(b: &[u8], pos: usize) -> (r: Result<(i64, usize), DecodeError>)
    ensures
        reads(r, wire_i64(b@, pos as int)),
{
    let len = b.len();
    assert(len == b@.len());
    match take_i64(b, pos) {
        Some(x) => Ok(x),
        None => Err(DecodeError::InvalidWireSchema),
    }
}

fn read_bool(b: &[u8], pos: usize) -> (r: Result<(bool, usize), DecodeError>)
    ensures
        reads(r, wire_bool(b@, pos as int)),
{
    let len = b.len();
    assert(len == b@.len());
    match take_bool(b, pos) {
        Some(x) => Ok(x),
        None => Err(DecodeError::InvalidWireSchema),
    }
}

fn read_text(b: &[u8], pos: usize) -> (r: Result<(String, usize), DecodeError>)
    ensures
        match wire_text(b@, pos as int) {
            Ok((t, q)) => r matches Ok((x, q2)) && x@ == t && q2 as int == q,
            Err(e) => r == Err::<(String, usize), DecodeError>(e),
        },
{
    match take_str(b, pos) {
        Some((text, q)) => {
            let owned = text.to_owned();
            Ok((owned, q))
        },
        None => Err(DecodeError::InvalidWireSchema),
    }
}

fn read_bytes(b: &[u8], pos: usize) -> (r: Result<(Vec<u8>, usize), DecodeError>)
    ensures
        match wire_bytes(b@, pos as int) {
            Ok((v, q)) => r matches Ok((x, q2)) && x@ == v && q2 as int == q,
            Err(e) => r == Err::<(Vec<u8>, usize), DecodeError>(e),
        },
{
    match take_bytes(b, pos) {
        Some((content, q)) => Ok((slice_to_vec(content), q)),
        None => Err(DecodeError::InvalidWireSchema),
    }
}

fn fixed_bytes_16(b: &[u8], pos: usize) -> (r: Result<([u8; 16], usize), DecodeError>)
    ensures
        match wire_bytes16(b@, pos as int) {
            Ok((v, q)) => r matches Ok((x, q2)) && x@ == v && q2 as int == q,
            Err(e) => r == Err::<([u8; 16], usize), DecodeError>(e),
        },
{
    match take_bytes(b, pos) {
        Some((content, q)) => {
            if content.len() != 16 {
                return Err(DecodeError::InvalidWireSchema);
            }
            let mut bytes = [0u8; 16];
            let mut i: usize = 0;
            while i < 16
                invariant
                    i <= 16,
                    content@.len() == 16,
                    bytes@.len() == 16,
                    forall|j: int| 0 <= j < i ==> bytes@[j] == content@[j],
                decreases 16 - i,
            {
                bytes[i] = content[i];
                i = i + 1;
            }
            assert(bytes@ =~= content@);
            Ok((bytes, q))
        },
        None => Err(DecodeError::InvalidWireSchema),
    }
}

fn array_len(b: &[u8], pos: usize) -> (r: Result<(u64, usize), DecodeError>)
    ensures
        reads(r, wire_array_len(b@, pos as int)),
{
    let len = b.len();
    assert(len == b@.len());
    match take_array(b, pos) {
        Some((Some(n), q)) => Ok((n, q)),
        Some((None, _)) => Err(DecodeError::NonCanonicalEncoding),
        None => Err(DecodeError::InvalidWireSchema),
    }
}

/// Reads the head of an array of exactly `expected` items at `pos`.
pub fn fixed_array(b: &[u8], pos: usize, expected: u64) -> (r: Result<usize, DecodeError>)
    ensures
        match wire_fixed_array(b@, pos as int, expected) {
            Ok(q) => r matches Ok(q2) && q2 as int == q,
            Err(e) => r == Err::<usize, DecodeError>(e),
        },
{
    match array_len(b, pos) {
        Ok((n, q)) => if n == expected {
            Ok(q)
        } else {
            Err(DecodeError::InvalidWireSchema)
        },
        Err(e) => Err(e),
    }
}

fn read_count(b: &[u8], pos: usize) -> (r: Result<(u64, usize), DecodeError>)
    ensures
        reads(r, wire_count(b@, pos as int)),
        r matches Ok((n, _)) ==> n <= MAX_COLLECTION_COUNT,
{
    match array_len(b, pos) {
        Ok((n, q)) => if n > MAX_COLLECTION_COUNT {
            Err(DecodeError::ResourceLimitExceeded)
        } else {
            Ok((n, q))
        },
        Err(e) => Err(e),
    }
}

/// A persistent reference that is the decoded raw identity.
pub open spec fn entity_is(x: PersistenceEntityId, raw: (Seq<u8>, u64)) -> bool {
    x.namespace@ == raw.0 && x.counter == raw.1
}

fn decode_entity_id(b: &[u8], pos: usize) -> (r: Result<(PersistenceEntityId, usize), DecodeError>)
    ensures
        match wire_entity(b@, pos as int) {
            Ok((raw, q)) => r matches Ok((x, q2)) && entity_is(x, raw) && q2 as int == q,
            Err(e) => r == Err::<(PersistenceEntityId, usize), DecodeError>(e),
        },
{
    let p1 = match fixed_array(b, pos, 2) {
        Ok(p) => p,
        Err(e) => return Err(e),
    };
    let (namespace, p2) = match fixed_bytes_16(b, p1) {
        Ok(x) => x,
        Err(e) => return Err(e),
    };
    let (counter, q) = match read_u64(b, p2) {
        Ok(x) => x,
        Err(e) => return Err(e),
    };
    Ok((PersistenceEntityId::new(namespace, counter), q))
}

/// Reads an intrinsic type tag at `pos`.
pub fn decode_intrinsic(b: &[u8], pos: usize) -> (r: Result<(IntrinsicType, usize), DecodeError>)
    ensures
        reads(r, wire_intrinsic(b@, pos as int)),
{
    let (tag, q) = match read_u64(b, pos) {
        Ok(x) => x,
        Err(e) => return Err(e),
    };
    if tag == 0 {
        Ok((IntrinsicType::Int32, q))
    } else if tag == 1 {
        Ok((IntrinsicType::Int64, q))
    } else if tag == 2 {
        Ok((IntrinsicType::Bool, q))
    } else if tag == 3 {
        Ok((IntrinsicType::Unit, q))
    } else if tag == 4 {
        Ok((IntrinsicType::Text, q))
    } else if tag == 5 {
        Ok((IntrinsicType::Bytes, q))
    } else {
        Err(DecodeError::InvalidWireSchema)
    }
}

/// Reads a value type at `pos`.
pub fn decode_persistence_value_type(b: &[u8], pos: usize) -> (r: Result<(PersistenceValueType, usize), DecodeError>)
    ensures
        match wire_value_type(b@, pos as int) {
            Ok((t, q)) => r matches Ok((x, q2)) && value_type_of(x) == t && q2 as int == q,
            Err(e) => r == Err::<(PersistenceValueType, usize), DecodeError>(e),
        },
{
    let p1 = match fixed_array(b, pos, 2) {
        Ok(p) => p,
        Err(e) => return Err(e),
    };
    let (tag, p2) = match read_u64(b, p1) {
        Ok(x) => x,
        Err(e) => return Err(e),
    };
    if tag == 0 {
        match decode_intrinsic(b, p2) {
            Ok((i, q)) => Ok((PersistenceValueType::Intrinsic(i), q)),
            Err(e) => Err(e),
        }
    } else if tag == 1 {
        match decode_entity_id(b, p2) {
            Ok((id, q)) => Ok((PersistenceValueType::Domain(id), q)),
            Err(e) => Err(e),
        }
    } else {
        Err(DecodeError::InvalidWireSchema)
    }
}

/// Reads an optional text at `pos`.
pub fn decode_string_option(b: &[u8], pos: usize) -> (r: Result<(Option<String>, usize), DecodeError>)
    ensures
        match wire_text_option(b@, pos as int) {
            Ok((t, q)) => r matches Ok((x, q2)) && text_of(x) == t && q2 as int == q,
            Err(e) => r == Err::<(Option<String>, usize), DecodeError>(e),
        },
{
    let (len, p1) = match array_len(b, pos) {
        Ok(x) => x,
        Err(e) => return Err(e),
    };
    let (tag, p2) = match read_u64(b, p1) {
        Ok(x) => x,
        Err(e) => return Err(e),
    };
    if tag == 0 && len == 1 {
        Ok((None, p2))
    } else if tag == 1 && len == 2 {
        match read_text(b, p2) {
            Ok((text, q)) => Ok((Some(text), q)),
            Err(e) => Err(e),
        }
    } else {
        Err(DecodeError::InvalidWireSchema)
    }
}

fn decode_presentation(b: &[u8], pos: usize) -> (r: Result<(PersistencePresentation, usize), DecodeError>)
    ensures
        match wire_presentation(b@, pos as int) {
            Ok((w, q)) => r matches Ok((x, q2)) && presentation_is(x.presentation, w) && q2 as int == q,
            Err(e) => r == Err::<(PersistencePresentation, usize), DecodeError>(e),
        },
{
    let p1 = match fixed_array(b, pos, 2) {
        Ok(p) => p,
        Err(e) => return Err(e),
    };
    let (name, p2) = match decode_string_option(b, p1) {
        Ok(x) => x,
        Err(e) => return Err(e),
    };
    let (documentation, q) = match decode_string_option(b, p2) {
        Ok(x) => x,
        Err(e) => return Err(e),
    };
    Ok((PersistencePresentation::new(name, documentation), q))
}

fn read_id_list(b: &[u8], pos: usize, n: u64) -> (r: Result<(Vec<PersistenceEntityId>, usize), DecodeError>)
    ensures
        match wire_id_list(b@, pos as int, n as int) {
            Ok((ids, q)) => r matches Ok((x, q2)) && expression_ids_of(x@) == ids && q2 as int == q,
            Err(e) => r == Err::<(Vec<PersistenceEntityId>, usize), DecodeError>(e),
        },
{
    let ghost total = wire_id_list(b@, pos as int, n as int);
    let ghost mut acc: Seq<ExpressionId> = Seq::empty();
    let mut items: Vec<PersistenceEntityId> = Vec::new();
    let mut cur = pos;
    let mut i: u64 = 0;
    proof {
        lemma_prepend_empty(total);
    }
    while i < n
        invariant
            i <= n,
            total == wire_id_list(b@, pos as int, n as int),
            total == prepend(acc, wire_id_list(b@, cur as int, (n - i) as int)),
            expression_ids_of(items@) == acc,
        decreases n - i,
    {
        let (id, q) = match decode_entity_id(b, cur) {
            Ok(x) => x,
            Err(e) => return Err(e),
        };
        let ghost raw = (wire_entity(b@, cur as int)->Ok_0).0;
        proof {
            lemma_prepend_push(acc, expression_named(raw), wire_id_list(b@, q as int, (n - i - 1) as int));
        }
        items.push(id);
        proof {
            acc = acc.push(expression_named(raw));
            assert(expression_ids_of(items@) =~= acc);
        }
        cur = q;
        i = i + 1;
    }
    proof {
        assert(acc + Seq::<ExpressionId>::empty() =~= acc);
    }
    Ok((items, cur))
}

fn binary_of(tag: u64, left: PersistenceEntityId, right: PersistenceEntityId) -> (r: PersistenceExpressionKind)
    requires
        7 <= tag <= 17,
    ensures
        kind_of(r) == binary_kind(tag, expression_id_of(left), expression_id_of(right)),
{
    if tag == 7 {
        PersistenceExpressionKind::Add { left, right }
    } else if tag == 8 {
        PersistenceExpressionKind::Subtract { left, right }
    } else if tag == 9 {
        PersistenceExpressionKind::Multiply { left, right }
    } else if tag == 10 {
        PersistenceExpressionKind::Divide { left, right }
    } else if tag == 11 {
        PersistenceExpressionKind::Remainder { left, right }
    } else if tag == 12 {
        PersistenceExpressionKind::Equal { left, right }
    } else if tag == 13 {
        PersistenceExpressionKind::NotEqual { left, right }
    } else if tag == 14 {
        PersistenceExpressionKind::LessThan { left, right }
    } else if tag == 15 {
        PersistenceExpressionKind::LessThanOrEqual { left, right }
    } else if tag == 16 {
        PersistenceExpressionKind::GreaterThan { left, right }
    } else {
        PersistenceExpressionKind::GreaterThanOrEqual { left, right }
    }
}

fn read_literal_kind(b: &[u8], pos: usize, tag: u64, len: u64) -> (r: Result<(PersistenceExpressionKind, usize), DecodeError>)
    requires
        tag <= 5,
    ensures
        match wire_kind_data(b@, pos as int, tag, len) {
            Ok((k, q)) => r matches Ok((x, q2)) && kind_of(x) == k && q2 as int == q,
            Err(e) => r == Err::<(PersistenceExpressionKind, usize), DecodeError>(e),
        },
{
    if tag == 0 && len == 2 {
        let (value, q) = match read_i64(b, pos) {
            Ok(x) => x,
            Err(e) => return Err(e),
        };
        if value < i32::MIN as i64 || value > i32::MAX as i64 {
            return Err(DecodeError::InvalidWireSchema);
        }
        Ok((PersistenceExpressionKind::Int32Literal(value as i32), q))
    } else if tag == 1 && len == 2 {
        match read_i64(b, pos) {
            Ok((value, q)) => Ok((PersistenceExpressionKind::Int64Literal(value), q)),
            Err(e) => Err(e),
        }
    } else if tag == 2 && len == 2 {
        match read_bool(b, pos) {
            Ok((value, q)) => Ok((PersistenceExpressionKind::BoolLiteral(value), q)),
            Err(e) => Err(e),
        }
    } else if tag == 3 && len == 1 {
        Ok((PersistenceExpressionKind::UnitLiteral, pos))
    } else if tag == 4 && len == 2 {
        match read_text(b, pos) {
            Ok((value, q)) => Ok((PersistenceExpressionKind::TextLiteral(value), q)),
            Err(e) => Err(e),
        }
    } else if tag == 5 && len == 2 {
        match read_bytes(b, pos) {
            Ok((value, q)) => Ok((PersistenceExpressionKind::BytesLiteral(value), q)),
            Err(e) => Err(e),
        }
    } else {
        Err(DecodeError::InvalidWireSchema)
    }
}

fn read_operand_kind(b: &[u8], pos: usize, tag: u64, len: u64) -> (r: Result<(PersistenceExpressionKind, usize), DecodeError>)
    requires
        6 <= tag <= 17,
    ensures
        match wire_kind_data(b@, pos as int, tag, len) {
            Ok((k, q)) => r matches Ok((x, q2)) && kind_of(x) == k && q2 as int == q,
            Err(e) => r == Err::<(PersistenceExpressionKind, usize), DecodeError>(e),
        },
{
    if tag == 6 && len == 2 {
        match decode_entity_id(b, pos) {
            Ok((id, q)) => Ok((PersistenceExpressionKind::ParameterReference(id), q)),
            Err(e) => Err(e),
        }
    } else if 7 <= tag && len == 3 {
        let (left, p1) = match decode_entity_id(b, pos) {
            Ok(x) => x,
            Err(e) => return Err(e),
        };
        let (right, q) = match decode_entity_id(b, p1) {
            Ok(x) => x,
            Err(e) => return Err(e),
        };
        Ok((binary_of(tag, left, right), q))
    } else {
        Err(DecodeError::InvalidWireSchema)
    }
}

fn read_composite_kind(b: &[u8], pos: usize, tag: u64, len: u64) -> (r: Result<(PersistenceExpressionKind, usize), DecodeError>)
    requires
        tag >= 18,
    ensures
        match wire_kind_data(b@, pos as int, tag, len) {
            Ok((k, q)) => r matches Ok((x, q2)) && kind_of(x) == k && q2 as int == q,
            Err(e) => r == Err::<(PersistenceExpressionKind, usize), DecodeError>(e),
        },
{
    if tag == 18 && len == 3 {
        let (target, p1) = match decode_entity_id(b, pos) {
            Ok(x) => x,
            Err(e) => return Err(e),
        };
        let (n, p2) = match read_count(b, p1) {
            Ok(x) => x,
            Err(e) => return Err(e),
        };
        let (arguments, q) = match read_id_list(b, p2, n) {
            Ok(x) => x,
            Err(e) => return Err(e),
        };
        Ok((PersistenceExpressionKind::Call { target, arguments }, q))
    } else if tag == 19 && len == 3 {
        let (type_id, p1) = match decode_entity_id(b, pos) {
            Ok(x) => x,
            Err(e) => return Err(e),
        };
        let (value, q) = match decode_entity_id(b, p1) {
            Ok(x) => x,
            Err(e) => return Err(e),
        };
        Ok((PersistenceExpressionKind::DomainConstruct { type_id, value }, q))
    } else if tag == 20 && len == 2 {
        match decode_entity_id(b, pos) {
            Ok((value, q)) => Ok((PersistenceExpressionKind::DomainProject { value }, q)),
            Err(e) => Err(e),
        }
    } else {
        Err(DecodeError::InvalidWireSchema)
    }
}

/// Reads the kind of an Expression at `pos`.
pub fn decode_expression_kind(b: &[u8], pos: usize) -> (r: Result<(PersistenceExpressionKind, usize), DecodeError>)
    ensures
        match wire_kind(b@, pos as int) {
            Ok((k, q)) => r matches Ok((x, q2)) && kind_of(x) == k && q2 as int == q,
            Err(e) => r == Err::<(PersistenceExpressionKind, usize), DecodeError>(e),
        },
{
    let (len, p1) = match array_len(b, pos) {
        Ok(x) => x,
        Err(e) => return Err(e),
    };
    let (tag, p2) = match read_u64(b, p1) {
        Ok(x) => x,
        Err(e) => return Err(e),
    };
    if tag <= 5 {
        read_literal_kind(b, p2, tag, len)
    } else if tag <= 17 {
        read_operand_kind(b, p2, tag, len)
    } else {
        read_composite_kind(b, p2, tag, len)
    }
}

/// Reads a Block terminator at `pos`.
pub fn decode_terminator(b: &[u8], pos: usize) -> (r: Result<(PersistenceTerminator, usize), DecodeError>)
    ensures
        match wire_terminator(b@, pos as int) {
            Ok((t, q)) => r matches Ok((x, q2)) && terminator_of(x) == t && q2 as int == q,
            Err(e) => r == Err::<(PersistenceTerminator, usize), DecodeError>(e),
        },
{
    let (len, p1) = match array_len(b, pos) {
        Ok(x) => x,
        Err(e) => return Err(e),
    };
    let (tag, p2) = match read_u64(b, p1) {
        Ok(x) => x,
        Err(e) => return Err(e),
    };
    if tag == 0 && len == 2 {
        match decode_entity_id(b, p2) {
            Ok((expression, q)) => Ok((PersistenceTerminator::Return { expression }, q)),
            Err(e) => Err(e),
        }
    } else if tag == 1 && len == 4 {
        let (condition, p3) = match decode_entity_id(b, p2) {
            Ok(x) => x,
            Err(e) => return Err(e),
        };
        let (true_block, p4) = match decode_entity_id(b, p3) {
            Ok(x) => x,
            Err(e) => return Err(e),
        };
        let (false_block, q) = match decode_entity_id(b, p4) {
            Ok(x) => x,
            Err(e) => return Err(e),
        };
        Ok((PersistenceTerminator::Branch { condition, true_block, false_block }, q))
    } else {
        Err(DecodeError::InvalidWireSchema)
    }
}

/// Identities in strictly ascending order.
pub open spec fn ascending(keys: Seq<(u128, u64)>) -> bool {
    forall|i: int, j: int| 0 <= i < j < keys.len() ==> key_before(#[trigger] keys[i], #[trigger] keys[j])
}

/// Checks the identity of one more element of an identity-ordered
/// collection: [`id_check`].
fn check_collection_id(seen: &Vec<(u128, u64)>, key: (u128, u64)) -> (r: Option<DecodeError>)
    requires
        ascending(seen@),
    ensures
        r == id_check(seen@, key),
        r is None ==> ascending(seen@.push(key)),
{
    let n = seen.len();
    if n == 0 {
        assert(!seen@.contains(key));
        assert(ascending(seen@.push(key)));
        return None;
    }
    let last = seen[n - 1];
    if key_is_before(last, key) {
        assert forall|j: int| 0 <= j < n implies key_before(#[trigger] seen@[j], key) by {
            if j < n - 1 {
                assert(key_before(seen@[j], seen@[n - 1]));
            }
        }
        assert(!seen@.contains(key));
        assert forall|i: int, j: int| 0 <= i < j < seen@.push(key).len() implies key_before(
            #[trigger] seen@.push(key)[i],
            #[trigger] seen@.push(key)[j],
        ) by {
            if j == n {
                assert(seen@.push(key)[i] == seen@[i]);
            } else {
                assert(seen@.push(key)[i] == seen@[i]);
                assert(seen@.push(key)[j] == seen@[j]);
            }
        }
        return None;
    }
    let mut i: usize = 0;
    while i < n
        invariant
            i <= n,
            n == seen@.len(),
            forall|j: int| 0 <= j < i ==> seen@[j] != key,
        decreases n - i,
    {
        let k = seen[i];
        if k.0 == key.0 && k.1 == key.1 {
            assert(seen@.contains(key)) by {
                assert(seen@[i as int] == key);
            }
            return Some(DecodeError::StructurallyInvalidProgram);
        }
        i = i + 1;
    }
    assert(!seen@.contains(key));
    Some(DecodeError::NonCanonicalEncoding)
}

fn read_expressions(b: &[u8], pos: usize, n: u64) -> (r: Result<(Vec<PersistenceExpression>, usize), DecodeError>)
    ensures
        match wire_expressions(b@, pos as int, n as int, Seq::empty()) {
            Ok((ws, q)) => r matches Ok((x, q2)) && x@.map_values(|e: PersistenceExpression| e.expression@) == ws && q2 as int == q,
            Err(e) => r == Err::<(Vec<PersistenceExpression>, usize), DecodeError>(e),
        },
{
    let ghost total = wire_expressions(b@, pos as int, n as int, Seq::empty());
    let ghost mut acc: Seq<ExpressionView> = Seq::empty();
    let mut items: Vec<PersistenceExpression> = Vec::new();
    let mut seen: Vec<(u128, u64)> = Vec::new();
    let mut cur = pos;
    let mut i: u64 = 0;
    proof {
        lemma_prepend_empty(total);
    }
    while i < n
        invariant
            i <= n,
            total == wire_expressions(b@, pos as int, n as int, Seq::empty()),
            total == prepend(acc, wire_expressions(b@, cur as int, (n - i) as int, seen@)),
            items@.map_values(|e: PersistenceExpression| e.expression@) == acc,
            ascending(seen@),
        decreases n - i,
    {
        let p1 = match fixed_array(b, cur, 2) {
            Ok(p) => p,
            Err(e) => return Err(e),
        };
        let (id, p2) = match decode_entity_id(b, p1) {
            Ok(x) => x,
            Err(e) => return Err(e),
        };
        let (kind, q) = match decode_expression_kind(b, p2) {
            Ok(x) => x,
            Err(e) => return Err(e),
        };
        let expression = PersistenceExpression::new(id, kind);
        let key = (expression.expression.id.namespace_id.0, expression.expression.id.counter);
        if let Some(e) = check_collection_id(&seen, key) {
            return Err(e);
        }
        let ghost w = expression.expression@;
        proof {
            lemma_prepend_push(acc, w, wire_expressions(b@, q as int, (n - i - 1) as int, seen@.push(key)));
        }
        items.push(expression);
        seen.push(key);
        proof {
            acc = acc.push(w);
            assert(items@.map_values(|e: PersistenceExpression| e.expression@) =~= acc);
        }
        cur = q;
        i = i + 1;
    }
    proof {
        assert(acc + Seq::<ExpressionView>::empty() =~= acc);
    }
    Ok((items, cur))
}

fn decode_block(b: &[u8], pos: usize) -> (r: Result<(PersistenceBlock, usize), DecodeError>)
    ensures
        match wire_block(b@, pos as int) {
            Ok((w, q)) => r matches Ok((x, q2)) && x.block@ == w && q2 as int == q,
            Err(e) => r == Err::<(PersistenceBlock, usize), DecodeError>(e),
        },
{
    reveal(wire_block);
    let p1 = match fixed_array(b, pos, 4) {
        Ok(p) => p,
        Err(e) => return Err(e),
    };
    let (id, p2) = match decode_entity_id(b, p1) {
        Ok(x) => x,
        Err(e) => return Err(e),
    };
    let (n, p3) = match read_count(b, p2) {
        Ok(x) => x,
        Err(e) => return Err(e),
    };
    let (expressions, p4) = match read_expressions(b, p3, n) {
        Ok(x) => x,
        Err(e) => return Err(e),
    };
    let (m, p5) = match read_count(b, p4) {
        Ok(x) => x,
        Err(e) => return Err(e),
    };
    let (effects, p6) = match read_id_list(b, p5, m) {
        Ok(x) => x,
        Err(e) => return Err(e),
    };
    let (terminator, q) = match decode_terminator(b, p6) {
        Ok(x) => x,
        Err(e) => return Err(e),
    };
    Ok((PersistenceBlock::new(id, expressions, effects, terminator), q))
}

fn read_blocks(b: &[u8], pos: usize, n: u64) -> (r: Result<(Vec<PersistenceBlock>, usize), DecodeError>)
    ensures
        match wire_blocks(b@, pos as int, n as int, Seq::empty()) {
            Ok((ws, q)) => r matches Ok((x, q2)) && x@.map_values(|e: PersistenceBlock| e.block@) == ws && q2 as int == q,
            Err(e) => r == Err::<(Vec<PersistenceBlock>, usize), DecodeError>(e),
        },
{
    let ghost total = wire_blocks(b@, pos as int, n as int, Seq::empty());
    let ghost mut acc: Seq<BlockView> = Seq::empty();
    let mut items: Vec<PersistenceBlock> = Vec::new();
    let mut seen: Vec<(u128, u64)> = Vec::new();
    let mut cur = pos;
    let mut i: u64 = 0;
    proof {
        lemma_prepend_empty(total);
    }
    while i < n
        invariant
            i <= n,
            total == wire_blocks(b@, pos as int, n as int, Seq::empty()),
            total == prepend(acc, wire_blocks(b@, cur as int, (n - i) as int, seen@)),
            items@.map_values(|e: PersistenceBlock| e.block@) == acc,
            ascending(seen@),
        decreases n - i,
    {
        let (block, q) = match decode_block(b, cur) {
            Ok(x) => x,
            Err(e) => return Err(e),
        };
        let key = (block.block.id.namespace_id.0, block.block.id.counter);
        if let Some(e) = check_collection_id(&seen, key) {
            return Err(e);
        }
        let ghost w = block.block@;
        proof {
            lemma_prepend_push(acc, w, wire_blocks(b@, q as int, (n - i - 1) as int, seen@.push(key)));
        }
        items.push(block);
        seen.push(key);
        proof {
            acc = acc.push(w);
            assert(items@.map_values(|e: PersistenceBlock| e.block@) =~= acc);
        }
        cur = q;
        i = i + 1;
    }
    proof {
        assert(acc + Seq::<BlockView>::empty() =~= acc);
    }
    Ok((items, cur))
}

/// An optional persistent body that is the decoded one.
pub open spec fn body_is(x: Option<PersistenceBody>, w: Option<BodyView>) -> bool {
    match x {
        Some(body) => w == Some(body.body@),
        None => w is None,
    }
}

fn decode_body(b: &[u8], pos: usize) -> (r: Result<(Option<PersistenceBody>, usize), DecodeError>)
    ensures
        match wire_body(b@, pos as int) {
            Ok((w, q)) => r matches Ok((x, q2)) && body_is(x, w) && q2 as int == q,
            Err(e) => r == Err::<(Option<PersistenceBody>, usize), DecodeError>(e),
        },
{
    let (len, p1) = match array_len(b, pos) {
        Ok(x) => x,
        Err(e) => return Err(e),
    };
    let (tag, p2) = match read_u64(b, p1) {
        Ok(x) => x,
        Err(e) => return Err(e),
    };
    if tag == 0 && len == 1 {
        Ok((None, p2))
    } else if tag == 1 && len == 2 {
        let p3 = match fixed_array(b, p2, 2) {
            Ok(p) => p,
            Err(e) => return Err(e),
        };
        let (entry, p4) = match decode_entity_id(b, p3) {
            Ok(x) => x,
            Err(e) => return Err(e),
        };
        let (n, p5) = match read_count(b, p4) {
            Ok(x) => x,
            Err(e) => return Err(e),
        };
        let (blocks, q) = match read_blocks(b, p5, n) {
            Ok(x) => x,
            Err(e) => return Err(e),
        };
        let body = PersistenceBody::new(entry, blocks);
        assert(body.body@ == (BodyView { entry_block_id: body.body@.entry_block_id, blocks: body.body@.blocks }));
        Ok((Some(body), q))
    } else {
        Err(DecodeError::InvalidWireSchema)
    }
}

fn read_parameter(b: &[u8], pos: usize) -> (r: Result<(PersistenceParameter, usize), DecodeError>)
    ensures
        match wire_parameter(b@, pos as int) {
            Ok((w, q)) => r matches Ok((x, q2)) && parameter_is(x.parameter, w) && q2 as int == q,
            Err(e) => r == Err::<(PersistenceParameter, usize), DecodeError>(e),
        },
{
    reveal(wire_parameter);
    let p1 = match fixed_array(b, pos, 3) {
        Ok(p) => p,
        Err(e) => return Err(e),
    };
    let (id, p2) = match decode_entity_id(b, p1) {
        Ok(x) => x,
        Err(e) => return Err(e),
    };
    let (value_type, p3) = match decode_persistence_value_type(b, p2) {
        Ok(x) => x,
        Err(e) => return Err(e),
    };
    let (presentation, q) = match decode_presentation(b, p3) {
        Ok(x) => x,
        Err(e) => return Err(e),
    };
    Ok((PersistenceParameter::new(id, value_type, presentation), q))
}

/// Persistent Parameters that are the decoded ones, in order.
pub open spec fn parameters_are(xs: Seq<PersistenceParameter>, ws: Seq<WireParameter>) -> bool {
    xs.len() == ws.len() && forall|i: int| 0 <= i < xs.len() ==> parameter_is(#[trigger] xs[i].parameter, ws[i])
}

fn read_parameters(b: &[u8], pos: usize, n: u64) -> (r: Result<(Vec<PersistenceParameter>, usize), DecodeError>)
    ensures
        match wire_parameters(b@, pos as int, n as int) {
            Ok((ws, q)) => r matches Ok((x, q2)) && parameters_are(x@, ws) && q2 as int == q,
            Err(e) => r == Err::<(Vec<PersistenceParameter>, usize), DecodeError>(e),
        },
{
    let ghost total = wire_parameters(b@, pos as int, n as int);
    let ghost mut acc: Seq<WireParameter> = Seq::empty();
    let mut items: Vec<PersistenceParameter> = Vec::new();
    let mut cur = pos;
    let mut i: u64 = 0;
    proof {
        lemma_prepend_empty(total);
    }
    while i < n
        invariant
            i <= n,
            total == wire_parameters(b@, pos as int, n as int),
            total == prepend(acc, wire_parameters(b@, cur as int, (n - i) as int)),
            parameters_are(items@, acc),
        decreases n - i,
    {
        let (parameter, q) = match read_parameter(b, cur) {
            Ok(x) => x,
            Err(e) => return Err(e),
        };
        let ghost w = (wire_parameter(b@, cur as int)->Ok_0).0;
        proof {
            lemma_prepend_push(acc, w, wire_parameters(b@, q as int, (n - i - 1) as int));
        }
        items.push(parameter);
        proof {
            acc = acc.push(w);
        }
        cur = q;
        i = i + 1;
    }
    proof {
        assert(acc + Seq::<WireParameter>::empty() =~= acc);
    }
    Ok((items, cur))
}

fn decode_function(b: &[u8], pos: usize) -> (r: Result<(PersistenceFunction, usize), DecodeError>)
    ensures
        match wire_function(b@, pos as int) {
            Ok((w, q)) => r matches Ok((x, q2)) && function_is(x.function@, w) && q2 as int == q,
            Err(e) => r == Err::<(PersistenceFunction, usize), DecodeError>(e),
        },
{
    reveal(wire_function);
    let p1 = match fixed_array(b, pos, 5) {
        Ok(p) => p,
        Err(e) => return Err(e),
    };
    let (id, p2) = match decode_entity_id(b, p1) {
        Ok(x) => x,
        Err(e) => return Err(e),
    };
    let (return_type, p3) = match decode_persistence_value_type(b, p2) {
        Ok(x) => x,
        Err(e) => return Err(e),
    };
    let (n, p4) = match read_count(b, p3) {
        Ok(x) => x,
        Err(e) => return Err(e),
    };
    let (parameters, p5) = match read_parameters(b, p4, n) {
        Ok(x) => x,
        Err(e) => return Err(e),
    };
    let (body, p6) = match decode_body(b, p5) {
        Ok(x) => x,
        Err(e) => return Err(e),
    };
    let (presentation, q) = match decode_presentation(b, p6) {
        Ok(x) => x,
        Err(e) => return Err(e),
    };
    let ghost ps = parameters@;
    let function = PersistenceFunction::new(id, return_type, parameters, body, presentation);
    assert forall|i: int| 0 <= i < function.function@.parameters.len() implies parameter_is(
        #[trigger] function.function@.parameters[i],
        (wire_function(b@, pos as int)->Ok_0).0.parameters[i],
    ) by {
        assert(function.function@.parameters[i] == ps[i].parameter);
    }
    Ok((function, q))
}

fn read_functions(b: &[u8], pos: usize, n: u64) -> (r: Result<(Vec<PersistenceFunction>, usize), DecodeError>)
    ensures
        match wire_functions(b@, pos as int, n as int, Seq::empty()) {
            Ok((ws, q)) => r matches Ok((x, q2)) && x.len() == ws.len() && (forall|i: int| 0 <= i < x.len() ==> function_is(#[trigger] x@[i].function@, ws[i])) && q2 as int == q,
            Err(e) => r == Err::<(Vec<PersistenceFunction>, usize), DecodeError>(e),
        },
{
    let ghost total = wire_functions(b@, pos as int, n as int, Seq::empty());
    let ghost mut acc: Seq<WireFunction> = Seq::empty();
    let mut items: Vec<PersistenceFunction> = Vec::new();
    let mut seen: Vec<(u128, u64)> = Vec::new();
    let mut cur = pos;
    let mut i: u64 = 0;
    proof {
        lemma_prepend_empty(total);
    }
    while i < n
        invariant
            i <= n,
            total == wire_functions(b@, pos as int, n as int, Seq::empty()),
            total == prepend(acc, wire_functions(b@, cur as int, (n - i) as int, seen@)),
            items.len() == acc.len(),
            forall|j: int| 0 <= j < items.len() ==> function_is(#[trigger] items@[j].function@, acc[j]),
            ascending(seen@),
        decreases n - i,
    {
        let (function, q) = match decode_function(b, cur) {
            Ok(x) => x,
            Err(e) => return Err(e),
        };
        let key = (function.function.id.namespace_id.0, function.function.id.counter);
        if let Some(e) = check_collection_id(&seen, key) {
            return Err(e);
        }
        let ghost w = (wire_function(b@, cur as int)->Ok_0).0;
        proof {
            lemma_prepend_push(acc, w, wire_functions(b@, q as int, (n - i - 1) as int, seen@.push(key)));
        }
        items.push(function);
        seen.push(key);
        proof {
            acc = acc.push(w);
        }
        cur = q;
        i = i + 1;
    }
    proof {
        assert(acc + Seq::<WireFunction>::empty() =~= acc);
    }
    Ok((items, cur))
}

fn decode_domain_type(b: &[u8], pos: usize) -> (r: Result<(PersistenceDomainType, usize), DecodeError>)
    ensures
        match wire_domain_type(b@, pos as int) {
            Ok((w, q)) => r matches Ok((x, q2)) && domain_type_is(x.domain_type, w) && q2 as int == q,
            Err(e) => r == Err::<(PersistenceDomainType, usize), DecodeError>(e),
        },
{
    reveal(wire_domain_type);
    let p1 = match fixed_array(b, pos, 3) {
        Ok(p) => p,
        Err(e) => return Err(e),
    };
    let (id, p2) = match decode_entity_id(b, p1) {
        Ok(x) => x,
        Err(e) => return Err(e),
    };
    let (representation, p3) = match decode_intrinsic(b, p2) {
        Ok(x) => x,
        Err(e) => return Err(e),
    };
    let (presentation, q) = match decode_presentation(b, p3) {
        Ok(x) => x,
        Err(e) => return Err(e),
    };
    Ok((PersistenceDomainType::new(id, representation, presentation), q))
}

fn read_domain_types(b: &[u8], pos: usize, n: u64) -> (r: Result<(Vec<PersistenceDomainType>, usize), DecodeError>)
    ensures
        match wire_domain_types(b@, pos as int, n as int, Seq::empty()) {
            Ok((ws, q)) => r matches Ok((x, q2)) && x.len() == ws.len() && (forall|i: int| 0 <= i < x.len() ==> domain_type_is(#[trigger] x@[i].domain_type, ws[i])) && q2 as int == q,
            Err(e) => r == Err::<(Vec<PersistenceDomainType>, usize), DecodeError>(e),
        },
{
    let ghost total = wire_domain_types(b@, pos as int, n as int, Seq::empty());
    let ghost mut acc: Seq<WireDomainType> = Seq::empty();
    let mut items: Vec<PersistenceDomainType> = Vec::new();
    let mut seen: Vec<(u128, u64)> = Vec::new();
    let mut cur = pos;
    let mut i: u64 = 0;
    proof {
        lemma_prepend_empty(total);
    }
    while i < n
        invariant
            i <= n,
            total == wire_domain_types(b@, pos as int, n as int, Seq::empty()),
            total == prepend(acc, wire_domain_types(b@, cur as int, (n - i) as int, seen@)),
            items.len() == acc.len(),
            forall|j: int| 0 <= j < items.len() ==> domain_type_is(#[trigger] items@[j].domain_type, acc[j]),
            ascending(seen@),
        decreases n - i,
    {
        let (domain_type, q) = match decode_domain_type(b, cur) {
            Ok(x) => x,
            Err(e) => return Err(e),
        };
        let key = (domain_type.domain_type.id.namespace_id.0, domain_type.domain_type.id.counter);
        if let Some(e) = check_collection_id(&seen, key) {
            return Err(e);
        }
        let ghost w = (wire_domain_type(b@, cur as int)->Ok_0).0;
        proof {
            lemma_prepend_push(acc, w, wire_domain_types(b@, q as int, (n - i - 1) as int, seen@.push(key)));
        }
        items.push(domain_type);
        seen.push(key);
        proof {
            acc = acc.push(w);
        }
        cur = q;
        i = i + 1;
    }
    proof {
        assert(acc + Seq::<WireDomainType>::empty() =~= acc);
    }
    Ok((items, cur))
}

fn decode_module(b: &[u8], pos: usize) -> (r: Result<(PersistenceModule, usize), DecodeError>)
    ensures
        match wire_module(b@, pos as int) {
            Ok((w, q)) => r matches Ok((x, q2)) && module_is(x.module@, w) && q2 as int == q,
            Err(e) => r == Err::<(PersistenceModule, usize), DecodeError>(e),
        },
{
    reveal(wire_module);
    let p1 = match fixed_array(b, pos, 4) {
        Ok(p) => p,
        Err(e) => return Err(e),
    };
    let (id, p2) = match decode_entity_id(b, p1) {
        Ok(x) => x,
        Err(e) => return Err(e),
    };
    let (presentation, p3) = match decode_presentation(b, p2) {
        Ok(x) => x,
        Err(e) => return Err(e),
    };
    let (n, p4) = match read_count(b, p3) {
        Ok(x) => x,
        Err(e) => return Err(e),
    };
    let (domain_types, p5) = match read_domain_types(b, p4, n) {
        Ok(x) => x,
        Err(e) => return Err(e),
    };
    let (m, p6) = match read_count(b, p5) {
        Ok(x) => x,
        Err(e) => return Err(e),
    };
    let (functions, q) = match read_functions(b, p6, m) {
        Ok(x) => x,
        Err(e) => return Err(e),
    };
    let ghost ds = domain_types@;
    let ghost fs = functions@;
    let module = PersistenceModule::new(id, presentation, domain_types, functions);
    let ghost w = (wire_module(b@, pos as int)->Ok_0).0;
    assert forall|i: int| 0 <= i < module.module@.domain_types.len() implies domain_type_is(
        #[trigger] module.module@.domain_types[i],
        w.domain_types[i],
    ) by {
        assert(module.module@.domain_types[i] == ds[i].domain_type);
    }
    assert forall|i: int| 0 <= i < module.module@.functions.len() implies function_is(
        #[trigger] module.module@.functions[i],
        w.functions[i],
    ) by {
        assert(module.module@.functions[i] == fs[i].function@);
    }
    Ok((module, q))
}

fn read_modules(b: &[u8], pos: usize, n: u64) -> (r: Result<(Vec<PersistenceModule>, usize), DecodeError>)
    ensures
        match wire_modules(b@, pos as int, n as int, Seq::empty()) {
            Ok((ws, q)) => r matches Ok((x, q2)) && x.len() == ws.len() && (forall|i: int| 0 <= i < x.len() ==> module_is(#[trigger] x@[i].module@, ws[i])) && q2 as int == q,
            Err(e) => r == Err::<(Vec<PersistenceModule>, usize), DecodeError>(e),
        },
{
    let ghost total = wire_modules(b@, pos as int, n as int, Seq::empty());
    let ghost mut acc: Seq<WireModule> = Seq::empty();
    let mut items: Vec<PersistenceModule> = Vec::new();
    let mut seen: Vec<(u128, u64)> = Vec::new();
    let mut cur = pos;
    let mut i: u64 = 0;
    proof {
        lemma_prepend_empty(total);
    }
    while i < n
        invariant
            i <= n,
            total == wire_modules(b@, pos as int, n as int, Seq::empty()),
            total == prepend(acc, wire_modules(b@, cur as int, (n - i) as int, seen@)),
            items.len() == acc.len(),
            forall|j: int| 0 <= j < items.len() ==> module_is(#[trigger] items@[j].module@, acc[j]),
            ascending(seen@),
        decreases n - i,
    {
        let (module, q) = match decode_module(b, cur) {
            Ok(x) => x,
            Err(e) => return Err(e),
        };
        let key = (module.module.id.namespace_id.0, module.module.id.counter);
        if let Some(e) = check_collection_id(&seen, key) {
            return Err(e);
        }
        let ghost w = (wire_module(b@, cur as int)->Ok_0).0;
        proof {
            lemma_prepend_push(acc, w, wire_modules(b@, q as int, (n - i - 1) as int, seen@.push(key)));
        }
        items.push(module);
        seen.push(key);
        proof {
            acc = acc.push(w);
        }
        cur = q;
        i = i + 1;
    }
    proof {
        assert(acc + Seq::<WireModule>::empty() =~= acc);
    }
    Ok((items, cur))
}

/// Reads a revision counter state at `pos`.
pub fn decode_revision_counter(b: &[u8], pos: usize) -> (r: Result<(RevisionCounterState, usize), DecodeError>)
    ensures
        reads(r, wire_revision_counter(b@, pos as int)),
{
    let (len, p1) = match array_len(b, pos) {
        Ok(x) => x,
        Err(e) => return Err(e),
    };
    let (tag, p2) = match read_u64(b, p1) {
        Ok(x) => x,
        Err(e) => return Err(e),
    };
    if tag == 0 && len == 2 {
        let (next, q) = match read_u64(b, p2) {
            Ok(x) => x,
            Err(e) => return Err(e),
        };
        if next == 0 {
            Err(DecodeError::InvalidWireSchema)
        } else {
            Ok((RevisionCounterState::Available(next), q))
        }
    } else if tag == 1 && len == 1 {
        Ok((RevisionCounterState::Exhausted, p2))
    } else {
        Err(DecodeError::InvalidWireSchema)
    }
}

fn decode_allocation_authority(b: &[u8], pos: usize) -> (r: Result<(([u8; 16], AllocationCounterState), usize), DecodeError>)
    ensures
        match wire_authority(b@, pos as int) {
            Ok(((ns, state), q)) => r matches Ok(((x, s2), q2)) && x@ == ns && s2 == state && q2 as int == q,
            Err(e) => r == Err::<(([u8; 16], AllocationCounterState), usize), DecodeError>(e),
        },
{
    let p1 = match fixed_array(b, pos, 2) {
        Ok(p) => p,
        Err(e) => return Err(e),
    };
    let (namespace, p2) = match fixed_bytes_16(b, p1) {
        Ok(x) => x,
        Err(e) => return Err(e),
    };
    let (len, p3) = match array_len(b, p2) {
        Ok(x) => x,
        Err(e) => return Err(e),
    };
    let (tag, p4) = match read_u64(b, p3) {
        Ok(x) => x,
        Err(e) => return Err(e),
    };
    if tag == 0 && len == 2 {
        match read_u64(b, p4) {
            Ok((next, q)) => Ok(((namespace, AllocationCounterState::Available(next)), q)),
            Err(e) => Err(e),
        }
    } else if tag == 1 && len == 1 {
        Ok(((namespace, AllocationCounterState::Exhausted), p4))
    } else {
        Err(DecodeError::InvalidWireSchema)
    }
}

/// A reconstruction candidate that is the decoded payload.
pub open spec fn candidate_is(c: PersistenceProgram, w: WireProgram) -> bool {
    &&& c.program_id == w.program_id
    &&& c.revision_id == w.revision_id
    &&& c.revision_counter_state == w.revision_counter_state
    &&& c.allocation_namespace_id == w.namespace_id
    &&& c.allocation_counter_state == w.counter
    &&& modules_are(crate::model::module_views(c.modules@), w.modules)
}

/// Reads the wire schema of a canonical payload into a reconstruction
/// candidate: [`wire_payload`].
pub fn decode_payload(b: &[u8]) -> (r: Result<PersistenceProgram, DecodeError>)
    ensures
        match wire_payload(b@) {
            Ok(w) => r matches Ok(c) && candidate_is(c, w),
            Err(e) => r == Err::<PersistenceProgram, DecodeError>(e),
        },
{
    let p1 = match fixed_array(b, 0, 5) {
        Ok(p) => p,
        Err(e) => return Err(e),
    };
    let (program_id, p2) = match fixed_bytes_16(b, p1) {
        Ok(x) => x,
        Err(e) => return Err(e),
    };
    let (revision_id, p3) = match read_u64(b, p2) {
        Ok(x) => x,
        Err(e) => return Err(e),
    };
    let (revision_counter_state, p4) = match decode_revision_counter(b, p3) {
        Ok(x) => x,
        Err(e) => return Err(e),
    };
    let ((namespace, allocation_counter_state), p5) = match decode_allocation_authority(b, p4) {
        Ok(x) => x,
        Err(e) => return Err(e),
    };
    let (n, p6) = match read_count(b, p5) {
        Ok(x) => x,
        Err(e) => return Err(e),
    };
    let (modules, q) = match read_modules(b, p6, n) {
        Ok(x) => x,
        Err(e) => return Err(e),
    };
    if q != b.len() {
        return Err(DecodeError::MalformedEncoding);
    }
    let ghost ms = modules@;
    let candidate = PersistenceProgram::new(
        program_id,
        revision_id,
        revision_counter_state,
        namespace,
        allocation_counter_state,
        modules,
    );
    let ghost w = wire_payload(b@)->Ok_0;
    assert forall|i: int| 0 <= i < crate::model::module_views(candidate.modules@).len() implies module_is(
        #[trigger] crate::model::module_views(candidate.modules@)[i],
        w.modules[i],
    ) by {
        assert(crate::model::module_views(candidate.modules@)[i] == ms[i].module@);
    }
    Ok(candidate)
}

} // verus!
