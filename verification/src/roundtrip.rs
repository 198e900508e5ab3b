//! Reading back what the writer wrote: every wire element, as the encoder
//! writes it, passes the canonical profile and reads back as the element,
//! each identity-ordered collection in canonical order.
use vstd::prelude::*;
use vstd::utf8::encode_utf8;

use crate::body::{BlockView, BodyView, ExpressionView, KindView, Terminator};
use crate::cbor::{
    argument_at, array_at, be_bytes, bool_at, bool_item, bytes_at, bytes_item, head, signed_at,
    signed_item, text_at, text_item, unsigned_at,
};
use crate::decode::{
    WireDomainType, WireFunction, WireModule, WireParameter, WirePresentation, WireProgram,
    binary_kind, expression_named, id_check, namespace_of, prepend, wire_authority, wire_block,
    wire_blocks, wire_body, wire_count, wire_domain_type, wire_domain_types, wire_entity,
    wire_expressions, wire_fixed_array, wire_function, wire_functions, wire_id_list,
    wire_intrinsic, wire_kind, wire_kind_data, wire_module, wire_modules, wire_parameter,
    wire_parameters, wire_payload, wire_presentation, wire_revision_counter, wire_terminator,
    wire_text_option, wire_value_type,
};
use crate::encode::{
    block_key_list, block_parts, domain_type_key_list, domain_type_parts, expression_key_list,
    expression_parts, function_key_list, function_parts, id_list_parts, intrinsic_tag,
    module_key_list, module_parts, parameter_parts, pieces_allocation_authority, pieces_binary,
    pieces_block, pieces_block_terminator, pieces_body, pieces_domain_type, pieces_expression,
    pieces_expression_id, pieces_function, pieces_id, pieces_kind, pieces_module,
    pieces_parameter, pieces_payload, pieces_presentation, pieces_revision_counter,
    pieces_terminator, pieces_text_option, pieces_value_type,
};
use crate::format::{
    DecodeError, EncodeError, MAX_COLLECTION_COUNT, MAX_DEPTH, MAX_ITEM_SIZE, PAYLOAD_LIMIT,
};
use crate::ids::{
    AllocationCounterState, AllocationNamespaceId, ExpressionId, be_bytes_of, be_value_of, pow256,
};
use crate::intrinsic::{IntrinsicType, ValueType};
use crate::inventory::{
    block_expression_keys, blocks_expression_keys, function_block_keys, functions_block_keys,
    functions_expression_keys, module_keys, module_type_keys,
};
use crate::inventory::function_key_list as inventory_function_key_list;
use crate::locate::function_blocks;
use crate::model::{DomainType, FunctionView, ModuleView, Parameter};
use crate::order::{
    distinct_keys, key_before, keys_ascending, keys_at, lemma_sorted_order_ascending, sorted_order,
};
use crate::persistence::{CheckpointView, RevisionCounterState, counter_state_of};
use crate::presentation::{PresentationMetadata, text_of};
use crate::scan::{canonical_check, scanned_argument, scanned_item, scanned_items};
use crate::validation::identities_distinct;
use crate::writer::{Piece, outcome, pieces_array, pieces_list, pieces_u64};

verus! {

// ---------------------------------------------------------------------
// The bytes of a piece sequence.
// ---------------------------------------------------------------------

/// The bytes that a piece sequence appends, failures aside.
pub open spec fn flat(p: Seq<Piece>) -> Seq<u8>
    decreases p.len(),
{
    if p.len() == 0 {
        Seq::empty()
    } else {
        (match p[0] {
            Piece::Bytes(b) => b,
            Piece::Fail(_) => Seq::empty(),
        }) + flat(p.drop_first())
    }
}

/// A piece sequence with no failing check.
pub open spec fn no_fail(p: Seq<Piece>) -> bool {
    forall|i: int| 0 <= i < p.len() ==> #[trigger] p[i] is Bytes
}

pub broadcast proof fn lemma_flat_concat(p: Seq<Piece>, q: Seq<Piece>)
    ensures
        #[trigger] flat(p + q) == flat(p) + flat(q),
        no_fail(p + q) <==> no_fail(p) && no_fail(q),
    decreases p.len(),
{
    if p.len() == 0 {
        assert(p + q =~= q);
        assert(Seq::<u8>::empty() + flat(q) =~= flat(q));
    } else {
        assert((p + q).drop_first() =~= p.drop_first() + q);
        assert((p + q)[0] == p[0]);
        lemma_flat_concat(p.drop_first(), q);
        let first = match p[0] {
            Piece::Bytes(b) => b,
            Piece::Fail(_) => Seq::<u8>::empty(),
        };
        assert(first + (flat(p.drop_first()) + flat(q)) =~= (first + flat(p.drop_first())) + flat(q));
        assert(no_fail(p + q) <==> no_fail(p) && no_fail(q)) by {
            if no_fail(p) && no_fail(q) {
                assert forall|i: int| 0 <= i < (p + q).len() implies #[trigger] (p + q)[i] is Bytes by {
                    if i < p.len() {
                        assert(p[i] is Bytes);
                    } else {
                        assert(q[i - p.len()] is Bytes);
                    }
                }
            }
            if no_fail(p + q) {
                assert forall|i: int| 0 <= i < p.len() implies #[trigger] p[i] is Bytes by {
                    assert((p + q)[i] is Bytes);
                }
                assert forall|i: int| 0 <= i < q.len() implies #[trigger] q[i] is Bytes by {
                    assert((p + q)[p.len() + i] is Bytes);
                }
            }
        }
    }
}

pub broadcast proof fn lemma_flat_single(b: Seq<u8>)
    ensures
        #[trigger] flat(seq![Piece::Bytes(b)]) == b,
        no_fail(seq![Piece::Bytes(b)]),
{
    reveal_with_fuel(flat, 2);
    assert(seq![Piece::Bytes(b)].drop_first() =~= Seq::<Piece>::empty());
    assert(b + Seq::<u8>::empty() =~= b);
}

pub broadcast proof fn lemma_fail_fails(e: EncodeError)
    ensures
        #![trigger seq![Piece::Fail(e)]]
        !no_fail(seq![Piece::Fail(e)]),
{
    assert(!(seq![Piece::Fail(e)][0] is Bytes));
}

/// A successful write appends the bytes of its pieces, none of which
/// fails.
#[verifier::spinoff_prover]
pub proof fn lemma_outcome_flat(p: Seq<Piece>, used: int)
    requires
        outcome(p, used) is Ok,
    ensures
        outcome(p, used) == Ok::<Seq<u8>, EncodeError>(flat(p)),
        no_fail(p),
        used <= PAYLOAD_LIMIT ==> used + flat(p).len() <= PAYLOAD_LIMIT,
    decreases p.len(),
{
    if p.len() > 0 {
        match p[0] {
            Piece::Bytes(b) => {
                lemma_outcome_flat(p.drop_first(), used + b.len());
                assert forall|i: int| 0 <= i < p.len() implies #[trigger] p[i] is Bytes by {
                    if i > 0 {
                        assert(p.drop_first()[i - 1] is Bytes);
                    }
                }
            },
            Piece::Fail(_) => {},
        }
    }
}

// ---------------------------------------------------------------------
// Bytes at a position.
// ---------------------------------------------------------------------

/// `b` holds `e` at position `pos`.
pub open spec fn at(b: Seq<u8>, pos: int, e: Seq<u8>) -> bool {
    0 <= pos && pos + e.len() <= b.len() && b.subrange(pos, pos + e.len()) == e
}

#[verifier::spinoff_prover]
pub proof fn lemma_at_split(b: Seq<u8>, pos: int, e1: Seq<u8>, e2: Seq<u8>)
    requires
        at(b, pos, e1 + e2),
    ensures
        at(b, pos, e1),
        at(b, pos + e1.len(), e2),
{
    assert(b.subrange(pos, pos + e1.len()) =~= (e1 + e2).subrange(0, e1.len() as int));
    assert((e1 + e2).subrange(0, e1.len() as int) =~= e1);
    assert(b.subrange(pos + e1.len(), pos + e1.len() + e2.len()) =~= (e1 + e2).subrange(
        e1.len() as int,
        (e1.len() + e2.len()) as int,
    ));
    assert((e1 + e2).subrange(e1.len() as int, (e1.len() + e2.len()) as int) =~= e2);
}

// ---------------------------------------------------------------------
// Heads.
// ---------------------------------------------------------------------

#[verifier::spinoff_prover]
proof fn lemma_pow256_values()
    ensures
        pow256(1) == 0x100,
        pow256(2) == 0x1_0000,
        pow256(4) == 0x1_0000_0000,
        pow256(8) == 0x1_0000_0000_0000_0000,
{
    reveal_with_fuel(pow256, 9);
}

/// The big-endian bytes of a value read back as the value.
#[verifier::spinoff_prover]
pub proof fn lemma_be_bytes_round_trip(value: u64, n: nat)
    requires
        n <= 8,
        value < pow256(n),
    ensures
        be_bytes(value, n).len() == n,
        be_value_of(be_bytes(value, n)) == value,
    decreases n,
{
    if n > 0 {
        let high = (value / 256) as u64;
        let low = (value % 256) as u8;
        let p = pow256((n - 1) as nat);
        assert(pow256(n) == 256 * p);
        assert(value == high * 256 + low && high < p) by (nonlinear_arith)
            requires
                value < 256 * p,
                high == value / 256,
                low == value % 256,
        ;
        lemma_be_bytes_round_trip(high, (n - 1) as nat);
        let s = be_bytes(value, n);
        assert(s.drop_last() =~= be_bytes(high, (n - 1) as nat));
        assert(s.last() == low);
    }
}

/// The additional information of the shortest head of `arg`.
pub open spec fn head_info(arg: u64) -> u8 {
    if arg < 24 {
        arg as u8
    } else if arg < 0x100 {
        24
    } else if arg < 0x1_0000 {
        25
    } else if arg < 0x1_0000_0000 {
        26
    } else {
        27
    }
}

/// A head at `pos` reads back as its major type and argument, with the
/// position after it; its argument is canonical.
#[verifier::spinoff_prover]
pub proof fn lemma_head_at(b: Seq<u8>, pos: int, major: u8, arg: u64)
    requires
        major < 8,
        at(b, pos, head(major, arg)),
    ensures
        0 <= pos < b.len(),
        b[pos] / 32 == major,
        b[pos] % 32 == head_info(arg),
        argument_at(b, pos + 1, (b[pos] % 32) as u8) == Some((arg, pos + head(major, arg).len())),
        scanned_argument(b, pos + 1, (b[pos] % 32) as u8) == Ok::<(u64, int), DecodeError>(
            (arg, pos + head(major, arg).len()),
        ),
{
    lemma_pow256_values();
    let h = head(major, arg);
    let m: int = major * 32;
    assert(b[pos] == h[0]) by {
        assert(b.subrange(pos, pos + h.len())[0] == h[0]);
    }
    if arg >= 24 {
        let width: nat = if arg < 0x100 {
            1
        } else if arg < 0x1_0000 {
            2
        } else if arg < 0x1_0000_0000 {
            4
        } else {
            8
        };
        lemma_be_bytes_round_trip(arg, width);
        let info: int = if width == 1 {
            24
        } else if width == 2 {
            25
        } else if width == 4 {
            26
        } else {
            27
        };
        assert(h == seq![(m + info) as u8] + be_bytes(arg, width));
        assert(b.subrange(pos + 1, pos + 1 + width as int) =~= be_bytes(arg, width)) by {
            assert forall|k: int| 0 <= k < width implies #[trigger] b.subrange(pos + 1, pos + 1 + width as int)[k]
                == be_bytes(arg, width)[k] by {
                assert(b.subrange(pos, pos + h.len())[k + 1] == h[k + 1]);
            }
        }
    }
}

// ---------------------------------------------------------------------
// Items.
// ---------------------------------------------------------------------

/// One more item of a run of items.
#[verifier::spinoff_prover]
pub proof fn lemma_items_step(b: Seq<u8>, pos: int, depth: int, n: int, q: int)
    requires
        n > 0,
        scanned_item(b, pos, depth) == Ok::<int, DecodeError>(q),
    ensures
        scanned_items(b, pos, depth, n) == scanned_items(b, q, depth, n - 1),
{
}

/// An unsigned integer at `pos`.
#[verifier::spinoff_prover]
pub proof fn lemma_u64_at(b: Seq<u8>, pos: int, v: u64, depth: int)
    requires
        at(b, pos, head(0, v)),
        1 <= depth <= MAX_DEPTH,
    ensures
        unsigned_at(b, pos) == Some((v, pos + head(0, v).len())),
        crate::decode::wire_u64(b, pos) == Ok::<(u64, int), DecodeError>((v, pos + head(0, v).len())),
        scanned_item(b, pos, depth) == Ok::<int, DecodeError>(pos + head(0, v).len()),
{
    lemma_head_at(b, pos, 0, v);
}

/// An array head at `pos`; its elements follow, one level deeper.
#[verifier::spinoff_prover]
pub proof fn lemma_array_at(b: Seq<u8>, pos: int, n: u64, depth: int)
    requires
        at(b, pos, head(4, n)),
        1 <= depth <= MAX_DEPTH,
        n <= MAX_COLLECTION_COUNT,
    ensures
        array_at(b, pos) == Some((Some(n), pos + head(4, n).len())),
        crate::decode::wire_array_len(b, pos) == Ok::<(u64, int), DecodeError>((n, pos + head(4, n).len())),
        crate::decode::wire_fixed_array(b, pos, n) == Ok::<int, DecodeError>(pos + head(4, n).len()),
        crate::decode::wire_count(b, pos) == Ok::<(u64, int), DecodeError>((n, pos + head(4, n).len())),
        scanned_item(b, pos, depth) == scanned_items(b, pos + head(4, n).len(), depth + 1, n as int),
{
    lemma_head_at(b, pos, 4, n);
}

/// A byte string at `pos`.
#[verifier::spinoff_prover]
pub proof fn lemma_bytes_at(b: Seq<u8>, pos: int, content: Seq<u8>, depth: int)
    requires
        at(b, pos, bytes_item(content)),
        content.len() <= MAX_ITEM_SIZE,
        1 <= depth <= MAX_DEPTH,
    ensures
        bytes_at(b, pos) == Some((content, pos + bytes_item(content).len())),
        crate::decode::wire_bytes(b, pos) == Ok::<(Seq<u8>, int), DecodeError>((content, pos + bytes_item(content).len())),
        content.len() == 16 ==> crate::decode::wire_bytes16(b, pos) == Ok::<(Seq<u8>, int), DecodeError>(
            (content, pos + bytes_item(content).len()),
        ),
        scanned_item(b, pos, depth) == Ok::<int, DecodeError>(pos + bytes_item(content).len()),
{
    let h = head(2, content.len() as u64);
    lemma_at_split(b, pos, h, content);
    lemma_head_at(b, pos, 2, content.len() as u64);
}

/// A text string at `pos`, by its characters.
#[verifier::spinoff_prover]
pub proof fn lemma_text_at(b: Seq<u8>, pos: int, chars: Seq<char>, depth: int)
    requires
        at(b, pos, text_item(encode_utf8(chars))),
        encode_utf8(chars).len() <= MAX_ITEM_SIZE,
        1 <= depth <= MAX_DEPTH,
    ensures
        text_at(b, pos) == Some((encode_utf8(chars), pos + text_item(encode_utf8(chars)).len())),
        crate::decode::wire_text(b, pos) == Ok::<(Seq<char>, int), DecodeError>(
            (chars, pos + text_item(encode_utf8(chars)).len()),
        ),
        scanned_item(b, pos, depth) == Ok::<int, DecodeError>(pos + text_item(encode_utf8(chars)).len()),
{
    let content = encode_utf8(chars);
    let h = head(3, content.len() as u64);
    lemma_at_split(b, pos, h, content);
    lemma_head_at(b, pos, 3, content.len() as u64);
    vstd::utf8::encode_utf8_valid_utf8(chars);
    vstd::utf8::encode_utf8_decode_utf8(chars);
}

/// A signed integer at `pos`.
#[verifier::spinoff_prover]
pub proof fn lemma_signed_at(b: Seq<u8>, pos: int, v: i64, depth: int)
    requires
        at(b, pos, signed_item(v as int)),
        1 <= depth <= MAX_DEPTH,
    ensures
        signed_at(b, pos) == Some((v, pos + signed_item(v as int).len())),
        crate::decode::wire_i64(b, pos) == Ok::<(i64, int), DecodeError>((v, pos + signed_item(v as int).len())),
        scanned_item(b, pos, depth) == Ok::<int, DecodeError>(pos + signed_item(v as int).len()),
{
    if v >= 0 {
        lemma_head_at(b, pos, 0, v as u64);
    } else {
        lemma_head_at(b, pos, 1, (-1 - v) as u64);
    }
}

/// A boolean at `pos`.
#[verifier::spinoff_prover]
pub proof fn lemma_bool_at(b: Seq<u8>, pos: int, v: bool, depth: int)
    requires
        at(b, pos, bool_item(v)),
        1 <= depth <= MAX_DEPTH,
    ensures
        bool_at(b, pos) == Some((v, pos + 1)),
        crate::decode::wire_bool(b, pos) == Ok::<(bool, int), DecodeError>((v, pos + 1)),
        scanned_item(b, pos, depth) == Ok::<int, DecodeError>(pos + 1),
{
    assert(b[pos] == bool_item(v)[0]) by {
        assert(b.subrange(pos, pos + 1)[0] == bool_item(v)[0]);
    }
}

/// The sixteen big-endian bytes of a 128-bit value read back as the value.
#[verifier::spinoff_prover]
pub proof fn lemma_be_bytes_of_round_trip(x: u128)
    ensures
        be_bytes_of(x).len() == 16,
        be_value_of(be_bytes_of(x)) == x,
{
    let s = be_bytes_of(x);
    assert forall|k: nat| k <= 16 implies be_value_of(#[trigger] s.take(k as int)) == (x >> ((8 * (16 - k)) as u128)) by {
        lemma_be_prefix(x, k);
    }
    assert(s.take(16) =~= s);
    assert(x >> 0u128 == x) by (bit_vector);
}

#[verifier::spinoff_prover]
proof fn lemma_be_prefix(x: u128, k: nat)
    requires
        k <= 16,
    ensures
        be_value_of(be_bytes_of(x).take(k as int)) == (x >> ((8 * (16 - k)) as u128)),
    decreases k,
{
    let s = be_bytes_of(x);
    if k == 0 {
        assert(s.take(0) =~= Seq::<u8>::empty());
        assert(x >> 128u128 == 0) by (bit_vector);
    } else {
        lemma_be_prefix(x, (k - 1) as nat);
        assert(s.take(k as int).drop_last() =~= s.take(k - 1));
        let sh: u128 = (8 * (16 - k)) as u128;
        let low: u128 = (x >> sh) & 0xff;
        assert(low < 256) by (bit_vector)
            requires
                low == (x >> sh) & 0xff,
        ;
        assert(s.take(k as int).last() == s[k - 1]);
        assert(s[k - 1] == low as u8);
        assert(s.take(k as int).last() as int == low as int);
        assert((x >> (sh + 8)) * 256 + ((x >> sh) & 0xff) == x >> sh) by (bit_vector)
            requires
                sh <= 120,
        ;
        assert(((8 * (16 - (k - 1))) as u128) == sh + 8);
    }
}


// ---------------------------------------------------------------------
// Splitting runs of elements.
// ---------------------------------------------------------------------

#[verifier::spinoff_prover]
pub proof fn lemma_at3(b: Seq<u8>, pos: int, e1: Seq<u8>, e2: Seq<u8>, e3: Seq<u8>)
    requires
        at(b, pos, e1 + e2 + e3),
    ensures
        at(b, pos, e1),
        at(b, pos + e1.len(), e2),
        at(b, pos + e1.len() + e2.len(), e3),
{
    lemma_at_split(b, pos, e1 + e2, e3);
    lemma_at_split(b, pos, e1, e2);
}

#[verifier::spinoff_prover]
pub proof fn lemma_at4(b: Seq<u8>, pos: int, e1: Seq<u8>, e2: Seq<u8>, e3: Seq<u8>, e4: Seq<u8>)
    requires
        at(b, pos, e1 + e2 + e3 + e4),
    ensures
        at(b, pos, e1),
        at(b, pos + e1.len(), e2),
        at(b, pos + e1.len() + e2.len(), e3),
        at(b, pos + e1.len() + e2.len() + e3.len(), e4),
{
    lemma_at_split(b, pos, e1 + e2 + e3, e4);
    lemma_at3(b, pos, e1, e2, e3);
}

#[verifier::spinoff_prover]
pub proof fn lemma_at5(b: Seq<u8>, pos: int, e1: Seq<u8>, e2: Seq<u8>, e3: Seq<u8>, e4: Seq<u8>, e5: Seq<u8>)
    requires
        at(b, pos, e1 + e2 + e3 + e4 + e5),
    ensures
        at(b, pos, e1),
        at(b, pos + e1.len(), e2),
        at(b, pos + e1.len() + e2.len(), e3),
        at(b, pos + e1.len() + e2.len() + e3.len(), e4),
        at(b, pos + e1.len() + e2.len() + e3.len() + e4.len(), e5),
{
    lemma_at_split(b, pos, e1 + e2 + e3 + e4, e5);
    lemma_at4(b, pos, e1, e2, e3, e4);
}

#[verifier::spinoff_prover]
pub proof fn lemma_at6(b: Seq<u8>, pos: int, e1: Seq<u8>, e2: Seq<u8>, e3: Seq<u8>, e4: Seq<u8>, e5: Seq<u8>, e6: Seq<u8>)
    requires
        at(b, pos, e1 + e2 + e3 + e4 + e5 + e6),
    ensures
        at(b, pos, e1),
        at(b, pos + e1.len(), e2),
        at(b, pos + e1.len() + e2.len(), e3),
        at(b, pos + e1.len() + e2.len() + e3.len(), e4),
        at(b, pos + e1.len() + e2.len() + e3.len() + e4.len(), e5),
        at(b, pos + e1.len() + e2.len() + e3.len() + e4.len() + e5.len(), e6),
{
    lemma_at_split(b, pos, e1 + e2 + e3 + e4 + e5, e6);
    lemma_at5(b, pos, e1, e2, e3, e4, e5);
}

// ---------------------------------------------------------------------
// Identities.
// ---------------------------------------------------------------------

/// An entity identity at `pos` reads back as its namespace bytes and
/// counter.
#[verifier::spinoff_prover]
pub proof fn lemma_entity_at(b: Seq<u8>, pos: int, namespace: AllocationNamespaceId, counter: u64, depth: int)
    requires
        at(b, pos, flat(pieces_id(namespace, counter))),
        1 <= depth,
        depth + 1 <= MAX_DEPTH,
    ensures
        wire_entity(b, pos) == Ok::<((Seq<u8>, u64), int), DecodeError>(
            ((be_bytes_of(namespace.0), counter), pos + flat(pieces_id(namespace, counter)).len()),
        ),
        namespace_of(be_bytes_of(namespace.0)) == namespace,
        scanned_item(b, pos, depth) == Ok::<int, DecodeError>(pos + flat(pieces_id(namespace, counter)).len()),
{
    broadcast use lemma_flat_concat, lemma_flat_single;

    let ns = be_bytes_of(namespace.0);
    lemma_be_bytes_of_round_trip(namespace.0);
    let e1 = head(4, 2);
    let e2 = bytes_item(ns);
    let e3 = head(0, counter);
    assert(flat(pieces_id(namespace, counter)) == e1 + e2 + e3);
    lemma_at3(b, pos, e1, e2, e3);
    lemma_array_at(b, pos, 2, depth);
    let p1 = pos + e1.len();
    let p2 = p1 + e2.len();
    lemma_bytes_at(b, p1, ns, depth + 1);
    lemma_u64_at(b, p2, counter, depth + 1);
    lemma_items_step(b, p1, depth + 1, 2, p2);
    lemma_items_step(b, p2, depth + 1, 1, p2 + e3.len());
}


// ---------------------------------------------------------------------
// Value types and presentation.
// ---------------------------------------------------------------------

/// A value type at `pos` reads back as itself.
#[verifier::spinoff_prover]
pub proof fn lemma_value_type_at(b: Seq<u8>, pos: int, value_type: ValueType, depth: int)
    requires
        at(b, pos, flat(pieces_value_type(value_type))),
        1 <= depth,
        depth + 2 <= MAX_DEPTH,
    ensures
        wire_value_type(b, pos) == Ok::<(ValueType, int), DecodeError>(
            (value_type, pos + flat(pieces_value_type(value_type)).len()),
        ),
        scanned_item(b, pos, depth) == Ok::<int, DecodeError>(pos + flat(pieces_value_type(value_type)).len()),
{
    broadcast use lemma_flat_concat, lemma_flat_single;

    match value_type {
        ValueType::Intrinsic(intrinsic) => {
            let tag = intrinsic_tag(intrinsic) as u64;
            let e1 = head(4, 2);
            let e2 = head(0, 0);
            let e3 = head(0, tag);
            assert(flat(pieces_value_type(value_type)) == e1 + e2 + e3);
            lemma_at3(b, pos, e1, e2, e3);
            lemma_array_at(b, pos, 2, depth);
            let p1 = pos + e1.len();
            let p2 = p1 + e2.len();
            lemma_u64_at(b, p1, 0, depth + 1);
            lemma_u64_at(b, p2, tag, depth + 1);
            lemma_items_step(b, p1, depth + 1, 2, p2);
            lemma_items_step(b, p2, depth + 1, 1, p2 + e3.len());
        },
        ValueType::Domain(id) => {
            let e1 = head(4, 2);
            let e2 = head(0, 1);
            let e3 = flat(pieces_id(id.namespace_id, id.counter));
            assert(flat(pieces_value_type(value_type)) == e1 + e2 + e3);
            lemma_at3(b, pos, e1, e2, e3);
            lemma_array_at(b, pos, 2, depth);
            let p1 = pos + e1.len();
            let p2 = p1 + e2.len();
            lemma_u64_at(b, p1, 1, depth + 1);
            lemma_entity_at(b, p2, id.namespace_id, id.counter, depth + 1);
            lemma_items_step(b, p1, depth + 1, 2, p2);
            lemma_items_step(b, p2, depth + 1, 1, p2 + e3.len());
        },
    }
}

/// An optional text at `pos` reads back as its characters.
#[verifier::spinoff_prover]
pub proof fn lemma_text_option_at(b: Seq<u8>, pos: int, value: Option<String>, depth: int)
    requires
        at(b, pos, flat(pieces_text_option(value))),
        no_fail(pieces_text_option(value)),
        1 <= depth,
        depth + 1 <= MAX_DEPTH,
    ensures
        wire_text_option(b, pos) == Ok::<(Option<Seq<char>>, int), DecodeError>(
            (text_of(value), pos + flat(pieces_text_option(value)).len()),
        ),
        scanned_item(b, pos, depth) == Ok::<int, DecodeError>(pos + flat(pieces_text_option(value)).len()),
{
    broadcast use lemma_flat_concat, lemma_flat_single, lemma_fail_fails;

    match value {
        None => {
            let e1 = head(4, 1);
            let e2 = head(0, 0);
            assert(flat(pieces_text_option(value)) == e1 + e2);
            lemma_at_split(b, pos, e1, e2);
            lemma_array_at(b, pos, 1, depth);
            let p1 = pos + e1.len();
            lemma_u64_at(b, p1, 0, depth + 1);
            lemma_items_step(b, p1, depth + 1, 1, p1 + e2.len());
        },
        Some(text) => {
            let utf8 = encode_utf8(text@);
            assert(utf8.len() <= MAX_ITEM_SIZE);
            let e1 = head(4, 2);
            let e2 = head(0, 1);
            let e3 = text_item(utf8);
            assert(flat(pieces_text_option(value)) == e1 + e2 + e3);
            lemma_at3(b, pos, e1, e2, e3);
            lemma_array_at(b, pos, 2, depth);
            let p1 = pos + e1.len();
            let p2 = p1 + e2.len();
            lemma_u64_at(b, p1, 1, depth + 1);
            lemma_text_at(b, p2, text@, depth + 1);
            lemma_items_step(b, p1, depth + 1, 2, p2);
            lemma_items_step(b, p2, depth + 1, 1, p2 + e3.len());
        },
    }
}

/// The decoded form of presentation metadata.
pub open spec fn wire_presentation_of(presentation: PresentationMetadata) -> WirePresentation {
    WirePresentation {
        preferred_name: text_of(presentation.preferred_name),
        documentation: text_of(presentation.documentation),
    }
}

/// Presentation metadata at `pos` reads back as its text.
#[verifier::spinoff_prover]
pub proof fn lemma_presentation_at(b: Seq<u8>, pos: int, presentation: PresentationMetadata, depth: int)
    requires
        at(b, pos, flat(pieces_presentation(presentation))),
        no_fail(pieces_presentation(presentation)),
        1 <= depth,
        depth + 2 <= MAX_DEPTH,
    ensures
        wire_presentation(b, pos) == Ok::<(WirePresentation, int), DecodeError>(
            (wire_presentation_of(presentation), pos + flat(pieces_presentation(presentation)).len()),
        ),
        scanned_item(b, pos, depth) == Ok::<int, DecodeError>(pos + flat(pieces_presentation(presentation)).len()),
{
    broadcast use lemma_flat_concat, lemma_flat_single;

    let a = pieces_text_option(presentation.preferred_name);
    let c = pieces_text_option(presentation.documentation);
    let e1 = head(4, 2);
    let e2 = flat(a);
    let e3 = flat(c);
    assert(pieces_presentation(presentation) == pieces_array(2) + a + c);
    assert(flat(pieces_presentation(presentation)) == e1 + e2 + e3);
    assert(no_fail(a) && no_fail(c));
    lemma_at3(b, pos, e1, e2, e3);
    lemma_array_at(b, pos, 2, depth);
    let p1 = pos + e1.len();
    let p2 = p1 + e2.len();
    lemma_text_option_at(b, p1, presentation.preferred_name, depth + 1);
    lemma_text_option_at(b, p2, presentation.documentation, depth + 1);
    lemma_items_step(b, p1, depth + 1, 2, p2);
    lemma_items_step(b, p2, depth + 1, 1, p2 + e3.len());
}


// ---------------------------------------------------------------------
// Collections.
// ---------------------------------------------------------------------

/// A collection at `pos`: its head with the element count, then the run
/// of its elements, one level deeper.
#[verifier::spinoff_prover]
pub proof fn lemma_list_at(b: Seq<u8>, pos: int, len: int, parts: Seq<Seq<Piece>>, depth: int)
    requires
        at(b, pos, flat(pieces_list(len, parts))),
        no_fail(pieces_list(len, parts)),
        0 <= len,
        1 <= depth <= MAX_DEPTH,
    ensures
        len <= MAX_COLLECTION_COUNT,
        flat(pieces_list(len, parts)) == head(4, len as u64) + flat(parts.flatten()),
        no_fail(parts.flatten()),
        at(b, pos + head(4, len as u64).len(), flat(parts.flatten())),
        wire_count(b, pos) == Ok::<(u64, int), DecodeError>((len as u64, pos + head(4, len as u64).len())),
        scanned_item(b, pos, depth) == scanned_items(b, pos + head(4, len as u64).len(), depth + 1, len),
{
    broadcast use lemma_flat_concat, lemma_flat_single, lemma_fail_fails;

    assert(len <= MAX_COLLECTION_COUNT);
    let h = head(4, len as u64);
    assert(flat(pieces_list(len, parts)) == h + flat(parts.flatten()));
    lemma_at_split(b, pos, h, flat(parts.flatten()));
    lemma_array_at(b, pos, len as u64, depth);
}

/// The pieces of a run of Expression identities.
pub open spec fn id_run(ids: Seq<ExpressionId>) -> Seq<Piece> {
    id_list_parts(ids).flatten()
}

/// A run of Expression identities at `pos` reads back as the identities.
#[verifier::spinoff_prover]
pub proof fn lemma_id_run_at(b: Seq<u8>, pos: int, ids: Seq<ExpressionId>, depth: int)
    requires
        at(b, pos, flat(id_run(ids))),
        1 <= depth,
        depth + 1 <= MAX_DEPTH,
    ensures
        wire_id_list(b, pos, ids.len() as int) == Ok::<(Seq<ExpressionId>, int), DecodeError>(
            (ids, pos + flat(id_run(ids)).len()),
        ),
        scanned_items(b, pos, depth, ids.len() as int) == Ok::<int, DecodeError>(pos + flat(id_run(ids)).len()),
    decreases ids.len(),
{
    broadcast use lemma_flat_concat;

    if ids.len() == 0 {
        assert(id_list_parts(ids) =~= Seq::<Seq<Piece>>::empty());
        assert(id_run(ids) =~= Seq::<Piece>::empty());
        assert(flat(id_run(ids)).len() == 0);
        assert(ids =~= Seq::<ExpressionId>::empty());
    } else {
        let rest = ids.drop_first();
        let parts = id_list_parts(ids);
        assert(parts.drop_first() =~= id_list_parts(rest));
        assert(id_run(ids) == pieces_expression_id(ids[0]) + id_run(rest));
        let e1 = flat(pieces_expression_id(ids[0]));
        let e2 = flat(id_run(rest));
        lemma_at_split(b, pos, e1, e2);
        lemma_entity_at(b, pos, ids[0].namespace_id, ids[0].counter, depth);
        lemma_id_run_at(b, pos + e1.len(), rest, depth);
        lemma_items_step(b, pos, depth, ids.len() as int, pos + e1.len());
        assert(expression_named((be_bytes_of(ids[0].namespace_id.0), ids[0].counter)) == ids[0]);
        assert(seq![ids[0]] + rest =~= ids);
        assert(flat(id_run(ids)) == e1 + e2);
        assert(wire_id_list(b, pos, ids.len() as int) == prepend(
            seq![ids[0]],
            wire_id_list(b, pos + e1.len(), rest.len() as int),
        ));
    }
}

/// A list of Expression identities at `pos`.
#[verifier::spinoff_prover]
pub proof fn lemma_id_list_at(b: Seq<u8>, pos: int, ids: Seq<ExpressionId>, depth: int)
    requires
        at(b, pos, flat(pieces_list(ids.len() as int, id_list_parts(ids)))),
        no_fail(pieces_list(ids.len() as int, id_list_parts(ids))),
        1 <= depth,
        depth + 2 <= MAX_DEPTH,
    ensures
        ids.len() <= MAX_COLLECTION_COUNT,
        wire_count(b, pos) == Ok::<(u64, int), DecodeError>(
            (ids.len() as u64, pos + head(4, ids.len() as u64).len()),
        ),
        wire_id_list(b, pos + head(4, ids.len() as u64).len(), ids.len() as int) == Ok::<(Seq<ExpressionId>, int), DecodeError>(
            (ids, pos + flat(pieces_list(ids.len() as int, id_list_parts(ids))).len()),
        ),
        scanned_item(b, pos, depth) == Ok::<int, DecodeError>(
            pos + flat(pieces_list(ids.len() as int, id_list_parts(ids))).len(),
        ),
{
    lemma_list_at(b, pos, ids.len() as int, id_list_parts(ids), depth);
    lemma_id_run_at(b, pos + head(4, ids.len() as u64).len(), ids, depth + 1);
}


// ---------------------------------------------------------------------
// Expression kinds.
// ---------------------------------------------------------------------

/// The head of a kind at `pos`: an array of `len` items whose first is
/// the tag; what follows it is the kind's data.
#[verifier::spinoff_prover]
proof fn lemma_kind_head(b: Seq<u8>, pos: int, len: u64, tag: u64, data: Seq<u8>, depth: int)
    requires
        at(b, pos, head(4, len) + head(0, tag) + data),
        1 <= len <= 3,
        1 <= depth,
        depth + 1 <= MAX_DEPTH,
    ensures
        at(b, pos + head(4, len).len() + head(0, tag).len(), data),
        wire_kind(b, pos) == wire_kind_data(b, pos + head(4, len).len() + head(0, tag).len(), tag, len),
        scanned_item(b, pos, depth) == scanned_items(
            b,
            pos + head(4, len).len() + head(0, tag).len(),
            depth + 1,
            len - 1,
        ),
{
    lemma_at3(b, pos, head(4, len), head(0, tag), data);
    lemma_array_at(b, pos, len, depth);
    let p1 = pos + head(4, len).len();
    lemma_u64_at(b, p1, tag, depth + 1);
    lemma_items_step(b, p1, depth + 1, len as int, p1 + head(0, tag).len());
}

/// A binary kind at `pos`.
#[verifier::spinoff_prover]
#[verifier::rlimit(40)]
proof fn lemma_binary_at(b: Seq<u8>, pos: int, tag: u8, left: ExpressionId, right: ExpressionId, depth: int)
    requires
        at(b, pos, flat(pieces_binary(tag, left, right))),
        7 <= tag <= 17,
        1 <= depth,
        depth + 2 <= MAX_DEPTH,
    ensures
        wire_kind(b, pos) == Ok::<(KindView, int), DecodeError>(
            (binary_kind(tag as u64, left, right), pos + flat(pieces_binary(tag, left, right)).len()),
        ),
        scanned_item(b, pos, depth) == Ok::<int, DecodeError>(pos + flat(pieces_binary(tag, left, right)).len()),
{
    broadcast use lemma_flat_concat, lemma_flat_single;

    let e1 = head(4, 3);
    let e2 = head(0, tag as u64);
    let e3 = flat(pieces_expression_id(left));
    let e4 = flat(pieces_expression_id(right));
    assert(flat(pieces_binary(tag, left, right)) == e1 + e2 + e3 + e4);
    lemma_at4(b, pos, e1, e2, e3, e4);
    lemma_array_at(b, pos, 3, depth);
    let p1 = pos + e1.len();
    let p2 = p1 + e2.len();
    let p3 = p2 + e3.len();
    lemma_u64_at(b, p1, tag as u64, depth + 1);
    lemma_entity_at(b, p2, left.namespace_id, left.counter, depth + 1);
    lemma_entity_at(b, p3, right.namespace_id, right.counter, depth + 1);
    lemma_items_step(b, p1, depth + 1, 3, p2);
    lemma_items_step(b, p2, depth + 1, 2, p3);
    lemma_items_step(b, p3, depth + 1, 1, p3 + e4.len());
}

/// The kind that a binary tag and its operands name.
#[verifier::spinoff_prover]
proof fn lemma_binary_kind(kind: KindView)
    requires
        kind is Add || kind is Subtract || kind is Multiply || kind is Divide || kind is Remainder
            || kind is Equal || kind is NotEqual || kind is LessThan || kind is LessThanOrEqual
            || kind is GreaterThan || kind is GreaterThanOrEqual,
    ensures
        ({
            let (tag, left, right) = binary_parts(kind);
            &&& 7 <= tag <= 17
            &&& pieces_kind(kind) == pieces_binary(tag, left, right)
            &&& binary_kind(tag as u64, left, right) == kind
        }),
{
}

/// The tag and operands of a binary kind.
pub open spec fn binary_parts(kind: KindView) -> (u8, ExpressionId, ExpressionId) {
    match kind {
        KindView::Add { left, right } => (7, left, right),
        KindView::Subtract { left, right } => (8, left, right),
        KindView::Multiply { left, right } => (9, left, right),
        KindView::Divide { left, right } => (10, left, right),
        KindView::Remainder { left, right } => (11, left, right),
        KindView::Equal { left, right } => (12, left, right),
        KindView::NotEqual { left, right } => (13, left, right),
        KindView::LessThan { left, right } => (14, left, right),
        KindView::LessThanOrEqual { left, right } => (15, left, right),
        KindView::GreaterThan { left, right } => (16, left, right),
        KindView::GreaterThanOrEqual { left, right } => (17, left, right),
        _ => (0, arbitrary(), arbitrary()),
    }
}


#[verifier::spinoff_prover]
#[verifier::rlimit(30)]
proof fn lemma_kind_int32_literal_at(b: Seq<u8>, pos: int, kind: KindView, depth: int)
    requires
        kind is Int32Literal,
        at(b, pos, flat(pieces_kind(kind))),
        no_fail(pieces_kind(kind)),
        1 <= depth,
        depth + 3 <= MAX_DEPTH,
    ensures
        wire_kind(b, pos) == Ok::<(KindView, int), DecodeError>((kind, pos + flat(pieces_kind(kind)).len())),
        scanned_item(b, pos, depth) == Ok::<int, DecodeError>(pos + flat(pieces_kind(kind)).len()),
{
    broadcast use lemma_flat_concat, lemma_flat_single, lemma_fail_fails;

    let end = pos + flat(pieces_kind(kind)).len();
    match kind {
        KindView::Int32Literal(v) => {
            let data = signed_item(v as int);
            assert(flat(pieces_kind(kind)) == head(4, 2) + head(0, 0) + data);
            lemma_kind_head(b, pos, 2, 0, data, depth);
            let p2 = pos + head(4, 2).len() + head(0, 0).len();
            lemma_signed_at(b, p2, v as i64, depth + 1);
            lemma_items_step(b, p2, depth + 1, 1, end);
        },
        _ => {},
    }
}

#[verifier::spinoff_prover]
#[verifier::rlimit(30)]
proof fn lemma_kind_int64_literal_at(b: Seq<u8>, pos: int, kind: KindView, depth: int)
    requires
        kind is Int64Literal,
        at(b, pos, flat(pieces_kind(kind))),
        no_fail(pieces_kind(kind)),
        1 <= depth,
        depth + 3 <= MAX_DEPTH,
    ensures
        wire_kind(b, pos) == Ok::<(KindView, int), DecodeError>((kind, pos + flat(pieces_kind(kind)).len())),
        scanned_item(b, pos, depth) == Ok::<int, DecodeError>(pos + flat(pieces_kind(kind)).len()),
{
    broadcast use lemma_flat_concat, lemma_flat_single, lemma_fail_fails;

    let end = pos + flat(pieces_kind(kind)).len();
    match kind {
        KindView::Int64Literal(v) => {
            let data = signed_item(v as int);
            assert(flat(pieces_kind(kind)) == head(4, 2) + head(0, 1) + data);
            lemma_kind_head(b, pos, 2, 1, data, depth);
            let p2 = pos + head(4, 2).len() + head(0, 1).len();
            lemma_signed_at(b, p2, v, depth + 1);
            lemma_items_step(b, p2, depth + 1, 1, end);
        },
        _ => {},
    }
}

#[verifier::spinoff_prover]
#[verifier::rlimit(30)]
proof fn lemma_kind_bool_literal_at(b: Seq<u8>, pos: int, kind: KindView, depth: int)
    requires
        kind is BoolLiteral,
        at(b, pos, flat(pieces_kind(kind))),
        no_fail(pieces_kind(kind)),
        1 <= depth,
        depth + 3 <= MAX_DEPTH,
    ensures
        wire_kind(b, pos) == Ok::<(KindView, int), DecodeError>((kind, pos + flat(pieces_kind(kind)).len())),
        scanned_item(b, pos, depth) == Ok::<int, DecodeError>(pos + flat(pieces_kind(kind)).len()),
{
    broadcast use lemma_flat_concat, lemma_flat_single, lemma_fail_fails;

    let end = pos + flat(pieces_kind(kind)).len();
    match kind {
        KindView::BoolLiteral(v) => {
            let data = bool_item(v);
            assert(flat(pieces_kind(kind)) == head(4, 2) + head(0, 2) + data);
            lemma_kind_head(b, pos, 2, 2, data, depth);
            let p2 = pos + head(4, 2).len() + head(0, 2).len();
            lemma_bool_at(b, p2, v, depth + 1);
            lemma_items_step(b, p2, depth + 1, 1, end);
        },
        _ => {},
    }
}

#[verifier::spinoff_prover]
#[verifier::rlimit(30)]
proof fn lemma_kind_unit_literal_at(b: Seq<u8>, pos: int, kind: KindView, depth: int)
    requires
        kind is UnitLiteral,
        at(b, pos, flat(pieces_kind(kind))),
        no_fail(pieces_kind(kind)),
        1 <= depth,
        depth + 3 <= MAX_DEPTH,
    ensures
        wire_kind(b, pos) == Ok::<(KindView, int), DecodeError>((kind, pos + flat(pieces_kind(kind)).len())),
        scanned_item(b, pos, depth) == Ok::<int, DecodeError>(pos + flat(pieces_kind(kind)).len()),
{
    broadcast use lemma_flat_concat, lemma_flat_single, lemma_fail_fails;

    let end = pos + flat(pieces_kind(kind)).len();
    match kind {
        KindView::UnitLiteral => {
            let data = Seq::<u8>::empty();
            assert(flat(pieces_kind(kind)) == head(4, 1) + head(0, 3) + data);
            lemma_kind_head(b, pos, 1, 3, data, depth);
        },
        _ => {},
    }
}

#[verifier::spinoff_prover]
#[verifier::rlimit(30)]
proof fn lemma_kind_text_literal_at(b: Seq<u8>, pos: int, kind: KindView, depth: int)
    requires
        kind is TextLiteral,
        at(b, pos, flat(pieces_kind(kind))),
        no_fail(pieces_kind(kind)),
        1 <= depth,
        depth + 3 <= MAX_DEPTH,
    ensures
        wire_kind(b, pos) == Ok::<(KindView, int), DecodeError>((kind, pos + flat(pieces_kind(kind)).len())),
        scanned_item(b, pos, depth) == Ok::<int, DecodeError>(pos + flat(pieces_kind(kind)).len()),
{
    broadcast use lemma_flat_concat, lemma_flat_single, lemma_fail_fails;

    let end = pos + flat(pieces_kind(kind)).len();
    match kind {
        KindView::TextLiteral(text) => {
            let data = text_item(encode_utf8(text));
            assert(encode_utf8(text).len() <= MAX_ITEM_SIZE);
            assert(flat(pieces_kind(kind)) == head(4, 2) + head(0, 4) + data);
            lemma_kind_head(b, pos, 2, 4, data, depth);
            let p2 = pos + head(4, 2).len() + head(0, 4).len();
            lemma_text_at(b, p2, text, depth + 1);
            lemma_items_step(b, p2, depth + 1, 1, end);
        },
        _ => {},
    }
}

#[verifier::spinoff_prover]
#[verifier::rlimit(30)]
proof fn lemma_kind_bytes_literal_at(b: Seq<u8>, pos: int, kind: KindView, depth: int)
    requires
        kind is BytesLiteral,
        at(b, pos, flat(pieces_kind(kind))),
        no_fail(pieces_kind(kind)),
        1 <= depth,
        depth + 3 <= MAX_DEPTH,
    ensures
        wire_kind(b, pos) == Ok::<(KindView, int), DecodeError>((kind, pos + flat(pieces_kind(kind)).len())),
        scanned_item(b, pos, depth) == Ok::<int, DecodeError>(pos + flat(pieces_kind(kind)).len()),
{
    broadcast use lemma_flat_concat, lemma_flat_single, lemma_fail_fails;

    let end = pos + flat(pieces_kind(kind)).len();
    match kind {
        KindView::BytesLiteral(bytes) => {
            let data = bytes_item(bytes);
            assert(bytes.len() <= MAX_ITEM_SIZE);
            assert(flat(pieces_kind(kind)) == head(4, 2) + head(0, 5) + data);
            lemma_kind_head(b, pos, 2, 5, data, depth);
            let p2 = pos + head(4, 2).len() + head(0, 5).len();
            lemma_bytes_at(b, p2, bytes, depth + 1);
            lemma_items_step(b, p2, depth + 1, 1, end);
        },
        _ => {},
    }
}

#[verifier::spinoff_prover]
#[verifier::rlimit(30)]
proof fn lemma_kind_parameter_reference_at(b: Seq<u8>, pos: int, kind: KindView, depth: int)
    requires
        kind is ParameterReference,
        at(b, pos, flat(pieces_kind(kind))),
        no_fail(pieces_kind(kind)),
        1 <= depth,
        depth + 3 <= MAX_DEPTH,
    ensures
        wire_kind(b, pos) == Ok::<(KindView, int), DecodeError>((kind, pos + flat(pieces_kind(kind)).len())),
        scanned_item(b, pos, depth) == Ok::<int, DecodeError>(pos + flat(pieces_kind(kind)).len()),
{
    broadcast use lemma_flat_concat, lemma_flat_single, lemma_fail_fails;

    let end = pos + flat(pieces_kind(kind)).len();
    match kind {
        KindView::ParameterReference(id) => {
            let data = flat(pieces_id(id.namespace_id, id.counter));
            assert(flat(pieces_kind(kind)) == head(4, 2) + head(0, 6) + data);
            lemma_kind_head(b, pos, 2, 6, data, depth);
            let p2 = pos + head(4, 2).len() + head(0, 6).len();
            lemma_entity_at(b, p2, id.namespace_id, id.counter, depth + 1);
            lemma_items_step(b, p2, depth + 1, 1, end);
        },
        _ => {},
    }
}

#[verifier::spinoff_prover]
#[verifier::rlimit(30)]
proof fn lemma_kind_call_at(b: Seq<u8>, pos: int, kind: KindView, depth: int)
    requires
        kind is Call,
        at(b, pos, flat(pieces_kind(kind))),
        no_fail(pieces_kind(kind)),
        1 <= depth,
        depth + 3 <= MAX_DEPTH,
    ensures
        wire_kind(b, pos) == Ok::<(KindView, int), DecodeError>((kind, pos + flat(pieces_kind(kind)).len())),
        scanned_item(b, pos, depth) == Ok::<int, DecodeError>(pos + flat(pieces_kind(kind)).len()),
{
    broadcast use lemma_flat_concat, lemma_flat_single, lemma_fail_fails;

    let end = pos + flat(pieces_kind(kind)).len();
    match kind {
        KindView::Call { target, arguments } => {
            let e3 = flat(pieces_id(target.namespace_id, target.counter));
            let e4 = flat(pieces_list(arguments.len() as int, id_list_parts(arguments)));
            assert(pieces_kind(kind) == pieces_array(3) + pieces_u64(18) + pieces_id(target.namespace_id, target.counter)
                + pieces_list(arguments.len() as int, id_list_parts(arguments)));
            assert(flat(pieces_kind(kind)) == head(4, 3) + head(0, 18) + e3 + e4);
            assert(head(4, 3) + head(0, 18) + e3 + e4 == head(4, 3) + head(0, 18) + (e3 + e4));
            lemma_kind_head(b, pos, 3, 18, e3 + e4, depth);
            let p2 = pos + head(4, 3).len() + head(0, 18).len();
            lemma_at_split(b, p2, e3, e4);
            lemma_entity_at(b, p2, target.namespace_id, target.counter, depth + 1);
            lemma_id_list_at(b, p2 + e3.len(), arguments, depth + 1);
            lemma_items_step(b, p2, depth + 1, 2, p2 + e3.len());
            lemma_items_step(b, p2 + e3.len(), depth + 1, 1, end);
        },
        _ => {},
    }
}

#[verifier::spinoff_prover]
#[verifier::rlimit(30)]
proof fn lemma_kind_domain_construct_at(b: Seq<u8>, pos: int, kind: KindView, depth: int)
    requires
        kind is DomainConstruct,
        at(b, pos, flat(pieces_kind(kind))),
        no_fail(pieces_kind(kind)),
        1 <= depth,
        depth + 3 <= MAX_DEPTH,
    ensures
        wire_kind(b, pos) == Ok::<(KindView, int), DecodeError>((kind, pos + flat(pieces_kind(kind)).len())),
        scanned_item(b, pos, depth) == Ok::<int, DecodeError>(pos + flat(pieces_kind(kind)).len()),
{
    broadcast use lemma_flat_concat, lemma_flat_single, lemma_fail_fails;

    let end = pos + flat(pieces_kind(kind)).len();
    match kind {
        KindView::DomainConstruct { type_id, value } => {
            let e3 = flat(pieces_id(type_id.namespace_id, type_id.counter));
            let e4 = flat(pieces_expression_id(value));
            assert(flat(pieces_kind(kind)) == head(4, 3) + head(0, 19) + e3 + e4);
            assert(head(4, 3) + head(0, 19) + e3 + e4 == head(4, 3) + head(0, 19) + (e3 + e4));
            lemma_kind_head(b, pos, 3, 19, e3 + e4, depth);
            let p2 = pos + head(4, 3).len() + head(0, 19).len();
            lemma_at_split(b, p2, e3, e4);
            lemma_entity_at(b, p2, type_id.namespace_id, type_id.counter, depth + 1);
            lemma_entity_at(b, p2 + e3.len(), value.namespace_id, value.counter, depth + 1);
            lemma_items_step(b, p2, depth + 1, 2, p2 + e3.len());
            lemma_items_step(b, p2 + e3.len(), depth + 1, 1, end);
        },
        _ => {},
    }
}

#[verifier::spinoff_prover]
#[verifier::rlimit(30)]
proof fn lemma_kind_domain_project_at(b: Seq<u8>, pos: int, kind: KindView, depth: int)
    requires
        kind is DomainProject,
        at(b, pos, flat(pieces_kind(kind))),
        no_fail(pieces_kind(kind)),
        1 <= depth,
        depth + 3 <= MAX_DEPTH,
    ensures
        wire_kind(b, pos) == Ok::<(KindView, int), DecodeError>((kind, pos + flat(pieces_kind(kind)).len())),
        scanned_item(b, pos, depth) == Ok::<int, DecodeError>(pos + flat(pieces_kind(kind)).len()),
{
    broadcast use lemma_flat_concat, lemma_flat_single, lemma_fail_fails;

    let end = pos + flat(pieces_kind(kind)).len();
    match kind {
        KindView::DomainProject { value } => {
            let data = flat(pieces_expression_id(value));
            assert(flat(pieces_kind(kind)) == head(4, 2) + head(0, 20) + data);
            lemma_kind_head(b, pos, 2, 20, data, depth);
            let p2 = pos + head(4, 2).len() + head(0, 20).len();
            lemma_entity_at(b, p2, value.namespace_id, value.counter, depth + 1);
            lemma_items_step(b, p2, depth + 1, 1, end);
        },
        _ => {},
    }
}

/// An Expression kind at `pos` reads back as itself.
#[verifier::spinoff_prover]
pub proof fn lemma_kind_at(b: Seq<u8>, pos: int, kind: KindView, depth: int)
    requires
        at(b, pos, flat(pieces_kind(kind))),
        no_fail(pieces_kind(kind)),
        1 <= depth,
        depth + 3 <= MAX_DEPTH,
    ensures
        wire_kind(b, pos) == Ok::<(KindView, int), DecodeError>((kind, pos + flat(pieces_kind(kind)).len())),
        scanned_item(b, pos, depth) == Ok::<int, DecodeError>(pos + flat(pieces_kind(kind)).len()),
{
    match kind {
        KindView::Int32Literal(v) => {
            lemma_kind_int32_literal_at(b, pos, kind, depth);
        },
        KindView::Int64Literal(v) => {
            lemma_kind_int64_literal_at(b, pos, kind, depth);
        },
        KindView::BoolLiteral(v) => {
            lemma_kind_bool_literal_at(b, pos, kind, depth);
        },
        KindView::UnitLiteral => {
            lemma_kind_unit_literal_at(b, pos, kind, depth);
        },
        KindView::TextLiteral(text) => {
            lemma_kind_text_literal_at(b, pos, kind, depth);
        },
        KindView::BytesLiteral(bytes) => {
            lemma_kind_bytes_literal_at(b, pos, kind, depth);
        },
        KindView::ParameterReference(id) => {
            lemma_kind_parameter_reference_at(b, pos, kind, depth);
        },
        KindView::Call { target, arguments } => {
            lemma_kind_call_at(b, pos, kind, depth);
        },
        KindView::DomainConstruct { type_id, value } => {
            lemma_kind_domain_construct_at(b, pos, kind, depth);
        },
        KindView::DomainProject { value } => {
            lemma_kind_domain_project_at(b, pos, kind, depth);
        },
        _ => {
            lemma_binary_kind(kind);
            let (tag, left, right) = binary_parts(kind);
            lemma_binary_at(b, pos, tag, left, right, depth);
        },
    }
}


// ---------------------------------------------------------------------
// Terminators and Expressions.
// ---------------------------------------------------------------------

/// A terminator at `pos` reads back as itself.
#[verifier::spinoff_prover]
pub proof fn lemma_terminator_at(b: Seq<u8>, pos: int, terminator: Terminator, depth: int)
    requires
        at(b, pos, flat(pieces_terminator(terminator))),
        1 <= depth,
        depth + 2 <= MAX_DEPTH,
    ensures
        wire_terminator(b, pos) == Ok::<(Terminator, int), DecodeError>(
            (terminator, pos + flat(pieces_terminator(terminator)).len()),
        ),
        scanned_item(b, pos, depth) == Ok::<int, DecodeError>(pos + flat(pieces_terminator(terminator)).len()),
{
    broadcast use lemma_flat_concat, lemma_flat_single;

    let end = pos + flat(pieces_terminator(terminator)).len();
    match terminator {
        Terminator::Return { expression } => {
            let e1 = head(4, 2);
            let e2 = head(0, 0);
            let e3 = flat(pieces_expression_id(expression));
            assert(flat(pieces_terminator(terminator)) == e1 + e2 + e3);
            lemma_at3(b, pos, e1, e2, e3);
            lemma_array_at(b, pos, 2, depth);
            let p1 = pos + e1.len();
            let p2 = p1 + e2.len();
            lemma_u64_at(b, p1, 0, depth + 1);
            lemma_entity_at(b, p2, expression.namespace_id, expression.counter, depth + 1);
            lemma_items_step(b, p1, depth + 1, 2, p2);
            lemma_items_step(b, p2, depth + 1, 1, end);
        },
        Terminator::Branch { condition, true_block, false_block } => {
            let e1 = head(4, 4);
            let e2 = head(0, 1);
            let e3 = flat(pieces_expression_id(condition));
            let e4 = flat(pieces_id(true_block.namespace_id, true_block.counter));
            let e5 = flat(pieces_id(false_block.namespace_id, false_block.counter));
            assert(flat(pieces_terminator(terminator)) == e1 + e2 + e3 + e4 + e5);
            lemma_at5(b, pos, e1, e2, e3, e4, e5);
            lemma_array_at(b, pos, 4, depth);
            let p1 = pos + e1.len();
            let p2 = p1 + e2.len();
            let p3 = p2 + e3.len();
            let p4 = p3 + e4.len();
            lemma_u64_at(b, p1, 1, depth + 1);
            lemma_entity_at(b, p2, condition.namespace_id, condition.counter, depth + 1);
            lemma_entity_at(b, p3, true_block.namespace_id, true_block.counter, depth + 1);
            lemma_entity_at(b, p4, false_block.namespace_id, false_block.counter, depth + 1);
            lemma_items_step(b, p1, depth + 1, 4, p2);
            lemma_items_step(b, p2, depth + 1, 3, p3);
            lemma_items_step(b, p3, depth + 1, 2, p4);
            lemma_items_step(b, p4, depth + 1, 1, end);
        },
    }
}

/// An Expression entry at `pos` reads back as the identity and the kind.
#[verifier::spinoff_prover]
pub proof fn lemma_expression_at(b: Seq<u8>, pos: int, expression: ExpressionView, depth: int)
    requires
        at(b, pos, flat(pieces_expression(expression))),
        no_fail(pieces_expression(expression)),
        1 <= depth,
        depth + 4 <= MAX_DEPTH,
    ensures
        wire_fixed_array(b, pos, 2) == Ok::<int, DecodeError>(pos + head(4, 2).len()),
        wire_entity(b, pos + head(4, 2).len()) == Ok::<((Seq<u8>, u64), int), DecodeError>(
            (
                (be_bytes_of(expression.id.namespace_id.0), expression.id.counter),
                pos + head(4, 2).len() + flat(pieces_expression_id(expression.id)).len(),
            ),
        ),
        expression_named((be_bytes_of(expression.id.namespace_id.0), expression.id.counter)) == expression.id,
        wire_kind(b, pos + head(4, 2).len() + flat(pieces_expression_id(expression.id)).len())
            == Ok::<(KindView, int), DecodeError>((expression.kind, pos + flat(pieces_expression(expression)).len())),
        scanned_item(b, pos, depth) == Ok::<int, DecodeError>(pos + flat(pieces_expression(expression)).len()),
{
    broadcast use lemma_flat_concat, lemma_flat_single;

    let e1 = head(4, 2);
    let e2 = flat(pieces_expression_id(expression.id));
    let e3 = flat(pieces_kind(expression.kind));
    assert(flat(pieces_expression(expression)) == e1 + e2 + e3);
    assert(no_fail(pieces_kind(expression.kind)));
    lemma_at3(b, pos, e1, e2, e3);
    lemma_array_at(b, pos, 2, depth);
    let p1 = pos + e1.len();
    let p2 = p1 + e2.len();
    lemma_entity_at(b, p1, expression.id.namespace_id, expression.id.counter, depth + 1);
    lemma_kind_at(b, p2, expression.kind, depth + 1);
    lemma_items_step(b, p1, depth + 1, 2, p2);
    lemma_items_step(b, p2, depth + 1, 1, p2 + e3.len());
}

/// The identity check passes for the first of keys that ascend after the
/// keys already seen.
#[verifier::spinoff_prover]
pub proof fn lemma_id_check_passes(seen: Seq<(u128, u64)>, keys: Seq<(u128, u64)>)
    requires
        keys_ascending(seen + keys),
        keys.len() > 0,
    ensures
        id_check(seen, keys[0]) is None,
        keys_ascending(seen.push(keys[0]) + keys.drop_first()),
{
    let all = seen + keys;
    assert(all[seen.len() as int] == keys[0]);
    assert forall|i: int| 0 <= i < seen.len() implies #[trigger] seen[i] != keys[0] by {
        assert(all[i] == seen[i]);
        assert(key_before(all[i], all[seen.len() as int]));
    }
    if seen.len() > 0 {
        assert(all[seen.len() - 1] == seen.last());
        assert(key_before(all[seen.len() - 1], all[seen.len() as int]));
    }
    assert(seen.push(keys[0]) + keys.drop_first() =~= all);
}

/// The pieces of a run of Expression entries, in the given order.
pub open spec fn expression_run(expressions: Seq<ExpressionView>) -> Seq<Piece> {
    Seq::new(expressions.len(), |k: int| pieces_expression(expressions[k])).flatten()
}

/// A run of Expression entries at `pos` reads back as the entries.
#[verifier::spinoff_prover]
pub proof fn lemma_expression_run_at(
    b: Seq<u8>,
    pos: int,
    expressions: Seq<ExpressionView>,
    seen: Seq<(u128, u64)>,
    depth: int,
)
    requires
        at(b, pos, flat(expression_run(expressions))),
        no_fail(expression_run(expressions)),
        keys_ascending(seen + expression_key_list(expressions)),
        1 <= depth,
        depth + 4 <= MAX_DEPTH,
    ensures
        wire_expressions(b, pos, expressions.len() as int, seen) == Ok::<(Seq<ExpressionView>, int), DecodeError>(
            (expressions, pos + flat(expression_run(expressions)).len()),
        ),
        scanned_items(b, pos, depth, expressions.len() as int) == Ok::<int, DecodeError>(
            pos + flat(expression_run(expressions)).len(),
        ),
    decreases expressions.len(),
{
    broadcast use lemma_flat_concat;

    if expressions.len() == 0 {
        assert(expression_run(expressions) =~= Seq::<Piece>::empty());
        assert(flat(expression_run(expressions)).len() == 0);
        assert(expressions =~= Seq::<ExpressionView>::empty());
    } else {
        let x = expressions[0];
        let rest = expressions.drop_first();
        let parts = Seq::new(expressions.len(), |k: int| pieces_expression(expressions[k]));
        assert(parts.drop_first() =~= Seq::new(rest.len(), |k: int| pieces_expression(rest[k])));
        assert(expression_run(expressions) == pieces_expression(x) + expression_run(rest));
        let e1 = flat(pieces_expression(x));
        let e2 = flat(expression_run(rest));
        lemma_at_split(b, pos, e1, e2);
        lemma_expression_at(b, pos, x, depth);
        let keys = expression_key_list(expressions);
        assert(keys[0] == (x.id.namespace_id.0, x.id.counter));
        assert(keys.drop_first() =~= expression_key_list(rest));
        lemma_id_check_passes(seen, keys);
        lemma_expression_run_at(b, pos + e1.len(), rest, seen.push(keys[0]), depth);
        lemma_items_step(b, pos, depth, expressions.len() as int, pos + e1.len());
        assert(seq![x] + rest =~= expressions);
        assert(flat(expression_run(expressions)) == e1 + e2);
    }
}


// ---------------------------------------------------------------------
// Blocks.
// ---------------------------------------------------------------------

/// The Expressions of a Block in canonical order.
pub open spec fn sorted_expressions(expressions: Seq<ExpressionView>) -> Seq<ExpressionView> {
    let order = sorted_order(expression_key_list(expressions));
    Seq::new(expressions.len(), |k: int| expressions[order[k]])
}

/// The decoded form of a Block: its Expressions in canonical order.
pub open spec fn wire_block_of(block: BlockView) -> BlockView {
    BlockView {
        id: block.id,
        expressions: sorted_expressions(block.expressions),
        effect_sequence: block.effect_sequence,
        terminator: block.terminator,
    }
}

/// No two Expressions of a Block share an identity.
pub open spec fn block_identities_distinct(block: BlockView) -> bool {
    distinct_keys(expression_key_list(block.expressions))
}

#[verifier::spinoff_prover]
proof fn lemma_sorted_expressions(expressions: Seq<ExpressionView>)
    requires
        distinct_keys(expression_key_list(expressions)),
    ensures
        expression_parts(expressions).flatten() == expression_run(sorted_expressions(expressions)),
        keys_ascending(expression_key_list(sorted_expressions(expressions))),
{
    let keys = expression_key_list(expressions);
    let order = sorted_order(keys);
    let sorted = sorted_expressions(expressions);
    lemma_sorted_order_ascending(keys);
    assert(expression_parts(expressions) =~= Seq::new(sorted.len(), |k: int| pieces_expression(sorted[k])));
    assert(keys_at(keys, order) =~= expression_key_list(sorted));
}

/// A Block at `pos` reads back as its decoded form.
#[verifier::spinoff_prover]
#[verifier::rlimit(40)]
pub proof fn lemma_block_at(b: Seq<u8>, pos: int, block: BlockView, depth: int)
    requires
        at(b, pos, flat(pieces_block(block))),
        no_fail(pieces_block(block)),
        block_identities_distinct(block),
        1 <= depth,
        depth + 6 <= MAX_DEPTH,
    ensures
        wire_block(b, pos) == Ok::<(BlockView, int), DecodeError>(
            (wire_block_of(block), pos + flat(pieces_block(block)).len()),
        ),
        scanned_item(b, pos, depth) == Ok::<int, DecodeError>(pos + flat(pieces_block(block)).len()),
{
    broadcast use lemma_flat_concat, lemma_flat_single, lemma_fail_fails;

    let es = block.expressions;
    let sorted = sorted_expressions(es);
    let t = block.terminator;
    let l3 = pieces_list(es.len() as int, expression_parts(es));
    let l4 = pieces_list(block.effect_sequence.len() as int, id_list_parts(block.effect_sequence));
    let e1 = head(4, 4);
    let e2 = flat(pieces_id(block.id.namespace_id, block.id.counter));
    let e3 = flat(l3);
    let e4 = flat(l4);
    let e5 = flat(pieces_block_terminator(t));
    assert(flat(pieces_block(block)) == e1 + e2 + e3 + e4 + e5);
    assert(no_fail(l3) && no_fail(l4) && no_fail(pieces_block_terminator(t)));
    assert(t is Some);
    lemma_at5(b, pos, e1, e2, e3, e4, e5);
    lemma_array_at(b, pos, 4, depth);
    let p1 = pos + e1.len();
    let p2 = p1 + e2.len();
    let p3 = p2 + e3.len();
    let p4 = p3 + e4.len();
    let end = p4 + e5.len();
    lemma_entity_at(b, p1, block.id.namespace_id, block.id.counter, depth + 1);
    lemma_list_at(b, p2, es.len() as int, expression_parts(es), depth + 1);
    lemma_sorted_expressions(es);
    assert(Seq::<(u128, u64)>::empty() + expression_key_list(sorted) =~= expression_key_list(sorted));
    lemma_expression_run_at(b, p2 + head(4, es.len() as u64).len(), sorted, Seq::empty(), depth + 2);
    lemma_id_list_at(b, p3, block.effect_sequence, depth + 1);
    lemma_terminator_at(b, p4, t.unwrap(), depth + 1);
    lemma_items_step(b, p1, depth + 1, 4, p2);
    lemma_items_step(b, p2, depth + 1, 3, p3);
    lemma_items_step(b, p3, depth + 1, 2, p4);
    lemma_items_step(b, p4, depth + 1, 1, end);
    reveal(wire_block);
}


/// The pieces of a run of Blocks, in the given order.
pub open spec fn block_run(blocks: Seq<BlockView>) -> Seq<Piece> {
    Seq::new(blocks.len(), |k: int| pieces_block(blocks[k])).flatten()
}

/// The decoded forms of Blocks, in the given order.
pub open spec fn wire_blocks_of(blocks: Seq<BlockView>) -> Seq<BlockView> {
    Seq::new(blocks.len(), |k: int| wire_block_of(blocks[k]))
}

/// A run of Blocks at `pos` reads back as their decoded forms.
#[verifier::spinoff_prover]
pub proof fn lemma_block_run_at(b: Seq<u8>, pos: int, blocks: Seq<BlockView>, seen: Seq<(u128, u64)>, depth: int)
    requires
        at(b, pos, flat(block_run(blocks))),
        no_fail(block_run(blocks)),
        keys_ascending(seen + block_key_list(blocks)),
        forall|k: int| 0 <= k < blocks.len() ==> block_identities_distinct(#[trigger] blocks[k]),
        1 <= depth,
        depth + 6 <= MAX_DEPTH,
    ensures
        wire_blocks(b, pos, blocks.len() as int, seen) == Ok::<(Seq<BlockView>, int), DecodeError>(
            (wire_blocks_of(blocks), pos + flat(block_run(blocks)).len()),
        ),
        scanned_items(b, pos, depth, blocks.len() as int) == Ok::<int, DecodeError>(
            pos + flat(block_run(blocks)).len(),
        ),
    decreases blocks.len(),
{
    broadcast use lemma_flat_concat;

    if blocks.len() == 0 {
        assert(block_run(blocks) =~= Seq::<Piece>::empty());
        assert(flat(block_run(blocks)).len() == 0);
        assert(wire_blocks_of(blocks) =~= Seq::<BlockView>::empty());
    } else {
        let x = blocks[0];
        let rest = blocks.drop_first();
        let parts = Seq::new(blocks.len(), |k: int| pieces_block(blocks[k]));
        assert(parts.drop_first() =~= Seq::new(rest.len(), |k: int| pieces_block(rest[k])));
        assert(block_run(blocks) == pieces_block(x) + block_run(rest));
        let e1 = flat(pieces_block(x));
        let e2 = flat(block_run(rest));
        lemma_at_split(b, pos, e1, e2);
        assert(block_identities_distinct(blocks[0]));
        lemma_block_at(b, pos, x, depth);
        let keys = block_key_list(blocks);
        assert(keys[0] == (x.id.namespace_id.0, x.id.counter));
        assert(keys.drop_first() =~= block_key_list(rest));
        lemma_id_check_passes(seen, keys);
        assert forall|k: int| 0 <= k < rest.len() implies block_identities_distinct(#[trigger] rest[k]) by {
            assert(rest[k] == blocks[k + 1]);
        }
        lemma_block_run_at(b, pos + e1.len(), rest, seen.push(keys[0]), depth);
        lemma_items_step(b, pos, depth, blocks.len() as int, pos + e1.len());
        assert(seq![wire_block_of(x)] + wire_blocks_of(rest) =~= wire_blocks_of(blocks));
        assert(flat(block_run(blocks)) == e1 + e2);
    }
}

/// The Blocks of a body in canonical order.
pub open spec fn sorted_blocks(blocks: Seq<BlockView>) -> Seq<BlockView> {
    let order = sorted_order(block_key_list(blocks));
    Seq::new(blocks.len(), |k: int| blocks[order[k]])
}

/// The decoded form of a body: its Blocks in canonical order, each in
/// its decoded form.
pub open spec fn wire_body_of(body: Option<BodyView>) -> Option<BodyView> {
    match body {
        None => None,
        Some(bd) => Some(BodyView { entry_block_id: bd.entry_block_id, blocks: wire_blocks_of(sorted_blocks(bd.blocks)) }),
    }
}

/// No two Blocks of a body, and no two Expressions of one Block, share an
/// identity.
pub open spec fn body_identities_distinct(body: Option<BodyView>) -> bool {
    match body {
        None => true,
        Some(bd) => {
            &&& distinct_keys(block_key_list(bd.blocks))
            &&& forall|k: int| 0 <= k < bd.blocks.len() ==> block_identities_distinct(#[trigger] bd.blocks[k])
        },
    }
}

#[verifier::spinoff_prover]
proof fn lemma_sorted_blocks(blocks: Seq<BlockView>)
    requires
        distinct_keys(block_key_list(blocks)),
        forall|k: int| 0 <= k < blocks.len() ==> block_identities_distinct(#[trigger] blocks[k]),
    ensures
        block_parts(blocks).flatten() == block_run(sorted_blocks(blocks)),
        keys_ascending(block_key_list(sorted_blocks(blocks))),
        forall|k: int| 0 <= k < blocks.len() ==> block_identities_distinct(#[trigger] sorted_blocks(blocks)[k]),
{
    let keys = block_key_list(blocks);
    let order = sorted_order(keys);
    let sorted = sorted_blocks(blocks);
    lemma_sorted_order_ascending(keys);
    assert(block_parts(blocks) =~= Seq::new(sorted.len(), |k: int| pieces_block(sorted[k])));
    assert(keys_at(keys, order) =~= block_key_list(sorted));
    assert forall|k: int| 0 <= k < blocks.len() implies block_identities_distinct(#[trigger] sorted[k]) by {
        assert(block_identities_distinct(blocks[order[k]]));
    }
}

/// A body at `pos` reads back as its decoded form.
#[verifier::spinoff_prover]
#[verifier::rlimit(40)]
pub proof fn lemma_body_at(b: Seq<u8>, pos: int, body: Option<BodyView>, depth: int)
    requires
        at(b, pos, flat(pieces_body(body))),
        no_fail(pieces_body(body)),
        body_identities_distinct(body),
        1 <= depth,
        depth + 9 <= MAX_DEPTH,
    ensures
        wire_body(b, pos) == Ok::<(Option<BodyView>, int), DecodeError>(
            (wire_body_of(body), pos + flat(pieces_body(body)).len()),
        ),
        scanned_item(b, pos, depth) == Ok::<int, DecodeError>(pos + flat(pieces_body(body)).len()),
{
    broadcast use lemma_flat_concat, lemma_flat_single;

    let end = pos + flat(pieces_body(body)).len();
    match body {
        None => {
            let e1 = head(4, 1);
            let e2 = head(0, 0);
            assert(flat(pieces_body(body)) == e1 + e2);
            lemma_at_split(b, pos, e1, e2);
            lemma_array_at(b, pos, 1, depth);
            let p1 = pos + e1.len();
            lemma_u64_at(b, p1, 0, depth + 1);
            lemma_items_step(b, p1, depth + 1, 1, end);
        },
        Some(bd) => {
            let bs = bd.blocks;
            let sorted = sorted_blocks(bs);
            let l5 = pieces_list(bs.len() as int, block_parts(bs));
            let e1 = head(4, 2);
            let e2 = head(0, 1);
            let e3 = head(4, 2);
            let e4 = flat(pieces_id(bd.entry_block_id.namespace_id, bd.entry_block_id.counter));
            let e5 = flat(l5);
            assert(flat(pieces_body(body)) == e1 + e2 + e3 + e4 + e5);
            assert(no_fail(l5));
            lemma_at5(b, pos, e1, e2, e3, e4, e5);
            lemma_array_at(b, pos, 2, depth);
            let p1 = pos + e1.len();
            let p2 = p1 + e2.len();
            let p3 = p2 + e3.len();
            let p4 = p3 + e4.len();
            lemma_u64_at(b, p1, 1, depth + 1);
            lemma_array_at(b, p2, 2, depth + 1);
            lemma_entity_at(b, p3, bd.entry_block_id.namespace_id, bd.entry_block_id.counter, depth + 2);
            lemma_list_at(b, p4, bs.len() as int, block_parts(bs), depth + 2);
            lemma_sorted_blocks(bs);
            assert(Seq::<(u128, u64)>::empty() + block_key_list(sorted) =~= block_key_list(sorted));
            lemma_block_run_at(b, p4 + head(4, bs.len() as u64).len(), sorted, Seq::empty(), depth + 3);
            lemma_items_step(b, p3, depth + 2, 2, p4);
            lemma_items_step(b, p4, depth + 2, 1, end);
            lemma_items_step(b, p1, depth + 1, 2, p2);
            lemma_items_step(b, p2, depth + 1, 1, end);
        },
    }
}


// ---------------------------------------------------------------------
// Parameters and Functions.
// ---------------------------------------------------------------------

/// The decoded form of a Parameter.
pub open spec fn wire_parameter_of(parameter: Parameter) -> WireParameter {
    WireParameter {
        id: parameter.id,
        value_type: parameter.value_type,
        presentation: wire_presentation_of(parameter.presentation),
    }
}

/// A Parameter at `pos` reads back as its decoded form.
#[verifier::spinoff_prover]
pub proof fn lemma_parameter_at(b: Seq<u8>, pos: int, parameter: Parameter, depth: int)
    requires
        at(b, pos, flat(pieces_parameter(parameter))),
        no_fail(pieces_parameter(parameter)),
        1 <= depth,
        depth + 3 <= MAX_DEPTH,
    ensures
        wire_parameter(b, pos) == Ok::<(WireParameter, int), DecodeError>(
            (wire_parameter_of(parameter), pos + flat(pieces_parameter(parameter)).len()),
        ),
        scanned_item(b, pos, depth) == Ok::<int, DecodeError>(pos + flat(pieces_parameter(parameter)).len()),
{
    broadcast use lemma_flat_concat, lemma_flat_single;

    let e1 = head(4, 3);
    let e2 = flat(pieces_id(parameter.id.namespace_id, parameter.id.counter));
    let e3 = flat(pieces_value_type(parameter.value_type));
    let e4 = flat(pieces_presentation(parameter.presentation));
    assert(flat(pieces_parameter(parameter)) == e1 + e2 + e3 + e4);
    assert(no_fail(pieces_presentation(parameter.presentation)));
    lemma_at4(b, pos, e1, e2, e3, e4);
    lemma_array_at(b, pos, 3, depth);
    let p1 = pos + e1.len();
    let p2 = p1 + e2.len();
    let p3 = p2 + e3.len();
    lemma_entity_at(b, p1, parameter.id.namespace_id, parameter.id.counter, depth + 1);
    lemma_value_type_at(b, p2, parameter.value_type, depth + 1);
    lemma_presentation_at(b, p3, parameter.presentation, depth + 1);
    lemma_items_step(b, p1, depth + 1, 3, p2);
    lemma_items_step(b, p2, depth + 1, 2, p3);
    lemma_items_step(b, p3, depth + 1, 1, p3 + e4.len());
    reveal(wire_parameter);
}

/// The pieces of a run of Parameters.
pub open spec fn parameter_run(parameters: Seq<Parameter>) -> Seq<Piece> {
    parameter_parts(parameters).flatten()
}

/// The decoded forms of Parameters, in declaration order.
pub open spec fn wire_parameters_of(parameters: Seq<Parameter>) -> Seq<WireParameter> {
    Seq::new(parameters.len(), |k: int| wire_parameter_of(parameters[k]))
}

/// A run of Parameters at `pos` reads back as their decoded forms.
#[verifier::spinoff_prover]
pub proof fn lemma_parameter_run_at(b: Seq<u8>, pos: int, parameters: Seq<Parameter>, depth: int)
    requires
        at(b, pos, flat(parameter_run(parameters))),
        no_fail(parameter_run(parameters)),
        1 <= depth,
        depth + 3 <= MAX_DEPTH,
    ensures
        wire_parameters(b, pos, parameters.len() as int) == Ok::<(Seq<WireParameter>, int), DecodeError>(
            (wire_parameters_of(parameters), pos + flat(parameter_run(parameters)).len()),
        ),
        scanned_items(b, pos, depth, parameters.len() as int) == Ok::<int, DecodeError>(
            pos + flat(parameter_run(parameters)).len(),
        ),
    decreases parameters.len(),
{
    broadcast use lemma_flat_concat;

    if parameters.len() == 0 {
        assert(parameter_run(parameters) =~= Seq::<Piece>::empty());
        assert(flat(parameter_run(parameters)).len() == 0);
        assert(wire_parameters_of(parameters) =~= Seq::<WireParameter>::empty());
    } else {
        let x = parameters[0];
        let rest = parameters.drop_first();
        assert(parameter_parts(parameters).drop_first() =~= parameter_parts(rest));
        assert(parameter_run(parameters) == pieces_parameter(x) + parameter_run(rest));
        let e1 = flat(pieces_parameter(x));
        let e2 = flat(parameter_run(rest));
        lemma_at_split(b, pos, e1, e2);
        lemma_parameter_at(b, pos, x, depth);
        lemma_parameter_run_at(b, pos + e1.len(), rest, depth);
        lemma_items_step(b, pos, depth, parameters.len() as int, pos + e1.len());
        assert(seq![wire_parameter_of(x)] + wire_parameters_of(rest) =~= wire_parameters_of(parameters));
        assert(flat(parameter_run(parameters)) == e1 + e2);
    }
}

/// The decoded form of a Function.
pub open spec fn wire_function_of(function: FunctionView) -> WireFunction {
    WireFunction {
        id: function.id,
        return_type: function.return_type,
        parameters: wire_parameters_of(function.parameters),
        body: wire_body_of(function.body),
        presentation: wire_presentation_of(function.presentation),
    }
}

/// A Function at `pos` reads back as its decoded form.
#[verifier::spinoff_prover]
#[verifier::rlimit(40)]
pub proof fn lemma_function_at(b: Seq<u8>, pos: int, function: FunctionView, depth: int)
    requires
        at(b, pos, flat(pieces_function(function))),
        no_fail(pieces_function(function)),
        body_identities_distinct(function.body),
        1 <= depth,
        depth + 10 <= MAX_DEPTH,
    ensures
        wire_function(b, pos) == Ok::<(WireFunction, int), DecodeError>(
            (wire_function_of(function), pos + flat(pieces_function(function)).len()),
        ),
        scanned_item(b, pos, depth) == Ok::<int, DecodeError>(pos + flat(pieces_function(function)).len()),
{
    broadcast use lemma_flat_concat, lemma_flat_single;

    let ps = function.parameters;
    let l4 = pieces_list(ps.len() as int, parameter_parts(ps));
    let e1 = head(4, 5);
    let e2 = flat(pieces_id(function.id.namespace_id, function.id.counter));
    let e3 = flat(pieces_value_type(function.return_type));
    let e4 = flat(l4);
    let e5 = flat(pieces_body(function.body));
    let e6 = flat(pieces_presentation(function.presentation));
    assert(flat(pieces_function(function)) == e1 + e2 + e3 + e4 + e5 + e6);
    assert(no_fail(l4) && no_fail(pieces_body(function.body)) && no_fail(pieces_presentation(function.presentation)));
    lemma_at6(b, pos, e1, e2, e3, e4, e5, e6);
    lemma_array_at(b, pos, 5, depth);
    let p1 = pos + e1.len();
    let p2 = p1 + e2.len();
    let p3 = p2 + e3.len();
    let p4 = p3 + e4.len();
    let p5 = p4 + e5.len();
    lemma_entity_at(b, p1, function.id.namespace_id, function.id.counter, depth + 1);
    lemma_value_type_at(b, p2, function.return_type, depth + 1);
    lemma_list_at(b, p3, ps.len() as int, parameter_parts(ps), depth + 1);
    lemma_parameter_run_at(b, p3 + head(4, ps.len() as u64).len(), ps, depth + 2);
    lemma_body_at(b, p4, function.body, depth + 1);
    lemma_presentation_at(b, p5, function.presentation, depth + 1);
    lemma_items_step(b, p1, depth + 1, 5, p2);
    lemma_items_step(b, p2, depth + 1, 4, p3);
    lemma_items_step(b, p3, depth + 1, 3, p4);
    lemma_items_step(b, p4, depth + 1, 2, p5);
    lemma_items_step(b, p5, depth + 1, 1, p5 + e6.len());
    reveal(wire_function);
}


/// The pieces of a run of Functions, in the given order.
pub open spec fn function_run(functions: Seq<FunctionView>) -> Seq<Piece> {
    Seq::new(functions.len(), |k: int| pieces_function(functions[k])).flatten()
}

/// The decoded forms of Functions, in the given order.
pub open spec fn wire_functions_of(functions: Seq<FunctionView>) -> Seq<WireFunction> {
    Seq::new(functions.len(), |k: int| wire_function_of(functions[k]))
}

/// A run of Functions at `pos` reads back as their decoded forms.
#[verifier::spinoff_prover]
pub proof fn lemma_function_run_at(
    b: Seq<u8>,
    pos: int,
    functions: Seq<FunctionView>,
    seen: Seq<(u128, u64)>,
    depth: int,
)
    requires
        at(b, pos, flat(function_run(functions))),
        no_fail(function_run(functions)),
        keys_ascending(seen + function_key_list(functions)),
        forall|k: int| 0 <= k < functions.len() ==> body_identities_distinct(#[trigger] functions[k].body),
        1 <= depth,
        depth + 10 <= MAX_DEPTH,
    ensures
        wire_functions(b, pos, functions.len() as int, seen) == Ok::<(Seq<WireFunction>, int), DecodeError>(
            (wire_functions_of(functions), pos + flat(function_run(functions)).len()),
        ),
        scanned_items(b, pos, depth, functions.len() as int) == Ok::<int, DecodeError>(
            pos + flat(function_run(functions)).len(),
        ),
    decreases functions.len(),
{
    broadcast use lemma_flat_concat;

    if functions.len() == 0 {
        assert(function_run(functions) =~= Seq::<Piece>::empty());
        assert(flat(function_run(functions)).len() == 0);
        assert(wire_functions_of(functions) =~= Seq::<WireFunction>::empty());
    } else {
        let x = functions[0];
        let rest = functions.drop_first();
        let parts = Seq::new(functions.len(), |k: int| pieces_function(functions[k]));
        assert(parts.drop_first() =~= Seq::new(rest.len(), |k: int| pieces_function(rest[k])));
        assert(function_run(functions) == pieces_function(x) + function_run(rest));
        let e1 = flat(pieces_function(x));
        let e2 = flat(function_run(rest));
        lemma_at_split(b, pos, e1, e2);
        assert(body_identities_distinct(functions[0].body));
        lemma_function_at(b, pos, x, depth);
        let keys = function_key_list(functions);
        assert(keys[0] == (x.id.namespace_id.0, x.id.counter));
        assert(keys.drop_first() =~= function_key_list(rest));
        lemma_id_check_passes(seen, keys);
        assert forall|k: int| 0 <= k < rest.len() implies body_identities_distinct(#[trigger] rest[k].body) by {
            assert(rest[k] == functions[k + 1]);
        }
        lemma_function_run_at(b, pos + e1.len(), rest, seen.push(keys[0]), depth);
        lemma_items_step(b, pos, depth, functions.len() as int, pos + e1.len());
        assert(seq![wire_function_of(x)] + wire_functions_of(rest) =~= wire_functions_of(functions));
        assert(flat(function_run(functions)) == e1 + e2);
    }
}

// ---------------------------------------------------------------------
// Domain Types.
// ---------------------------------------------------------------------

/// The decoded form of a Domain Type.
pub open spec fn wire_domain_type_of(domain_type: DomainType) -> WireDomainType {
    WireDomainType {
        id: domain_type.id,
        representation: domain_type.representation,
        presentation: wire_presentation_of(domain_type.presentation),
    }
}

/// An intrinsic tag at `pos` reads back as the intrinsic type.
#[verifier::spinoff_prover]
pub proof fn lemma_intrinsic_at(b: Seq<u8>, pos: int, intrinsic: IntrinsicType, depth: int)
    requires
        at(b, pos, head(0, intrinsic_tag(intrinsic) as u64)),
        1 <= depth <= MAX_DEPTH,
    ensures
        wire_intrinsic(b, pos) == Ok::<(IntrinsicType, int), DecodeError>(
            (intrinsic, pos + head(0, intrinsic_tag(intrinsic) as u64).len()),
        ),
        scanned_item(b, pos, depth) == Ok::<int, DecodeError>(pos + head(0, intrinsic_tag(intrinsic) as u64).len()),
{
    lemma_u64_at(b, pos, intrinsic_tag(intrinsic) as u64, depth);
}

/// A Domain Type at `pos` reads back as its decoded form.
#[verifier::spinoff_prover]
pub proof fn lemma_domain_type_at(b: Seq<u8>, pos: int, domain_type: DomainType, depth: int)
    requires
        at(b, pos, flat(pieces_domain_type(domain_type))),
        no_fail(pieces_domain_type(domain_type)),
        1 <= depth,
        depth + 3 <= MAX_DEPTH,
    ensures
        wire_domain_type(b, pos) == Ok::<(WireDomainType, int), DecodeError>(
            (wire_domain_type_of(domain_type), pos + flat(pieces_domain_type(domain_type)).len()),
        ),
        scanned_item(b, pos, depth) == Ok::<int, DecodeError>(pos + flat(pieces_domain_type(domain_type)).len()),
{
    broadcast use lemma_flat_concat, lemma_flat_single;

    let e1 = head(4, 3);
    let e2 = flat(pieces_id(domain_type.id.namespace_id, domain_type.id.counter));
    let e3 = head(0, intrinsic_tag(domain_type.representation) as u64);
    let e4 = flat(pieces_presentation(domain_type.presentation));
    assert(flat(pieces_domain_type(domain_type)) == e1 + e2 + e3 + e4);
    assert(no_fail(pieces_presentation(domain_type.presentation)));
    lemma_at4(b, pos, e1, e2, e3, e4);
    lemma_array_at(b, pos, 3, depth);
    let p1 = pos + e1.len();
    let p2 = p1 + e2.len();
    let p3 = p2 + e3.len();
    lemma_entity_at(b, p1, domain_type.id.namespace_id, domain_type.id.counter, depth + 1);
    lemma_intrinsic_at(b, p2, domain_type.representation, depth + 1);
    lemma_presentation_at(b, p3, domain_type.presentation, depth + 1);
    lemma_items_step(b, p1, depth + 1, 3, p2);
    lemma_items_step(b, p2, depth + 1, 2, p3);
    lemma_items_step(b, p3, depth + 1, 1, p3 + e4.len());
    reveal(wire_domain_type);
}

/// The pieces of a run of Domain Types, in the given order.
pub open spec fn domain_type_run(domain_types: Seq<DomainType>) -> Seq<Piece> {
    Seq::new(domain_types.len(), |k: int| pieces_domain_type(domain_types[k])).flatten()
}

/// The decoded forms of Domain Types, in the given order.
pub open spec fn wire_domain_types_of(domain_types: Seq<DomainType>) -> Seq<WireDomainType> {
    Seq::new(domain_types.len(), |k: int| wire_domain_type_of(domain_types[k]))
}

/// A run of Domain Types at `pos` reads back as their decoded forms.
#[verifier::spinoff_prover]
pub proof fn lemma_domain_type_run_at(
    b: Seq<u8>,
    pos: int,
    domain_types: Seq<DomainType>,
    seen: Seq<(u128, u64)>,
    depth: int,
)
    requires
        at(b, pos, flat(domain_type_run(domain_types))),
        no_fail(domain_type_run(domain_types)),
        keys_ascending(seen + domain_type_key_list(domain_types)),
        1 <= depth,
        depth + 3 <= MAX_DEPTH,
    ensures
        wire_domain_types(b, pos, domain_types.len() as int, seen) == Ok::<(Seq<WireDomainType>, int), DecodeError>(
            (wire_domain_types_of(domain_types), pos + flat(domain_type_run(domain_types)).len()),
        ),
        scanned_items(b, pos, depth, domain_types.len() as int) == Ok::<int, DecodeError>(
            pos + flat(domain_type_run(domain_types)).len(),
        ),
    decreases domain_types.len(),
{
    broadcast use lemma_flat_concat;

    if domain_types.len() == 0 {
        assert(domain_type_run(domain_types) =~= Seq::<Piece>::empty());
        assert(flat(domain_type_run(domain_types)).len() == 0);
        assert(wire_domain_types_of(domain_types) =~= Seq::<WireDomainType>::empty());
    } else {
        let x = domain_types[0];
        let rest = domain_types.drop_first();
        let parts = Seq::new(domain_types.len(), |k: int| pieces_domain_type(domain_types[k]));
        assert(parts.drop_first() =~= Seq::new(rest.len(), |k: int| pieces_domain_type(rest[k])));
        assert(domain_type_run(domain_types) == pieces_domain_type(x) + domain_type_run(rest));
        let e1 = flat(pieces_domain_type(x));
        let e2 = flat(domain_type_run(rest));
        lemma_at_split(b, pos, e1, e2);
        lemma_domain_type_at(b, pos, x, depth);
        let keys = domain_type_key_list(domain_types);
        assert(keys[0] == (x.id.namespace_id.0, x.id.counter));
        assert(keys.drop_first() =~= domain_type_key_list(rest));
        lemma_id_check_passes(seen, keys);
        lemma_domain_type_run_at(b, pos + e1.len(), rest, seen.push(keys[0]), depth);
        lemma_items_step(b, pos, depth, domain_types.len() as int, pos + e1.len());
        assert(seq![wire_domain_type_of(x)] + wire_domain_types_of(rest) =~= wire_domain_types_of(domain_types));
        assert(flat(domain_type_run(domain_types)) == e1 + e2);
    }
}


// ---------------------------------------------------------------------
// Modules.
// ---------------------------------------------------------------------

/// The Domain Types of a Module in canonical order.
pub open spec fn sorted_domain_types(domain_types: Seq<DomainType>) -> Seq<DomainType> {
    let order = sorted_order(domain_type_key_list(domain_types));
    Seq::new(domain_types.len(), |k: int| domain_types[order[k]])
}

/// The Functions of a Module in canonical order.
pub open spec fn sorted_functions(functions: Seq<FunctionView>) -> Seq<FunctionView> {
    let order = sorted_order(function_key_list(functions));
    Seq::new(functions.len(), |k: int| functions[order[k]])
}

/// The decoded form of a Module: its Domain Types and Functions in
/// canonical order, each in its decoded form.
pub open spec fn wire_module_of(module: ModuleView) -> WireModule {
    WireModule {
        id: module.id,
        presentation: wire_presentation_of(module.presentation),
        domain_types: wire_domain_types_of(sorted_domain_types(module.domain_types)),
        functions: wire_functions_of(sorted_functions(module.functions)),
    }
}

/// No two Domain Types, no two Functions, no two Blocks of one body and
/// no two Expressions of one Block of a Module share an identity.
pub open spec fn module_identities_distinct(module: ModuleView) -> bool {
    &&& distinct_keys(domain_type_key_list(module.domain_types))
    &&& distinct_keys(function_key_list(module.functions))
    &&& forall|k: int| 0 <= k < module.functions.len() ==> body_identities_distinct(#[trigger] module.functions[k].body)
}

#[verifier::spinoff_prover]
proof fn lemma_sorted_domain_types(domain_types: Seq<DomainType>)
    requires
        distinct_keys(domain_type_key_list(domain_types)),
    ensures
        domain_type_parts(domain_types).flatten() == domain_type_run(sorted_domain_types(domain_types)),
        keys_ascending(domain_type_key_list(sorted_domain_types(domain_types))),
{
    let keys = domain_type_key_list(domain_types);
    let order = sorted_order(keys);
    let sorted = sorted_domain_types(domain_types);
    lemma_sorted_order_ascending(keys);
    assert(domain_type_parts(domain_types) =~= Seq::new(sorted.len(), |k: int| pieces_domain_type(sorted[k])));
    assert(keys_at(keys, order) =~= domain_type_key_list(sorted));
}

#[verifier::spinoff_prover]
proof fn lemma_sorted_functions(functions: Seq<FunctionView>)
    requires
        distinct_keys(function_key_list(functions)),
        forall|k: int| 0 <= k < functions.len() ==> body_identities_distinct(#[trigger] functions[k].body),
    ensures
        function_parts(functions).flatten() == function_run(sorted_functions(functions)),
        keys_ascending(function_key_list(sorted_functions(functions))),
        forall|k: int| 0 <= k < functions.len() ==> body_identities_distinct(#[trigger] sorted_functions(functions)[k].body),
{
    let keys = function_key_list(functions);
    let order = sorted_order(keys);
    let sorted = sorted_functions(functions);
    lemma_sorted_order_ascending(keys);
    assert(function_parts(functions) =~= Seq::new(sorted.len(), |k: int| pieces_function(sorted[k])));
    assert(keys_at(keys, order) =~= function_key_list(sorted));
    assert forall|k: int| 0 <= k < functions.len() implies body_identities_distinct(#[trigger] sorted[k].body) by {
        assert(body_identities_distinct(functions[order[k]].body));
    }
}

/// A Module at `pos` reads back as its decoded form.
#[verifier::spinoff_prover]
#[verifier::rlimit(40)]
pub proof fn lemma_module_at(b: Seq<u8>, pos: int, module: ModuleView, depth: int)
    requires
        at(b, pos, flat(pieces_module(module))),
        no_fail(pieces_module(module)),
        module_identities_distinct(module),
        1 <= depth,
        depth + 12 <= MAX_DEPTH,
    ensures
        wire_module(b, pos) == Ok::<(WireModule, int), DecodeError>(
            (wire_module_of(module), pos + flat(pieces_module(module)).len()),
        ),
        scanned_item(b, pos, depth) == Ok::<int, DecodeError>(pos + flat(pieces_module(module)).len()),
{
    broadcast use lemma_flat_concat, lemma_flat_single;

    let dts = module.domain_types;
    let fns = module.functions;
    let sd = sorted_domain_types(dts);
    let sf = sorted_functions(fns);
    let l4 = pieces_list(dts.len() as int, domain_type_parts(dts));
    let l5 = pieces_list(fns.len() as int, function_parts(fns));
    let e1 = head(4, 4);
    let e2 = flat(pieces_id(module.id.namespace_id, module.id.counter));
    let e3 = flat(pieces_presentation(module.presentation));
    let e4 = flat(l4);
    let e5 = flat(l5);
    assert(flat(pieces_module(module)) == e1 + e2 + e3 + e4 + e5);
    assert(no_fail(pieces_presentation(module.presentation)) && no_fail(l4) && no_fail(l5));
    lemma_at5(b, pos, e1, e2, e3, e4, e5);
    lemma_array_at(b, pos, 4, depth);
    let p1 = pos + e1.len();
    let p2 = p1 + e2.len();
    let p3 = p2 + e3.len();
    let p4 = p3 + e4.len();
    let end = p4 + e5.len();
    lemma_entity_at(b, p1, module.id.namespace_id, module.id.counter, depth + 1);
    lemma_presentation_at(b, p2, module.presentation, depth + 1);
    lemma_list_at(b, p3, dts.len() as int, domain_type_parts(dts), depth + 1);
    lemma_sorted_domain_types(dts);
    assert(Seq::<(u128, u64)>::empty() + domain_type_key_list(sd) =~= domain_type_key_list(sd));
    lemma_domain_type_run_at(b, p3 + head(4, dts.len() as u64).len(), sd, Seq::empty(), depth + 2);
    lemma_list_at(b, p4, fns.len() as int, function_parts(fns), depth + 1);
    lemma_sorted_functions(fns);
    assert(Seq::<(u128, u64)>::empty() + function_key_list(sf) =~= function_key_list(sf));
    lemma_function_run_at(b, p4 + head(4, fns.len() as u64).len(), sf, Seq::empty(), depth + 2);
    lemma_items_step(b, p1, depth + 1, 4, p2);
    lemma_items_step(b, p2, depth + 1, 3, p3);
    lemma_items_step(b, p3, depth + 1, 2, p4);
    lemma_items_step(b, p4, depth + 1, 1, end);
    reveal(wire_module);
}

/// The pieces of a run of Modules, in the given order.
pub open spec fn module_run(modules: Seq<ModuleView>) -> Seq<Piece> {
    Seq::new(modules.len(), |k: int| pieces_module(modules[k])).flatten()
}

/// The decoded forms of Modules, in the given order.
pub open spec fn wire_modules_of(modules: Seq<ModuleView>) -> Seq<WireModule> {
    Seq::new(modules.len(), |k: int| wire_module_of(modules[k]))
}

/// A run of Modules at `pos` reads back as their decoded forms.
#[verifier::spinoff_prover]
#[verifier::rlimit(60)]
pub proof fn lemma_module_run_at(b: Seq<u8>, pos: int, modules: Seq<ModuleView>, seen: Seq<(u128, u64)>, depth: int)
    requires
        at(b, pos, flat(module_run(modules))),
        no_fail(module_run(modules)),
        keys_ascending(seen + module_key_list(modules)),
        forall|k: int| 0 <= k < modules.len() ==> module_identities_distinct(#[trigger] modules[k]),
        1 <= depth,
        depth + 12 <= MAX_DEPTH,
    ensures
        wire_modules(b, pos, modules.len() as int, seen) == Ok::<(Seq<WireModule>, int), DecodeError>(
            (wire_modules_of(modules), pos + flat(module_run(modules)).len()),
        ),
        scanned_items(b, pos, depth, modules.len() as int) == Ok::<int, DecodeError>(
            pos + flat(module_run(modules)).len(),
        ),
    decreases modules.len(),
{
    broadcast use lemma_flat_concat;

    if modules.len() == 0 {
        assert(module_run(modules) =~= Seq::<Piece>::empty());
        assert(flat(module_run(modules)).len() == 0);
        assert(wire_modules_of(modules) =~= Seq::<WireModule>::empty());
    } else {
        let x = modules[0];
        let rest = modules.drop_first();
        let parts = Seq::new(modules.len(), |k: int| pieces_module(modules[k]));
        assert(parts.drop_first() =~= Seq::new(rest.len(), |k: int| pieces_module(rest[k])));
        assert(module_run(modules) == pieces_module(x) + module_run(rest));
        let e1 = flat(pieces_module(x));
        let e2 = flat(module_run(rest));
        lemma_at_split(b, pos, e1, e2);
        assert(module_identities_distinct(modules[0]));
        lemma_module_at(b, pos, x, depth);
        let keys = module_key_list(modules);
        assert(keys[0] == (x.id.namespace_id.0, x.id.counter));
        assert(keys.drop_first() =~= module_key_list(rest));
        lemma_id_check_passes(seen, keys);
        assert forall|k: int| 0 <= k < rest.len() implies module_identities_distinct(#[trigger] rest[k]) by {
            assert(rest[k] == modules[k + 1]);
        }
        lemma_module_run_at(b, pos + e1.len(), rest, seen.push(keys[0]), depth);
        lemma_items_step(b, pos, depth, modules.len() as int, pos + e1.len());
        assert(seq![wire_module_of(x)] + wire_modules_of(rest) =~= wire_modules_of(modules));
        assert(flat(module_run(modules)) == e1 + e2);
    }
}


// ---------------------------------------------------------------------
// The payload and the file.
// ---------------------------------------------------------------------

/// The Modules of a Program in canonical order.
pub open spec fn sorted_modules(modules: Seq<ModuleView>) -> Seq<ModuleView> {
    let order = sorted_order(module_key_list(modules));
    Seq::new(modules.len(), |k: int| modules[order[k]])
}

/// The decoded form of a checkpoint: its identities and allocator states,
/// and its Modules in canonical order, each in its decoded form.
pub open spec fn wire_program_of(checkpoint: CheckpointView) -> WireProgram {
    WireProgram {
        program_id: checkpoint.program_id,
        revision_id: checkpoint.revision.revision_id,
        revision_counter_state: counter_state_of(checkpoint.next_revision),
        namespace_id: checkpoint.namespace_id,
        counter: checkpoint.counter,
        modules: wire_modules_of(sorted_modules(checkpoint.revision.modules)),
    }
}

/// Within each identity-addressed collection of a list of Modules, no two
/// elements share an identity.
pub open spec fn modules_identities_distinct(modules: Seq<ModuleView>) -> bool {
    &&& distinct_keys(module_key_list(modules))
    &&& forall|k: int| 0 <= k < modules.len() ==> module_identities_distinct(#[trigger] modules[k])
}

/// Within each identity-addressed collection of a checkpoint, no two
/// elements share an identity.
pub open spec fn checkpoint_identities_distinct(checkpoint: CheckpointView) -> bool {
    modules_identities_distinct(checkpoint.revision.modules)
}

#[verifier::spinoff_prover]
proof fn lemma_sorted_modules(modules: Seq<ModuleView>)
    requires
        distinct_keys(module_key_list(modules)),
        forall|k: int| 0 <= k < modules.len() ==> module_identities_distinct(#[trigger] modules[k]),
    ensures
        module_parts(modules).flatten() == module_run(sorted_modules(modules)),
        keys_ascending(module_key_list(sorted_modules(modules))),
        forall|k: int| 0 <= k < modules.len() ==> module_identities_distinct(#[trigger] sorted_modules(modules)[k]),
{
    let keys = module_key_list(modules);
    let order = sorted_order(keys);
    let sorted = sorted_modules(modules);
    lemma_sorted_order_ascending(keys);
    assert(module_parts(modules) =~= Seq::new(sorted.len(), |k: int| pieces_module(sorted[k])));
    assert(keys_at(keys, order) =~= module_key_list(sorted));
    assert forall|k: int| 0 <= k < modules.len() implies module_identities_distinct(#[trigger] sorted[k]) by {
        assert(module_identities_distinct(modules[order[k]]));
    }
}

/// The revision allocator at `pos` reads back as its state.
#[verifier::spinoff_prover]
pub proof fn lemma_revision_counter_at(b: Seq<u8>, pos: int, state: RevisionCounterState, depth: int)
    requires
        at(b, pos, flat(pieces_revision_counter(state))),
        no_fail(pieces_revision_counter(state)),
        1 <= depth,
        depth + 1 <= MAX_DEPTH,
    ensures
        wire_revision_counter(b, pos) == Ok::<(RevisionCounterState, int), DecodeError>(
            (state, pos + flat(pieces_revision_counter(state)).len()),
        ),
        scanned_item(b, pos, depth) == Ok::<int, DecodeError>(pos + flat(pieces_revision_counter(state)).len()),
{
    broadcast use lemma_flat_concat, lemma_flat_single, lemma_fail_fails;

    let end = pos + flat(pieces_revision_counter(state)).len();
    match state {
        RevisionCounterState::Available(next) => {
            assert(next != 0);
            let e1 = head(4, 2);
            let e2 = head(0, 0);
            let e3 = head(0, next);
            assert(flat(pieces_revision_counter(state)) == e1 + e2 + e3);
            lemma_at3(b, pos, e1, e2, e3);
            lemma_array_at(b, pos, 2, depth);
            let p1 = pos + e1.len();
            let p2 = p1 + e2.len();
            lemma_u64_at(b, p1, 0, depth + 1);
            lemma_u64_at(b, p2, next, depth + 1);
            lemma_items_step(b, p1, depth + 1, 2, p2);
            lemma_items_step(b, p2, depth + 1, 1, end);
        },
        RevisionCounterState::Exhausted => {
            let e1 = head(4, 1);
            let e2 = head(0, 1);
            assert(flat(pieces_revision_counter(state)) == e1 + e2);
            lemma_at_split(b, pos, e1, e2);
            lemma_array_at(b, pos, 1, depth);
            let p1 = pos + e1.len();
            lemma_u64_at(b, p1, 1, depth + 1);
            lemma_items_step(b, p1, depth + 1, 1, end);
        },
    }
}

/// The allocation authority at `pos` reads back as the namespace bytes
/// and the counter state.
#[verifier::spinoff_prover]
pub proof fn lemma_authority_at(
    b: Seq<u8>,
    pos: int,
    namespace: AllocationNamespaceId,
    state: AllocationCounterState,
    depth: int,
)
    requires
        at(b, pos, flat(pieces_allocation_authority(namespace, state))),
        1 <= depth,
        depth + 2 <= MAX_DEPTH,
    ensures
        wire_authority(b, pos) == Ok::<((Seq<u8>, AllocationCounterState), int), DecodeError>(
            ((be_bytes_of(namespace.0), state), pos + flat(pieces_allocation_authority(namespace, state)).len()),
        ),
        namespace_of(be_bytes_of(namespace.0)) == namespace,
        scanned_item(b, pos, depth) == Ok::<int, DecodeError>(
            pos + flat(pieces_allocation_authority(namespace, state)).len(),
        ),
{
    broadcast use lemma_flat_concat, lemma_flat_single;

    let ns = be_bytes_of(namespace.0);
    lemma_be_bytes_of_round_trip(namespace.0);
    let end = pos + flat(pieces_allocation_authority(namespace, state)).len();
    let e1 = head(4, 2);
    let e2 = bytes_item(ns);
    let p1 = pos + e1.len();
    let p2 = p1 + e2.len();
    match state {
        AllocationCounterState::Available(next) => {
            let e3 = head(4, 2);
            let e4 = head(0, 0);
            let e5 = head(0, next);
            assert(flat(pieces_allocation_authority(namespace, state)) == e1 + e2 + e3 + e4 + e5);
            lemma_at5(b, pos, e1, e2, e3, e4, e5);
            lemma_array_at(b, pos, 2, depth);
            lemma_bytes_at(b, p1, ns, depth + 1);
            lemma_array_at(b, p2, 2, depth + 1);
            let p3 = p2 + e3.len();
            let p4 = p3 + e4.len();
            lemma_u64_at(b, p3, 0, depth + 2);
            lemma_u64_at(b, p4, next, depth + 2);
            lemma_items_step(b, p3, depth + 2, 2, p4);
            lemma_items_step(b, p4, depth + 2, 1, end);
            lemma_items_step(b, p1, depth + 1, 2, p2);
            lemma_items_step(b, p2, depth + 1, 1, end);
        },
        AllocationCounterState::Exhausted => {
            let e3 = head(4, 1);
            let e4 = head(0, 1);
            assert(flat(pieces_allocation_authority(namespace, state)) == e1 + e2 + e3 + e4);
            lemma_at4(b, pos, e1, e2, e3, e4);
            lemma_array_at(b, pos, 2, depth);
            lemma_bytes_at(b, p1, ns, depth + 1);
            lemma_array_at(b, p2, 1, depth + 1);
            let p3 = p2 + e3.len();
            lemma_u64_at(b, p3, 1, depth + 2);
            lemma_items_step(b, p3, depth + 2, 1, end);
            lemma_items_step(b, p1, depth + 1, 2, p2);
            lemma_items_step(b, p2, depth + 1, 1, end);
        },
    }
}

/// The payload of a checkpoint passes the canonical profile and reads back
/// as the checkpoint's decoded form.
#[verifier::spinoff_prover]
#[verifier::rlimit(60)]
pub proof fn lemma_payload_reads_back(b: Seq<u8>, checkpoint: CheckpointView)
    requires
        b == flat(pieces_payload(checkpoint)),
        no_fail(pieces_payload(checkpoint)),
        checkpoint_identities_distinct(checkpoint),
    ensures
        canonical_check(b) == Ok::<(), DecodeError>(()),
        wire_payload(b) == Ok::<WireProgram, DecodeError>(wire_program_of(checkpoint)),
{
    broadcast use lemma_flat_concat, lemma_flat_single;

    let ms = checkpoint.revision.modules;
    let sm = sorted_modules(ms);
    let state = counter_state_of(checkpoint.next_revision);
    let l6 = pieces_list(ms.len() as int, module_parts(ms));
    let e1 = head(4, 5);
    let e2 = bytes_item(be_bytes_of(checkpoint.program_id.0));
    let e3 = head(0, checkpoint.revision.revision_id.0);
    let e4 = flat(pieces_revision_counter(state));
    let e5 = flat(pieces_allocation_authority(checkpoint.namespace_id, checkpoint.counter));
    let e6 = flat(l6);
    assert(b == e1 + e2 + e3 + e4 + e5 + e6);
    assert(no_fail(pieces_revision_counter(state)) && no_fail(l6));
    assert(b.subrange(0, b.len() as int) =~= b);
    lemma_at6(b, 0, e1, e2, e3, e4, e5, e6);
    lemma_array_at(b, 0, 5, 1);
    let p1 = e1.len() as int;
    let p2 = p1 + e2.len();
    let p3 = p2 + e3.len();
    let p4 = p3 + e4.len();
    let p5 = p4 + e5.len();
    let end = p5 + e6.len();
    lemma_be_bytes_of_round_trip(checkpoint.program_id.0);
    lemma_bytes_at(b, p1, be_bytes_of(checkpoint.program_id.0), 2);
    lemma_u64_at(b, p2, checkpoint.revision.revision_id.0, 2);
    lemma_revision_counter_at(b, p3, state, 2);
    lemma_authority_at(b, p4, checkpoint.namespace_id, checkpoint.counter, 2);
    lemma_list_at(b, p5, ms.len() as int, module_parts(ms), 2);
    lemma_sorted_modules(ms);
    assert(Seq::<(u128, u64)>::empty() + module_key_list(sm) =~= module_key_list(sm));
    lemma_module_run_at(b, p5 + head(4, ms.len() as u64).len(), sm, Seq::empty(), 3);
    lemma_items_step(b, p1, 2, 5, p2);
    lemma_items_step(b, p2, 2, 4, p3);
    lemma_items_step(b, p3, 2, 3, p4);
    lemma_items_step(b, p4, 2, 2, p5);
    lemma_items_step(b, p5, 2, 1, end);
    assert(end == b.len());
}


// ---------------------------------------------------------------------
// Structurally valid revisions.
// ---------------------------------------------------------------------

/// A group of a run without repeated elements repeats none itself.
pub proof fn lemma_flatten_group_no_duplicates<A>(groups: Seq<Seq<A>>, i: int)
    requires
        groups.flatten().no_duplicates(),
        0 <= i < groups.len(),
    ensures
        groups[i].no_duplicates(),
    decreases groups.len(),
{
    let first = groups[0];
    let rest = groups.drop_first();
    assert(groups.flatten() == first + rest.flatten());
    let all = first + rest.flatten();
    if i == 0 {
        assert forall|a: int, c: int| 0 <= a < first.len() && 0 <= c < first.len() && a != c implies first[a] != first[c] by {
            assert(all[a] == first[a] && all[c] == first[c]);
        }
    } else {
        assert forall|a: int, c: int| 0 <= a < rest.flatten().len() && 0 <= c < rest.flatten().len() && a != c
            implies rest.flatten()[a] != rest.flatten()[c] by {
            assert(all[first.len() + a] == rest.flatten()[a]);
            assert(all[first.len() + c] == rest.flatten()[c]);
        }
        assert(groups[i] == rest[i - 1]);
        lemma_flatten_group_no_duplicates(rest, i - 1);
    }
}

/// Keys without repeats are distinct.
proof fn lemma_no_duplicates_distinct(keys: Seq<(u128, u64)>)
    requires
        keys.no_duplicates(),
    ensures
        distinct_keys(keys),
{
}

/// A Function's Blocks, and each of their Expression lists, repeat no
/// identity when no Block and no Expression identity repeats among
/// the Functions.
#[verifier::spinoff_prover]
proof fn lemma_function_identities(functions: Seq<FunctionView>, j: int)
    requires
        functions_block_keys(functions).no_duplicates(),
        functions_expression_keys(functions).no_duplicates(),
        0 <= j < functions.len(),
    ensures
        body_identities_distinct(functions[j].body),
{
    let f = functions[j];
    let bgroups = functions.map_values(|g: FunctionView| function_block_keys(g));
    let egroups = functions.map_values(|g: FunctionView| blocks_expression_keys(function_blocks(g)));
    lemma_flatten_group_no_duplicates(bgroups, j);
    lemma_flatten_group_no_duplicates(egroups, j);
    if let Some(bd) = f.body {
        assert(function_block_keys(f) =~= block_key_list(bd.blocks));
        lemma_no_duplicates_distinct(block_key_list(bd.blocks));
        let xgroups = bd.blocks.map_values(|bl: BlockView| block_expression_keys(bl));
        assert(blocks_expression_keys(function_blocks(f)) == xgroups.flatten());
        assert forall|k: int| 0 <= k < bd.blocks.len() implies block_identities_distinct(#[trigger] bd.blocks[k]) by {
            lemma_flatten_group_no_duplicates(xgroups, k);
            assert(block_expression_keys(bd.blocks[k]) =~= expression_key_list(bd.blocks[k].expressions));
            lemma_no_duplicates_distinct(expression_key_list(bd.blocks[k].expressions));
        }
    }
}

/// A structurally valid revision repeats no identity within any
/// collection that the file orders by identity.
#[verifier::spinoff_prover]
pub proof fn lemma_valid_identities_distinct(ms: Seq<ModuleView>)
    requires
        identities_distinct(ms),
    ensures
        modules_identities_distinct(ms),
{
    assert(module_keys(ms) =~= module_key_list(ms));
    lemma_no_duplicates_distinct(module_key_list(ms));
    let tgroups = ms.map_values(|m: ModuleView| module_type_keys(m));
    let fgroups = ms.map_values(|m: ModuleView| inventory_function_key_list(m.functions));
    let bgroups = ms.map_values(|m: ModuleView| functions_block_keys(m.functions));
    let egroups = ms.map_values(|m: ModuleView| functions_expression_keys(m.functions));
    assert forall|k: int| 0 <= k < ms.len() implies module_identities_distinct(#[trigger] ms[k]) by {
        let m = ms[k];
        lemma_flatten_group_no_duplicates(tgroups, k);
        lemma_flatten_group_no_duplicates(fgroups, k);
        lemma_flatten_group_no_duplicates(bgroups, k);
        lemma_flatten_group_no_duplicates(egroups, k);
        assert(module_type_keys(m) =~= domain_type_key_list(m.domain_types));
        lemma_no_duplicates_distinct(domain_type_key_list(m.domain_types));
        assert(inventory_function_key_list(m.functions) =~= function_key_list(m.functions));
        lemma_no_duplicates_distinct(function_key_list(m.functions));
        assert forall|j: int| 0 <= j < m.functions.len() implies body_identities_distinct(#[trigger] m.functions[j].body) by {
            lemma_function_identities(m.functions, j);
        }
    }
}

} // verus!
