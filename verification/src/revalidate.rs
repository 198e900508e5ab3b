//! Structural validity does not depend on the order of identity-ordered
//! collections: the decoded form of a structurally valid revision, each
//! collection in canonical order, is structurally valid.
use vstd::prelude::*;

use crate::body::{
    BlockView, BodyView, ExpressionView, block_has_id, block_index, expression_has_id,
    expression_index, find_block_in, find_expression_in,
};
use crate::validation::{
    block_valid, contains_block, contains_expression, dependencies_acyclic, depends_only_on,
    direct_dependency, effects_valid, is_call_expression, reach_within, references_resolve,
    settled_within, terminator_valid, transitive_dependencies, body_valid, bodies_valid,
    signatures_resolve, signature_resolves, value_type_resolves, structurally_valid,
    identities_distinct, all_blocks_reachable, control_flow_acyclic, reachable_within,
    finished_within, successor_of, successors, effect_entries_valid, calls_sequenced,
    effect_order_respected,
};
use crate::decode::{domain_type_is, function_is, module_is, modules_are, parameter_is};
use crate::encode::{block_key_list, domain_type_key_list, expression_key_list, function_key_list, module_key_list};
use crate::ids::{
    AllocationCounterState, AllocationNamespaceId, BlockId, ExpressionId, FunctionId, ParameterId,
    RevisionId, TypeId,
};
use crate::persistence::{
    RevisionCounterState, first_identity_defect, identity_defect, restore_error, restored_keys,
};
use crate::locate::{
    domain_type_location, domain_type_location_from, find_domain_type, find_function,
    function_location, function_location_from,
};
use crate::lookup::{first_index_where, is_first_where, lemma_first_index_facts, lemma_exists_first};
use crate::model::{
    DomainType, FunctionView, ModuleView, Parameter, domain_type_has_id, domain_type_index,
    find_parameter_in, function_has_id, function_index, parameter_has_id, parameter_index,
};
use crate::order::{distinct_keys, lemma_sorted_order_ascending, lemma_sorted_prefix_range, sorted_order};
use crate::reorder::{lemma_sorted_order_onto, modules_decoded_from};
use crate::roundtrip::{
    block_identities_distinct, body_identities_distinct, sorted_blocks, sorted_domain_types,
    sorted_expressions, sorted_functions, sorted_modules, wire_block_of, wire_blocks_of,
    wire_body_of, wire_domain_types_of, wire_function_of, wire_functions_of, wire_module_of,
    wire_modules_of, wire_parameters_of,
};

verus! {

// ---------------------------------------------------------------------
// Lookups by identity.
// ---------------------------------------------------------------------

/// The first element with a property, where exactly one has it.
proof fn lemma_first_of_unique<T>(s: Seq<T>, p: spec_fn(T) -> bool, l: int)
    requires
        0 <= l < s.len(),
        p(s[l]),
        forall|j: int| 0 <= j < s.len() && j != l ==> !p(#[trigger] s[j]),
    ensures
        first_index_where(s, p) == l,
{
    assert(is_first_where(s, p, l));
    crate::lookup::lemma_first_index_is(s, p, l);
}

/// An Expression is found by identity where one has it.
pub proof fn lemma_find_expression(es: Seq<ExpressionView>, id: ExpressionId)
    requires
        distinct_keys(expression_key_list(es)),
    ensures
        (exists|l: int| 0 <= l < es.len() && #[trigger] es[l].id == id) <==> expression_index(es, id) >= 0,
        forall|l: int| 0 <= l < es.len() && #[trigger] es[l].id == id ==> find_expression_in(es, id) == Some(es[l]),
        !(exists|l: int| 0 <= l < es.len() && #[trigger] es[l].id == id) ==> find_expression_in(es, id) is None,
{
    let p = expression_has_id(id);
    lemma_first_index_facts(es, p);
    assert forall|l: int| 0 <= l < es.len() && #[trigger] es[l].id == id implies find_expression_in(es, id) == Some(es[l]) by {
        assert forall|j: int| 0 <= j < es.len() && j != l implies !p(#[trigger] es[j]) by {
            let keys = expression_key_list(es);
            if j < l {
                assert(keys[j] != keys[l]);
            } else {
                assert(keys[l] != keys[j]);
            }
        }
        lemma_first_of_unique(es, p, l);
    }
    if expression_index(es, id) >= 0 {
        assert(p(es[expression_index(es, id)]));
    }
}

/// A Block is found by identity where one has it.
pub proof fn lemma_find_block(bs: Seq<BlockView>, id: BlockId)
    requires
        distinct_keys(block_key_list(bs)),
    ensures
        (exists|k: int| 0 <= k < bs.len() && #[trigger] bs[k].id == id) <==> block_index(bs, id) >= 0,
        forall|k: int| 0 <= k < bs.len() && #[trigger] bs[k].id == id ==> find_block_in(bs, id) == Some(bs[k]),
        !(exists|k: int| 0 <= k < bs.len() && #[trigger] bs[k].id == id) ==> find_block_in(bs, id) is None,
{
    let p = block_has_id(id);
    lemma_first_index_facts(bs, p);
    assert forall|l: int| 0 <= l < bs.len() && #[trigger] bs[l].id == id implies find_block_in(bs, id) == Some(bs[l]) by {
        assert forall|j: int| 0 <= j < bs.len() && j != l implies !p(#[trigger] bs[j]) by {
            let keys = block_key_list(bs);
            if j < l {
                assert(keys[j] != keys[l]);
            } else {
                assert(keys[l] != keys[j]);
            }
        }
        lemma_first_of_unique(bs, p, l);
    }
    if block_index(bs, id) >= 0 {
        assert(p(bs[block_index(bs, id)]));
    }
}

/// A Parameter is found by identity exactly where one has it.
pub proof fn lemma_find_parameter(ps: Seq<Parameter>, id: ParameterId)
    ensures
        (exists|l: int| 0 <= l < ps.len() && #[trigger] ps[l].id == id) <==> find_parameter_in(ps, id) is Some,
{
    let p = parameter_has_id(id);
    lemma_first_index_facts(ps, p);
    if parameter_index(ps, id) >= 0 {
        assert(p(ps[parameter_index(ps, id)]));
    }
}

/// A Domain Type is found by identity exactly where a Module has one.
pub proof fn lemma_find_domain_type(ms: Seq<ModuleView>, id: TypeId, i: int)
    requires
        0 <= i,
    ensures
        domain_type_location_from(ms, id, i) is Some <==> exists|a: int, t: int|
            i <= a < ms.len() && 0 <= t < ms[a].domain_types.len() && #[trigger] ms[a].domain_types[t].id == id,
    decreases ms.len() - i,
{
    if i < ms.len() {
        let p = domain_type_has_id(id);
        lemma_first_index_facts(ms[i].domain_types, p);
        lemma_find_domain_type(ms, id, i + 1);
        if domain_type_index(ms[i].domain_types, id) >= 0 {
            let t = domain_type_index(ms[i].domain_types, id);
            assert(p(ms[i].domain_types[t]));
        } else {
            assert forall|a: int, t: int|
                i <= a < ms.len() && 0 <= t < ms[a].domain_types.len() && #[trigger] ms[a].domain_types[t].id == id
                implies i + 1 <= a by {
                if a == i {
                    assert(!p(ms[i].domain_types[t]));
                }
            }
        }
    }
}

/// A Function is found by identity exactly where a Module has one.
pub proof fn lemma_find_function(ms: Seq<ModuleView>, id: FunctionId, i: int)
    requires
        0 <= i,
    ensures
        function_location_from(ms, id, i) is Some <==> exists|a: int, j: int|
            i <= a < ms.len() && 0 <= j < ms[a].functions.len() && #[trigger] ms[a].functions[j].id == id,
    decreases ms.len() - i,
{
    if i < ms.len() {
        let p = function_has_id(id);
        lemma_first_index_facts(ms[i].functions, p);
        lemma_find_function(ms, id, i + 1);
        if function_index(ms[i].functions, id) >= 0 {
            let j = function_index(ms[i].functions, id);
            assert(p(ms[i].functions[j]));
        } else {
            assert forall|a: int, j: int|
                i <= a < ms.len() && 0 <= j < ms[a].functions.len() && #[trigger] ms[a].functions[j].id == id
                implies i + 1 <= a by {
                if a == i {
                    assert(!p(ms[i].functions[j]));
                }
            }
        }
    }
}


/// A Domain Type of the stored Modules is found among the decoded ones.
pub proof fn lemma_decoded_domain_type_found(decoded: Seq<ModuleView>, modules: Seq<ModuleView>, id: TypeId)
    requires
        modules_decoded_from(decoded, modules),
        find_domain_type(modules, id) is Some,
    ensures
        find_domain_type(decoded, id) is Some,
{
    lemma_find_domain_type(modules, id, 0);
    lemma_find_domain_type(decoded, id, 0);
    let (a, t) = choose|a: int, t: int|
        0 <= a < modules.len() && 0 <= t < modules[a].domain_types.len() && #[trigger] modules[a].domain_types[t].id == id;
    let keys = module_key_list(modules);
    lemma_sorted_prefix_range(keys, keys.len());
    lemma_sorted_order_onto(keys, a);
    let k = choose|k: int| 0 <= k < keys.len() && #[trigger] sorted_order(keys)[k] == a;
    let wms = wire_modules_of(sorted_modules(modules));
    assert(module_is(decoded[k], wms[k]));
    let m = modules[a];
    let dkeys = domain_type_key_list(m.domain_types);
    lemma_sorted_prefix_range(dkeys, dkeys.len());
    lemma_sorted_order_onto(dkeys, t);
    let j = choose|j: int| 0 <= j < dkeys.len() && #[trigger] sorted_order(dkeys)[j] == t;
    let wds = wire_domain_types_of(sorted_domain_types(m.domain_types));
    assert(domain_type_is(decoded[k].domain_types[j], wds[j]));
    assert(decoded[k].domain_types[j].id == id);
}

/// A Function of the stored Modules is found among the decoded ones.
pub proof fn lemma_decoded_function_found(decoded: Seq<ModuleView>, modules: Seq<ModuleView>, id: FunctionId)
    requires
        modules_decoded_from(decoded, modules),
        find_function(modules, id) is Some,
    ensures
        find_function(decoded, id) is Some,
{
    lemma_find_function(modules, id, 0);
    lemma_find_function(decoded, id, 0);
    let (a, t) = choose|a: int, t: int|
        0 <= a < modules.len() && 0 <= t < modules[a].functions.len() && #[trigger] modules[a].functions[t].id == id;
    let keys = module_key_list(modules);
    lemma_sorted_prefix_range(keys, keys.len());
    lemma_sorted_order_onto(keys, a);
    let k = choose|k: int| 0 <= k < keys.len() && #[trigger] sorted_order(keys)[k] == a;
    let wms = wire_modules_of(sorted_modules(modules));
    assert(module_is(decoded[k], wms[k]));
    let m = modules[a];
    let fkeys = function_key_list(m.functions);
    lemma_sorted_prefix_range(fkeys, fkeys.len());
    lemma_sorted_order_onto(fkeys, t);
    let j = choose|j: int| 0 <= j < fkeys.len() && #[trigger] sorted_order(fkeys)[j] == t;
    let wfs = wire_functions_of(sorted_functions(m.functions));
    assert(function_is(decoded[k].functions[j], wfs[j]));
    assert(decoded[k].functions[j].id == id);
}


// ---------------------------------------------------------------------
// Blocks.
// ---------------------------------------------------------------------

/// The Expressions of a Block in canonical order repeat no identity.
pub proof fn lemma_sorted_expressions_distinct(block: BlockView)
    requires
        block_identities_distinct(block),
    ensures
        distinct_keys(expression_key_list(sorted_expressions(block.expressions))),
        sorted_expressions(block.expressions).len() == block.expressions.len(),
        forall|l: int| 0 <= l < block.expressions.len() ==> 0 <= #[trigger] sorted_order(expression_key_list(block.expressions))[l] < block.expressions.len(),
{
    let keys = expression_key_list(block.expressions);
    lemma_sorted_order_ascending(keys);
    let sorted = sorted_expressions(block.expressions);
    assert(crate::order::keys_at(keys, sorted_order(keys)) =~= expression_key_list(sorted));
    assert forall|i: int, j: int| 0 <= i < j < sorted.len() implies #[trigger] expression_key_list(sorted)[i]
        != #[trigger] expression_key_list(sorted)[j] by {
        assert(crate::order::key_before(expression_key_list(sorted)[i], expression_key_list(sorted)[j]));
    }
}

/// In canonical order a Block's Expressions are found by identity as
/// before.
pub proof fn lemma_wire_block_find(block: BlockView, id: ExpressionId)
    requires
        block_identities_distinct(block),
    ensures
        find_expression_in(wire_block_of(block).expressions, id) == find_expression_in(block.expressions, id),
        expression_index(wire_block_of(block).expressions, id) >= 0 <==> expression_index(block.expressions, id) >= 0,
{
    let es = block.expressions;
    let es2 = wire_block_of(block).expressions;
    let keys = expression_key_list(es);
    let o = sorted_order(keys);
    lemma_sorted_expressions_distinct(block);
    lemma_find_expression(es, id);
    lemma_find_expression(es2, id);
    if exists|l: int| 0 <= l < es.len() && #[trigger] es[l].id == id {
        let l = choose|l: int| 0 <= l < es.len() && #[trigger] es[l].id == id;
        lemma_sorted_order_onto(keys, l);
        let k = choose|k: int| 0 <= k < keys.len() && #[trigger] o[k] == l;
        assert(es2[k] == es[l]);
        assert(es2[k].id == id);
    } else {
        assert forall|k: int| 0 <= k < es2.len() implies #[trigger] es2[k].id != id by {
            assert(es2[k] == es[o[k]]);
        }
    }
}


/// In canonical order a Block settles the same Expressions in each round.
pub proof fn lemma_wire_block_settled(block: BlockView, n: nat)
    requires
        block_identities_distinct(block),
    ensures
        settled_within(wire_block_of(block), n) == settled_within(block, n),
    decreases n,
{
    if n > 0 {
        lemma_wire_block_settled(block, (n - 1) as nat);
        let b2 = wire_block_of(block);
        let es = block.expressions;
        let es2 = b2.expressions;
        let keys = expression_key_list(es);
        let o = sorted_order(keys);
        lemma_sorted_expressions_distinct(block);
        let prev = settled_within(block, (n - 1) as nat);
        assert(settled_within(b2, (n - 1) as nat) == prev);
        assert forall|id: ExpressionId| #[trigger] settled_within(b2, n).contains(id) == settled_within(block, n).contains(id) by {
            if exists|l: int| 0 <= l < es2.len() && #[trigger] es2[l].id == id && depends_only_on(es2[l], prev) {
                let l = choose|l: int| 0 <= l < es2.len() && #[trigger] es2[l].id == id && depends_only_on(es2[l], prev);
                assert(es2[l] == es[o[l]]);
                assert(es[o[l]].id == id && depends_only_on(es[o[l]], prev));
            }
            if exists|l: int| 0 <= l < es.len() && #[trigger] es[l].id == id && depends_only_on(es[l], prev) {
                let l = choose|l: int| 0 <= l < es.len() && #[trigger] es[l].id == id && depends_only_on(es[l], prev);
                lemma_sorted_order_onto(keys, l);
                let k = choose|k: int| 0 <= k < keys.len() && #[trigger] o[k] == l;
                assert(es2[k] == es[l]);
                assert(es2[k].id == id && depends_only_on(es2[k], prev));
            }
        }
        assert(settled_within(b2, n) =~= settled_within(block, n));
    }
}

/// In canonical order a Block's Expressions depend on the same ones in
/// each number of steps.
pub proof fn lemma_wire_block_reach(block: BlockView, start: ExpressionId, n: nat)
    requires
        block_identities_distinct(block),
    ensures
        reach_within(wire_block_of(block), start, n) == reach_within(block, start, n),
    decreases n,
{
    let b2 = wire_block_of(block);
    assert forall|from: ExpressionId, to: ExpressionId| #[trigger] direct_dependency(b2, from, to) == direct_dependency(block, from, to) by {
        lemma_wire_block_find(block, from);
    }
    if n == 0 {
        assert(reach_within(b2, start, n) =~= reach_within(block, start, n));
    } else {
        lemma_wire_block_reach(block, start, (n - 1) as nat);
        assert(reach_within(b2, start, n) =~= reach_within(block, start, n));
    }
}


/// Two Parameter lists with the same identities in order.
pub open spec fn same_parameter_ids(left: Seq<Parameter>, right: Seq<Parameter>) -> bool {
    left.len() == right.len() && forall|k: int| 0 <= k < left.len() ==> #[trigger] left[k].id == right[k].id
}

/// The references of an Expression resolve in the decoded Program as
/// they do in the stored one.
proof fn lemma_references_transfer(
    decoded: Seq<ModuleView>,
    modules: Seq<ModuleView>,
    f2: FunctionView,
    f: FunctionView,
    block: BlockView,
    e: ExpressionView,
)
    requires
        references_resolve(modules, f, block, e),
        block_identities_distinct(block),
        modules_decoded_from(decoded, modules),
        same_parameter_ids(f2.parameters, f.parameters),
    ensures
        references_resolve(decoded, f2, wire_block_of(block), e),
{
    match e.kind {
        crate::body::KindView::ParameterReference(p) => {
            lemma_find_parameter(f.parameters, p);
            lemma_find_parameter(f2.parameters, p);
            let l = choose|l: int| 0 <= l < f.parameters.len() && #[trigger] f.parameters[l].id == p;
            assert(f2.parameters[l].id == p);
        },
        crate::body::KindView::Call { target, .. } => {
            lemma_decoded_function_found(decoded, modules, target);
        },
        crate::body::KindView::DomainConstruct { type_id, .. } => {
            lemma_decoded_domain_type_found(decoded, modules, type_id);
        },
        _ => {},
    }
    let deps = crate::body::dependencies_of(e.kind);
    assert forall|q: int| 0 <= q < deps.len() implies contains_expression(wire_block_of(block), #[trigger] deps[q]) by {
        lemma_wire_block_find(block, deps[q]);
    }
}

/// A valid Block is valid in canonical order within the decoded Program.
#[verifier::spinoff_prover]
#[verifier::rlimit(40)]
pub proof fn lemma_block_valid_transfer(
    decoded: Seq<ModuleView>,
    modules: Seq<ModuleView>,
    f2: FunctionView,
    f: FunctionView,
    body2: BodyView,
    body: BodyView,
    block: BlockView,
)
    requires
        block_valid(modules, f, body, block),
        block_identities_distinct(block),
        modules_decoded_from(decoded, modules),
        same_parameter_ids(f2.parameters, f.parameters),
        forall|id: BlockId| #[trigger] contains_block(body2, id) == contains_block(body, id),
    ensures
        block_valid(decoded, f2, body2, wire_block_of(block)),
{
    let b2 = wire_block_of(block);
    let es = block.expressions;
    let es2 = b2.expressions;
    let keys = expression_key_list(es);
    let o = sorted_order(keys);
    lemma_sorted_expressions_distinct(block);
    assert forall|l: int| 0 <= l < es2.len() implies references_resolve(decoded, f2, b2, #[trigger] es2[l]) by {
        assert(es2[l] == es[o[l]]);
        assert(references_resolve(modules, f, block, es[o[l]]));
        lemma_references_transfer(decoded, modules, f2, f, block, es[o[l]]);
    }
    lemma_wire_block_settled(block, es.len());
    assert forall|l: int| 0 <= l < es2.len() implies settled_within(b2, es2.len()).contains(#[trigger] es2[l].id) by {
        assert(es2[l] == es[o[l]]);
        assert(settled_within(block, es.len()).contains(es[o[l]].id));
    }
    assert(dependencies_acyclic(b2));
    let eff = block.effect_sequence;
    assert forall|q: int| 0 <= q < eff.len() implies contains_expression(b2, #[trigger] eff[q]) && is_call_expression(b2, eff[q]) by {
        lemma_wire_block_find(block, eff[q]);
    }
    assert(effect_entries_valid(b2));
    assert forall|l: int| 0 <= l < es2.len() && (#[trigger] es2[l]).kind is Call implies eff.contains(es2[l].id) by {
        assert(es2[l] == es[o[l]]);
    }
    assert(calls_sequenced(b2));
    assert forall|x: ExpressionId| #[trigger] transitive_dependencies(b2, x) == transitive_dependencies(block, x) by {
        lemma_wire_block_reach(block, x, es.len());
    }
    assert(effect_order_respected(b2));
    assert(effects_valid(b2));
    match block.terminator {
        Some(crate::body::Terminator::Return { expression }) => {
            lemma_wire_block_find(block, expression);
        },
        Some(crate::body::Terminator::Branch { condition, true_block, false_block }) => {
            lemma_wire_block_find(block, condition);
            assert(contains_block(body2, true_block) == contains_block(body, true_block));
            assert(contains_block(body2, false_block) == contains_block(body, false_block));
        },
        None => {},
    }
    assert(terminator_valid(body2, b2));
}


// ---------------------------------------------------------------------
// Bodies.
// ---------------------------------------------------------------------

/// The decoded form of a body that is present.
pub open spec fn wire_body_view(body: BodyView) -> BodyView {
    BodyView { entry_block_id: body.entry_block_id, blocks: wire_blocks_of(sorted_blocks(body.blocks)) }
}

/// The Blocks of a body in canonical order repeat no identity.
proof fn lemma_wire_blocks_distinct(body: BodyView)
    requires
        body_identities_distinct(Some(body)),
    ensures
        distinct_keys(block_key_list(wire_body_view(body).blocks)),
        wire_body_view(body).blocks.len() == body.blocks.len(),
        forall|k: int| 0 <= k < body.blocks.len() ==> 0 <= #[trigger] sorted_order(block_key_list(body.blocks))[k] < body.blocks.len(),
{
    let keys = block_key_list(body.blocks);
    lemma_sorted_order_ascending(keys);
    let bs2 = wire_body_view(body).blocks;
    assert(crate::order::keys_at(keys, sorted_order(keys)) =~= block_key_list(bs2));
    assert forall|i: int, j: int| 0 <= i < j < bs2.len() implies #[trigger] block_key_list(bs2)[i]
        != #[trigger] block_key_list(bs2)[j] by {
        assert(crate::order::key_before(block_key_list(bs2)[i], block_key_list(bs2)[j]));
    }
}

/// In canonical order a body's Blocks are found by identity as before,
/// each in its decoded form.
pub proof fn lemma_wire_body_find(body: BodyView, id: BlockId)
    requires
        body_identities_distinct(Some(body)),
    ensures
        find_block_in(wire_body_view(body).blocks, id) == (match find_block_in(body.blocks, id) {
            Some(b) => Some(wire_block_of(b)),
            None => None,
        }),
        contains_block(wire_body_view(body), id) == contains_block(body, id),
{
    let bs = body.blocks;
    let bs2 = wire_body_view(body).blocks;
    let keys = block_key_list(bs);
    let o = sorted_order(keys);
    lemma_wire_blocks_distinct(body);
    lemma_find_block(bs, id);
    lemma_find_block(bs2, id);
    if exists|l: int| 0 <= l < bs.len() && #[trigger] bs[l].id == id {
        let l = choose|l: int| 0 <= l < bs.len() && #[trigger] bs[l].id == id;
        lemma_sorted_order_onto(keys, l);
        let k = choose|k: int| 0 <= k < keys.len() && #[trigger] o[k] == l;
        assert(bs2[k] == wire_block_of(bs[l]));
        assert(bs2[k].id == id);
    } else {
        assert forall|k: int| 0 <= k < bs2.len() implies #[trigger] bs2[k].id != id by {
            assert(bs2[k] == wire_block_of(bs[o[k]]));
        }
    }
}

/// In canonical order the same Blocks are reachable in each number of
/// transfers.
pub proof fn lemma_wire_body_reachable(body: BodyView, n: nat)
    requires
        body_identities_distinct(Some(body)),
    ensures
        reachable_within(wire_body_view(body), n) == reachable_within(body, n),
    decreases n,
{
    let b2 = wire_body_view(body);
    assert forall|y: BlockId, t: BlockId| #[trigger] successor_of(b2, y, t) == successor_of(body, y, t) by {
        lemma_wire_body_find(body, y);
    }
    if n == 0 {
        assert(reachable_within(b2, n) =~= reachable_within(body, n));
    } else {
        lemma_wire_body_reachable(body, (n - 1) as nat);
        assert(reachable_within(b2, n) =~= reachable_within(body, n));
    }
}

/// In canonical order the same Blocks finish in each number of rounds.
pub proof fn lemma_wire_body_finished(body: BodyView, n: nat)
    requires
        body_identities_distinct(Some(body)),
    ensures
        finished_within(wire_body_view(body), n) == finished_within(body, n),
    decreases n,
{
    if n > 0 {
        lemma_wire_body_finished(body, (n - 1) as nat);
        let b2 = wire_body_view(body);
        let bs = body.blocks;
        let bs2 = b2.blocks;
        let keys = block_key_list(bs);
        let o = sorted_order(keys);
        lemma_wire_blocks_distinct(body);
        let prev = finished_within(body, (n - 1) as nat);
        assert forall|id: BlockId| #[trigger] finished_within(b2, n).contains(id) == finished_within(body, n).contains(id) by {
            if exists|k: int| 0 <= k < bs2.len() && #[trigger] bs2[k].id == id && forall|s: int|
                0 <= s < successors(bs2[k]).len() ==> prev.contains(#[trigger] successors(bs2[k])[s]) {
                let k = choose|k: int| 0 <= k < bs2.len() && #[trigger] bs2[k].id == id && forall|s: int|
                    0 <= s < successors(bs2[k]).len() ==> prev.contains(#[trigger] successors(bs2[k])[s]);
                assert(bs2[k] == wire_block_of(bs[o[k]]));
                assert(successors(bs2[k]) == successors(bs[o[k]]));
                assert(bs[o[k]].id == id);
            }
            if exists|k: int| 0 <= k < bs.len() && #[trigger] bs[k].id == id && forall|s: int|
                0 <= s < successors(bs[k]).len() ==> prev.contains(#[trigger] successors(bs[k])[s]) {
                let l = choose|k: int| 0 <= k < bs.len() && #[trigger] bs[k].id == id && forall|s: int|
                    0 <= s < successors(bs[k]).len() ==> prev.contains(#[trigger] successors(bs[k])[s]);
                lemma_sorted_order_onto(keys, l);
                let k = choose|k: int| 0 <= k < keys.len() && #[trigger] o[k] == l;
                assert(bs2[k] == wire_block_of(bs[l]));
                assert(successors(bs2[k]) == successors(bs[l]));
                assert(bs2[k].id == id);
            }
        }
        assert(finished_within(b2, n) =~= finished_within(body, n));
    }
}

/// A valid body is valid in canonical order within the decoded Program.
#[verifier::spinoff_prover]
#[verifier::rlimit(40)]
pub proof fn lemma_body_valid_transfer(
    decoded: Seq<ModuleView>,
    modules: Seq<ModuleView>,
    f2: FunctionView,
    f: FunctionView,
    body: BodyView,
)
    requires
        body_valid(modules, f, body),
        body_identities_distinct(Some(body)),
        modules_decoded_from(decoded, modules),
        same_parameter_ids(f2.parameters, f.parameters),
    ensures
        body_valid(decoded, f2, wire_body_view(body)),
{
    let b2 = wire_body_view(body);
    let bs = body.blocks;
    let bs2 = b2.blocks;
    let keys = block_key_list(bs);
    let o = sorted_order(keys);
    lemma_wire_blocks_distinct(body);
    lemma_wire_body_find(body, body.entry_block_id);
    assert forall|id: BlockId| #[trigger] contains_block(b2, id) == contains_block(body, id) by {
        lemma_wire_body_find(body, id);
    }
    assert forall|k: int| 0 <= k < bs2.len() implies block_valid(decoded, f2, b2, #[trigger] bs2[k]) by {
        assert(bs2[k] == wire_block_of(bs[o[k]]));
        assert(block_valid(modules, f, body, bs[o[k]]));
        assert(block_identities_distinct(bs[o[k]]));
        lemma_block_valid_transfer(decoded, modules, f2, f, b2, body, bs[o[k]]);
    }
    lemma_wire_body_reachable(body, bs.len());
    lemma_wire_body_finished(body, bs.len());
    assert forall|k: int| 0 <= k < bs2.len() implies reachable_within(b2, bs2.len()).contains(#[trigger] bs2[k].id)
        && finished_within(b2, bs2.len()).contains(bs2[k].id) by {
        assert(bs2[k] == wire_block_of(bs[o[k]]));
        assert(reachable_within(body, bs.len()).contains(bs[o[k]].id));
        assert(finished_within(body, bs.len()).contains(bs[o[k]].id));
    }
    assert(all_blocks_reachable(b2));
    assert(control_flow_acyclic(b2));
}


// ---------------------------------------------------------------------
// Programs.
// ---------------------------------------------------------------------

/// Keys with the elements of keys without repeats have no repeats.
pub proof fn lemma_no_duplicates_transfer(left: Seq<(u128, u64)>, right: Seq<(u128, u64)>)
    requires
        left.to_multiset() =~= right.to_multiset(),
        right.no_duplicates(),
    ensures
        left.no_duplicates(),
{
    right.lemma_multiset_has_no_duplicates();
    left.lemma_multiset_has_no_duplicates_conv();
}

/// The decoded form of a structurally valid revision, each collection in
/// canonical order, is structurally valid.
#[verifier::spinoff_prover]
#[verifier::rlimit(60)]
pub proof fn lemma_structurally_valid_transfer(decoded: Seq<ModuleView>, modules: Seq<ModuleView>)
    requires
        structurally_valid(modules),
        modules_decoded_from(decoded, modules),
    ensures
        structurally_valid(decoded),
{
    crate::reorder::lemma_decoded_keys(decoded, modules);
    lemma_no_duplicates_transfer(crate::inventory::module_keys(decoded), crate::inventory::module_keys(modules));
    lemma_no_duplicates_transfer(crate::inventory::type_keys(decoded), crate::inventory::type_keys(modules));
    lemma_no_duplicates_transfer(crate::inventory::function_keys(decoded), crate::inventory::function_keys(modules));
    lemma_no_duplicates_transfer(crate::inventory::parameter_keys(decoded), crate::inventory::parameter_keys(modules));
    lemma_no_duplicates_transfer(crate::inventory::block_keys(decoded), crate::inventory::block_keys(modules));
    lemma_no_duplicates_transfer(crate::inventory::expression_keys(decoded), crate::inventory::expression_keys(modules));
    assert(identities_distinct(decoded));
    crate::roundtrip::lemma_valid_identities_distinct(modules);
    let keys = module_key_list(modules);
    lemma_sorted_prefix_range(keys, keys.len());
    let o = sorted_order(keys);
    let wms = wire_modules_of(sorted_modules(modules));
    assert forall|i: int, j: int| 0 <= i < decoded.len() && 0 <= j < decoded[i].functions.len() implies {
        &&& signature_resolves(decoded, #[trigger] decoded[i].functions[j])
        &&& match decoded[i].functions[j].body {
            Some(body) => body_valid(decoded, decoded[i].functions[j], body),
            None => true,
        }
    } by {
        assert(module_is(decoded[i], wms[i]));
        let m = modules[o[i]];
        assert(crate::roundtrip::module_identities_distinct(m));
        let fkeys = function_key_list(m.functions);
        lemma_sorted_prefix_range(fkeys, fkeys.len());
        let of = sorted_order(fkeys);
        let wfs = wire_functions_of(sorted_functions(m.functions));
        let f2 = decoded[i].functions[j];
        let f = m.functions[of[j]];
        assert(function_is(f2, wfs[j]));
        assert(function_is(f2, wire_function_of(f)));
        let wps = wire_parameters_of(f.parameters);
        assert forall|k: int| 0 <= k < f.parameters.len() implies #[trigger] f2.parameters[k].id == f.parameters[k].id
            && f2.parameters[k].value_type == f.parameters[k].value_type by {
            assert(parameter_is(f2.parameters[k], wps[k]));
        }
        assert(same_parameter_ids(f2.parameters, f.parameters));
        assert(signature_resolves(modules, f));
        if let crate::intrinsic::ValueType::Domain(id) = f.return_type {
            lemma_decoded_domain_type_found(decoded, modules, id);
        }
        assert forall|p: int| 0 <= p < f2.parameters.len() implies value_type_resolves(decoded, #[trigger] f2.parameters[p].value_type) by {
            assert(value_type_resolves(modules, f.parameters[p].value_type));
            if let crate::intrinsic::ValueType::Domain(id) = f.parameters[p].value_type {
                lemma_decoded_domain_type_found(decoded, modules, id);
            }
        }
        if let Some(bd) = f.body {
            assert(body_valid(modules, f, bd));
            assert(body_identities_distinct(f.body));
            lemma_body_valid_transfer(decoded, modules, f2, f, bd);
            assert(f2.body == Some(wire_body_view(bd)));
        }
    }
}


// ---------------------------------------------------------------------
// Reconstruction.
// ---------------------------------------------------------------------

/// Key `key` of the active namespace is one its counter has not issued.
pub open spec fn not_yet_issued(key: (u128, u64), namespace_id: AllocationNamespaceId, counter: AllocationCounterState) -> bool {
    key.0 == namespace_id.0 && (counter matches AllocationCounterState::Available(next) && key.1 >= next)
}

proof fn lemma_defects_from(keys: Seq<(u128, u64)>, q: int, namespace_id: AllocationNamespaceId, counter: AllocationCounterState)
    requires
        0 <= q <= keys.len(),
    ensures
        first_identity_defect(keys, q, namespace_id, counter) is None <==> forall|r: int|
            q <= r < keys.len() ==> #[trigger] identity_defect(keys, r, namespace_id, counter) is None,
    decreases keys.len() - q,
{
    if q < keys.len() {
        lemma_defects_from(keys, q + 1, namespace_id, counter);
    }
}

/// No identity defect: no identity repeats and the counter has issued
/// every identity of the active namespace.
pub proof fn lemma_no_identity_defect(keys: Seq<(u128, u64)>, namespace_id: AllocationNamespaceId, counter: AllocationCounterState)
    ensures
        first_identity_defect(keys, 0, namespace_id, counter) is None <==> keys.no_duplicates() && forall|r: int|
            0 <= r < keys.len() ==> !not_yet_issued(#[trigger] keys[r], namespace_id, counter),
{
    lemma_defects_from(keys, 0, namespace_id, counter);
    if first_identity_defect(keys, 0, namespace_id, counter) is None {
        assert forall|i: int, j: int| 0 <= i < keys.len() && 0 <= j < keys.len() && i != j implies keys[i] != keys[j] by {
            let (a, b) = if i < j { (i, j) } else { (j, i) };
            assert(identity_defect(keys, b, namespace_id, counter) is None);
            assert(keys.take(b)[a] == keys[a]);
        }
        assert forall|r: int| 0 <= r < keys.len() implies !not_yet_issued(#[trigger] keys[r], namespace_id, counter) by {
            assert(identity_defect(keys, r, namespace_id, counter) is None);
        }
    }
    if keys.no_duplicates() && forall|r: int| 0 <= r < keys.len() ==> !not_yet_issued(#[trigger] keys[r], namespace_id, counter) {
        assert forall|r: int| 0 <= r < keys.len() implies #[trigger] identity_defect(keys, r, namespace_id, counter) is None by {
            assert(!not_yet_issued(keys[r], namespace_id, counter));
            if keys.take(r).contains(keys[r]) {
                let a = choose|a: int| 0 <= a < keys.take(r).len() && keys.take(r)[a] == keys[r];
                assert(keys[a] == keys[r]);
            }
        }
    }
}

/// Keys issued throughout remain so under any reordering.
proof fn lemma_issued_transfer(
    left: Seq<(u128, u64)>,
    right: Seq<(u128, u64)>,
    namespace_id: AllocationNamespaceId,
    counter: AllocationCounterState,
)
    requires
        left.to_multiset() =~= right.to_multiset(),
        forall|r: int| 0 <= r < right.len() ==> !not_yet_issued(#[trigger] right[r], namespace_id, counter),
    ensures
        forall|r: int| 0 <= r < left.len() ==> !not_yet_issued(#[trigger] left[r], namespace_id, counter),
{
    assert forall|r: int| 0 <= r < left.len() implies !not_yet_issued(#[trigger] left[r], namespace_id, counter) by {
        vstd::seq_lib::to_multiset_contains(left, left[r]);
        vstd::seq_lib::to_multiset_contains(right, left[r]);
        assert(left.contains(left[r]));
        let a = choose|a: int| 0 <= a < right.len() && right[a] == left[r];
        assert(!not_yet_issued(right[a], namespace_id, counter));
    }
}

/// Walking the identities depth first finds a defect exactly where
/// listing them category by category does: both hold the same identities.
pub proof fn lemma_walk_defects(modules: Seq<ModuleView>, namespace_id: AllocationNamespaceId, counter: AllocationCounterState)
    ensures
        first_identity_defect(crate::inventory::identity_walk(modules), 0, namespace_id, counter) is None
            <==> first_identity_defect(restored_keys(modules), 0, namespace_id, counter) is None,
{
    broadcast use vstd::multiset::group_multiset_axioms;

    let w = crate::inventory::identity_walk(modules);
    let k = restored_keys(modules);
    let m = crate::inventory::module_keys(modules);
    let t = crate::inventory::type_keys(modules);
    let f = crate::inventory::function_keys(modules);
    let p = crate::inventory::parameter_keys(modules);
    let b = crate::inventory::block_keys(modules);
    let e = crate::inventory::expression_keys(modules);
    crate::inventory::lemma_identity_walk_multiset(modules);
    vstd::seq_lib::lemma_multiset_commutative(m, t);
    vstd::seq_lib::lemma_multiset_commutative(m + t, f);
    vstd::seq_lib::lemma_multiset_commutative(m + t + f, p);
    vstd::seq_lib::lemma_multiset_commutative(m + t + f + p, b);
    vstd::seq_lib::lemma_multiset_commutative(m + t + f + p + b, e);
    assert(w.to_multiset() =~= k.to_multiset());
    lemma_no_identity_defect(w, namespace_id, counter);
    lemma_no_identity_defect(k, namespace_id, counter);
    if first_identity_defect(w, 0, namespace_id, counter) is None {
        lemma_no_duplicates_transfer(k, w);
        lemma_issued_transfer(k, w, namespace_id, counter);
    }
    if first_identity_defect(k, 0, namespace_id, counter) is None {
        lemma_no_duplicates_transfer(w, k);
        lemma_issued_transfer(w, k, namespace_id, counter);
    }
}

/// A revision that reconstructs as stored reconstructs in its decoded
/// form, each collection in canonical order.
#[verifier::spinoff_prover]
pub proof fn lemma_restore_transfer(
    revision_id: RevisionId,
    state: RevisionCounterState,
    namespace_id: AllocationNamespaceId,
    counter: AllocationCounterState,
    decoded: Seq<ModuleView>,
    modules: Seq<ModuleView>,
)
    requires
        restore_error(revision_id, state, namespace_id, counter, modules) is None,
        modules_decoded_from(decoded, modules),
    ensures
        restore_error(revision_id, state, namespace_id, counter, decoded) is None,
{
    lemma_walk_defects(modules, namespace_id, counter);
    lemma_walk_defects(decoded, namespace_id, counter);
    let k2 = restored_keys(decoded);
    let k = restored_keys(modules);
    crate::reorder::lemma_decoded_keys(decoded, modules);
    lemma_no_identity_defect(k, namespace_id, counter);
    lemma_no_identity_defect(k2, namespace_id, counter);
    lemma_no_duplicates_transfer(k2, k);
    assert forall|r: int| 0 <= r < k2.len() implies !not_yet_issued(#[trigger] k2[r], namespace_id, counter) by {
        vstd::seq_lib::to_multiset_contains(k2, k2[r]);
        vstd::seq_lib::to_multiset_contains(k, k2[r]);
        assert(k2.contains(k2[r]));
        let a = choose|a: int| 0 <= a < k.len() && k[a] == k2[r];
        assert(!not_yet_issued(k[a], namespace_id, counter));
    }
    lemma_structurally_valid_transfer(decoded, modules);
}

} // verus!
