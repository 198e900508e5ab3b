//! Canonical order is a fixed point: a checkpoint whose collections already
//! stand in canonical order, as a decoded one does, writes the same pieces
//! as the checkpoint it was decoded from.
use vstd::prelude::*;

use crate::body::{BlockView, BodyView};
use crate::decode::{
    domain_type_is, function_is, module_is, modules_are, parameter_is, presentation_is,
};
use crate::document::{checkpoint_is, next_revision_of};
use crate::encode::{
    block_key_list, block_parts, domain_type_key_list, domain_type_parts, expression_key_list,
    expression_parts, function_key_list, function_parts, module_key_list, module_parts,
    parameter_parts, pieces_block, pieces_body, pieces_domain_type, pieces_expression,
    pieces_function, pieces_module, pieces_parameter, pieces_payload, pieces_presentation,
    pieces_text_option,
};
use crate::model::{DomainType, FunctionView, ModuleView, Parameter};
use crate::order::{
    keys_ascending, keys_at, lemma_sorted_order_ascending, lemma_sorted_order_identity, sorted_order,
};
use crate::persistence::{CheckpointView, counter_state_of};
use crate::presentation::{PresentationMetadata, text_of};
use crate::roundtrip::{
    block_identities_distinct, body_identities_distinct, checkpoint_identities_distinct,
    module_identities_distinct, sorted_blocks, sorted_domain_types, sorted_expressions,
    sorted_functions, sorted_modules, wire_block_of, wire_blocks_of, wire_body_of,
    wire_domain_type_of, wire_domain_types_of, wire_function_of, wire_functions_of,
    wire_module_of, wire_modules_of, wire_parameter_of, wire_parameters_of, wire_presentation_of,
    wire_program_of,
};

verus! {

/// Optional text with the same characters is written alike.
proof fn lemma_text_option_pieces(a: Option<String>, b: Option<String>)
    requires
        text_of(a) == text_of(b),
    ensures
        pieces_text_option(a) == pieces_text_option(b),
{
}

/// Presentation metadata that carries the decoded text of another is
/// written alike.
pub proof fn lemma_presentation_pieces(p: PresentationMetadata, q: PresentationMetadata)
    requires
        presentation_is(p, wire_presentation_of(q)),
    ensures
        pieces_presentation(p) == pieces_presentation(q),
{
    lemma_text_option_pieces(p.preferred_name, q.preferred_name);
    lemma_text_option_pieces(p.documentation, q.documentation);
}

/// The Expressions of a Block in canonical order are written as the
/// Block's own Expressions are.
#[verifier::spinoff_prover]
pub proof fn lemma_sorted_expression_parts(block: BlockView)
    requires
        block_identities_distinct(block),
    ensures
        expression_parts(sorted_expressions(block.expressions)) == expression_parts(block.expressions),
{
    let es = block.expressions;
    let keys = expression_key_list(es);
    let order = sorted_order(keys);
    let sorted = sorted_expressions(es);
    lemma_sorted_order_ascending(keys);
    assert(keys_at(keys, order) =~= expression_key_list(sorted));
    lemma_sorted_order_identity(expression_key_list(sorted));
    assert(expression_parts(sorted) =~= expression_parts(es));
}

/// A Block in its decoded form is written as the Block is.
#[verifier::spinoff_prover]
pub proof fn lemma_block_pieces(block: BlockView)
    requires
        block_identities_distinct(block),
    ensures
        pieces_block(wire_block_of(block)) == pieces_block(block),
{
    lemma_sorted_expression_parts(block);
}

/// A body in its decoded form is written as the body is.
#[verifier::spinoff_prover]
pub proof fn lemma_body_pieces(body: Option<BodyView>)
    requires
        body_identities_distinct(body),
    ensures
        pieces_body(wire_body_of(body)) == pieces_body(body),
{
    if let Some(bd) = body {
        let bs = bd.blocks;
        let keys = block_key_list(bs);
        let order = sorted_order(keys);
        let sorted = sorted_blocks(bs);
        let wbs = wire_blocks_of(sorted);
        lemma_sorted_order_ascending(keys);
        assert(keys_at(keys, order) =~= block_key_list(sorted));
        assert(block_key_list(wbs) =~= block_key_list(sorted));
        lemma_sorted_order_identity(block_key_list(wbs));
        assert forall|k: int| 0 <= k < bs.len() implies #[trigger] pieces_block(wbs[k]) == pieces_block(sorted[k]) by {
            assert(block_identities_distinct(bs[order[k]]));
            lemma_block_pieces(sorted[k]);
        }
        assert(block_parts(wbs) =~= block_parts(bs));
    }
}

/// A Parameter that is the decoded form of another is written alike.
pub proof fn lemma_parameter_pieces(p: Parameter, q: Parameter)
    requires
        parameter_is(p, wire_parameter_of(q)),
    ensures
        pieces_parameter(p) == pieces_parameter(q),
{
    lemma_presentation_pieces(p.presentation, q.presentation);
}

/// A Function that is the decoded form of another is written alike.
#[verifier::spinoff_prover]
pub proof fn lemma_function_pieces(f: FunctionView, g: FunctionView)
    requires
        function_is(f, wire_function_of(g)),
        body_identities_distinct(g.body),
    ensures
        pieces_function(f) == pieces_function(g),
{
    let wps = wire_parameters_of(g.parameters);
    assert forall|k: int| 0 <= k < f.parameters.len() implies #[trigger] pieces_parameter(f.parameters[k])
        == pieces_parameter(g.parameters[k]) by {
        assert(parameter_is(f.parameters[k], wps[k]));
        lemma_parameter_pieces(f.parameters[k], g.parameters[k]);
    }
    assert(parameter_parts(f.parameters) =~= parameter_parts(g.parameters));
    lemma_body_pieces(g.body);
    lemma_presentation_pieces(f.presentation, g.presentation);
}

/// A Domain Type that is the decoded form of another is written alike.
pub proof fn lemma_domain_type_pieces(d: DomainType, e: DomainType)
    requires
        domain_type_is(d, wire_domain_type_of(e)),
    ensures
        pieces_domain_type(d) == pieces_domain_type(e),
{
    lemma_presentation_pieces(d.presentation, e.presentation);
}

/// A Module that is the decoded form of another is written alike.
#[verifier::spinoff_prover]
#[verifier::rlimit(40)]
pub proof fn lemma_module_pieces(m: ModuleView, x: ModuleView)
    requires
        module_is(m, wire_module_of(x)),
        module_identities_distinct(x),
    ensures
        pieces_module(m) == pieces_module(x),
{
    lemma_presentation_pieces(m.presentation, x.presentation);
    let dts = x.domain_types;
    let dkeys = domain_type_key_list(dts);
    let dorder = sorted_order(dkeys);
    let sd = sorted_domain_types(dts);
    let wds = wire_domain_types_of(sd);
    lemma_sorted_order_ascending(dkeys);
    assert(keys_at(dkeys, dorder) =~= domain_type_key_list(sd));
    assert(domain_type_key_list(m.domain_types) =~= domain_type_key_list(sd)) by {
        assert forall|k: int| 0 <= k < m.domain_types.len() implies #[trigger] m.domain_types[k].id == sd[k].id by {
            assert(domain_type_is(m.domain_types[k], wds[k]));
        }
    }
    lemma_sorted_order_identity(domain_type_key_list(m.domain_types));
    assert forall|k: int| 0 <= k < m.domain_types.len() implies #[trigger] pieces_domain_type(m.domain_types[k])
        == pieces_domain_type(sd[k]) by {
        assert(domain_type_is(m.domain_types[k], wds[k]));
        lemma_domain_type_pieces(m.domain_types[k], sd[k]);
    }
    assert(domain_type_parts(m.domain_types) =~= domain_type_parts(dts));

    let fns = x.functions;
    let fkeys = function_key_list(fns);
    let forder = sorted_order(fkeys);
    let sf = sorted_functions(fns);
    let wfs = wire_functions_of(sf);
    lemma_sorted_order_ascending(fkeys);
    assert(keys_at(fkeys, forder) =~= function_key_list(sf));
    assert(function_key_list(m.functions) =~= function_key_list(sf)) by {
        assert forall|k: int| 0 <= k < m.functions.len() implies #[trigger] m.functions[k].id == sf[k].id by {
            assert(function_is(m.functions[k], wfs[k]));
        }
    }
    lemma_sorted_order_identity(function_key_list(m.functions));
    assert forall|k: int| 0 <= k < m.functions.len() implies #[trigger] pieces_function(m.functions[k])
        == pieces_function(sf[k]) by {
        assert(function_is(m.functions[k], wfs[k]));
        assert(body_identities_distinct(fns[forder[k]].body));
        lemma_function_pieces(m.functions[k], sf[k]);
    }
    assert(function_parts(m.functions) =~= function_parts(fns));
}

/// A checkpoint that holds the decoded form of another writes the same
/// payload pieces.
#[verifier::spinoff_prover]
#[verifier::rlimit(40)]
pub proof fn lemma_payload_pieces(d: CheckpointView, v: CheckpointView)
    requires
        checkpoint_is(d, wire_program_of(v)),
        checkpoint_identities_distinct(v),
    ensures
        pieces_payload(d) == pieces_payload(v),
{
    let ms = v.revision.modules;
    let keys = module_key_list(ms);
    let order = sorted_order(keys);
    let sm = sorted_modules(ms);
    let wms = wire_modules_of(sm);
    let dms = d.revision.modules;
    lemma_sorted_order_ascending(keys);
    assert(keys_at(keys, order) =~= module_key_list(sm));
    assert(module_key_list(dms) =~= module_key_list(sm)) by {
        assert forall|k: int| 0 <= k < dms.len() implies #[trigger] dms[k].id == sm[k].id by {
            assert(module_is(dms[k], wms[k]));
        }
    }
    lemma_sorted_order_identity(module_key_list(dms));
    assert forall|k: int| 0 <= k < dms.len() implies #[trigger] pieces_module(dms[k]) == pieces_module(sm[k]) by {
        assert(module_is(dms[k], wms[k]));
        assert(module_identities_distinct(ms[order[k]]));
        lemma_module_pieces(dms[k], sm[k]);
    }
    assert(module_parts(dms) =~= module_parts(ms));
    assert(counter_state_of(d.next_revision) == counter_state_of(v.next_revision));
}


// ---------------------------------------------------------------------
// Pieces depend on the canonical form alone.
// ---------------------------------------------------------------------

/// Presentation metadata with the same text is written alike.
proof fn lemma_presentation_pieces_same(p: PresentationMetadata, q: PresentationMetadata)
    requires
        wire_presentation_of(p) == wire_presentation_of(q),
    ensures
        pieces_presentation(p) == pieces_presentation(q),
{
    lemma_text_option_pieces(p.preferred_name, q.preferred_name);
    lemma_text_option_pieces(p.documentation, q.documentation);
}

/// Functions with the same decoded form are written alike.
#[verifier::spinoff_prover]
proof fn lemma_function_pieces_same(f: FunctionView, g: FunctionView)
    requires
        wire_function_of(f) == wire_function_of(g),
        body_identities_distinct(f.body),
        body_identities_distinct(g.body),
    ensures
        pieces_function(f) == pieces_function(g),
{
    let wf = wire_parameters_of(f.parameters);
    let wg = wire_parameters_of(g.parameters);
    assert(wf.len() == wg.len());
    assert forall|k: int| 0 <= k < f.parameters.len() implies #[trigger] pieces_parameter(f.parameters[k])
        == pieces_parameter(g.parameters[k]) by {
        assert(wf[k] == wg[k]);
        lemma_presentation_pieces_same(f.parameters[k].presentation, g.parameters[k].presentation);
    }
    assert(parameter_parts(f.parameters) =~= parameter_parts(g.parameters));
    lemma_body_pieces(f.body);
    lemma_body_pieces(g.body);
    lemma_presentation_pieces_same(f.presentation, g.presentation);
}

/// Modules with the same decoded form are written alike.
#[verifier::spinoff_prover]
#[verifier::rlimit(40)]
proof fn lemma_module_pieces_same(x: ModuleView, y: ModuleView)
    requires
        wire_module_of(x) == wire_module_of(y),
        module_identities_distinct(x),
        module_identities_distinct(y),
    ensures
        pieces_module(x) == pieces_module(y),
{
    lemma_presentation_pieces_same(x.presentation, y.presentation);
    let xk = domain_type_key_list(x.domain_types);
    let yk = domain_type_key_list(y.domain_types);
    lemma_sorted_order_ascending(xk);
    lemma_sorted_order_ascending(yk);
    let sx = sorted_domain_types(x.domain_types);
    let sy = sorted_domain_types(y.domain_types);
    assert(wire_domain_types_of(sx).len() == wire_domain_types_of(sy).len());
    assert forall|k: int| 0 <= k < sx.len() implies #[trigger] pieces_domain_type(sx[k]) == pieces_domain_type(sy[k]) by {
        assert(wire_domain_types_of(sx)[k] == wire_domain_types_of(sy)[k]);
        lemma_presentation_pieces_same(sx[k].presentation, sy[k].presentation);
    }
    assert(domain_type_parts(x.domain_types) =~= Seq::new(sx.len(), |k: int| pieces_domain_type(sx[k])));
    assert(domain_type_parts(y.domain_types) =~= Seq::new(sy.len(), |k: int| pieces_domain_type(sy[k])));
    assert(domain_type_parts(x.domain_types) =~= domain_type_parts(y.domain_types));
    let fxk = function_key_list(x.functions);
    let fyk = function_key_list(y.functions);
    lemma_sorted_order_ascending(fxk);
    lemma_sorted_order_ascending(fyk);
    let fx = sorted_functions(x.functions);
    let fy = sorted_functions(y.functions);
    assert(wire_functions_of(fx).len() == wire_functions_of(fy).len());
    assert forall|k: int| 0 <= k < fx.len() implies #[trigger] pieces_function(fx[k]) == pieces_function(fy[k]) by {
        assert(wire_functions_of(fx)[k] == wire_functions_of(fy)[k]);
        assert(body_identities_distinct(x.functions[sorted_order(fxk)[k]].body));
        assert(body_identities_distinct(y.functions[sorted_order(fyk)[k]].body));
        lemma_function_pieces_same(fx[k], fy[k]);
    }
    assert(function_parts(x.functions) =~= Seq::new(fx.len(), |k: int| pieces_function(fx[k])));
    assert(function_parts(y.functions) =~= Seq::new(fy.len(), |k: int| pieces_function(fy[k])));
    assert(function_parts(x.functions) =~= function_parts(y.functions));
}

/// Checkpoints with the same decoded form write the same payload pieces.
#[verifier::spinoff_prover]
#[verifier::rlimit(40)]
pub proof fn lemma_payload_pieces_same(v: CheckpointView, u: CheckpointView)
    requires
        wire_program_of(v) == wire_program_of(u),
        checkpoint_identities_distinct(v),
        checkpoint_identities_distinct(u),
    ensures
        pieces_payload(v) == pieces_payload(u),
{
    let vk = module_key_list(v.revision.modules);
    let uk = module_key_list(u.revision.modules);
    lemma_sorted_order_ascending(vk);
    lemma_sorted_order_ascending(uk);
    let sv = sorted_modules(v.revision.modules);
    let su = sorted_modules(u.revision.modules);
    assert(wire_modules_of(sv).len() == wire_modules_of(su).len());
    assert forall|k: int| 0 <= k < sv.len() implies #[trigger] pieces_module(sv[k]) == pieces_module(su[k]) by {
        assert(wire_modules_of(sv)[k] == wire_modules_of(su)[k]);
        assert(module_identities_distinct(v.revision.modules[sorted_order(vk)[k]]));
        assert(module_identities_distinct(u.revision.modules[sorted_order(uk)[k]]));
        lemma_module_pieces_same(sv[k], su[k]);
    }
    assert(module_parts(v.revision.modules) =~= Seq::new(sv.len(), |k: int| pieces_module(sv[k])));
    assert(module_parts(u.revision.modules) =~= Seq::new(su.len(), |k: int| pieces_module(su[k])));
    assert(module_parts(v.revision.modules) =~= module_parts(u.revision.modules));
    assert(counter_state_of(v.next_revision) == counter_state_of(u.next_revision));
}

} // verus!
