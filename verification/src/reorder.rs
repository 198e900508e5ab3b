//! Restoring a Program does not depend on the order in which its
//! identity-ordered collections are stored: a checkpoint that restores as
//! stored also restores in canonical order, as its file decodes.
use vstd::prelude::*;
use vstd::multiset::Multiset;

use crate::body::BlockView;
use crate::decode::{domain_type_is, function_is, module_is, modules_are, parameter_is};
use crate::encode::{block_key_list, domain_type_key_list, expression_key_list, function_key_list, module_key_list};
use crate::inventory::{
    block_expression_keys, block_keys, blocks_expression_keys, expression_keys, function_block_keys,
    function_keys, function_parameter_keys, functions_block_keys, functions_expression_keys,
    functions_parameter_keys, module_keys, module_type_keys, parameter_keys, type_keys,
};
use crate::inventory::function_key_list as inventory_function_key_list;
use crate::locate::function_blocks;
use crate::model::{FunctionView, ModuleView};
use crate::order::{insertion_point, lemma_sorted_prefix_range, sorted_order, sorted_prefix};
use crate::persistence::restored_keys;
use crate::roundtrip::{
    sorted_blocks, sorted_domain_types, sorted_functions, sorted_modules, wire_block_of,
    wire_blocks_of, wire_body_of, wire_domain_types_of, wire_function_of, wire_functions_of,
    wire_module_of, wire_modules_of, wire_parameters_of,
};

verus! {

broadcast use vstd::multiset::group_multiset_axioms;

// ---------------------------------------------------------------------
// Sums of multisets, and reordering.
// ---------------------------------------------------------------------

/// The sum of a sequence of multisets.
pub open spec fn msum<K>(s: Seq<Multiset<K>>) -> Multiset<K>
    decreases s.len(),
{
    if s.len() == 0 {
        Multiset::empty()
    } else {
        s[0].add(msum(s.drop_first()))
    }
}

proof fn lemma_msum_insert<K>(s: Seq<Multiset<K>>, p: int, x: Multiset<K>)
    requires
        0 <= p <= s.len(),
    ensures
        msum(s.insert(p, x)) =~= msum(s).add(x),
    decreases s.len(),
{
    let t = s.insert(p, x);
    if p == 0 {
        assert(t.drop_first() =~= s);
    } else {
        assert(t[0] == s[0]);
        assert(t.drop_first() =~= s.drop_first().insert(p - 1, x));
        lemma_msum_insert(s.drop_first(), p - 1, x);
    }
}

/// Sums of pointwise equal multisets are equal.
pub proof fn lemma_msum_pointwise<K>(s: Seq<Multiset<K>>, t: Seq<Multiset<K>>)
    requires
        s.len() == t.len(),
        forall|k: int| 0 <= k < s.len() ==> #[trigger] s[k] =~= t[k],
    ensures
        msum(s) =~= msum(t),
    decreases s.len(),
{
    if s.len() > 0 {
        assert(s[0] =~= t[0]);
        lemma_msum_pointwise(s.drop_first(), t.drop_first());
    }
}

/// The elements of a flattened sequence are those of its groups.
pub proof fn lemma_flatten_multiset<K>(groups: Seq<Seq<K>>)
    ensures
        groups.flatten().to_multiset() =~= msum(Seq::new(groups.len(), |k: int| groups[k].to_multiset())),
    decreases groups.len(),
{
    let all = Seq::new(groups.len(), |k: int| groups[k].to_multiset());
    if groups.len() == 0 {
        assert(groups.flatten() =~= Seq::<K>::empty());
        assert(Seq::<K>::empty().to_multiset() =~= Multiset::empty()) by {
            vstd::seq_lib::to_multiset_len(Seq::<K>::empty());
        }
    } else {
        let rest = groups.drop_first();
        lemma_flatten_multiset(rest);
        assert(groups.flatten() == groups[0] + rest.flatten());
        vstd::seq_lib::lemma_multiset_commutative(groups[0], rest.flatten());
        assert(all.drop_first() =~= Seq::new(rest.len(), |k: int| rest[k].to_multiset()));
        assert(msum(all) == all[0].add(msum(all.drop_first())));
    }
}

/// The positions `0..n` visited in the sorted prefix of `n` positions.
proof fn lemma_sorted_prefix_msum<K>(keys: Seq<(u128, u64)>, n: nat, h: spec_fn(int) -> Multiset<K>)
    requires
        n <= keys.len(),
    ensures
        msum(Seq::new(n, |k: int| h(sorted_prefix(keys, n)[k]))) =~= msum(Seq::new(n, |k: int| h(k))),
    decreases n,
{
    lemma_sorted_prefix_range(keys, n);
    if n > 0 {
        let prior = sorted_prefix(keys, (n - 1) as nat);
        lemma_sorted_prefix_range(keys, (n - 1) as nat);
        lemma_sorted_prefix_msum(keys, (n - 1) as nat, h);
        let p = insertion_point(prior, keys, keys[n - 1]);
        crate::order::lemma_insertion_point_bounds_pub(prior, keys, keys[n - 1]);
        let a = Seq::new((n - 1) as nat, |k: int| h(prior[k]));
        assert(Seq::new(n, |k: int| h(sorted_prefix(keys, n)[k])) =~= a.insert(p, h(n - 1)));
        lemma_msum_insert(a, p, h(n - 1));
        let b = Seq::new((n - 1) as nat, |k: int| h(k));
        assert(Seq::new(n, |k: int| h(k)) =~= b.insert(n - 1, h(n - 1)));
        lemma_msum_insert(b, n - 1, h(n - 1));
    }
}

/// Summing along the sorted order of `keys` sums every position once.
pub proof fn lemma_sorted_msum<K>(keys: Seq<(u128, u64)>, h: spec_fn(int) -> Multiset<K>)
    ensures
        msum(Seq::new(keys.len(), |k: int| h(sorted_order(keys)[k]))) =~= msum(
            Seq::new(keys.len(), |k: int| h(k)),
        ),
{
    lemma_sorted_prefix_msum(keys, keys.len(), h);
}

/// The sorted order of `keys` visits every position.
pub proof fn lemma_sorted_order_onto(keys: Seq<(u128, u64)>, j: int)
    requires
        0 <= j < keys.len(),
    ensures
        exists|k: int| 0 <= k < keys.len() && #[trigger] sorted_order(keys)[k] == j,
{
    lemma_sorted_prefix_onto(keys, keys.len(), j);
    assert(sorted_order(keys) == sorted_prefix(keys, keys.len()));
    let k = choose|k: int| 0 <= k < keys.len() && #[trigger] sorted_prefix(keys, keys.len())[k] == j;
    assert(sorted_order(keys)[k] == j);
}

proof fn lemma_sorted_prefix_onto(keys: Seq<(u128, u64)>, n: nat, j: int)
    requires
        0 <= j < n <= keys.len(),
    ensures
        exists|k: int| 0 <= k < n && #[trigger] sorted_prefix(keys, n)[k] == j,
    decreases n,
{
    let prior = sorted_prefix(keys, (n - 1) as nat);
    let p = insertion_point(prior, keys, keys[n - 1]);
    lemma_sorted_prefix_range(keys, (n - 1) as nat);
    crate::order::lemma_insertion_point_bounds_pub(prior, keys, keys[n - 1]);
    let o = sorted_prefix(keys, n);
    assert(o == prior.insert(p, n - 1));
    if j == n - 1 {
        assert(o[p] == j);
    } else {
        lemma_sorted_prefix_onto(keys, (n - 1) as nat, j);
        let k = choose|k: int| 0 <= k < n - 1 && #[trigger] prior[k] == j;
        if k < p {
            assert(o[k] == j);
        } else {
            assert(o[k + 1] == j);
        }
    }
}


/// A sequence holds the elements of its singletons.
proof fn lemma_seq_msum<K>(s: Seq<K>)
    ensures
        s.to_multiset() =~= msum(Seq::new(s.len(), |k: int| Multiset::singleton(s[k]))),
    decreases s.len(),
{
    let all = Seq::new(s.len(), |k: int| Multiset::singleton(s[k]));
    if s.len() == 0 {
        vstd::seq_lib::to_multiset_len(s);
    } else {
        let rest = s.drop_first();
        lemma_seq_msum(rest);
        assert(s =~= seq![s[0]] + rest);
        vstd::seq_lib::lemma_multiset_commutative(seq![s[0]], rest);
        assert(seq![s[0]] =~= Seq::<K>::empty().push(s[0]));
        vstd::seq_lib::to_multiset_build(Seq::<K>::empty(), s[0]);
        vstd::seq_lib::to_multiset_len(Seq::<K>::empty());
        assert(all.drop_first() =~= Seq::new(rest.len(), |k: int| Multiset::singleton(rest[k])));
    }
}

/// A sequence laid out along the sorted order of `keys` holds the same
/// elements as the sequence itself.
pub proof fn lemma_permuted_multiset<K>(keys: Seq<(u128, u64)>, permuted: Seq<K>, s: Seq<K>)
    requires
        permuted.len() == s.len(),
        s.len() == keys.len(),
        forall|k: int| 0 <= k < s.len() ==> #[trigger] permuted[k] == s[sorted_order(keys)[k]],
    ensures
        permuted.to_multiset() =~= s.to_multiset(),
{
    lemma_seq_msum(permuted);
    lemma_seq_msum(s);
    let h = |i: int| Multiset::singleton(s[i]);
    lemma_sorted_msum(keys, h);
    lemma_msum_pointwise(
        Seq::new(permuted.len(), |k: int| Multiset::singleton(permuted[k])),
        Seq::new(keys.len(), |k: int| h(sorted_order(keys)[k])),
    );
    lemma_msum_pointwise(
        Seq::new(keys.len(), |k: int| h(k)),
        Seq::new(s.len(), |k: int| Multiset::singleton(s[k])),
    );
}

/// Groups laid out along the sorted order of `keys`, each with the
/// elements of its counterpart, flatten to the same elements.
pub proof fn lemma_permuted_groups_multiset<K>(keys: Seq<(u128, u64)>, permuted: Seq<Seq<K>>, groups: Seq<Seq<K>>)
    requires
        permuted.len() == groups.len(),
        groups.len() == keys.len(),
        forall|k: int| 0 <= k < groups.len() ==> #[trigger] permuted[k].to_multiset() =~= groups[sorted_order(keys)[k]].to_multiset(),
    ensures
        permuted.flatten().to_multiset() =~= groups.flatten().to_multiset(),
{
    lemma_flatten_multiset(permuted);
    lemma_flatten_multiset(groups);
    let h = |i: int| groups[i].to_multiset();
    lemma_sorted_msum(keys, h);
    lemma_msum_pointwise(
        Seq::new(permuted.len(), |k: int| permuted[k].to_multiset()),
        Seq::new(keys.len(), |k: int| h(sorted_order(keys)[k])),
    );
    lemma_msum_pointwise(
        Seq::new(keys.len(), |k: int| h(k)),
        Seq::new(groups.len(), |k: int| groups[k].to_multiset()),
    );
}

// ---------------------------------------------------------------------
// The identities of a decoded Program are those stored.
// ---------------------------------------------------------------------

/// A Block in decoded form holds the Block's Expression identities.
proof fn lemma_block_expression_keys(block: BlockView)
    ensures
        block_expression_keys(wire_block_of(block)).to_multiset() =~= block_expression_keys(block).to_multiset(),
{
    let es = block.expressions;
    let keys = expression_key_list(es);
    lemma_sorted_prefix_range(keys, keys.len());
    lemma_permuted_multiset(keys, block_expression_keys(wire_block_of(block)), block_expression_keys(block));
}

/// A body in decoded form holds the body's Block and Expression
/// identities.
proof fn lemma_body_keys(f2: FunctionView, f: FunctionView)
    requires
        f2.body == wire_body_of(f.body),
    ensures
        function_block_keys(f2).to_multiset() =~= function_block_keys(f).to_multiset(),
        blocks_expression_keys(function_blocks(f2)).to_multiset() =~= blocks_expression_keys(
            function_blocks(f),
        ).to_multiset(),
{
    if let Some(bd) = f.body {
        let bs = bd.blocks;
        let keys = block_key_list(bs);
        lemma_sorted_prefix_range(keys, keys.len());
        let bs2 = function_blocks(f2);
        assert(bs2 == wire_blocks_of(sorted_blocks(bs)));
        lemma_permuted_multiset(keys, function_block_keys(f2), function_block_keys(f));
        let g2 = bs2.map_values(|b: BlockView| block_expression_keys(b));
        let g = bs.map_values(|b: BlockView| block_expression_keys(b));
        assert forall|k: int| 0 <= k < g.len() implies #[trigger] g2[k].to_multiset() =~= g[sorted_order(keys)[k]].to_multiset() by {
            lemma_block_expression_keys(bs[sorted_order(keys)[k]]);
        }
        lemma_permuted_groups_multiset(keys, g2, g);
    } else {
        assert(function_blocks(f2) =~= function_blocks(f));
    }
}

/// A Function in decoded form holds the Function's Parameter, Block and
/// Expression identities.
proof fn lemma_function_keys(f2: FunctionView, f: FunctionView)
    requires
        function_is(f2, wire_function_of(f)),
    ensures
        function_parameter_keys(f2) == function_parameter_keys(f),
        function_block_keys(f2).to_multiset() =~= function_block_keys(f).to_multiset(),
        blocks_expression_keys(function_blocks(f2)).to_multiset() =~= blocks_expression_keys(
            function_blocks(f),
        ).to_multiset(),
{
    let wps = wire_parameters_of(f.parameters);
    assert forall|k: int| 0 <= k < f.parameters.len() implies #[trigger] f2.parameters[k].id == f.parameters[k].id by {
        assert(parameter_is(f2.parameters[k], wps[k]));
    }
    assert(function_parameter_keys(f2) =~= function_parameter_keys(f));
    lemma_body_keys(f2, f);
}

/// A Module in decoded form holds the Module's identities, category by
/// category.
#[verifier::spinoff_prover]
#[verifier::rlimit(40)]
proof fn lemma_module_keys(m2: ModuleView, m: ModuleView)
    requires
        module_is(m2, wire_module_of(m)),
    ensures
        module_type_keys(m2).to_multiset() =~= module_type_keys(m).to_multiset(),
        inventory_function_key_list(m2.functions).to_multiset() =~= inventory_function_key_list(m.functions).to_multiset(),
        functions_parameter_keys(m2.functions).to_multiset() =~= functions_parameter_keys(m.functions).to_multiset(),
        functions_block_keys(m2.functions).to_multiset() =~= functions_block_keys(m.functions).to_multiset(),
        functions_expression_keys(m2.functions).to_multiset() =~= functions_expression_keys(m.functions).to_multiset(),
{
    let dkeys = domain_type_key_list(m.domain_types);
    lemma_sorted_prefix_range(dkeys, dkeys.len());
    let wds = wire_domain_types_of(sorted_domain_types(m.domain_types));
    assert forall|k: int| 0 <= k < m.domain_types.len() implies #[trigger] module_type_keys(m2)[k]
        == module_type_keys(m)[sorted_order(dkeys)[k]] by {
        assert(domain_type_is(m2.domain_types[k], wds[k]));
    }
    lemma_permuted_multiset(dkeys, module_type_keys(m2), module_type_keys(m));

    let fs = m.functions;
    let fs2 = m2.functions;
    let fkeys = function_key_list(fs);
    lemma_sorted_prefix_range(fkeys, fkeys.len());
    let wfs = wire_functions_of(sorted_functions(fs));
    let o = sorted_order(fkeys);
    assert forall|k: int| 0 <= k < fs.len() implies #[trigger] function_is(fs2[k], wire_function_of(fs[o[k]])) by {
        assert(function_is(fs2[k], wfs[k]));
    }
    assert forall|k: int| 0 <= k < fs.len() implies #[trigger] inventory_function_key_list(fs2)[k]
        == inventory_function_key_list(fs)[o[k]] by {
        assert(function_is(fs2[k], wire_function_of(fs[o[k]])));
    }
    lemma_permuted_multiset(fkeys, inventory_function_key_list(fs2), inventory_function_key_list(fs));

    let p2 = fs2.map_values(|f: FunctionView| function_parameter_keys(f));
    let p = fs.map_values(|f: FunctionView| function_parameter_keys(f));
    let b2 = fs2.map_values(|f: FunctionView| function_block_keys(f));
    let b = fs.map_values(|f: FunctionView| function_block_keys(f));
    let e2 = fs2.map_values(|f: FunctionView| blocks_expression_keys(function_blocks(f)));
    let e = fs.map_values(|f: FunctionView| blocks_expression_keys(function_blocks(f)));
    assert forall|k: int| 0 <= k < fs.len() implies #[trigger] p2[k].to_multiset() =~= p[o[k]].to_multiset() by {
        lemma_function_keys(fs2[k], fs[o[k]]);
    }
    assert forall|k: int| 0 <= k < fs.len() implies #[trigger] b2[k].to_multiset() =~= b[o[k]].to_multiset() by {
        lemma_function_keys(fs2[k], fs[o[k]]);
    }
    assert forall|k: int| 0 <= k < fs.len() implies #[trigger] e2[k].to_multiset() =~= e[o[k]].to_multiset() by {
        lemma_function_keys(fs2[k], fs[o[k]]);
    }
    lemma_permuted_groups_multiset(fkeys, p2, p);
    lemma_permuted_groups_multiset(fkeys, b2, b);
    lemma_permuted_groups_multiset(fkeys, e2, e);
}

/// Modules that are the decoded forms of `modules` in canonical order.
pub open spec fn modules_decoded_from(decoded: Seq<ModuleView>, modules: Seq<ModuleView>) -> bool {
    modules_are(decoded, wire_modules_of(sorted_modules(modules)))
}

/// Decoded Modules hold the stored identities, category by category.
#[verifier::spinoff_prover]
#[verifier::rlimit(40)]
pub proof fn lemma_decoded_keys(decoded: Seq<ModuleView>, modules: Seq<ModuleView>)
    requires
        modules_decoded_from(decoded, modules),
    ensures
        module_keys(decoded).to_multiset() =~= module_keys(modules).to_multiset(),
        type_keys(decoded).to_multiset() =~= type_keys(modules).to_multiset(),
        function_keys(decoded).to_multiset() =~= function_keys(modules).to_multiset(),
        parameter_keys(decoded).to_multiset() =~= parameter_keys(modules).to_multiset(),
        block_keys(decoded).to_multiset() =~= block_keys(modules).to_multiset(),
        expression_keys(decoded).to_multiset() =~= expression_keys(modules).to_multiset(),
        restored_keys(decoded).to_multiset() =~= restored_keys(modules).to_multiset(),
{
    let keys = module_key_list(modules);
    lemma_sorted_prefix_range(keys, keys.len());
    let o = sorted_order(keys);
    let wms = wire_modules_of(sorted_modules(modules));
    assert forall|k: int| 0 <= k < modules.len() implies #[trigger] module_is(decoded[k], wire_module_of(modules[o[k]])) by {
        assert(module_is(decoded[k], wms[k]));
    }
    assert forall|k: int| 0 <= k < modules.len() implies #[trigger] module_keys(decoded)[k] == module_keys(modules)[o[k]] by {
        assert(module_is(decoded[k], wire_module_of(modules[o[k]])));
    }
    lemma_permuted_multiset(keys, module_keys(decoded), module_keys(modules));
    let t2 = decoded.map_values(|m: ModuleView| module_type_keys(m));
    let t = modules.map_values(|m: ModuleView| module_type_keys(m));
    let f2 = decoded.map_values(|m: ModuleView| inventory_function_key_list(m.functions));
    let f = modules.map_values(|m: ModuleView| inventory_function_key_list(m.functions));
    let p2 = decoded.map_values(|m: ModuleView| functions_parameter_keys(m.functions));
    let p = modules.map_values(|m: ModuleView| functions_parameter_keys(m.functions));
    let b2 = decoded.map_values(|m: ModuleView| functions_block_keys(m.functions));
    let b = modules.map_values(|m: ModuleView| functions_block_keys(m.functions));
    let e2 = decoded.map_values(|m: ModuleView| functions_expression_keys(m.functions));
    let e = modules.map_values(|m: ModuleView| functions_expression_keys(m.functions));
    assert forall|k: int| 0 <= k < modules.len() implies #[trigger] t2[k].to_multiset() =~= t[o[k]].to_multiset() by {
        lemma_module_keys(decoded[k], modules[o[k]]);
    }
    assert forall|k: int| 0 <= k < modules.len() implies #[trigger] f2[k].to_multiset() =~= f[o[k]].to_multiset() by {
        lemma_module_keys(decoded[k], modules[o[k]]);
    }
    assert forall|k: int| 0 <= k < modules.len() implies #[trigger] p2[k].to_multiset() =~= p[o[k]].to_multiset() by {
        lemma_module_keys(decoded[k], modules[o[k]]);
    }
    assert forall|k: int| 0 <= k < modules.len() implies #[trigger] b2[k].to_multiset() =~= b[o[k]].to_multiset() by {
        lemma_module_keys(decoded[k], modules[o[k]]);
    }
    assert forall|k: int| 0 <= k < modules.len() implies #[trigger] e2[k].to_multiset() =~= e[o[k]].to_multiset() by {
        lemma_module_keys(decoded[k], modules[o[k]]);
    }
    lemma_permuted_groups_multiset(keys, t2, t);
    lemma_permuted_groups_multiset(keys, f2, f);
    lemma_permuted_groups_multiset(keys, p2, p);
    lemma_permuted_groups_multiset(keys, b2, b);
    lemma_permuted_groups_multiset(keys, e2, e);
    vstd::seq_lib::lemma_multiset_commutative(module_keys(decoded), type_keys(decoded));
    vstd::seq_lib::lemma_multiset_commutative(module_keys(modules), type_keys(modules));
    let a2 = module_keys(decoded) + type_keys(decoded);
    let a = module_keys(modules) + type_keys(modules);
    vstd::seq_lib::lemma_multiset_commutative(a2, function_keys(decoded));
    vstd::seq_lib::lemma_multiset_commutative(a, function_keys(modules));
    let c2 = a2 + function_keys(decoded);
    let c = a + function_keys(modules);
    vstd::seq_lib::lemma_multiset_commutative(c2, parameter_keys(decoded));
    vstd::seq_lib::lemma_multiset_commutative(c, parameter_keys(modules));
    let d2 = c2 + parameter_keys(decoded);
    let d = c + parameter_keys(modules);
    vstd::seq_lib::lemma_multiset_commutative(d2, block_keys(decoded));
    vstd::seq_lib::lemma_multiset_commutative(d, block_keys(modules));
    let g2 = d2 + block_keys(decoded);
    let g = d + block_keys(modules);
    vstd::seq_lib::lemma_multiset_commutative(g2, expression_keys(decoded));
    vstd::seq_lib::lemma_multiset_commutative(g, expression_keys(modules));
}

} // verus!
