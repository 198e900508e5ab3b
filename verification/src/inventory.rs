//! The persistent identities present in a set of Modules, per identifier
//! category, in Module, Function, Block, and Expression order. An identity
//! is keyed by its namespace value and counter.
use vstd::prelude::*;

use crate::body::{block_views, Block, BlockView, ExpressionView};
use crate::ids::{BlockId, ExpressionId, FunctionId, ModuleId, ParameterId, TypeId};
use crate::locate::function_blocks;
use crate::model::{function_views, module_views, DomainType, Function, FunctionView, Module, ModuleView, Parameter};

verus! {

/// One flattening step: the first `i + 1` groups flatten to the first `i`
/// groups followed by group `i`.
pub proof fn lemma_flatten_take_step<A>(s: Seq<Seq<A>>, i: int)
    requires
        0 <= i < s.len(),
    ensures
        s.take(i + 1).flatten() == s.take(i).flatten() + s[i],
{
    assert(s.take(i + 1) =~= s.take(i).push(s[i]));
    s.take(i).lemma_flatten_push(s[i]);
}

/// The key of a Module identity.
pub open spec fn module_key(id: ModuleId) -> (u128, u64) {
    (id.namespace_id.0, id.counter)
}

/// The key of a Domain Type identity.
pub open spec fn type_key(id: TypeId) -> (u128, u64) {
    (id.namespace_id.0, id.counter)
}

/// The key of a Function identity.
pub open spec fn function_key(id: FunctionId) -> (u128, u64) {
    (id.namespace_id.0, id.counter)
}

/// The key of a Parameter identity.
pub open spec fn parameter_key(id: ParameterId) -> (u128, u64) {
    (id.namespace_id.0, id.counter)
}

/// The key of a Block identity.
pub open spec fn block_key(id: BlockId) -> (u128, u64) {
    (id.namespace_id.0, id.counter)
}

/// The key of an Expression identity.
pub open spec fn expression_key(id: ExpressionId) -> (u128, u64) {
    (id.namespace_id.0, id.counter)
}

/// Module identities, in order.
pub open spec fn module_keys(modules: Seq<ModuleView>) -> Seq<(u128, u64)> {
    modules.map_values(|m: ModuleView| module_key(m.id))
}

/// Domain Type identities of one Module, in order.
pub open spec fn module_type_keys(module: ModuleView) -> Seq<(u128, u64)> {
    module.domain_types.map_values(|t: DomainType| type_key(t.id))
}

/// Domain Type identities, in order.
pub open spec fn type_keys(modules: Seq<ModuleView>) -> Seq<(u128, u64)> {
    modules.map_values(|m: ModuleView| module_type_keys(m)).flatten()
}

/// Function identities of a sequence of Functions, in order.
pub open spec fn function_key_list(functions: Seq<FunctionView>) -> Seq<(u128, u64)> {
    functions.map_values(|f: FunctionView| function_key(f.id))
}

/// Function identities, in order.
pub open spec fn function_keys(modules: Seq<ModuleView>) -> Seq<(u128, u64)> {
    modules.map_values(|m: ModuleView| function_key_list(m.functions)).flatten()
}

/// Parameter identities of one Function, in order.
pub open spec fn function_parameter_keys(function: FunctionView) -> Seq<(u128, u64)> {
    function.parameters.map_values(|p: Parameter| parameter_key(p.id))
}

/// Parameter identities of a sequence of Functions, in order.
pub open spec fn functions_parameter_keys(functions: Seq<FunctionView>) -> Seq<(u128, u64)> {
    functions.map_values(|f: FunctionView| function_parameter_keys(f)).flatten()
}

/// Parameter identities, in order.
pub open spec fn parameter_keys(modules: Seq<ModuleView>) -> Seq<(u128, u64)> {
    modules.map_values(|m: ModuleView| functions_parameter_keys(m.functions)).flatten()
}

/// Block identities of one Function, in order.
pub open spec fn function_block_keys(function: FunctionView) -> Seq<(u128, u64)> {
    function_blocks(function).map_values(|b: BlockView| block_key(b.id))
}

/// Block identities of a sequence of Functions, in order.
pub open spec fn functions_block_keys(functions: Seq<FunctionView>) -> Seq<(u128, u64)> {
    functions.map_values(|f: FunctionView| function_block_keys(f)).flatten()
}

/// Block identities, in order.
pub open spec fn block_keys(modules: Seq<ModuleView>) -> Seq<(u128, u64)> {
    modules.map_values(|m: ModuleView| functions_block_keys(m.functions)).flatten()
}

/// Expression identities of one Block, in order.
pub open spec fn block_expression_keys(block: BlockView) -> Seq<(u128, u64)> {
    block.expressions.map_values(|e: ExpressionView| expression_key(e.id))
}

/// Expression identities of a sequence of Blocks, in order.
pub open spec fn blocks_expression_keys(blocks: Seq<BlockView>) -> Seq<(u128, u64)> {
    blocks.map_values(|b: BlockView| block_expression_keys(b)).flatten()
}

/// Expression identities of a sequence of Functions, in order.
pub open spec fn functions_expression_keys(functions: Seq<FunctionView>) -> Seq<(u128, u64)> {
    functions.map_values(|f: FunctionView| blocks_expression_keys(function_blocks(f))).flatten()
}

/// Expression identities, in order.
pub open spec fn expression_keys(modules: Seq<ModuleView>) -> Seq<(u128, u64)> {
    modules.map_values(|m: ModuleView| functions_expression_keys(m.functions)).flatten()
}

/// The identities of one Block in the order reconstruction meets them:
/// the Block, then its Expressions.
pub open spec fn block_walk(block: BlockView) -> Seq<(u128, u64)> {
    seq![block_key(block.id)] + block_expression_keys(block)
}

/// The identities of a sequence of Blocks, Block by Block.
pub open spec fn blocks_walk(blocks: Seq<BlockView>) -> Seq<(u128, u64)> {
    blocks.map_values(|b: BlockView| block_walk(b)).flatten()
}

/// The identities of one Function in the order reconstruction meets them:
/// the Function, its Parameters, then its Blocks.
pub open spec fn function_walk(function: FunctionView) -> Seq<(u128, u64)> {
    seq![function_key(function.id)] + function_parameter_keys(function) + blocks_walk(function_blocks(function))
}

/// The identities of a sequence of Functions, Function by Function.
pub open spec fn functions_walk(functions: Seq<FunctionView>) -> Seq<(u128, u64)> {
    functions.map_values(|f: FunctionView| function_walk(f)).flatten()
}

/// The identities of one Module in the order reconstruction meets them:
/// the Module, its Domain Types, then its Functions.
pub open spec fn module_walk(module: ModuleView) -> Seq<(u128, u64)> {
    seq![module_key(module.id)] + module_type_keys(module) + functions_walk(module.functions)
}

/// Every identity of `modules`, depth first: Module by Module, each with
/// everything it owns.
pub open spec fn identity_walk(modules: Seq<ModuleView>) -> Seq<(u128, u64)> {
    modules.map_values(|m: ModuleView| module_walk(m)).flatten()
}

/// The identities present in a set of Modules, per category.
pub struct Inventory {
    pub modules: Vec<(u128, u64)>,
    pub types: Vec<(u128, u64)>,
    pub functions: Vec<(u128, u64)>,
    pub parameters: Vec<(u128, u64)>,
    pub blocks: Vec<(u128, u64)>,
    pub expressions: Vec<(u128, u64)>,
}

impl Inventory {
    /// This inventory lists exactly the identities present in `modules`.
    pub open spec fn lists(&self, modules: Seq<ModuleView>) -> bool {
        &&& self.modules@ == module_keys(modules)
        &&& self.types@ == type_keys(modules)
        &&& self.functions@ == function_keys(modules)
        &&& self.parameters@ == parameter_keys(modules)
        &&& self.blocks@ == block_keys(modules)
        &&& self.expressions@ == expression_keys(modules)
    }
}

fn append_block_expression_keys(out: &mut Vec<(u128, u64)>, blocks: &Vec<Block>)
    ensures
        final(out)@ == old(out)@ + blocks_expression_keys(block_views(blocks@)),
{
    let ghost views = block_views(blocks@);
    let ghost groups = views.map_values(|b: BlockView| block_expression_keys(b));
    let ghost base = out@;
    let mut k: usize = 0;
    while k < blocks.len()
        invariant
            k <= blocks@.len(),
            views == block_views(blocks@),
            groups == views.map_values(|b: BlockView| block_expression_keys(b)),
            out@ == base + groups.take(k as int).flatten(),
        decreases blocks.len() - k,
    {
        let expressions = &blocks[k].expressions;
        let ghost before = out@;
        let mut l: usize = 0;
        while l < expressions.len()
            invariant
                l <= expressions@.len(),
                *expressions == blocks@[k as int].expressions,
                out@ == before + groups[k as int].take(l as int),
                groups[k as int] == block_expression_keys(views[k as int]),
                views[k as int].expressions.len() == expressions@.len(),
                forall|m: int| 0 <= m < expressions@.len() ==> #[trigger] views[k as int].expressions[m] == expressions@[m]@,
            decreases expressions.len() - l,
        {
            let id = expressions[l].id;
            out.push((id.namespace_id.0, id.counter));
            l = l + 1;
            assert(out@ =~= before + groups[k as int].take(l as int));
        }
        proof {
            assert(groups[k as int].take(l as int) =~= groups[k as int]);
            lemma_flatten_take_step(groups, k as int);
        }
        k = k + 1;
    }
    assert(groups.take(blocks@.len() as int) =~= groups);
}

fn append_functions_expression_keys(out: &mut Vec<(u128, u64)>, functions: &Vec<Function>)
    ensures
        final(out)@ == old(out)@ + functions_expression_keys(function_views(functions@)),
{
    let ghost views = function_views(functions@);
    let ghost groups = views.map_values(|f: FunctionView| blocks_expression_keys(function_blocks(f)));
    let ghost base = out@;
    let mut j: usize = 0;
    while j < functions.len()
        invariant
            j <= functions@.len(),
            views == function_views(functions@),
            groups == views.map_values(|f: FunctionView| blocks_expression_keys(function_blocks(f))),
            out@ == base + groups.take(j as int).flatten(),
        decreases functions.len() - j,
    {
        let ghost before = out@;
        match &functions[j].body {
            Some(body) => {
                append_block_expression_keys(out, &body.blocks);
            },
            None => {
                assert(blocks_expression_keys(function_blocks(views[j as int])) =~= Seq::<(u128, u64)>::empty());
            },
        }
        proof {
            assert(out@ =~= before + groups[j as int]);
            lemma_flatten_take_step(groups, j as int);
        }
        j = j + 1;
    }
    assert(groups.take(functions@.len() as int) =~= groups);
}

fn append_functions_block_keys(out: &mut Vec<(u128, u64)>, functions: &Vec<Function>)
    ensures
        final(out)@ == old(out)@ + functions_block_keys(function_views(functions@)),
{
    let ghost views = function_views(functions@);
    let ghost groups = views.map_values(|f: FunctionView| function_block_keys(f));
    let ghost base = out@;
    let mut j: usize = 0;
    while j < functions.len()
        invariant
            j <= functions@.len(),
            views == function_views(functions@),
            groups == views.map_values(|f: FunctionView| function_block_keys(f)),
            out@ == base + groups.take(j as int).flatten(),
        decreases functions.len() - j,
    {
        let ghost before = out@;
        match &functions[j].body {
            Some(body) => {
                let ghost bviews = block_views(body.blocks@);
                let mut k: usize = 0;
                while k < body.blocks.len()
                    invariant
                        k <= body.blocks@.len(),
                        bviews == block_views(body.blocks@),
                        function_blocks(views[j as int]) == bviews,
                        groups[j as int] == function_block_keys(views[j as int]),
                        out@ == before + groups[j as int].take(k as int),
                    decreases body.blocks.len() - k,
                {
                    let id = body.blocks[k].id;
                    out.push((id.namespace_id.0, id.counter));
                    k = k + 1;
                    assert(out@ =~= before + groups[j as int].take(k as int));
                }
                assert(groups[j as int].take(k as int) =~= groups[j as int]);
            },
            None => {
                assert(function_block_keys(views[j as int]) =~= Seq::<(u128, u64)>::empty());
                assert(out@ =~= before + groups[j as int]);
            },
        }
        proof {
            lemma_flatten_take_step(groups, j as int);
        }
        j = j + 1;
    }
    assert(groups.take(functions@.len() as int) =~= groups);
}

fn append_functions_parameter_keys(out: &mut Vec<(u128, u64)>, functions: &Vec<Function>)
    ensures
        final(out)@ == old(out)@ + functions_parameter_keys(function_views(functions@)),
{
    let ghost views = function_views(functions@);
    let ghost groups = views.map_values(|f: FunctionView| function_parameter_keys(f));
    let ghost base = out@;
    let mut j: usize = 0;
    while j < functions.len()
        invariant
            j <= functions@.len(),
            views == function_views(functions@),
            groups == views.map_values(|f: FunctionView| function_parameter_keys(f)),
            out@ == base + groups.take(j as int).flatten(),
        decreases functions.len() - j,
    {
        let ghost before = out@;
        let parameters = &functions[j].parameters;
        let mut p: usize = 0;
        while p < parameters.len()
            invariant
                p <= parameters@.len(),
                views[j as int].parameters == parameters@,
                groups[j as int] == function_parameter_keys(views[j as int]),
                out@ == before + groups[j as int].take(p as int),
            decreases parameters.len() - p,
        {
            let id = parameters[p].id;
            out.push((id.namespace_id.0, id.counter));
            p = p + 1;
            assert(out@ =~= before + groups[j as int].take(p as int));
        }
        proof {
            assert(groups[j as int].take(p as int) =~= groups[j as int]);
            lemma_flatten_take_step(groups, j as int);
        }
        j = j + 1;
    }
    assert(groups.take(functions@.len() as int) =~= groups);
}

fn append_function_keys(out: &mut Vec<(u128, u64)>, functions: &Vec<Function>)
    ensures
        final(out)@ == old(out)@ + function_key_list(function_views(functions@)),
{
    let ghost base = out@;
    let mut j: usize = 0;
    while j < functions.len()
        invariant
            j <= functions@.len(),
            out@ == base + function_key_list(function_views(functions@)).take(j as int),
        decreases functions.len() - j,
    {
        let id = functions[j].id;
        out.push((id.namespace_id.0, id.counter));
        j = j + 1;
        assert(out@ =~= base + function_key_list(function_views(functions@)).take(j as int));
    }
    assert(function_key_list(function_views(functions@)).take(j as int) =~= function_key_list(function_views(functions@)));
}

fn append_type_keys(out: &mut Vec<(u128, u64)>, module: &Module)
    ensures
        final(out)@ == old(out)@ + module_type_keys(module@),
{
    let ghost base = out@;
    let mut t: usize = 0;
    while t < module.domain_types.len()
        invariant
            t <= module.domain_types@.len(),
            out@ == base + module_type_keys(module@).take(t as int),
        decreases module.domain_types.len() - t,
    {
        let id = module.domain_types[t].id;
        out.push((id.namespace_id.0, id.counter));
        t = t + 1;
        assert(out@ =~= base + module_type_keys(module@).take(t as int));
    }
    assert(module_type_keys(module@).take(t as int) =~= module_type_keys(module@));
}

/// Lists the identities present in `modules`, per category.
pub(crate) fn collect_inventory(modules: &Vec<Module>) -> (r: Inventory)
    ensures
        r.lists(module_views(modules@)),
{
    let ghost views = module_views(modules@);
    let ghost type_groups = views.map_values(|m: ModuleView| module_type_keys(m));
    let ghost function_groups = views.map_values(|m: ModuleView| function_key_list(m.functions));
    let ghost parameter_groups = views.map_values(|m: ModuleView| functions_parameter_keys(m.functions));
    let ghost block_groups = views.map_values(|m: ModuleView| functions_block_keys(m.functions));
    let ghost expression_groups = views.map_values(|m: ModuleView| functions_expression_keys(m.functions));
    let mut inventory = Inventory {
        modules: Vec::new(),
        types: Vec::new(),
        functions: Vec::new(),
        parameters: Vec::new(),
        blocks: Vec::new(),
        expressions: Vec::new(),
    };
    let mut i: usize = 0;
    while i < modules.len()
        invariant
            i <= modules@.len(),
            views == module_views(modules@),
            type_groups == views.map_values(|m: ModuleView| module_type_keys(m)),
            function_groups == views.map_values(|m: ModuleView| function_key_list(m.functions)),
            parameter_groups == views.map_values(|m: ModuleView| functions_parameter_keys(m.functions)),
            block_groups == views.map_values(|m: ModuleView| functions_block_keys(m.functions)),
            expression_groups == views.map_values(|m: ModuleView| functions_expression_keys(m.functions)),
            inventory.modules@ == module_keys(views).take(i as int),
            inventory.types@ == type_groups.take(i as int).flatten(),
            inventory.functions@ == function_groups.take(i as int).flatten(),
            inventory.parameters@ == parameter_groups.take(i as int).flatten(),
            inventory.blocks@ == block_groups.take(i as int).flatten(),
            inventory.expressions@ == expression_groups.take(i as int).flatten(),
        decreases modules.len() - i,
    {
        let module = &modules[i];
        let id = module.id;
        inventory.modules.push((id.namespace_id.0, id.counter));
        append_type_keys(&mut inventory.types, module);
        append_function_keys(&mut inventory.functions, &module.functions);
        append_functions_parameter_keys(&mut inventory.parameters, &module.functions);
        append_functions_block_keys(&mut inventory.blocks, &module.functions);
        append_functions_expression_keys(&mut inventory.expressions, &module.functions);
        proof {
            lemma_flatten_take_step(type_groups, i as int);
            lemma_flatten_take_step(function_groups, i as int);
            lemma_flatten_take_step(parameter_groups, i as int);
            lemma_flatten_take_step(block_groups, i as int);
            lemma_flatten_take_step(expression_groups, i as int);
        }
        i = i + 1;
        assert(inventory.modules@ =~= module_keys(views).take(i as int));
    }
    proof {
        assert(module_keys(views).take(i as int) =~= module_keys(views));
        assert(type_groups.take(i as int) =~= type_groups);
        assert(function_groups.take(i as int) =~= function_groups);
        assert(parameter_groups.take(i as int) =~= parameter_groups);
        assert(block_groups.take(i as int) =~= block_groups);
        assert(expression_groups.take(i as int) =~= expression_groups);
    }
    inventory
}

fn append_blocks_walk(out: &mut Vec<(u128, u64)>, blocks: &Vec<Block>)
    ensures
        final(out)@ == old(out)@ + blocks_walk(block_views(blocks@)),
{
    let ghost views = block_views(blocks@);
    let ghost groups = views.map_values(|b: BlockView| block_walk(b));
    let ghost base = out@;
    let mut k: usize = 0;
    while k < blocks.len()
        invariant
            k <= blocks@.len(),
            views == block_views(blocks@),
            groups == views.map_values(|b: BlockView| block_walk(b)),
            out@ == base + groups.take(k as int).flatten(),
        decreases blocks.len() - k,
    {
        let ghost before = out@;
        let id = blocks[k].id;
        out.push((id.namespace_id.0, id.counter));
        let ghost head = out@;
        let ghost ek = block_expression_keys(views[k as int]);
        let expressions = &blocks[k].expressions;
        let mut l: usize = 0;
        while l < expressions.len()
            invariant
                l <= expressions@.len(),
                *expressions == blocks@[k as int].expressions,
                ek == block_expression_keys(views[k as int]),
                views[k as int].expressions.len() == expressions@.len(),
                forall|m: int| 0 <= m < expressions@.len() ==> #[trigger] views[k as int].expressions[m] == expressions@[m]@,
                out@ == head + ek.take(l as int),
            decreases expressions.len() - l,
        {
            let id = expressions[l].id;
            out.push((id.namespace_id.0, id.counter));
            l = l + 1;
            assert(out@ =~= head + ek.take(l as int));
        }
        proof {
            assert(ek.take(l as int) =~= ek);
            assert(groups[k as int] == block_walk(views[k as int]));
            assert(out@ =~= before + groups[k as int]);
            lemma_flatten_take_step(groups, k as int);
        }
        k = k + 1;
    }
    assert(groups.take(blocks@.len() as int) =~= groups);
}

fn append_functions_walk(out: &mut Vec<(u128, u64)>, functions: &Vec<Function>)
    ensures
        final(out)@ == old(out)@ + functions_walk(function_views(functions@)),
{
    let ghost views = function_views(functions@);
    let ghost groups = views.map_values(|f: FunctionView| function_walk(f));
    let ghost base = out@;
    let mut j: usize = 0;
    while j < functions.len()
        invariant
            j <= functions@.len(),
            views == function_views(functions@),
            groups == views.map_values(|f: FunctionView| function_walk(f)),
            out@ == base + groups.take(j as int).flatten(),
        decreases functions.len() - j,
    {
        let ghost before = out@;
        let function = &functions[j];
        let id = function.id;
        out.push((id.namespace_id.0, id.counter));
        let ghost head = out@;
        let ghost pk = function_parameter_keys(views[j as int]);
        let parameters = &function.parameters;
        let mut p: usize = 0;
        while p < parameters.len()
            invariant
                p <= parameters@.len(),
                views[j as int].parameters == parameters@,
                pk == function_parameter_keys(views[j as int]),
                out@ == head + pk.take(p as int),
            decreases parameters.len() - p,
        {
            let id = parameters[p].id;
            out.push((id.namespace_id.0, id.counter));
            p = p + 1;
            assert(out@ =~= head + pk.take(p as int));
        }
        assert(pk.take(p as int) =~= pk);
        let ghost middle = out@;
        match &function.body {
            Some(body) => {
                append_blocks_walk(out, &body.blocks);
            },
            None => {
                assert(blocks_walk(function_blocks(views[j as int])) =~= Seq::<(u128, u64)>::empty());
            },
        }
        proof {
            assert(out@ =~= middle + blocks_walk(function_blocks(views[j as int])));
            assert(groups[j as int] == function_walk(views[j as int]));
            assert(out@ =~= before + groups[j as int]);
            lemma_flatten_take_step(groups, j as int);
        }
        j = j + 1;
    }
    assert(groups.take(functions@.len() as int) =~= groups);
}

/// Lists every identity of `modules` in the order reconstruction meets
/// them: [`identity_walk`].
pub(crate) fn collect_identity_walk(modules: &Vec<Module>) -> (r: Vec<(u128, u64)>)
    ensures
        r@ == identity_walk(module_views(modules@)),
{
    let ghost views = module_views(modules@);
    let ghost groups = views.map_values(|m: ModuleView| module_walk(m));
    let mut out: Vec<(u128, u64)> = Vec::new();
    let mut i: usize = 0;
    while i < modules.len()
        invariant
            i <= modules@.len(),
            views == module_views(modules@),
            groups == views.map_values(|m: ModuleView| module_walk(m)),
            out@ == groups.take(i as int).flatten(),
        decreases modules.len() - i,
    {
        let ghost before = out@;
        let module = &modules[i];
        let id = module.id;
        out.push((id.namespace_id.0, id.counter));
        append_type_keys(&mut out, module);
        append_functions_walk(&mut out, &module.functions);
        proof {
            assert(groups[i as int] == module_walk(views[i as int]));
            assert(out@ =~= before + groups[i as int]);
            lemma_flatten_take_step(groups, i as int);
        }
        i = i + 1;
    }
    assert(groups.take(i as int) =~= groups);
    out
}

/// The multiset of a flattened mapping splits as each group's does.
pub proof fn lemma_flatten_map_split<T>(
    s: Seq<T>,
    h: spec_fn(T) -> Seq<(u128, u64)>,
    f: spec_fn(T) -> Seq<(u128, u64)>,
    g: spec_fn(T) -> Seq<(u128, u64)>,
)
    requires
        forall|i: int| 0 <= i < s.len() ==> #[trigger] h(s[i]).to_multiset() =~= f(s[i]).to_multiset().add(g(s[i]).to_multiset()),
    ensures
        s.map_values(h).flatten().to_multiset() =~= s.map_values(f).flatten().to_multiset().add(
            s.map_values(g).flatten().to_multiset(),
        ),
    decreases s.len(),
{
    broadcast use vstd::multiset::group_multiset_axioms;

    if s.len() == 0 {
        let e = Seq::<(u128, u64)>::empty();
        assert(s.map_values(h) =~= Seq::<Seq<(u128, u64)>>::empty());
        assert(s.map_values(f) =~= Seq::<Seq<(u128, u64)>>::empty());
        assert(s.map_values(g) =~= Seq::<Seq<(u128, u64)>>::empty());
        vstd::seq_lib::lemma_multiset_commutative(e, e);
        assert(e + e =~= e);
    } else {
        let p = s.drop_last();
        let x = s.last();
        assert forall|i: int| 0 <= i < p.len() implies #[trigger] h(p[i]).to_multiset() =~= f(p[i]).to_multiset().add(
            g(p[i]).to_multiset(),
        ) by {
            assert(p[i] == s[i]);
        }
        lemma_flatten_map_split(p, h, f, g);
        assert(h(s[s.len() - 1]).to_multiset() =~= f(s[s.len() - 1]).to_multiset().add(g(s[s.len() - 1]).to_multiset()));
        assert(s.map_values(h) =~= p.map_values(h).push(h(x)));
        assert(s.map_values(f) =~= p.map_values(f).push(f(x)));
        assert(s.map_values(g) =~= p.map_values(g).push(g(x)));
        p.map_values(h).lemma_flatten_push(h(x));
        p.map_values(f).lemma_flatten_push(f(x));
        p.map_values(g).lemma_flatten_push(g(x));
        vstd::seq_lib::lemma_multiset_commutative(p.map_values(h).flatten(), h(x));
        vstd::seq_lib::lemma_multiset_commutative(p.map_values(f).flatten(), f(x));
        vstd::seq_lib::lemma_multiset_commutative(p.map_values(g).flatten(), g(x));
    }
}

/// Flattening one-key groups lists the keys.
pub proof fn lemma_flatten_singletons<T>(s: Seq<T>, one: spec_fn(T) -> Seq<(u128, u64)>, key: spec_fn(T) -> (u128, u64))
    requires
        forall|x: T| #[trigger] one(x) == seq![key(x)],
    ensures
        s.map_values(one).flatten() =~= s.map_values(key),
    decreases s.len(),
{
    if s.len() > 0 {
        let p = s.drop_last();
        lemma_flatten_singletons(p, one, key);
        assert(s.map_values(one) =~= p.map_values(one).push(one(s.last())));
        p.map_values(one).lemma_flatten_push(one(s.last()));
        assert(s.map_values(key) =~= p.map_values(key).push(key(s.last())));
    } else {
        assert(s.map_values(one) =~= Seq::<Seq<(u128, u64)>>::empty());
    }
}

/// The identities of Blocks, Block by Block, are their Block identities
/// and their Expression identities.
pub proof fn lemma_blocks_walk_multiset(blocks: Seq<BlockView>)
    ensures
        blocks_walk(blocks).to_multiset() =~= blocks.map_values(|b: BlockView| block_key(b.id)).to_multiset().add(
            blocks_expression_keys(blocks).to_multiset(),
        ),
{
    let h = |b: BlockView| block_walk(b);
    let one = |b: BlockView| seq![block_key(b.id)];
    let key = |b: BlockView| block_key(b.id);
    let g = |b: BlockView| block_expression_keys(b);
    assert forall|i: int| 0 <= i < blocks.len() implies #[trigger] h(blocks[i]).to_multiset() =~= one(blocks[i]).to_multiset().add(
        g(blocks[i]).to_multiset(),
    ) by {
        vstd::seq_lib::lemma_multiset_commutative(seq![block_key(blocks[i].id)], block_expression_keys(blocks[i]));
    }
    lemma_flatten_map_split(blocks, h, one, g);
    lemma_flatten_singletons(blocks, one, key);
    assert(blocks.map_values(h) =~= blocks.map_values(|b: BlockView| block_walk(b)));
    assert(blocks.map_values(g) =~= blocks.map_values(|b: BlockView| block_expression_keys(b)));
    assert(blocks.map_values(key) =~= blocks.map_values(|b: BlockView| block_key(b.id)));
}

/// The identities of one Function, as reconstruction meets them, are its
/// Function, Parameter, Block and Expression identities.
pub proof fn lemma_function_walk_multiset(function: FunctionView)
    ensures
        function_walk(function).to_multiset() =~= seq![function_key(function.id)].to_multiset().add(
            function_parameter_keys(function).to_multiset(),
        ).add(function_block_keys(function).to_multiset()).add(
            blocks_expression_keys(function_blocks(function)).to_multiset(),
        ),
{
    broadcast use vstd::multiset::group_multiset_axioms;

    let head = seq![function_key(function.id)] + function_parameter_keys(function);
    vstd::seq_lib::lemma_multiset_commutative(head, blocks_walk(function_blocks(function)));
    vstd::seq_lib::lemma_multiset_commutative(seq![function_key(function.id)], function_parameter_keys(function));
    lemma_blocks_walk_multiset(function_blocks(function));
    assert(function_blocks(function).map_values(|b: BlockView| block_key(b.id)) =~= function_block_keys(function));
}

/// The identities of Functions, Function by Function, are their Function,
/// Parameter, Block and Expression identities.
pub proof fn lemma_functions_walk_multiset(functions: Seq<FunctionView>)
    ensures
        functions_walk(functions).to_multiset() =~= function_key_list(functions).to_multiset().add(
            functions_parameter_keys(functions).to_multiset(),
        ).add(functions_block_keys(functions).to_multiset()).add(functions_expression_keys(functions).to_multiset()),
{
    broadcast use vstd::multiset::group_multiset_axioms;

    let h = |f: FunctionView| function_walk(f);
    let one = |f: FunctionView| seq![function_key(f.id)];
    let key = |f: FunctionView| function_key(f.id);
    let pk = |f: FunctionView| function_parameter_keys(f);
    let bk = |f: FunctionView| function_block_keys(f);
    let ek = |f: FunctionView| blocks_expression_keys(function_blocks(f));
    let g2 = |f: FunctionView| function_block_keys(f) + blocks_expression_keys(function_blocks(f));
    let g1 = |f: FunctionView| function_parameter_keys(f) + (function_block_keys(f) + blocks_expression_keys(function_blocks(f)));
    assert forall|i: int| 0 <= i < functions.len() implies #[trigger] g2(functions[i]).to_multiset() =~= bk(functions[i]).to_multiset().add(
        ek(functions[i]).to_multiset(),
    ) by {
        vstd::seq_lib::lemma_multiset_commutative(function_block_keys(functions[i]), blocks_expression_keys(function_blocks(functions[i])));
    }
    assert forall|i: int| 0 <= i < functions.len() implies #[trigger] g1(functions[i]).to_multiset() =~= pk(functions[i]).to_multiset().add(
        g2(functions[i]).to_multiset(),
    ) by {
        vstd::seq_lib::lemma_multiset_commutative(function_parameter_keys(functions[i]), g2(functions[i]));
    }
    assert forall|i: int| 0 <= i < functions.len() implies #[trigger] h(functions[i]).to_multiset() =~= one(functions[i]).to_multiset().add(
        g1(functions[i]).to_multiset(),
    ) by {
        lemma_function_walk_multiset(functions[i]);
        assert(g2(functions[i]).to_multiset() =~= bk(functions[i]).to_multiset().add(ek(functions[i]).to_multiset()));
        assert(g1(functions[i]).to_multiset() =~= pk(functions[i]).to_multiset().add(g2(functions[i]).to_multiset()));
    }
    lemma_flatten_map_split(functions, g2, bk, ek);
    lemma_flatten_map_split(functions, g1, pk, g2);
    lemma_flatten_map_split(functions, h, one, g1);
    lemma_flatten_singletons(functions, one, key);
    assert(functions.map_values(h) =~= functions.map_values(|f: FunctionView| function_walk(f)));
    assert(functions.map_values(key) =~= function_key_list(functions));
    assert(functions.map_values(pk) =~= functions.map_values(|f: FunctionView| function_parameter_keys(f)));
    assert(functions.map_values(bk) =~= functions.map_values(|f: FunctionView| function_block_keys(f)));
    assert(functions.map_values(ek) =~= functions.map_values(|f: FunctionView| blocks_expression_keys(function_blocks(f))));
}

/// Walking the identities of Modules depth first meets exactly the
/// identities listed category by category.
pub proof fn lemma_identity_walk_multiset(modules: Seq<ModuleView>)
    ensures
        identity_walk(modules).to_multiset() =~= module_keys(modules).to_multiset().add(type_keys(modules).to_multiset()).add(
            function_keys(modules).to_multiset(),
        ).add(parameter_keys(modules).to_multiset()).add(block_keys(modules).to_multiset()).add(
            expression_keys(modules).to_multiset(),
        ),
{
    broadcast use vstd::multiset::group_multiset_axioms;

    let h = |m: ModuleView| module_walk(m);
    let one = |m: ModuleView| seq![module_key(m.id)];
    let key = |m: ModuleView| module_key(m.id);
    let tk = |m: ModuleView| module_type_keys(m);
    let fw = |m: ModuleView| functions_walk(m.functions);
    let fk = |m: ModuleView| function_key_list(m.functions);
    let pk = |m: ModuleView| functions_parameter_keys(m.functions);
    let bk = |m: ModuleView| functions_block_keys(m.functions);
    let ek = |m: ModuleView| functions_expression_keys(m.functions);
    let g4 = |m: ModuleView| functions_block_keys(m.functions) + functions_expression_keys(m.functions);
    let g3 = |m: ModuleView| functions_parameter_keys(m.functions) + (functions_block_keys(m.functions) + functions_expression_keys(
        m.functions,
    ));
    let g1 = |m: ModuleView| module_type_keys(m) + functions_walk(m.functions);
    assert forall|i: int| 0 <= i < modules.len() implies #[trigger] g4(modules[i]).to_multiset() =~= bk(modules[i]).to_multiset().add(
        ek(modules[i]).to_multiset(),
    ) by {
        vstd::seq_lib::lemma_multiset_commutative(bk(modules[i]), ek(modules[i]));
    }
    assert forall|i: int| 0 <= i < modules.len() implies #[trigger] g3(modules[i]).to_multiset() =~= pk(modules[i]).to_multiset().add(
        g4(modules[i]).to_multiset(),
    ) by {
        vstd::seq_lib::lemma_multiset_commutative(pk(modules[i]), g4(modules[i]));
    }
    assert forall|i: int| 0 <= i < modules.len() implies #[trigger] fw(modules[i]).to_multiset() =~= fk(modules[i]).to_multiset().add(
        g3(modules[i]).to_multiset(),
    ) by {
        lemma_functions_walk_multiset(modules[i].functions);
        assert(g4(modules[i]).to_multiset() =~= bk(modules[i]).to_multiset().add(ek(modules[i]).to_multiset()));
        assert(g3(modules[i]).to_multiset() =~= pk(modules[i]).to_multiset().add(g4(modules[i]).to_multiset()));
    }
    assert forall|i: int| 0 <= i < modules.len() implies #[trigger] g1(modules[i]).to_multiset() =~= tk(modules[i]).to_multiset().add(
        fw(modules[i]).to_multiset(),
    ) by {
        vstd::seq_lib::lemma_multiset_commutative(tk(modules[i]), fw(modules[i]));
    }
    assert forall|i: int| 0 <= i < modules.len() implies #[trigger] h(modules[i]).to_multiset() =~= one(modules[i]).to_multiset().add(
        g1(modules[i]).to_multiset(),
    ) by {
        vstd::seq_lib::lemma_multiset_commutative(seq![module_key(modules[i].id)], g1(modules[i]));
        assert(h(modules[i]) =~= seq![module_key(modules[i].id)] + g1(modules[i]));
    }
    lemma_flatten_map_split(modules, g4, bk, ek);
    lemma_flatten_map_split(modules, g3, pk, g4);
    lemma_flatten_map_split(modules, fw, fk, g3);
    lemma_flatten_map_split(modules, g1, tk, fw);
    lemma_flatten_map_split(modules, h, one, g1);
    lemma_flatten_singletons(modules, one, key);
    assert(modules.map_values(h) =~= modules.map_values(|m: ModuleView| module_walk(m)));
    assert(modules.map_values(key) =~= module_keys(modules));
    assert(modules.map_values(tk) =~= modules.map_values(|m: ModuleView| module_type_keys(m)));
    assert(modules.map_values(fk) =~= modules.map_values(|m: ModuleView| function_key_list(m.functions)));
    assert(modules.map_values(pk) =~= modules.map_values(|m: ModuleView| functions_parameter_keys(m.functions)));
    assert(modules.map_values(bk) =~= modules.map_values(|m: ModuleView| functions_block_keys(m.functions)));
    assert(modules.map_values(ek) =~= modules.map_values(|m: ModuleView| functions_expression_keys(m.functions)));
}

/// The key at position `q` repeats one at an earlier position.
pub open spec fn repeats_earlier(keys: Seq<(u128, u64)>, q: int) -> bool {
    0 <= q < keys.len() && exists|p: int| 0 <= p < q && keys[p] == keys[q]
}

/// Finds the first position whose key repeats an earlier one.
pub(crate) fn first_repeat(keys: &Vec<(u128, u64)>) -> (r: Option<usize>)
    ensures
        match r {
            Some(q) => repeats_earlier(keys@, q as int),
            None => keys@.no_duplicates(),
        },
{
    let mut q: usize = 0;
    while q < keys.len()
        invariant
            q <= keys@.len(),
            forall|a: int, b: int| 0 <= a < b < q ==> keys@[a] != keys@[b],
        decreases keys.len() - q,
    {
        let mut p: usize = 0;
        while p < q
            invariant
                p <= q < keys@.len(),
                forall|a: int| 0 <= a < p ==> keys@[a] != keys@[q as int],
            decreases q - p,
        {
            if keys[p].0 == keys[q].0 && keys[p].1 == keys[q].1 {
                return Some(q);
            }
            p = p + 1;
        }
        q = q + 1;
    }
    None
}

} // verus!
