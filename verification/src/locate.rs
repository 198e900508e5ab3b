//! Program-wide identity lookup: the first entity with a given identity, in
//! Module, Function, Block, and Expression order, and where it stands.
use vstd::prelude::*;

use crate::body::{
    Expression, block_index, block_views, expression_index, expression_views, position_of_block,
    position_of_expression, Block, BlockView, ExpressionView,
};
use crate::ids::{BlockId, ExpressionId, FunctionId, ModuleId, ParameterId, TypeId};
use crate::model::{
    domain_type_index, find_module_in, function_index, position_of_module, function_views, module_views, parameter_index,
    position_of_domain_type, position_of_function, position_of_parameter, DomainType, Function,
    FunctionView, Module, ModuleView, Parameter,
};

verus! {

/// Where the first Function with identity `id` stands, searching Modules
/// from position `i`: (Module position, Function position).
pub open spec fn function_location_from(modules: Seq<ModuleView>, id: FunctionId, i: int) -> Option<
    (int, int),
>
    decreases modules.len() - i,
{
    if 0 <= i < modules.len() {
        let j = function_index(modules[i].functions, id);
        if j >= 0 {
            Some((i, j))
        } else {
            function_location_from(modules, id, i + 1)
        }
    } else {
        None
    }
}

/// Where the first Function with identity `id` stands.
pub open spec fn function_location(modules: Seq<ModuleView>, id: FunctionId) -> Option<(int, int)> {
    function_location_from(modules, id, 0)
}

/// The first Function with identity `id`, in any Module.
pub open spec fn find_function(modules: Seq<ModuleView>, id: FunctionId) -> Option<FunctionView> {
    match function_location(modules, id) {
        Some((i, j)) => Some(modules[i].functions[j]),
        None => None,
    }
}

/// Where no Module holds a Function with identity `id`, none is found.
pub proof fn lemma_function_absent(modules: Seq<ModuleView>, id: FunctionId, i: int)
    requires
        forall|k: int, j: int| 0 <= k < modules.len() && 0 <= j < modules[k].functions.len() ==> #[trigger] modules[k].functions[j].id
            != id,
    ensures
        function_location_from(modules, id, i) is None,
    decreases modules.len() - i,
{
    if 0 <= i < modules.len() {
        let fs = modules[i].functions;
        crate::lookup::lemma_first_index_facts(fs, crate::model::function_has_id(id));
        if function_index(fs, id) >= 0 {
            let j = function_index(fs, id);
            assert(modules[i].functions[j].id != id);
        }
        lemma_function_absent(modules, id, i + 1);
    }
}

/// A Function appended to Module `m`, whose identity no Function held, is
/// the one found by that identity.
pub proof fn lemma_appended_function_found(modules: Seq<ModuleView>, m: int, f: FunctionView, i: int)
    requires
        0 <= m < modules.len(),
        0 <= i,
        forall|k: int, j: int| 0 <= k < modules.len() && 0 <= j < modules[k].functions.len() ==> #[trigger] modules[k].functions[j].id
            != f.id,
    ensures
        function_location_from(modules.update(m, ModuleView { functions: modules[m].functions.push(f), ..modules[m] }), f.id, i)
            == (if i <= m {
            Some((m, modules[m].functions.len() as int))
        } else {
            None::<(int, int)>
        }),
    decreases modules.len() - i,
{
    let now = modules.update(m, ModuleView { functions: modules[m].functions.push(f), ..modules[m] });
    let p = crate::model::function_has_id(f.id);
    if i < modules.len() {
        if i == m {
            let fs = now[m].functions;
            assert forall|j: int| 0 <= j < modules[m].functions.len() implies !p(#[trigger] fs[j]) by {
                assert(fs[j] == modules[m].functions[j]);
            }
            crate::lookup::lemma_first_index_is(fs, p, modules[m].functions.len() as int);
        } else {
            crate::lookup::lemma_first_index_facts(now[i].functions, p);
            if function_index(now[i].functions, f.id) >= 0 {
                let j = function_index(now[i].functions, f.id);
                assert(now[i].functions[j] == modules[i].functions[j]);
            }
            lemma_appended_function_found(modules, m, f, i + 1);
        }
    }
}

/// Where the first Domain Type with identity `id` stands, searching Modules
/// from position `i`: (Module position, Domain Type position).
pub open spec fn domain_type_location_from(modules: Seq<ModuleView>, id: TypeId, i: int) -> Option<
    (int, int),
>
    decreases modules.len() - i,
{
    if 0 <= i < modules.len() {
        let t = domain_type_index(modules[i].domain_types, id);
        if t >= 0 {
            Some((i, t))
        } else {
            domain_type_location_from(modules, id, i + 1)
        }
    } else {
        None
    }
}

/// Where the first Domain Type with identity `id` stands.
pub open spec fn domain_type_location(modules: Seq<ModuleView>, id: TypeId) -> Option<(int, int)> {
    domain_type_location_from(modules, id, 0)
}

/// The first Domain Type with identity `id`, in any Module.
pub open spec fn find_domain_type(modules: Seq<ModuleView>, id: TypeId) -> Option<DomainType> {
    match domain_type_location(modules, id) {
        Some((i, t)) => Some(modules[i].domain_types[t]),
        None => None,
    }
}

/// Where the first Parameter with identity `id` stands among `functions`,
/// searching from position `j`: (Function position, Parameter position).
pub open spec fn parameter_location_among(functions: Seq<FunctionView>, id: ParameterId, j: int) -> Option<
    (int, int),
>
    decreases functions.len() - j,
{
    if 0 <= j < functions.len() {
        let p = parameter_index(functions[j].parameters, id);
        if p >= 0 {
            Some((j, p))
        } else {
            parameter_location_among(functions, id, j + 1)
        }
    } else {
        None
    }
}

/// Where the first Parameter with identity `id` stands, searching Modules
/// from position `i`: (Module, Function, Parameter positions).
pub open spec fn parameter_location_from(modules: Seq<ModuleView>, id: ParameterId, i: int) -> Option<
    (int, int, int),
>
    decreases modules.len() - i,
{
    if 0 <= i < modules.len() {
        match parameter_location_among(modules[i].functions, id, 0) {
            Some((j, p)) => Some((i, j, p)),
            None => parameter_location_from(modules, id, i + 1),
        }
    } else {
        None
    }
}

/// Where the first Parameter with identity `id` stands.
pub open spec fn parameter_location(modules: Seq<ModuleView>, id: ParameterId) -> Option<
    (int, int, int),
> {
    parameter_location_from(modules, id, 0)
}

/// Where no Function holds a Parameter with identity `id`, none is found
/// among `functions`.
pub proof fn lemma_parameter_absent_among(functions: Seq<FunctionView>, id: ParameterId, j: int)
    requires
        forall|l: int, q: int| 0 <= l < functions.len() && 0 <= q < functions[l].parameters.len() ==> #[trigger] functions[l].parameters[q].id
            != id,
    ensures
        parameter_location_among(functions, id, j) is None,
    decreases functions.len() - j,
{
    if 0 <= j < functions.len() {
        let ps = functions[j].parameters;
        crate::lookup::lemma_first_index_facts(ps, crate::model::parameter_has_id(id));
        if parameter_index(ps, id) >= 0 {
            let q = parameter_index(ps, id);
            assert(functions[j].parameters[q].id != id);
        }
        lemma_parameter_absent_among(functions, id, j + 1);
    }
}

/// Where no Function holds a Parameter with identity `id`, none is found.
pub proof fn lemma_parameter_absent(modules: Seq<ModuleView>, id: ParameterId, i: int)
    requires
        forall|k: int, l: int, q: int|
            0 <= k < modules.len() && 0 <= l < modules[k].functions.len() && 0 <= q < modules[k].functions[l].parameters.len()
                ==> #[trigger] modules[k].functions[l].parameters[q].id != id,
    ensures
        parameter_location_from(modules, id, i) is None,
    decreases modules.len() - i,
{
    if 0 <= i < modules.len() {
        let fs = modules[i].functions;
        assert forall|l: int, q: int| 0 <= l < fs.len() && 0 <= q < fs[l].parameters.len() implies #[trigger] fs[l].parameters[q].id
            != id by {
            assert(modules[i].functions[l].parameters[q].id != id);
        }
        lemma_parameter_absent_among(fs, id, 0);
        lemma_parameter_absent(modules, id, i + 1);
    }
}

/// A Parameter appended to Function `n`, whose identity no Parameter held,
/// is the one found among `functions` by that identity.
pub proof fn lemma_appended_parameter_found_among(functions: Seq<FunctionView>, n: int, p: Parameter, j: int)
    requires
        0 <= n < functions.len(),
        0 <= j,
        forall|l: int, q: int| 0 <= l < functions.len() && 0 <= q < functions[l].parameters.len() ==> #[trigger] functions[l].parameters[q].id
            != p.id,
    ensures
        parameter_location_among(
            functions.update(n, FunctionView { parameters: functions[n].parameters.push(p), ..functions[n] }),
            p.id,
            j,
        ) == (if j <= n {
            Some((n, functions[n].parameters.len() as int))
        } else {
            None::<(int, int)>
        }),
    decreases functions.len() - j,
{
    let now = functions.update(n, FunctionView { parameters: functions[n].parameters.push(p), ..functions[n] });
    let with_id = crate::model::parameter_has_id(p.id);
    if j < functions.len() {
        if j == n {
            let ps = now[n].parameters;
            assert forall|q: int| 0 <= q < functions[n].parameters.len() implies !with_id(#[trigger] ps[q]) by {
                assert(ps[q] == functions[n].parameters[q]);
            }
            crate::lookup::lemma_first_index_is(ps, with_id, functions[n].parameters.len() as int);
        } else {
            crate::lookup::lemma_first_index_facts(now[j].parameters, with_id);
            if parameter_index(now[j].parameters, p.id) >= 0 {
                let q = parameter_index(now[j].parameters, p.id);
                assert(now[j].parameters[q] == functions[j].parameters[q]);
            }
            lemma_appended_parameter_found_among(functions, n, p, j + 1);
        }
    }
}

/// A Parameter appended to Function `n` of Module `m`, whose identity no
/// Parameter held, is the one found by that identity.
pub proof fn lemma_appended_parameter_found(modules: Seq<ModuleView>, m: int, n: int, p: Parameter, i: int)
    requires
        0 <= m < modules.len(),
        0 <= n < modules[m].functions.len(),
        0 <= i,
        forall|k: int, l: int, q: int|
            0 <= k < modules.len() && 0 <= l < modules[k].functions.len() && 0 <= q < modules[k].functions[l].parameters.len()
                ==> #[trigger] modules[k].functions[l].parameters[q].id != p.id,
    ensures
        parameter_location_from(
            modules.update(
                m,
                ModuleView {
                    functions: modules[m].functions.update(
                        n,
                        FunctionView { parameters: modules[m].functions[n].parameters.push(p), ..modules[m].functions[n] },
                    ),
                    ..modules[m]
                },
            ),
            p.id,
            i,
        ) == (if i <= m {
            Some((m, n, modules[m].functions[n].parameters.len() as int))
        } else {
            None::<(int, int, int)>
        }),
    decreases modules.len() - i,
{
    let f = modules[m].functions[n];
    let now = modules.update(
        m,
        ModuleView { functions: modules[m].functions.update(n, FunctionView { parameters: f.parameters.push(p), ..f }), ..modules[m] },
    );
    if i < modules.len() {
        let fs = modules[i].functions;
        assert forall|l: int, q: int| 0 <= l < fs.len() && 0 <= q < fs[l].parameters.len() implies #[trigger] fs[l].parameters[q].id
            != p.id by {
            assert(modules[i].functions[l].parameters[q].id != p.id);
        }
        if i == m {
            lemma_appended_parameter_found_among(fs, n, p, 0);
        } else {
            assert(now[i] == modules[i]);
            lemma_parameter_absent_among(fs, p.id, 0);
            lemma_appended_parameter_found(modules, m, n, p, i + 1);
        }
    }
}

/// The first Parameter with identity `id`, in any Function.
pub open spec fn find_parameter(modules: Seq<ModuleView>, id: ParameterId) -> Option<Parameter> {
    match parameter_location(modules, id) {
        Some((i, j, p)) => Some(modules[i].functions[j].parameters[p]),
        None => None,
    }
}

/// The Blocks of a Function: those of its body, or none.
pub open spec fn function_blocks(function: FunctionView) -> Seq<BlockView> {
    match function.body {
        Some(body) => body.blocks,
        None => Seq::empty(),
    }
}

/// Where the first Block with identity `id` stands among `functions`,
/// searching from position `j`: (Function position, Block position).
pub open spec fn block_location_among(functions: Seq<FunctionView>, id: BlockId, j: int) -> Option<
    (int, int),
>
    decreases functions.len() - j,
{
    if 0 <= j < functions.len() {
        let k = block_index(function_blocks(functions[j]), id);
        if k >= 0 {
            Some((j, k))
        } else {
            block_location_among(functions, id, j + 1)
        }
    } else {
        None
    }
}

/// Where the first Block with identity `id` stands, searching Modules from
/// position `i`: (Module, Function, Block positions).
pub open spec fn block_location_from(modules: Seq<ModuleView>, id: BlockId, i: int) -> Option<
    (int, int, int),
>
    decreases modules.len() - i,
{
    if 0 <= i < modules.len() {
        match block_location_among(modules[i].functions, id, 0) {
            Some((j, k)) => Some((i, j, k)),
            None => block_location_from(modules, id, i + 1),
        }
    } else {
        None
    }
}

/// Where the first Block with identity `id` stands.
pub open spec fn block_location(modules: Seq<ModuleView>, id: BlockId) -> Option<(int, int, int)> {
    block_location_from(modules, id, 0)
}

/// The first Block with identity `id`, in any Function body.
pub open spec fn find_block(modules: Seq<ModuleView>, id: BlockId) -> Option<BlockView> {
    match block_location(modules, id) {
        Some((i, j, k)) => Some(function_blocks(modules[i].functions[j])[k]),
        None => None,
    }
}

/// Where the first Expression with identity `id` stands among `blocks`,
/// searching from position `k`: (Block position, Expression position).
pub open spec fn expression_location_among_blocks(blocks: Seq<BlockView>, id: ExpressionId, k: int) -> Option<
    (int, int),
>
    decreases blocks.len() - k,
{
    if 0 <= k < blocks.len() {
        let l = expression_index(blocks[k].expressions, id);
        if l >= 0 {
            Some((k, l))
        } else {
            expression_location_among_blocks(blocks, id, k + 1)
        }
    } else {
        None
    }
}

/// Where the first Expression with identity `id` stands among `functions`,
/// searching from position `j`: (Function, Block, Expression positions).
pub open spec fn expression_location_among(functions: Seq<FunctionView>, id: ExpressionId, j: int) -> Option<
    (int, int, int),
>
    decreases functions.len() - j,
{
    if 0 <= j < functions.len() {
        match expression_location_among_blocks(function_blocks(functions[j]), id, 0) {
            Some((k, l)) => Some((j, k, l)),
            None => expression_location_among(functions, id, j + 1),
        }
    } else {
        None
    }
}

/// Where the first Expression with identity `id` stands, searching Modules
/// from position `i`: (Module, Function, Block, Expression positions).
pub open spec fn expression_location_from(modules: Seq<ModuleView>, id: ExpressionId, i: int) -> Option<
    (int, int, int, int),
>
    decreases modules.len() - i,
{
    if 0 <= i < modules.len() {
        match expression_location_among(modules[i].functions, id, 0) {
            Some((j, k, l)) => Some((i, j, k, l)),
            None => expression_location_from(modules, id, i + 1),
        }
    } else {
        None
    }
}

/// Where the first Expression with identity `id` stands.
pub open spec fn expression_location(modules: Seq<ModuleView>, id: ExpressionId) -> Option<
    (int, int, int, int),
> {
    expression_location_from(modules, id, 0)
}

/// The first Expression with identity `id`, in any Block.
pub open spec fn find_expression(modules: Seq<ModuleView>, id: ExpressionId) -> Option<ExpressionView> {
    match expression_location(modules, id) {
        Some((i, j, k, l)) => Some(function_blocks(modules[i].functions[j])[k].expressions[l]),
        None => None,
    }
}

/// Finds where the first Function with identity `id` stands.
pub(crate) fn locate_function(modules: &Vec<Module>, id: FunctionId) -> (r: Option<(usize, usize)>)
    ensures
        match r {
            Some((i, j)) => function_location(module_views(modules@), id) == Some(
                (i as int, j as int),
            ) && i < modules@.len() && j < modules@[i as int].functions@.len(),
            None => function_location(module_views(modules@), id) is None,
        },
{
    let ghost views = module_views(modules@);
    let mut i: usize = 0;
    while i < modules.len()
        invariant
            i <= modules@.len(),
            views == module_views(modules@),
            function_location(views, id) == function_location_from(views, id, i as int),
        decreases modules.len() - i,
    {
        assert(views[i as int].functions == function_views(modules@[i as int].functions@));
        match position_of_function(&modules[i].functions, id) {
            Some(j) => {
                return Some((i, j));
            },
            None => {},
        }
        i = i + 1;
    }
    None
}

/// Finds where the first Domain Type with identity `id` stands.
pub(crate) fn locate_domain_type(modules: &Vec<Module>, id: TypeId) -> (r: Option<(usize, usize)>)
    ensures
        match r {
            Some((i, t)) => domain_type_location(module_views(modules@), id) == Some(
                (i as int, t as int),
            ) && i < modules@.len() && t < modules@[i as int].domain_types@.len(),
            None => domain_type_location(module_views(modules@), id) is None,
        },
{
    let ghost views = module_views(modules@);
    let mut i: usize = 0;
    while i < modules.len()
        invariant
            i <= modules@.len(),
            views == module_views(modules@),
            domain_type_location(views, id) == domain_type_location_from(views, id, i as int),
        decreases modules.len() - i,
    {
        match position_of_domain_type(&modules[i].domain_types, id) {
            Some(t) => {
                return Some((i, t));
            },
            None => {},
        }
        i = i + 1;
    }
    None
}

/// Finds where the first Parameter with identity `id` stands among
/// `functions`.
fn locate_parameter_among(functions: &Vec<Function>, id: ParameterId) -> (r: Option<(usize, usize)>)
    ensures
        match r {
            Some((j, p)) => parameter_location_among(function_views(functions@), id, 0) == Some(
                (j as int, p as int),
            ) && j < functions@.len() && p < functions@[j as int].parameters@.len(),
            None => parameter_location_among(function_views(functions@), id, 0) is None,
        },
{
    let ghost views = function_views(functions@);
    let mut j: usize = 0;
    while j < functions.len()
        invariant
            j <= functions@.len(),
            views == function_views(functions@),
            parameter_location_among(views, id, 0) == parameter_location_among(views, id, j as int),
        decreases functions.len() - j,
    {
        match position_of_parameter(&functions[j].parameters, id) {
            Some(p) => {
                return Some((j, p));
            },
            None => {},
        }
        j = j + 1;
    }
    None
}

/// Finds where the first Parameter with identity `id` stands.
pub(crate) fn locate_parameter(modules: &Vec<Module>, id: ParameterId) -> (r: Option<
    (usize, usize, usize),
>)
    ensures
        match r {
            Some((i, j, p)) => parameter_location(module_views(modules@), id) == Some(
                (i as int, j as int, p as int),
            ) && i < modules@.len() && j < modules@[i as int].functions@.len() && p
                < modules@[i as int].functions@[j as int].parameters@.len(),
            None => parameter_location(module_views(modules@), id) is None,
        },
{
    let ghost views = module_views(modules@);
    let mut i: usize = 0;
    while i < modules.len()
        invariant
            i <= modules@.len(),
            views == module_views(modules@),
            parameter_location(views, id) == parameter_location_from(views, id, i as int),
        decreases modules.len() - i,
    {
        match locate_parameter_among(&modules[i].functions, id) {
            Some((j, p)) => {
                return Some((i, j, p));
            },
            None => {},
        }
        i = i + 1;
    }
    None
}

/// Finds where the first Block with identity `id` stands among `functions`.
fn locate_block_among(functions: &Vec<Function>, id: BlockId) -> (r: Option<(usize, usize)>)
    ensures
        match r {
            Some((j, k)) => block_location_among(function_views(functions@), id, 0) == Some(
                (j as int, k as int),
            ) && j < functions@.len() && functions@[j as int].body is Some && k
                < functions@[j as int].body->0.blocks@.len(),
            None => block_location_among(function_views(functions@), id, 0) is None,
        },
{
    let ghost views = function_views(functions@);
    let mut j: usize = 0;
    while j < functions.len()
        invariant
            j <= functions@.len(),
            views == function_views(functions@),
            block_location_among(views, id, 0) == block_location_among(views, id, j as int),
        decreases functions.len() - j,
    {
        match &functions[j].body {
            Some(body) => {
                match position_of_block(&body.blocks, id) {
                    Some(k) => {
                        return Some((j, k));
                    },
                    None => {},
                }
            },
            None => {
                assert(function_blocks(views[j as int]) =~= Seq::<BlockView>::empty());
            },
        }
        j = j + 1;
    }
    None
}

/// Finds where the first Block with identity `id` stands.
pub(crate) fn locate_block(modules: &Vec<Module>, id: BlockId) -> (r: Option<(usize, usize, usize)>)
    ensures
        match r {
            Some((i, j, k)) => block_location(module_views(modules@), id) == Some(
                (i as int, j as int, k as int),
            ) && i < modules@.len() && j < modules@[i as int].functions@.len()
                && modules@[i as int].functions@[j as int].body is Some && k
                < modules@[i as int].functions@[j as int].body->0.blocks@.len(),
            None => block_location(module_views(modules@), id) is None,
        },
{
    let ghost views = module_views(modules@);
    let mut i: usize = 0;
    while i < modules.len()
        invariant
            i <= modules@.len(),
            views == module_views(modules@),
            block_location(views, id) == block_location_from(views, id, i as int),
        decreases modules.len() - i,
    {
        match locate_block_among(&modules[i].functions, id) {
            Some((j, k)) => {
                return Some((i, j, k));
            },
            None => {},
        }
        i = i + 1;
    }
    None
}

/// Finds where the first Expression with identity `id` stands among
/// `blocks`.
fn locate_expression_among_blocks(blocks: &Vec<Block>, id: ExpressionId) -> (r: Option<
    (usize, usize),
>)
    ensures
        match r {
            Some((k, l)) => expression_location_among_blocks(block_views(blocks@), id, 0) == Some(
                (k as int, l as int),
            ) && k < blocks@.len() && l < blocks@[k as int].expressions@.len(),
            None => expression_location_among_blocks(block_views(blocks@), id, 0) is None,
        },
{
    let ghost views = block_views(blocks@);
    let mut k: usize = 0;
    while k < blocks.len()
        invariant
            k <= blocks@.len(),
            views == block_views(blocks@),
            expression_location_among_blocks(views, id, 0) == expression_location_among_blocks(
                views,
                id,
                k as int,
            ),
        decreases blocks.len() - k,
    {
        match position_of_expression(&blocks[k].expressions, id) {
            Some(l) => {
                return Some((k, l));
            },
            None => {},
        }
        k = k + 1;
    }
    None
}

/// Finds where the first Expression with identity `id` stands among
/// `functions`.
fn locate_expression_among(functions: &Vec<Function>, id: ExpressionId) -> (r: Option<
    (usize, usize, usize),
>)
    ensures
        match r {
            Some((j, k, l)) => expression_location_among(function_views(functions@), id, 0)
                == Some((j as int, k as int, l as int)) && j < functions@.len()
                && functions@[j as int].body is Some && k
                < functions@[j as int].body->0.blocks@.len() && l
                < functions@[j as int].body->0.blocks@[k as int].expressions@.len(),
            None => expression_location_among(function_views(functions@), id, 0) is None,
        },
{
    let ghost views = function_views(functions@);
    let mut j: usize = 0;
    while j < functions.len()
        invariant
            j <= functions@.len(),
            views == function_views(functions@),
            expression_location_among(views, id, 0) == expression_location_among(
                views,
                id,
                j as int,
            ),
        decreases functions.len() - j,
    {
        match &functions[j].body {
            Some(body) => {
                match locate_expression_among_blocks(&body.blocks, id) {
                    Some((k, l)) => {
                        return Some((j, k, l));
                    },
                    None => {},
                }
            },
            None => {
                assert(function_blocks(views[j as int]) =~= Seq::<BlockView>::empty());
            },
        }
        j = j + 1;
    }
    None
}

/// Finds where the first Expression with identity `id` stands.
pub(crate) fn locate_expression(modules: &Vec<Module>, id: ExpressionId) -> (r: Option<
    (usize, usize, usize, usize),
>)
    ensures
        match r {
            Some((i, j, k, l)) => expression_location(module_views(modules@), id) == Some(
                (i as int, j as int, k as int, l as int),
            ) && i < modules@.len() && j < modules@[i as int].functions@.len()
                && modules@[i as int].functions@[j as int].body is Some && k
                < modules@[i as int].functions@[j as int].body->0.blocks@.len() && l
                < modules@[i as int].functions@[j as int].body->0.blocks@[k as int].expressions@.len(),
            None => expression_location(module_views(modules@), id) is None,
        },
{
    let ghost views = module_views(modules@);
    let mut i: usize = 0;
    while i < modules.len()
        invariant
            i <= modules@.len(),
            views == module_views(modules@),
            expression_location(views, id) == expression_location_from(views, id, i as int),
        decreases modules.len() - i,
    {
        match locate_expression_among(&modules[i].functions, id) {
            Some((j, k, l)) => {
                return Some((i, j, k, l));
            },
            None => {},
        }
        i = i + 1;
    }
    None
}

/// Looks up the first Module with identity `id`.
pub(crate) fn lookup_module(modules: &Vec<Module>, id: ModuleId) -> (r: Option<&Module>)
    ensures
        match r {
            Some(m) => find_module_in(module_views(modules@), id) == Some(m@),
            None => find_module_in(module_views(modules@), id) is None,
        },
{
    match position_of_module(modules, id) {
        Some(i) => Some(&modules[i]),
        None => None,
    }
}

/// Looks up the first Function with identity `id`, in any Module.
pub(crate) fn lookup_function(modules: &Vec<Module>, id: FunctionId) -> (r: Option<&Function>)
    ensures
        match r {
            Some(f) => find_function(module_views(modules@), id) == Some(f@),
            None => find_function(module_views(modules@), id) is None,
        },
{
    match locate_function(modules, id) {
        Some((i, j)) => Some(&modules[i].functions[j]),
        None => None,
    }
}

/// Looks up the first Domain Type with identity `id`, in any Module.
pub(crate) fn lookup_domain_type(modules: &Vec<Module>, id: TypeId) -> (r: Option<&DomainType>)
    ensures
        match r {
            Some(t) => find_domain_type(module_views(modules@), id) == Some(*t),
            None => find_domain_type(module_views(modules@), id) is None,
        },
{
    match locate_domain_type(modules, id) {
        Some((i, t)) => Some(&modules[i].domain_types[t]),
        None => None,
    }
}

/// Looks up the first Parameter with identity `id`, in any Function.
pub(crate) fn lookup_parameter(modules: &Vec<Module>, id: ParameterId) -> (r: Option<&Parameter>)
    ensures
        match r {
            Some(p) => find_parameter(module_views(modules@), id) == Some(*p),
            None => find_parameter(module_views(modules@), id) is None,
        },
{
    match locate_parameter(modules, id) {
        Some((i, j, p)) => Some(&modules[i].functions[j].parameters[p]),
        None => None,
    }
}

/// Looks up the first Block with identity `id`, in any Function body.
pub(crate) fn lookup_block(modules: &Vec<Module>, id: BlockId) -> (r: Option<&Block>)
    ensures
        match r {
            Some(b) => find_block(module_views(modules@), id) == Some(b@),
            None => find_block(module_views(modules@), id) is None,
        },
{
    match locate_block(modules, id) {
        Some((i, j, k)) => match &modules[i].functions[j].body {
            Some(body) => Some(&body.blocks[k]),
            None => None,
        },
        None => None,
    }
}

/// Looks up the first Expression with identity `id`, in any Block.
pub(crate) fn lookup_expression(modules: &Vec<Module>, id: ExpressionId) -> (r: Option<&Expression>)
    ensures
        match r {
            Some(e) => find_expression(module_views(modules@), id) == Some(e@),
            None => find_expression(module_views(modules@), id) is None,
        },
{
    match locate_expression(modules, id) {
        Some((i, j, k, l)) => match &modules[i].functions[j].body {
            Some(body) => Some(&body.blocks[k].expressions[l]),
            None => None,
        },
        None => None,
    }
}

} // verus!
