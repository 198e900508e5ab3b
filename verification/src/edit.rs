//! In-place edits of a set of Modules at a known position, and the values
//! they produce.
use vstd::prelude::*;

use crate::body::{
    block_views, expression_views, Block, BlockView, BodyView, Expression, ExpressionView,
    FunctionBody, Terminator,
};
use crate::ids::ExpressionId;
use crate::intrinsic::{IntrinsicType, ValueType};
use crate::model::{
    function_views, module_views, DomainType, Function, FunctionView, Module, ModuleView,
    Parameter,
};
use crate::presentation::PresentationMetadata;

verus! {

/// `modules` with Function `j` of Module `i` replaced by `f`.
pub open spec fn with_function(modules: Seq<ModuleView>, i: int, j: int, f: FunctionView) -> Seq<ModuleView> {
    modules.update(i, ModuleView { functions: modules[i].functions.update(j, f), ..modules[i] })
}

/// `modules` with Domain Type `t` of Module `i` replaced by `d`.
pub open spec fn with_domain_type(modules: Seq<ModuleView>, i: int, t: int, d: DomainType) -> Seq<ModuleView> {
    modules.update(i, ModuleView { domain_types: modules[i].domain_types.update(t, d), ..modules[i] })
}

/// `modules` with Parameter `p` of Function `j` of Module `i` replaced by
/// `parameter`.
pub open spec fn with_parameter(
    modules: Seq<ModuleView>,
    i: int,
    j: int,
    p: int,
    parameter: Parameter,
) -> Seq<ModuleView> {
    let f = modules[i].functions[j];
    with_function(modules, i, j, FunctionView { parameters: f.parameters.update(p, parameter), ..f })
}

/// The body of a Function with its Blocks replaced by `blocks`.
pub open spec fn with_blocks(f: FunctionView, blocks: Seq<BlockView>) -> FunctionView {
    FunctionView { body: Some(BodyView { blocks, ..f.body->0 }), ..f }
}

/// `modules` with Block `k` of the body of Function `j` of Module `i`
/// replaced by `b`.
pub open spec fn with_block(modules: Seq<ModuleView>, i: int, j: int, k: int, b: BlockView) -> Seq<ModuleView> {
    let f = modules[i].functions[j];
    with_function(modules, i, j, with_blocks(f, f.body->0.blocks.update(k, b)))
}

/// A Module position of `modules`.
pub open spec fn module_at(modules: Seq<Module>, i: int) -> bool {
    0 <= i < modules.len()
}

/// A Function position of `modules`.
pub open spec fn function_at(modules: Seq<Module>, i: int, j: int) -> bool {
    module_at(modules, i) && 0 <= j < modules[i].functions@.len()
}

/// A Block position of `modules`.
pub open spec fn block_at(modules: Seq<Module>, i: int, j: int, k: int) -> bool {
    function_at(modules, i, j) && modules[i].functions@[j].body is Some && 0 <= k
        < modules[i].functions@[j].body->0.blocks@.len()
}

pub(crate) fn set_module_presentation(modules: &mut Vec<Module>, i: usize, presentation: PresentationMetadata)
    requires
        module_at(old(modules)@, i as int),
    ensures
        module_views(final(modules)@) == module_views(old(modules)@).update(
            i as int,
            ModuleView { presentation, ..old(modules)@[i as int]@ },
        ),
{
    modules[i].presentation = presentation;
    assert(module_views(modules@) =~= module_views(old(modules)@).update(
        i as int,
        ModuleView { presentation, ..old(modules)@[i as int]@ },
    ));
}

pub(crate) fn remove_module_at(modules: &mut Vec<Module>, i: usize)
    requires
        module_at(old(modules)@, i as int),
    ensures
        module_views(final(modules)@) == module_views(old(modules)@).remove(i as int),
{
    modules.remove(i);
    assert(module_views(modules@) =~= module_views(old(modules)@).remove(i as int));
}

pub(crate) fn push_module(modules: &mut Vec<Module>, module: Module)
    ensures
        module_views(final(modules)@) == module_views(old(modules)@).push(module@),
{
    modules.push(module);
    assert(module_views(modules@) =~= module_views(old(modules)@).push(module@));
}

pub(crate) fn push_domain_type(modules: &mut Vec<Module>, i: usize, d: DomainType)
    requires
        module_at(old(modules)@, i as int),
    ensures
        module_views(final(modules)@) == module_views(old(modules)@).update(
            i as int,
            ModuleView { domain_types: old(modules)@[i as int].domain_types@.push(d), ..old(modules)@[i as int]@ },
        ),
{
    modules[i].domain_types.push(d);
    assert(module_views(modules@) =~= module_views(old(modules)@).update(
        i as int,
        ModuleView { domain_types: old(modules)@[i as int].domain_types@.push(d), ..old(modules)@[i as int]@ },
    ));
}

pub(crate) fn remove_domain_type_at(modules: &mut Vec<Module>, i: usize, t: usize)
    requires
        module_at(old(modules)@, i as int),
        t < old(modules)@[i as int].domain_types@.len(),
    ensures
        module_views(final(modules)@) == module_views(old(modules)@).update(
            i as int,
            ModuleView { domain_types: old(modules)@[i as int].domain_types@.remove(t as int), ..old(modules)@[i as int]@ },
        ),
{
    modules[i].domain_types.remove(t);
    assert(module_views(modules@) =~= module_views(old(modules)@).update(
        i as int,
        ModuleView { domain_types: old(modules)@[i as int].domain_types@.remove(t as int), ..old(modules)@[i as int]@ },
    ));
}

pub(crate) fn set_domain_type_representation(modules: &mut Vec<Module>, i: usize, t: usize, representation: IntrinsicType)
    requires
        module_at(old(modules)@, i as int),
        t < old(modules)@[i as int].domain_types@.len(),
    ensures
        module_views(final(modules)@) == with_domain_type(
            module_views(old(modules)@),
            i as int,
            t as int,
            DomainType { representation, ..old(modules)@[i as int].domain_types@[t as int] },
        ),
{
    modules[i].domain_types[t].representation = representation;
    let ghost d = DomainType { representation, ..old(modules)@[i as int].domain_types@[t as int] };
    assert(modules@[i as int].domain_types@ =~= old(modules)@[i as int].domain_types@.update(t as int, d));
    assert(module_views(modules@) =~= with_domain_type(module_views(old(modules)@), i as int, t as int, d));
}

pub(crate) fn set_domain_type_presentation(modules: &mut Vec<Module>, i: usize, t: usize, presentation: PresentationMetadata)
    requires
        module_at(old(modules)@, i as int),
        t < old(modules)@[i as int].domain_types@.len(),
    ensures
        module_views(final(modules)@) == with_domain_type(
            module_views(old(modules)@),
            i as int,
            t as int,
            DomainType { presentation, ..old(modules)@[i as int].domain_types@[t as int] },
        ),
{
    modules[i].domain_types[t].presentation = presentation;
    let ghost d = DomainType { presentation, ..old(modules)@[i as int].domain_types@[t as int] };
    assert(modules@[i as int].domain_types@ =~= old(modules)@[i as int].domain_types@.update(t as int, d));
    assert(module_views(modules@) =~= with_domain_type(module_views(old(modules)@), i as int, t as int, d));
}

pub(crate) fn push_function(modules: &mut Vec<Module>, i: usize, f: Function)
    requires
        module_at(old(modules)@, i as int),
    ensures
        module_views(final(modules)@) == module_views(old(modules)@).update(
            i as int,
            ModuleView { functions: module_views(old(modules)@)[i as int].functions.push(f@), ..old(modules)@[i as int]@ },
        ),
{
    modules[i].functions.push(f);
    let ghost fs = module_views(old(modules)@)[i as int].functions.push(f@);
    assert(function_views(modules@[i as int].functions@) =~= fs);
    assert(module_views(modules@) =~= module_views(old(modules)@).update(
        i as int,
        ModuleView { functions: fs, ..old(modules)@[i as int]@ },
    ));
}

pub(crate) fn remove_function_at(modules: &mut Vec<Module>, i: usize, j: usize)
    requires
        function_at(old(modules)@, i as int, j as int),
    ensures
        module_views(final(modules)@) == module_views(old(modules)@).update(
            i as int,
            ModuleView { functions: module_views(old(modules)@)[i as int].functions.remove(j as int), ..old(modules)@[i as int]@ },
        ),
{
    modules[i].functions.remove(j);
    let ghost fs = module_views(old(modules)@)[i as int].functions.remove(j as int);
    assert(function_views(modules@[i as int].functions@) =~= fs);
    assert(module_views(modules@) =~= module_views(old(modules)@).update(
        i as int,
        ModuleView { functions: fs, ..old(modules)@[i as int]@ },
    ));
}

pub(crate) fn set_function_return_type(modules: &mut Vec<Module>, i: usize, j: usize, return_type: ValueType)
    requires
        function_at(old(modules)@, i as int, j as int),
    ensures
        module_views(final(modules)@) == with_function(
            module_views(old(modules)@),
            i as int,
            j as int,
            FunctionView { return_type, ..old(modules)@[i as int].functions@[j as int]@ },
        ),
{
    modules[i].functions[j].return_type = return_type;
    let ghost fv = FunctionView { return_type, ..old(modules)@[i as int].functions@[j as int]@ };
    assert(modules@[i as int].functions@[j as int]@ == fv);
    assert(function_views(modules@[i as int].functions@) =~= function_views(old(modules)@[i as int].functions@).update(j as int, fv));
    assert(module_views(modules@) =~= with_function(module_views(old(modules)@), i as int, j as int, fv));
}

pub(crate) fn set_function_presentation(modules: &mut Vec<Module>, i: usize, j: usize, presentation: PresentationMetadata)
    requires
        function_at(old(modules)@, i as int, j as int),
    ensures
        module_views(final(modules)@) == with_function(
            module_views(old(modules)@),
            i as int,
            j as int,
            FunctionView { presentation, ..old(modules)@[i as int].functions@[j as int]@ },
        ),
{
    modules[i].functions[j].presentation = presentation;
    let ghost fv = FunctionView { presentation, ..old(modules)@[i as int].functions@[j as int]@ };
    assert(modules@[i as int].functions@[j as int]@ == fv);
    assert(function_views(modules@[i as int].functions@) =~= function_views(old(modules)@[i as int].functions@).update(j as int, fv));
    assert(module_views(modules@) =~= with_function(module_views(old(modules)@), i as int, j as int, fv));
}

pub(crate) fn set_function_body(modules: &mut Vec<Module>, i: usize, j: usize, body: Option<FunctionBody>)
    requires
        function_at(old(modules)@, i as int, j as int),
    ensures
        module_views(final(modules)@) == with_function(
            module_views(old(modules)@),
            i as int,
            j as int,
            FunctionView { body: crate::body::body_view(body), ..old(modules)@[i as int].functions@[j as int]@ },
        ),
{
    let ghost fv = FunctionView { body: crate::body::body_view(body), ..old(modules)@[i as int].functions@[j as int]@ };
    modules[i].functions[j].body = body;
    assert(modules@[i as int].functions@[j as int]@ == fv);
    assert(function_views(modules@[i as int].functions@) =~= function_views(old(modules)@[i as int].functions@).update(j as int, fv));
    assert(module_views(modules@) =~= with_function(module_views(old(modules)@), i as int, j as int, fv));
}

pub(crate) fn push_parameter(modules: &mut Vec<Module>, i: usize, j: usize, parameter: Parameter)
    requires
        function_at(old(modules)@, i as int, j as int),
    ensures
        module_views(final(modules)@) == with_function(
            module_views(old(modules)@),
            i as int,
            j as int,
            FunctionView {
                parameters: old(modules)@[i as int].functions@[j as int].parameters@.push(parameter),
                ..old(modules)@[i as int].functions@[j as int]@
            },
        ),
{
    let ghost fv = FunctionView {
        parameters: old(modules)@[i as int].functions@[j as int].parameters@.push(parameter),
        ..old(modules)@[i as int].functions@[j as int]@
    };
    modules[i].functions[j].parameters.push(parameter);
    assert(modules@[i as int].functions@[j as int]@ == fv);
    assert(function_views(modules@[i as int].functions@) =~= function_views(old(modules)@[i as int].functions@).update(j as int, fv));
    assert(module_views(modules@) =~= with_function(module_views(old(modules)@), i as int, j as int, fv));
}

pub(crate) fn remove_parameter_at(modules: &mut Vec<Module>, i: usize, j: usize, p: usize)
    requires
        function_at(old(modules)@, i as int, j as int),
        p < old(modules)@[i as int].functions@[j as int].parameters@.len(),
    ensures
        module_views(final(modules)@) == with_function(
            module_views(old(modules)@),
            i as int,
            j as int,
            FunctionView {
                parameters: old(modules)@[i as int].functions@[j as int].parameters@.remove(p as int),
                ..old(modules)@[i as int].functions@[j as int]@
            },
        ),
{
    let ghost fv = FunctionView {
        parameters: old(modules)@[i as int].functions@[j as int].parameters@.remove(p as int),
        ..old(modules)@[i as int].functions@[j as int]@
    };
    modules[i].functions[j].parameters.remove(p);
    assert(modules@[i as int].functions@[j as int]@ == fv);
    assert(function_views(modules@[i as int].functions@) =~= function_views(old(modules)@[i as int].functions@).update(j as int, fv));
    assert(module_views(modules@) =~= with_function(module_views(old(modules)@), i as int, j as int, fv));
}

pub(crate) fn set_parameter_type(modules: &mut Vec<Module>, i: usize, j: usize, p: usize, value_type: ValueType)
    requires
        function_at(old(modules)@, i as int, j as int),
        p < old(modules)@[i as int].functions@[j as int].parameters@.len(),
    ensures
        module_views(final(modules)@) == with_parameter(
            module_views(old(modules)@),
            i as int,
            j as int,
            p as int,
            Parameter { value_type, ..old(modules)@[i as int].functions@[j as int].parameters@[p as int] },
        ),
{
    let ghost param = Parameter { value_type, ..old(modules)@[i as int].functions@[j as int].parameters@[p as int] };
    modules[i].functions[j].parameters[p].value_type = value_type;
    let ghost f = module_views(old(modules)@)[i as int].functions[j as int];
    let ghost fv = FunctionView { parameters: f.parameters.update(p as int, param), ..f };
    assert(modules@[i as int].functions@[j as int].parameters@ =~= f.parameters.update(p as int, param));
    assert(modules@[i as int].functions@[j as int]@ == fv);
    assert(function_views(modules@[i as int].functions@) =~= function_views(old(modules)@[i as int].functions@).update(j as int, fv));
    assert(module_views(modules@) =~= with_parameter(module_views(old(modules)@), i as int, j as int, p as int, param));
}

pub(crate) fn set_parameter_presentation(modules: &mut Vec<Module>, i: usize, j: usize, p: usize, presentation: PresentationMetadata)
    requires
        function_at(old(modules)@, i as int, j as int),
        p < old(modules)@[i as int].functions@[j as int].parameters@.len(),
    ensures
        module_views(final(modules)@) == with_parameter(
            module_views(old(modules)@),
            i as int,
            j as int,
            p as int,
            Parameter { presentation, ..old(modules)@[i as int].functions@[j as int].parameters@[p as int] },
        ),
{
    let ghost param = Parameter { presentation, ..old(modules)@[i as int].functions@[j as int].parameters@[p as int] };
    modules[i].functions[j].parameters[p].presentation = presentation;
    let ghost f = module_views(old(modules)@)[i as int].functions[j as int];
    let ghost fv = FunctionView { parameters: f.parameters.update(p as int, param), ..f };
    assert(modules@[i as int].functions@[j as int].parameters@ =~= f.parameters.update(p as int, param));
    assert(modules@[i as int].functions@[j as int]@ == fv);
    assert(function_views(modules@[i as int].functions@) =~= function_views(old(modules)@[i as int].functions@).update(j as int, fv));
    assert(module_views(modules@) =~= with_parameter(module_views(old(modules)@), i as int, j as int, p as int, param));
}

pub(crate) fn push_block(modules: &mut Vec<Module>, i: usize, j: usize, block: Block)
    requires
        function_at(old(modules)@, i as int, j as int),
        old(modules)@[i as int].functions@[j as int].body is Some,
    ensures
        module_views(final(modules)@) == with_function(
            module_views(old(modules)@),
            i as int,
            j as int,
            with_blocks(
                module_views(old(modules)@)[i as int].functions[j as int],
                module_views(old(modules)@)[i as int].functions[j as int].body->0.blocks.push(block@),
            ),
        ),
{
    let ghost f = module_views(old(modules)@)[i as int].functions[j as int];
    let ghost fv = with_blocks(f, f.body->0.blocks.push(block@));
    match &mut modules[i].functions[j].body {
        Some(body) => {
            body.blocks.push(block);
        },
        None => {},
    }
    assert(block_views(modules@[i as int].functions@[j as int].body->0.blocks@) =~= f.body->0.blocks.push(block@));
    assert(modules@[i as int].functions@[j as int]@ == fv);
    assert(function_views(modules@[i as int].functions@) =~= function_views(old(modules)@[i as int].functions@).update(j as int, fv));
    assert(module_views(modules@) =~= with_function(module_views(old(modules)@), i as int, j as int, fv));
}

pub(crate) fn remove_block_at(modules: &mut Vec<Module>, i: usize, j: usize, k: usize)
    requires
        block_at(old(modules)@, i as int, j as int, k as int),
    ensures
        module_views(final(modules)@) == with_function(
            module_views(old(modules)@),
            i as int,
            j as int,
            with_blocks(
                module_views(old(modules)@)[i as int].functions[j as int],
                module_views(old(modules)@)[i as int].functions[j as int].body->0.blocks.remove(k as int),
            ),
        ),
{
    let ghost f = module_views(old(modules)@)[i as int].functions[j as int];
    let ghost fv = with_blocks(f, f.body->0.blocks.remove(k as int));
    match &mut modules[i].functions[j].body {
        Some(body) => {
            body.blocks.remove(k);
        },
        None => {},
    }
    assert(block_views(modules@[i as int].functions@[j as int].body->0.blocks@) =~= f.body->0.blocks.remove(k as int));
    assert(modules@[i as int].functions@[j as int]@ == fv);
    assert(function_views(modules@[i as int].functions@) =~= function_views(old(modules)@[i as int].functions@).update(j as int, fv));
    assert(module_views(modules@) =~= with_function(module_views(old(modules)@), i as int, j as int, fv));
}

/// A Block with an Expression added.
pub open spec fn block_with_expression(b: BlockView, e: ExpressionView) -> BlockView {
    BlockView { expressions: b.expressions.push(e), ..b }
}

pub(crate) fn push_expression(modules: &mut Vec<Module>, i: usize, j: usize, k: usize, expression: Expression)
    requires
        block_at(old(modules)@, i as int, j as int, k as int),
    ensures
        module_views(final(modules)@) == with_block(
            module_views(old(modules)@),
            i as int,
            j as int,
            k as int,
            block_with_expression(
                module_views(old(modules)@)[i as int].functions[j as int].body->0.blocks[k as int],
                expression@,
            ),
        ),
{
    let ghost f = module_views(old(modules)@)[i as int].functions[j as int];
    let ghost b = block_with_expression(f.body->0.blocks[k as int], expression@);
    let ghost fv = with_blocks(f, f.body->0.blocks.update(k as int, b));
    match &mut modules[i].functions[j].body {
        Some(body) => {
            body.blocks[k].expressions.push(expression);
        },
        None => {},
    }
    assert(expression_views(modules@[i as int].functions@[j as int].body->0.blocks@[k as int].expressions@) =~= b.expressions);
    assert(block_views(modules@[i as int].functions@[j as int].body->0.blocks@) =~= f.body->0.blocks.update(k as int, b));
    assert(modules@[i as int].functions@[j as int]@ == fv);
    assert(function_views(modules@[i as int].functions@) =~= function_views(old(modules)@[i as int].functions@).update(j as int, fv));
    assert(module_views(modules@) =~= with_block(module_views(old(modules)@), i as int, j as int, k as int, b));
}

pub(crate) fn set_terminator(modules: &mut Vec<Module>, i: usize, j: usize, k: usize, terminator: Terminator)
    requires
        block_at(old(modules)@, i as int, j as int, k as int),
    ensures
        module_views(final(modules)@) == with_block(
            module_views(old(modules)@),
            i as int,
            j as int,
            k as int,
            BlockView {
                terminator: Some(terminator),
                ..module_views(old(modules)@)[i as int].functions[j as int].body->0.blocks[k as int]
            },
        ),
{
    let ghost f = module_views(old(modules)@)[i as int].functions[j as int];
    let ghost b = BlockView { terminator: Some(terminator), ..f.body->0.blocks[k as int] };
    let ghost fv = with_blocks(f, f.body->0.blocks.update(k as int, b));
    match &mut modules[i].functions[j].body {
        Some(body) => {
            body.blocks[k].terminator = Some(terminator);
        },
        None => {},
    }
    assert(block_views(modules@[i as int].functions@[j as int].body->0.blocks@) =~= f.body->0.blocks.update(k as int, b));
    assert(modules@[i as int].functions@[j as int]@ == fv);
    assert(function_views(modules@[i as int].functions@) =~= function_views(old(modules)@[i as int].functions@).update(j as int, fv));
    assert(module_views(modules@) =~= with_block(module_views(old(modules)@), i as int, j as int, k as int, b));
}

pub(crate) fn set_effect_sequence(modules: &mut Vec<Module>, i: usize, j: usize, k: usize, effects: Vec<ExpressionId>)
    requires
        block_at(old(modules)@, i as int, j as int, k as int),
    ensures
        module_views(final(modules)@) == with_block(
            module_views(old(modules)@),
            i as int,
            j as int,
            k as int,
            BlockView {
                effect_sequence: effects@,
                ..module_views(old(modules)@)[i as int].functions[j as int].body->0.blocks[k as int]
            },
        ),
{
    let ghost f = module_views(old(modules)@)[i as int].functions[j as int];
    let ghost b = BlockView { effect_sequence: effects@, ..f.body->0.blocks[k as int] };
    let ghost fv = with_blocks(f, f.body->0.blocks.update(k as int, b));
    match &mut modules[i].functions[j].body {
        Some(body) => {
            body.blocks[k].effect_sequence = effects;
        },
        None => {},
    }
    assert(block_views(modules@[i as int].functions@[j as int].body->0.blocks@) =~= f.body->0.blocks.update(k as int, b));
    assert(modules@[i as int].functions@[j as int]@ == fv);
    assert(function_views(modules@[i as int].functions@) =~= function_views(old(modules)@[i as int].functions@).update(j as int, fv));
    assert(module_views(modules@) =~= with_block(module_views(old(modules)@), i as int, j as int, k as int, b));
}

} // verus!
