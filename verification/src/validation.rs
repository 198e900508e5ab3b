//! Structural validity of a Program revision: distinct identities, resolved
//! signatures, and well-formed Function bodies, Blocks, Expressions, effect
//! sequences, terminators, and control flow.
use vstd::prelude::*;

use crate::body::{
    arithmetic_operands, block_index, comparison_operands, dependencies_of, expression_index,
    find_block_in, find_expression_in, position_of_block, position_of_expression, Block,
    BlockView, BodyView, Expression, ExpressionKind, ExpressionView, FunctionBody, KindView,
    Terminator,
};
use crate::error::StructuralError;
use crate::ids::{BlockId, ExpressionId, FunctionId, TypeId};
use crate::intrinsic::ValueType;
use crate::inventory::{
    block_keys, collect_inventory, expression_keys, first_repeat, function_keys, module_keys,
    parameter_keys, repeats_earlier, type_keys, block_key, expression_key, function_key,
    module_key, parameter_key, type_key,
};
use crate::locate::{find_domain_type, find_function, locate_domain_type, locate_function};
use crate::model::{find_parameter_in, module_views, Function, FunctionView, Module, ModuleView};

verus! {

/// The Block owns an Expression with identity `id`.
pub open spec fn contains_expression(block: BlockView, id: ExpressionId) -> bool {
    expression_index(block.expressions, id) >= 0
}

/// The body owns a Block with identity `id`.
pub open spec fn contains_block(body: BodyView, id: BlockId) -> bool {
    block_index(body.blocks, id) >= 0
}

/// A value type names an intrinsic type or a Domain Type of the Program.
pub open spec fn value_type_resolves(modules: Seq<ModuleView>, value_type: ValueType) -> bool {
    match value_type {
        ValueType::Domain(id) => find_domain_type(modules, id) is Some,
        ValueType::Intrinsic(_) => true,
    }
}

/// Every value type of a Function's signature resolves.
pub open spec fn signature_resolves(modules: Seq<ModuleView>, function: FunctionView) -> bool {
    &&& value_type_resolves(modules, function.return_type)
    &&& forall|p: int|
        0 <= p < function.parameters.len() ==> value_type_resolves(
            modules,
            #[trigger] function.parameters[p].value_type,
        )
}

/// Every Function signature of the Program resolves.
pub open spec fn signatures_resolve(modules: Seq<ModuleView>) -> bool {
    forall|i: int, j: int|
        0 <= i < modules.len() && 0 <= j < modules[i].functions.len() ==> signature_resolves(
            modules,
            #[trigger] modules[i].functions[j],
        )
}

/// A Function signature refers to Domain Type `id`.
pub open spec fn signature_mentions(function: FunctionView, id: TypeId) -> bool {
    ||| function.return_type == ValueType::Domain(id)
    ||| exists|p: int|
        0 <= p < function.parameters.len() && #[trigger] function.parameters[p].value_type
            == ValueType::Domain(id)
}

/// The references an Expression carries resolve: its Parameter within the
/// owning Function, its Call target and Domain Type within the Program, and
/// every operand, argument, and source within the owning Block.
pub open spec fn references_resolve(
    modules: Seq<ModuleView>,
    function: FunctionView,
    block: BlockView,
    expression: ExpressionView,
) -> bool {
    &&& match expression.kind {
        KindView::ParameterReference(p) => find_parameter_in(function.parameters, p) is Some,
        KindView::Call { target, .. } => find_function(modules, target) is Some,
        KindView::DomainConstruct { type_id, .. } => find_domain_type(modules, type_id) is Some,
        _ => true,
    }
    &&& forall|q: int|
        0 <= q < dependencies_of(expression.kind).len() ==> contains_expression(
            block,
            #[trigger] dependencies_of(expression.kind)[q],
        )
}

/// Every dependency of an Expression lies in `settled`.
pub open spec fn depends_only_on(expression: ExpressionView, settled: Set<ExpressionId>) -> bool {
    forall|q: int|
        0 <= q < dependencies_of(expression.kind).len() ==> settled.contains(
            #[trigger] dependencies_of(expression.kind)[q],
        )
}

/// The Expressions whose dependencies can be ordered before them in at most
/// `n` rounds: in each round, those whose dependencies are all settled.
pub open spec fn settled_within(block: BlockView, n: nat) -> Set<ExpressionId>
    decreases n,
{
    if n == 0 {
        Set::empty()
    } else {
        let prev = settled_within(block, (n - 1) as nat);
        prev.union(
            Set::new(
                |id: ExpressionId|
                    exists|l: int|
                        0 <= l < block.expressions.len() && #[trigger] block.expressions[l].id == id
                            && depends_only_on(block.expressions[l], prev),
            ),
        )
    }
}

/// The same-Block dependencies of a Block's Expressions have no cycle.
pub open spec fn dependencies_acyclic(block: BlockView) -> bool {
    forall|l: int|
        0 <= l < block.expressions.len() ==> settled_within(
            block,
            block.expressions.len(),
        ).contains(#[trigger] block.expressions[l].id)
}

/// The Block's Expression with identity `id` is a Call.
pub open spec fn is_call_expression(block: BlockView, id: ExpressionId) -> bool {
    match find_expression_in(block.expressions, id) {
        Some(e) => e.kind is Call,
        None => false,
    }
}

/// Every effect sequence entry is a distinct Call of the Block.
pub open spec fn effect_entries_valid(block: BlockView) -> bool {
    &&& forall|q: int|
        0 <= q < block.effect_sequence.len() ==> contains_expression(
            block,
            #[trigger] block.effect_sequence[q],
        ) && is_call_expression(block, block.effect_sequence[q])
    &&& block.effect_sequence.no_duplicates()
}

/// Every Call of the Block appears in its effect sequence.
pub open spec fn calls_sequenced(block: BlockView) -> bool {
    forall|l: int|
        0 <= l < block.expressions.len() && (#[trigger] block.expressions[l]).kind is Call
            ==> block.effect_sequence.contains(block.expressions[l].id)
}

/// Expression `from` of the Block depends directly on `to`.
pub open spec fn direct_dependency(block: BlockView, from: ExpressionId, to: ExpressionId) -> bool {
    match find_expression_in(block.expressions, from) {
        Some(e) => dependencies_of(e.kind).contains(to),
        None => false,
    }
}

/// The Expressions that `start` depends on through at most `n + 1` steps.
pub open spec fn reach_within(block: BlockView, start: ExpressionId, n: nat) -> Set<ExpressionId>
    decreases n,
{
    if n == 0 {
        Set::new(|t: ExpressionId| direct_dependency(block, start, t))
    } else {
        let prev = reach_within(block, start, (n - 1) as nat);
        prev.union(
            Set::new(
                |t: ExpressionId| exists|y: ExpressionId| prev.contains(y) && direct_dependency(block, y, t),
            ),
        )
    }
}

/// The Expressions that `start` depends on, directly or transitively.
pub open spec fn transitive_dependencies(block: BlockView, start: ExpressionId) -> Set<ExpressionId> {
    reach_within(block, start, block.expressions.len())
}

/// Every Call that another Call depends on comes earlier in the effect
/// sequence.
pub open spec fn effect_order_respected(block: BlockView) -> bool {
    forall|a: int, b: int|
        0 <= a < block.effect_sequence.len() && 0 <= b < block.effect_sequence.len()
            && transitive_dependencies(block, #[trigger] block.effect_sequence[b]).contains(
            #[trigger] block.effect_sequence[a],
        ) ==> a < b
}

/// The effect sequence of a Block is well formed.
pub open spec fn effects_valid(block: BlockView) -> bool {
    &&& effect_entries_valid(block)
    &&& calls_sequenced(block)
    &&& effect_order_respected(block)
}

/// The Block has a terminator whose references resolve within the Block and
/// the body.
pub open spec fn terminator_valid(body: BodyView, block: BlockView) -> bool {
    match block.terminator {
        None => false,
        Some(Terminator::Return { expression }) => contains_expression(block, expression),
        Some(Terminator::Branch { condition, true_block, false_block }) => contains_expression(
            block,
            condition,
        ) && contains_block(body, true_block) && contains_block(body, false_block),
    }
}

/// A Block is well formed.
pub open spec fn block_valid(
    modules: Seq<ModuleView>,
    function: FunctionView,
    body: BodyView,
    block: BlockView,
) -> bool {
    &&& forall|l: int|
        0 <= l < block.expressions.len() ==> references_resolve(
            modules,
            function,
            block,
            #[trigger] block.expressions[l],
        )
    &&& dependencies_acyclic(block)
    &&& effects_valid(block)
    &&& terminator_valid(body, block)
}

/// The Blocks that a Block's terminator transfers control to.
pub open spec fn successors(block: BlockView) -> Seq<BlockId> {
    match block.terminator {
        Some(Terminator::Branch { true_block, false_block, .. }) => seq![true_block, false_block],
        _ => Seq::empty(),
    }
}

/// Control may pass directly from Block `from` to Block `to`.
pub open spec fn successor_of(body: BodyView, from: BlockId, to: BlockId) -> bool {
    match find_block_in(body.blocks, from) {
        Some(b) => successors(b).contains(to),
        None => false,
    }
}

/// The Blocks reachable from the entry in at most `n` transfers.
pub open spec fn reachable_within(body: BodyView, n: nat) -> Set<BlockId>
    decreases n,
{
    if n == 0 {
        set![body.entry_block_id]
    } else {
        let prev = reachable_within(body, (n - 1) as nat);
        prev.union(
            Set::new(|t: BlockId| exists|y: BlockId| prev.contains(y) && successor_of(body, y, t)),
        )
    }
}

/// Every Block is reachable from the entry.
pub open spec fn all_blocks_reachable(body: BodyView) -> bool {
    forall|k: int|
        0 <= k < body.blocks.len() ==> reachable_within(body, body.blocks.len()).contains(
            #[trigger] body.blocks[k].id,
        )
}

/// The Blocks from which control leaves the body in at most `n` rounds: in
/// each round, those whose successors have all finished.
pub open spec fn finished_within(body: BodyView, n: nat) -> Set<BlockId>
    decreases n,
{
    if n == 0 {
        Set::empty()
    } else {
        let prev = finished_within(body, (n - 1) as nat);
        prev.union(
            Set::new(
                |id: BlockId|
                    exists|k: int|
                        0 <= k < body.blocks.len() && #[trigger] body.blocks[k].id == id && forall|
                            s: int,
                        |
                            0 <= s < successors(body.blocks[k]).len() ==> prev.contains(
                                #[trigger] successors(body.blocks[k])[s],
                            ),
                ),
        )
    }
}

/// The control-flow graph of the body has no cycle.
pub open spec fn control_flow_acyclic(body: BodyView) -> bool {
    forall|k: int|
        0 <= k < body.blocks.len() ==> finished_within(body, body.blocks.len()).contains(
            #[trigger] body.blocks[k].id,
        )
}

/// A Function body is well formed.
pub open spec fn body_valid(modules: Seq<ModuleView>, function: FunctionView, body: BodyView) -> bool {
    &&& body.blocks.len() > 0
    &&& contains_block(body, body.entry_block_id)
    &&& forall|k: int|
        0 <= k < body.blocks.len() ==> block_valid(modules, function, body, #[trigger] body.blocks[k])
    &&& all_blocks_reachable(body)
    &&& control_flow_acyclic(body)
}

/// Every Function body of the Program is well formed.
pub open spec fn bodies_valid(modules: Seq<ModuleView>) -> bool {
    forall|i: int, j: int|
        0 <= i < modules.len() && 0 <= j < modules[i].functions.len() ==> match (
        #[trigger] modules[i].functions[j]).body {
            Some(body) => body_valid(modules, modules[i].functions[j], body),
            None => true,
        }
}

/// No identity occurs twice within its category.
pub open spec fn identities_distinct(modules: Seq<ModuleView>) -> bool {
    &&& module_keys(modules).no_duplicates()
    &&& type_keys(modules).no_duplicates()
    &&& function_keys(modules).no_duplicates()
    &&& parameter_keys(modules).no_duplicates()
    &&& block_keys(modules).no_duplicates()
    &&& expression_keys(modules).no_duplicates()
}

/// The Program is structurally valid.
pub open spec fn structurally_valid(modules: Seq<ModuleView>) -> bool {
    &&& identities_distinct(modules)
    &&& signatures_resolve(modules)
    &&& bodies_valid(modules)
}

/// `error` reports a defect of one Expression.
pub open spec fn expression_violation(
    modules: Seq<ModuleView>,
    function: FunctionView,
    block: BlockView,
    expression: ExpressionView,
    error: StructuralError,
) -> bool {
    match error {
        StructuralError::DanglingParameterReference { expression_id, parameter_id, function_id } => {
            &&& expression_id == expression.id
            &&& function_id == function.id
            &&& expression.kind == KindView::ParameterReference(parameter_id)
            &&& find_parameter_in(function.parameters, parameter_id) is None
        },
        StructuralError::ArithmeticOperandNotInBlock { expression_id, operand_id, block_id } => {
            &&& expression_id == expression.id
            &&& block_id == block.id
            &&& arithmetic_operands(expression.kind) matches Some((left, right))
            &&& (operand_id == left || operand_id == right)
            &&& !contains_expression(block, operand_id)
        },
        StructuralError::ComparisonOperandNotInBlock { expression_id, operand_id, block_id } => {
            &&& expression_id == expression.id
            &&& block_id == block.id
            &&& comparison_operands(expression.kind) matches Some((left, right))
            &&& (operand_id == left || operand_id == right)
            &&& !contains_expression(block, operand_id)
        },
        StructuralError::DanglingCallTarget { expression_id, function_id } => {
            &&& expression_id == expression.id
            &&& expression.kind matches KindView::Call { target, .. }
            &&& target == function_id
            &&& find_function(modules, function_id) is None
        },
        StructuralError::CallArgumentNotInBlock { expression_id, argument_id, block_id } => {
            &&& expression_id == expression.id
            &&& block_id == block.id
            &&& expression.kind matches KindView::Call { arguments, .. }
            &&& arguments.contains(argument_id)
            &&& !contains_expression(block, argument_id)
        },
        StructuralError::DanglingDomainConstructTarget { expression_id, type_id } => {
            &&& expression_id == expression.id
            &&& expression.kind matches KindView::DomainConstruct { type_id: target, .. }
            &&& target == type_id
            &&& find_domain_type(modules, type_id) is None
        },
        StructuralError::DomainExpressionSourceNotInBlock { expression_id, source_id, block_id } => {
            &&& expression_id == expression.id
            &&& block_id == block.id
            &&& (expression.kind == KindView::DomainProject { value: source_id } || exists|
                t: TypeId,
            | expression.kind == KindView::DomainConstruct { type_id: t, value: source_id })
            &&& !contains_expression(block, source_id)
        },
        _ => false,
    }
}

/// `error` reports a defect of a Block's effect sequence.
pub open spec fn effect_violation(block: BlockView, error: StructuralError) -> bool {
    match error {
        StructuralError::EffectSequenceEntryNotInBlock { block_id, expression_id } => {
            &&& block_id == block.id
            &&& block.effect_sequence.contains(expression_id)
            &&& !contains_expression(block, expression_id)
        },
        StructuralError::EffectSequenceEntryNotCall { block_id, expression_id } => {
            &&& block_id == block.id
            &&& block.effect_sequence.contains(expression_id)
            &&& contains_expression(block, expression_id)
            &&& !is_call_expression(block, expression_id)
        },
        StructuralError::DuplicateEffectSequenceEntry { block_id, expression_id } => {
            &&& block_id == block.id
            &&& exists|a: int, b: int|
                0 <= a < b < block.effect_sequence.len() && #[trigger] block.effect_sequence[a]
                    == expression_id && #[trigger] block.effect_sequence[b] == expression_id
        },
        StructuralError::CallMissingFromEffectSequence { block_id, expression_id } => {
            &&& block_id == block.id
            &&& exists|l: int|
                0 <= l < block.expressions.len() && #[trigger] block.expressions[l].id
                    == expression_id && block.expressions[l].kind is Call
            &&& !block.effect_sequence.contains(expression_id)
        },
        StructuralError::EffectSequenceOrderConflict { block_id, dependency_id, dependent_id } => {
            &&& block_id == block.id
            &&& exists|a: int, b: int|
                0 <= b <= a < block.effect_sequence.len() && #[trigger] block.effect_sequence[a]
                    == dependency_id && #[trigger] block.effect_sequence[b] == dependent_id
            &&& transitive_dependencies(block, dependent_id).contains(dependency_id)
        },
        _ => false,
    }
}

/// `error` reports a defect of a Block's terminator.
pub open spec fn terminator_violation(body: BodyView, block: BlockView, error: StructuralError) -> bool {
    match error {
        StructuralError::UnterminatedBlock(id) => id == block.id && block.terminator is None,
        StructuralError::ReturnExpressionNotInBlock { block_id, expression_id } => {
            &&& block_id == block.id
            &&& block.terminator == Some(Terminator::Return { expression: expression_id })
            &&& !contains_expression(block, expression_id)
        },
        StructuralError::BranchConditionNotInBlock { block_id, expression_id } => {
            &&& block_id == block.id
            &&& block.terminator matches Some(Terminator::Branch { condition, .. })
            &&& condition == expression_id
            &&& !contains_expression(block, expression_id)
        },
        StructuralError::BranchTargetNotInBody { block_id, target_block_id } => {
            &&& block_id == block.id
            &&& block.terminator matches Some(Terminator::Branch { true_block, false_block, .. })
            &&& (target_block_id == true_block || target_block_id == false_block)
            &&& !contains_block(body, target_block_id)
        },
        _ => false,
    }
}

/// `error` reports a defect of one Block.
pub open spec fn block_violation(
    modules: Seq<ModuleView>,
    function: FunctionView,
    body: BodyView,
    block: BlockView,
    error: StructuralError,
) -> bool {
    ||| exists|l: int|
        0 <= l < block.expressions.len() && expression_violation(
            modules,
            function,
            block,
            #[trigger] block.expressions[l],
            error,
        )
    ||| (error == StructuralError::CyclicExpressionDependency(block.id) && !dependencies_acyclic(
        block,
    ))
    ||| effect_violation(block, error)
    ||| terminator_violation(body, block, error)
}

/// `error` reports a defect of one Function body.
pub open spec fn body_violation(
    modules: Seq<ModuleView>,
    function: FunctionView,
    body: BodyView,
    error: StructuralError,
) -> bool {
    ||| error == StructuralError::FunctionBodyHasNoBlocks(function.id) && body.blocks.len() == 0
    ||| error == (StructuralError::EntryBlockNotInBody {
        function_id: function.id,
        entry_block_id: body.entry_block_id,
    }) && !contains_block(body, body.entry_block_id)
    ||| exists|k: int|
        0 <= k < body.blocks.len() && block_violation(
            modules,
            function,
            body,
            #[trigger] body.blocks[k],
            error,
        )
    ||| blocks_valid(modules, function, body) && body_violation_of_flow(function, body, error)
}

/// A body has Blocks, owns its entry, and each of its Blocks is well
/// formed: only then is its control flow checked.
pub open spec fn blocks_valid(modules: Seq<ModuleView>, function: FunctionView, body: BodyView) -> bool {
    &&& body.blocks.len() > 0
    &&& contains_block(body, body.entry_block_id)
    &&& forall|k: int| 0 <= k < body.blocks.len() ==> block_valid(modules, function, body, #[trigger] body.blocks[k])
}

/// `error` reports a defect of the Program.
pub open spec fn program_violation(modules: Seq<ModuleView>, error: StructuralError) -> bool {
    match error {
        StructuralError::DuplicateModuleIdentity(id) => exists|q: int|
            repeats_earlier(module_keys(modules), q) && #[trigger] module_keys(modules)[q]
                == module_key(id),
        StructuralError::DuplicateTypeIdentity(id) => exists|q: int|
            repeats_earlier(type_keys(modules), q) && #[trigger] type_keys(modules)[q] == type_key(
                id,
            ),
        StructuralError::DuplicateFunctionIdentity(id) => exists|q: int|
            repeats_earlier(function_keys(modules), q) && #[trigger] function_keys(modules)[q]
                == function_key(id),
        StructuralError::DuplicateParameterIdentity(id) => exists|q: int|
            repeats_earlier(parameter_keys(modules), q) && #[trigger] parameter_keys(modules)[q]
                == parameter_key(id),
        StructuralError::DuplicateBlockIdentity(id) => exists|q: int|
            repeats_earlier(block_keys(modules), q) && #[trigger] block_keys(modules)[q]
                == block_key(id),
        StructuralError::DuplicateExpressionIdentity(id) => exists|q: int|
            repeats_earlier(expression_keys(modules), q) && #[trigger] expression_keys(modules)[q]
                == expression_key(id),
        StructuralError::DanglingValueType(id) => {
            &&& find_domain_type(modules, id) is None
            &&& exists|i: int, j: int|
                0 <= i < modules.len() && 0 <= j < modules[i].functions.len() && signature_mentions(
                    #[trigger] modules[i].functions[j],
                    id,
                )
        },
        _ => exists|i: int, j: int|
            0 <= i < modules.len() && 0 <= j < modules[i].functions.len() && (
            #[trigger] modules[i].functions[j]).body is Some && body_violation(
                modules,
                modules[i].functions[j],
                modules[i].functions[j].body->0,
                error,
            ),
    }
}

/// The error for a dependency `dependency` of `expression` that its Block
/// does not own.
fn missing_dependency_error(
    expression: &Expression,
    dependency: ExpressionId,
    block_id: BlockId,
) -> (r: StructuralError)
    requires
        dependencies_of(expression.kind@).contains(dependency),
    ensures
        forall|modules: Seq<ModuleView>, function: FunctionView, block: BlockView|
            block.id == block_id && !contains_expression(block, dependency) ==> expression_violation(
                modules,
                function,
                block,
                expression@,
                r,
            ),
{
    let expression_id = expression.id;
    match &expression.kind {
        ExpressionKind::Call { .. } => StructuralError::CallArgumentNotInBlock {
            expression_id,
            argument_id: dependency,
            block_id,
        },
        ExpressionKind::DomainConstruct { .. } => StructuralError::DomainExpressionSourceNotInBlock {
            expression_id,
            source_id: dependency,
            block_id,
        },
        ExpressionKind::DomainProject { .. } => StructuralError::DomainExpressionSourceNotInBlock {
            expression_id,
            source_id: dependency,
            block_id,
        },
        ExpressionKind::Add { .. } | ExpressionKind::Subtract { .. } | ExpressionKind::Multiply { .. }
        | ExpressionKind::Divide { .. } | ExpressionKind::Remainder { .. } =>
            StructuralError::ArithmeticOperandNotInBlock { expression_id, operand_id: dependency, block_id },
        _ => StructuralError::ComparisonOperandNotInBlock {
            expression_id,
            operand_id: dependency,
            block_id,
        },
    }
}

/// Checks that the references an Expression carries resolve.
fn validate_expression(
    modules: &Vec<Module>,
    function: &Function,
    block: &Block,
    expression: &Expression,
) -> (r: Result<(), StructuralError>)
    ensures
        r is Ok <==> references_resolve(module_views(modules@), function@, block@, expression@),
        r matches Err(e) ==> expression_violation(
            module_views(modules@),
            function@,
            block@,
            expression@,
            e,
        ),
{
    match &expression.kind {
        ExpressionKind::ParameterReference(parameter_id) => {
            if function.parameter(*parameter_id).is_none() {
                return Err(
                    StructuralError::DanglingParameterReference {
                        expression_id: expression.id,
                        parameter_id: *parameter_id,
                        function_id: function.id,
                    },
                );
            }
        },
        ExpressionKind::Call { target, .. } => {
            if locate_function(modules, *target).is_none() {
                return Err(
                    StructuralError::DanglingCallTarget {
                        expression_id: expression.id,
                        function_id: *target,
                    },
                );
            }
        },
        ExpressionKind::DomainConstruct { type_id, .. } => {
            if locate_domain_type(modules, *type_id).is_none() {
                return Err(
                    StructuralError::DanglingDomainConstructTarget {
                        expression_id: expression.id,
                        type_id: *type_id,
                    },
                );
            }
        },
        _ => {},
    }
    let dependencies = expression.kind.dependencies();
    let mut q: usize = 0;
    while q < dependencies.len()
        invariant
            q <= dependencies@.len(),
            dependencies@ == dependencies_of(expression.kind@),
            forall|p: int| 0 <= p < q ==> contains_expression(block@, #[trigger] dependencies@[p]),
        decreases dependencies.len() - q,
    {
        let dependency = dependencies[q];
        if position_of_expression(&block.expressions, dependency).is_none() {
            assert(dependencies@[q as int] == dependency);
            let error = missing_dependency_error(expression, dependency, block.id);
            return Err(error);
        }
        q = q + 1;
    }
    Ok(())
}

/// Whether `ids` holds `id`.
fn holds_expression(ids: &Vec<ExpressionId>, id: ExpressionId) -> (r: bool)
    ensures
        r == ids@.contains(id),
{
    let mut k: usize = 0;
    while k < ids.len()
        invariant
            k <= ids@.len(),
            forall|m: int| 0 <= m < k ==> ids@[m] != id,
        decreases ids.len() - k,
    {
        if ids[k] == id {
            assert(ids@[k as int] == id);
            return true;
        }
        k = k + 1;
    }
    false
}

/// Whether every dependency of `expression` is held by `settled`.
fn expression_settles(expression: &Expression, settled: &Vec<ExpressionId>) -> (r: bool)
    ensures
        r == depends_only_on(expression@, settled@.to_set()),
{
    let dependencies = expression.kind.dependencies();
    let mut q: usize = 0;
    while q < dependencies.len()
        invariant
            q <= dependencies@.len(),
            dependencies@ == dependencies_of(expression.kind@),
            forall|p: int| 0 <= p < q ==> settled@.to_set().contains(#[trigger] dependencies@[p]),
        decreases dependencies.len() - q,
    {
        if !holds_expression(settled, dependencies[q]) {
            assert(!settled@.to_set().contains(dependencies@[q as int]));
            return false;
        }
        q = q + 1;
    }
    true
}

/// Decides whether a Block's same-Block dependencies are acyclic.
fn validate_acyclic_expression_dependencies(block: &Block) -> (r: bool)
    ensures
        r == dependencies_acyclic(block@),
{
    broadcast use vstd::seq::Seq::lemma_push_to_set_commute;

    let ghost view = block@;
    let n = block.expressions.len();
    let mut settled: Vec<ExpressionId> = Vec::new();
    let mut round: usize = 0;
    assert(settled@.to_set() =~= settled_within(view, 0));
    while round < n
        invariant
            round <= n == view.expressions.len(),
            view == block@,
            settled@.to_set() == settled_within(view, round as nat),
        decreases n - round,
    {
        let ghost prev = settled@.to_set();
        let mut next = settled.clone();
        assert(next@ =~= settled@);
        let mut l: usize = 0;
        while l < n
            invariant
                l <= n == view.expressions.len(),
                view == block@,
                prev == settled@.to_set(),
                next@.to_set() == prev.union(
                    Set::new(
                        |id: ExpressionId|
                            exists|m: int|
                                0 <= m < l && #[trigger] view.expressions[m].id == id
                                    && depends_only_on(view.expressions[m], prev),
                    ),
                ),
            decreases n - l,
        {
            let ghost before = next@.to_set();
            let ghost before_seq = next@;
            let settles = expression_settles(&block.expressions[l], &settled);
            if settles {
                next.push(block.expressions[l].id);
            }
            proof {
                let sl = Set::new(
                    |id: ExpressionId|
                        exists|m: int|
                            0 <= m < l && #[trigger] view.expressions[m].id == id
                                && depends_only_on(view.expressions[m], prev),
                );
                let sl1 = Set::new(
                    |id: ExpressionId|
                        exists|m: int|
                            0 <= m < l + 1 && #[trigger] view.expressions[m].id == id
                                && depends_only_on(view.expressions[m], prev),
                );
                assert(before == prev.union(sl));
                if settles {
                    assert(next@ == before_seq.push(view.expressions[l as int].id));
                    before_seq.lemma_push_to_set_commute(view.expressions[l as int].id);
                    assert(next@.to_set() == before.insert(view.expressions[l as int].id));
                } else {
                    assert(next@ == settled@ || next@.to_set() == before);
                }
                assert forall|id: ExpressionId| next@.to_set().contains(id) <==> prev.union(sl1).contains(id) by {
                    if next@.to_set().contains(id) {
                        if before.contains(id) {
                            if sl.contains(id) {
                                let m = choose|m: int|
                                    0 <= m < l && #[trigger] view.expressions[m].id == id
                                        && depends_only_on(view.expressions[m], prev);
                                assert(sl1.contains(id));
                            }
                        } else {
                            assert(settles && id == view.expressions[l as int].id);
                            assert(sl1.contains(id));
                        }
                    }
                    if prev.union(sl1).contains(id) && !prev.contains(id) {
                        let m = choose|m: int|
                            0 <= m < l + 1 && #[trigger] view.expressions[m].id == id
                                && depends_only_on(view.expressions[m], prev);
                        if m < l {
                            assert(sl.contains(id));
                            assert(before.contains(id));
                        } else {
                            assert(settles);
                        }
                    }
                }
                assert(next@.to_set() =~= prev.union(sl1));
            }
            l = l + 1;
        }
        settled = next;
        round = round + 1;
        assert(settled@.to_set() =~= settled_within(view, round as nat));
    }
    let mut l: usize = 0;
    while l < n
        invariant
            l <= n == view.expressions.len(),
            view == block@,
            settled@.to_set() == settled_within(view, n as nat),
            forall|m: int| 0 <= m < l ==> settled_within(view, n as nat).contains(#[trigger] view.expressions[m].id),
        decreases n - l,
    {
        if !holds_expression(&settled, block.expressions[l].id) {
            assert(!settled_within(view, n as nat).contains(view.expressions[l as int].id));
            return false;
        }
        l = l + 1;
    }
    true
}

/// The Expressions that the Block's Expression `from` depends on directly.
fn direct_dependencies(block: &Block, from: ExpressionId) -> (r: Vec<ExpressionId>)
    ensures
        forall|t: ExpressionId| r@.contains(t) <==> direct_dependency(block@, from, t),
{
    match position_of_expression(&block.expressions, from) {
        Some(l) => block.expressions[l].kind.dependencies(),
        None => Vec::new(),
    }
}

/// Appends `items` to `out`.
fn append_ids(out: &mut Vec<ExpressionId>, items: &Vec<ExpressionId>)
    ensures
        final(out)@ == old(out)@ + items@,
{
    let ghost base = out@;
    let mut k: usize = 0;
    while k < items.len()
        invariant
            k <= items@.len(),
            out@ == base + items@.take(k as int),
        decreases items.len() - k,
    {
        out.push(items[k]);
        k = k + 1;
        assert(out@ =~= base + items@.take(k as int));
    }
    assert(items@.take(k as int) =~= items@);
}

/// The Expressions that `start` depends on, directly or transitively.
fn transitive_dependency_list(block: &Block, start: ExpressionId) -> (r: Vec<ExpressionId>)
    ensures
        r@.to_set() == transitive_dependencies(block@, start),
{
    let ghost view = block@;
    let n = block.expressions.len();
    let mut reached = direct_dependencies(block, start);
    assert(reached@.to_set() =~= reach_within(view, start, 0));
    let mut round: usize = 0;
    while round < n
        invariant
            round <= n == view.expressions.len(),
            view == block@,
            reached@.to_set() == reach_within(view, start, round as nat),
        decreases n - round,
    {
        let ghost prev = reached@.to_set();
        let mut next = reached.clone();
        assert(next@ =~= reached@);
        let mut u: usize = 0;
        while u < reached.len()
            invariant
                u <= reached@.len(),
                view == block@,
                prev == reached@.to_set(),
                next@.to_set() == prev.union(
                    Set::new(
                        |t: ExpressionId|
                            exists|v: int| 0 <= v < u && direct_dependency(view, #[trigger] reached@[v], t),
                    ),
                ),
            decreases reached.len() - u,
        {
            let ghost before_seq = next@;
            let items = direct_dependencies(block, reached[u]);
            append_ids(&mut next, &items);
            proof {
                vstd::seq_lib::seq_to_set_distributes_over_add(before_seq, items@);
                let s1 = Set::new(
                    |t: ExpressionId|
                        exists|v: int| 0 <= v < u + 1 && direct_dependency(view, #[trigger] reached@[v], t),
                );
                assert forall|t: ExpressionId| next@.to_set().contains(t) <==> prev.union(s1).contains(t) by {
                    if items@.to_set().contains(t) {
                        assert(items@.contains(t));
                        assert(direct_dependency(view, reached@[u as int], t));
                    }
                    if s1.contains(t) && !prev.contains(t) {
                        let v = choose|v: int| 0 <= v < u + 1 && direct_dependency(view, #[trigger] reached@[v], t);
                        if v == u {
                            assert(items@.contains(t));
                            assert(items@.to_set().contains(t));
                        }
                    }
                }
                assert(next@.to_set() =~= prev.union(s1));
            }
            u = u + 1;
        }
        proof {
            let target = reach_within(view, start, (round + 1) as nat);
            assert forall|t: ExpressionId| next@.to_set().contains(t) <==> target.contains(t) by {
                if target.contains(t) && !prev.contains(t) {
                    let y = choose|y: ExpressionId| prev.contains(y) && direct_dependency(view, y, t);
                    assert(reached@.contains(y));
                    let v = choose|v: int| 0 <= v < reached@.len() && reached@[v] == y;
                    assert(direct_dependency(view, reached@[v], t));
                }
                if next@.to_set().contains(t) && !prev.contains(t) {
                    let v = choose|v: int| 0 <= v < reached@.len() && direct_dependency(view, #[trigger] reached@[v], t);
                    assert(prev.contains(reached@[v]));
                }
            }
            assert(next@.to_set() =~= target);
        }
        reached = next;
        round = round + 1;
    }
    reached
}

/// Checks a Block's effect sequence.
fn validate_effect_sequence(block: &Block) -> (r: Result<(), StructuralError>)
    ensures
        r is Ok <==> effects_valid(block@),
        r matches Err(e) ==> effect_violation(block@, e),
{
    let ghost view = block@;
    let effects = &block.effect_sequence;
    let mut q: usize = 0;
    while q < effects.len()
        invariant
            q <= effects@.len(),
            view == block@,
            *effects == block.effect_sequence,
            forall|p: int|
                0 <= p < q ==> contains_expression(view, #[trigger] effects@[p])
                    && is_call_expression(view, effects@[p]),
            forall|a: int, b: int| 0 <= a < b < q ==> effects@[a] != effects@[b],
        decreases effects.len() - q,
    {
        let id = effects[q];
        assert(effects@[q as int] == id);
        match position_of_expression(&block.expressions, id) {
            None => {
                return Err(StructuralError::EffectSequenceEntryNotInBlock { block_id: block.id, expression_id: id });
            },
            Some(l) => {
                if !block.expressions[l].kind.is_call() {
                    return Err(StructuralError::EffectSequenceEntryNotCall { block_id: block.id, expression_id: id });
                }
            },
        }
        let mut p: usize = 0;
        while p < q
            invariant
                p <= q < effects@.len(),
                view == block@,
                *effects == block.effect_sequence,
                id == effects@[q as int],
                forall|a: int| 0 <= a < p ==> effects@[a] != id,
            decreases q - p,
        {
            if effects[p] == id {
                assert(effects@[p as int] == id);
                assert(view.effect_sequence[p as int] == id && view.effect_sequence[q as int] == id);
                assert(!view.effect_sequence.no_duplicates());
                return Err(StructuralError::DuplicateEffectSequenceEntry { block_id: block.id, expression_id: id });
            }
            p = p + 1;
        }
        q = q + 1;
    }
    assert(effect_entries_valid(view));
    let n = block.expressions.len();
    let mut l: usize = 0;
    while l < n
        invariant
            l <= n == view.expressions.len(),
            view == block@,
            *effects == block.effect_sequence,
            forall|m: int|
                0 <= m < l && (#[trigger] view.expressions[m]).kind is Call
                    ==> view.effect_sequence.contains(view.expressions[m].id),
        decreases n - l,
    {
        let id = block.expressions[l].id;
        if block.expressions[l].kind.is_call() && !holds_expression(effects, id) {
            assert(view.expressions[l as int].id == id);
            return Err(StructuralError::CallMissingFromEffectSequence { block_id: block.id, expression_id: id });
        }
        l = l + 1;
    }
    let mut b: usize = 0;
    while b < effects.len()
        invariant
            b <= effects@.len(),
            view == block@,
            *effects == block.effect_sequence,
            effect_entries_valid(view),
            calls_sequenced(view),
            forall|a: int, c: int|
                0 <= a < effects@.len() && 0 <= c < b && transitive_dependencies(
                    view,
                    #[trigger] effects@[c],
                ).contains(#[trigger] effects@[a]) ==> a < c,
        decreases effects.len() - b,
    {
        let reached = transitive_dependency_list(block, effects[b]);
        let mut a: usize = 0;
        while a < effects.len()
            invariant
                a <= effects@.len(),
                b < effects@.len(),
                view == block@,
                *effects == block.effect_sequence,
                reached@.to_set() == transitive_dependencies(view, effects@[b as int]),
                forall|a2: int|
                    0 <= a2 < a && transitive_dependencies(view, effects@[b as int]).contains(
                        #[trigger] effects@[a2],
                    ) ==> a2 < b,
            decreases effects.len() - a,
        {
            if a >= b && holds_expression(&reached, effects[a]) {
                assert(reached@.to_set().contains(effects@[a as int]));
                assert(transitive_dependencies(view, view.effect_sequence[b as int]).contains(
                    view.effect_sequence[a as int]));
                assert(!effect_order_respected(view));
                return Err(
                    StructuralError::EffectSequenceOrderConflict {
                        block_id: block.id,
                        dependency_id: effects[a],
                        dependent_id: effects[b],
                    },
                );
            }
            a = a + 1;
        }
        b = b + 1;
    }
    Ok(())
}

/// Checks a Block's terminator against the Block and its body.
fn validate_terminator(body: &FunctionBody, block: &Block) -> (r: Result<(), StructuralError>)
    ensures
        r is Ok <==> terminator_valid(body@, block@),
        r matches Err(e) ==> terminator_violation(body@, block@, e),
{
    match block.terminator {
        None => Err(StructuralError::UnterminatedBlock(block.id)),
        Some(Terminator::Return { expression }) => {
            if position_of_expression(&block.expressions, expression).is_none() {
                Err(StructuralError::ReturnExpressionNotInBlock { block_id: block.id, expression_id: expression })
            } else {
                Ok(())
            }
        },
        Some(Terminator::Branch { condition, true_block, false_block }) => {
            if position_of_expression(&block.expressions, condition).is_none() {
                return Err(StructuralError::BranchConditionNotInBlock { block_id: block.id, expression_id: condition });
            }
            if position_of_block(&body.blocks, true_block).is_none() {
                return Err(StructuralError::BranchTargetNotInBody { block_id: block.id, target_block_id: true_block });
            }
            if position_of_block(&body.blocks, false_block).is_none() {
                return Err(StructuralError::BranchTargetNotInBody { block_id: block.id, target_block_id: false_block });
            }
            Ok(())
        },
    }
}

/// Checks one Block of a Function body.
fn validate_block(
    modules: &Vec<Module>,
    function: &Function,
    body: &FunctionBody,
    block: &Block,
) -> (r: Result<(), StructuralError>)
    ensures
        r is Ok <==> block_valid(module_views(modules@), function@, body@, block@),
        r matches Err(e) ==> block_violation(module_views(modules@), function@, body@, block@, e),
{
    let ghost mv = module_views(modules@);
    let ghost view = block@;
    let mut l: usize = 0;
    while l < block.expressions.len()
        invariant
            l <= block.expressions@.len(),
            view == block@,
            mv == module_views(modules@),
            forall|m: int|
                0 <= m < l ==> references_resolve(mv, function@, view, #[trigger] view.expressions[m]),
        decreases block.expressions.len() - l,
    {
        match validate_expression(modules, function, block, &block.expressions[l]) {
            Err(e) => {
                assert(expression_violation(mv, function@, view, view.expressions[l as int], e));
                return Err(e);
            },
            Ok(()) => {},
        }
        l = l + 1;
    }
    if !validate_acyclic_expression_dependencies(block) {
        return Err(StructuralError::CyclicExpressionDependency(block.id));
    }
    match validate_effect_sequence(block) {
        Err(e) => {
            return Err(e);
        },
        Ok(()) => {},
    }
    validate_terminator(body, block)
}

/// Whether `ids` holds `id`.
fn holds_block(ids: &Vec<BlockId>, id: BlockId) -> (r: bool)
    ensures
        r == ids@.contains(id),
{
    let mut k: usize = 0;
    while k < ids.len()
        invariant
            k <= ids@.len(),
            forall|m: int| 0 <= m < k ==> ids@[m] != id,
        decreases ids.len() - k,
    {
        if ids[k] == id {
            assert(ids@[k as int] == id);
            return true;
        }
        k = k + 1;
    }
    false
}

/// The Blocks that a Block's terminator transfers control to.
fn block_successors(block: &Block) -> (r: Vec<BlockId>)
    ensures
        r@ == successors(block@),
{
    match block.terminator {
        Some(Terminator::Branch { true_block, false_block, .. }) => {
            let r = vec![true_block, false_block];
            assert(r@ =~= seq![true_block, false_block]);
            r
        },
        _ => {
            let r: Vec<BlockId> = Vec::new();
            assert(r@ =~= Seq::<BlockId>::empty());
            r
        },
    }
}

/// The Blocks that control may pass to directly from Block `from`.
fn successors_of(body: &FunctionBody, from: BlockId) -> (r: Vec<BlockId>)
    ensures
        forall|t: BlockId| r@.contains(t) <==> successor_of(body@, from, t),
{
    match position_of_block(&body.blocks, from) {
        Some(k) => block_successors(&body.blocks[k]),
        None => Vec::new(),
    }
}

/// Appends `items` to `out`.
fn append_block_ids(out: &mut Vec<BlockId>, items: &Vec<BlockId>)
    ensures
        final(out)@ == old(out)@ + items@,
{
    let ghost base = out@;
    let mut k: usize = 0;
    while k < items.len()
        invariant
            k <= items@.len(),
            out@ == base + items@.take(k as int),
        decreases items.len() - k,
    {
        out.push(items[k]);
        k = k + 1;
        assert(out@ =~= base + items@.take(k as int));
    }
    assert(items@.take(k as int) =~= items@);
}

/// The Blocks reachable from the entry.
fn reachable_blocks(body: &FunctionBody) -> (r: Vec<BlockId>)
    ensures
        r@.to_set() == reachable_within(body@, body@.blocks.len()),
{
    broadcast use vstd::seq::Seq::lemma_push_to_set_commute;

    let ghost view = body@;
    let n = body.blocks.len();
    let mut reached: Vec<BlockId> = Vec::new();
    reached.push(body.entry_block_id);
    assert(reached@ =~= Seq::<BlockId>::empty().push(body.entry_block_id));
    proof {
        Seq::<BlockId>::empty().lemma_push_to_set_commute(body.entry_block_id);
        assert(reached@.to_set() =~= reachable_within(view, 0));
    }
    let mut round: usize = 0;
    while round < n
        invariant
            round <= n == view.blocks.len(),
            view == body@,
            reached@.to_set() == reachable_within(view, round as nat),
        decreases n - round,
    {
        let ghost prev = reached@.to_set();
        let mut next = reached.clone();
        assert(next@ =~= reached@);
        let mut u: usize = 0;
        while u < reached.len()
            invariant
                u <= reached@.len(),
                view == body@,
                prev == reached@.to_set(),
                next@.to_set() == prev.union(
                    Set::new(
                        |t: BlockId| exists|v: int| 0 <= v < u && successor_of(view, #[trigger] reached@[v], t),
                    ),
                ),
            decreases reached.len() - u,
        {
            let ghost before_seq = next@;
            let items = successors_of(body, reached[u]);
            append_block_ids(&mut next, &items);
            proof {
                vstd::seq_lib::seq_to_set_distributes_over_add(before_seq, items@);
                let s1 = Set::new(
                    |t: BlockId| exists|v: int| 0 <= v < u + 1 && successor_of(view, #[trigger] reached@[v], t),
                );
                assert forall|t: BlockId| next@.to_set().contains(t) <==> prev.union(s1).contains(t) by {
                    if items@.to_set().contains(t) {
                        assert(items@.contains(t));
                        assert(successor_of(view, reached@[u as int], t));
                    }
                    if s1.contains(t) && !prev.contains(t) {
                        let v = choose|v: int| 0 <= v < u + 1 && successor_of(view, #[trigger] reached@[v], t);
                        if v == u {
                            assert(items@.contains(t));
                            assert(items@.to_set().contains(t));
                        }
                    }
                }
                assert(next@.to_set() =~= prev.union(s1));
            }
            u = u + 1;
        }
        proof {
            let target = reachable_within(view, (round + 1) as nat);
            assert forall|t: BlockId| next@.to_set().contains(t) <==> target.contains(t) by {
                if target.contains(t) && !prev.contains(t) {
                    let y = choose|y: BlockId| prev.contains(y) && successor_of(view, y, t);
                    assert(reached@.contains(y));
                    let v = choose|v: int| 0 <= v < reached@.len() && reached@[v] == y;
                    assert(successor_of(view, reached@[v], t));
                }
                if next@.to_set().contains(t) && !prev.contains(t) {
                    let v = choose|v: int| 0 <= v < reached@.len() && successor_of(view, #[trigger] reached@[v], t);
                    assert(prev.contains(reached@[v]));
                }
            }
            assert(next@.to_set() =~= target);
        }
        reached = next;
        round = round + 1;
    }
    reached
}

/// Whether every successor of `block` is held by `finished`.
fn successors_finished(block: &Block, finished: &Vec<BlockId>) -> (r: bool)
    ensures
        r == forall|s: int|
            0 <= s < successors(block@).len() ==> finished@.to_set().contains(
                #[trigger] successors(block@)[s],
            ),
{
    let targets = block_successors(block);
    let mut s: usize = 0;
    while s < targets.len()
        invariant
            s <= targets@.len(),
            targets@ == successors(block@),
            forall|p: int| 0 <= p < s ==> finished@.to_set().contains(#[trigger] targets@[p]),
        decreases targets.len() - s,
    {
        if !holds_block(finished, targets[s]) {
            assert(!finished@.to_set().contains(targets@[s as int]));
            return false;
        }
        s = s + 1;
    }
    true
}

/// The Blocks from which control leaves the body within as many rounds as
/// the body has Blocks.
fn finished_blocks(body: &FunctionBody) -> (r: Vec<BlockId>)
    ensures
        r@.to_set() == finished_within(body@, body@.blocks.len()),
{
    broadcast use vstd::seq::Seq::lemma_push_to_set_commute;

    let ghost view = body@;
    let n = body.blocks.len();
    let mut finished: Vec<BlockId> = Vec::new();
    assert(finished@.to_set() =~= finished_within(view, 0));
    let mut round: usize = 0;
    while round < n
        invariant
            round <= n == view.blocks.len(),
            view == body@,
            finished@.to_set() == finished_within(view, round as nat),
        decreases n - round,
    {
        let ghost prev = finished@.to_set();
        let mut next = finished.clone();
        assert(next@ =~= finished@);
        let mut k: usize = 0;
        while k < n
            invariant
                k <= n == view.blocks.len(),
                view == body@,
                prev == finished@.to_set(),
                next@.to_set() == prev.union(
                    Set::new(
                        |id: BlockId|
                            exists|m: int|
                                0 <= m < k && #[trigger] view.blocks[m].id == id && forall|s: int|
                                    0 <= s < successors(view.blocks[m]).len() ==> prev.contains(
                                        #[trigger] successors(view.blocks[m])[s],
                                    ),
                    ),
                ),
            decreases n - k,
        {
            let ghost before = next@.to_set();
            let ghost before_seq = next@;
            let done = successors_finished(&body.blocks[k], &finished);
            if done {
                next.push(body.blocks[k].id);
            }
            proof {
                let sk = Set::new(
                    |id: BlockId|
                        exists|m: int|
                            0 <= m < k && #[trigger] view.blocks[m].id == id && forall|s: int|
                                0 <= s < successors(view.blocks[m]).len() ==> prev.contains(
                                    #[trigger] successors(view.blocks[m])[s],
                                ),
                );
                let sk1 = Set::new(
                    |id: BlockId|
                        exists|m: int|
                            0 <= m < k + 1 && #[trigger] view.blocks[m].id == id && forall|s: int|
                                0 <= s < successors(view.blocks[m]).len() ==> prev.contains(
                                    #[trigger] successors(view.blocks[m])[s],
                                ),
                );
                assert(before == prev.union(sk));
                if done {
                    assert(next@ == before_seq.push(view.blocks[k as int].id));
                    before_seq.lemma_push_to_set_commute(view.blocks[k as int].id);
                }
                assert forall|id: BlockId| next@.to_set().contains(id) <==> prev.union(sk1).contains(id) by {
                    if next@.to_set().contains(id) {
                        if before.contains(id) {
                            if sk.contains(id) {
                                let m = choose|m: int|
                                    0 <= m < k && #[trigger] view.blocks[m].id == id && forall|s: int|
                                        0 <= s < successors(view.blocks[m]).len() ==> prev.contains(
                                            #[trigger] successors(view.blocks[m])[s],
                                        );
                                assert(sk1.contains(id));
                            }
                        } else {
                            assert(done && id == view.blocks[k as int].id);
                            assert(sk1.contains(id));
                        }
                    }
                    if prev.union(sk1).contains(id) && !prev.contains(id) {
                        let m = choose|m: int|
                            0 <= m < k + 1 && #[trigger] view.blocks[m].id == id && forall|s: int|
                                0 <= s < successors(view.blocks[m]).len() ==> prev.contains(
                                    #[trigger] successors(view.blocks[m])[s],
                                );
                        if m < k {
                            assert(sk.contains(id));
                            assert(before.contains(id));
                        } else {
                            assert(done);
                        }
                    }
                }
                assert(next@.to_set() =~= prev.union(sk1));
            }
            k = k + 1;
        }
        finished = next;
        round = round + 1;
        assert(finished@.to_set() =~= finished_within(view, round as nat));
    }
    finished
}

/// Checks that every Block is reachable and that control flow is acyclic.
fn validate_control_flow(function: &Function, body: &FunctionBody) -> (r: Result<(), StructuralError>)
    ensures
        r is Ok <==> all_blocks_reachable(body@) && control_flow_acyclic(body@),
        r matches Err(e) ==> body_violation_of_flow(function@, body@, e),
{
    let ghost view = body@;
    let n = body.blocks.len();
    let reached = reachable_blocks(body);
    let mut k: usize = 0;
    while k < n
        invariant
            k <= n == view.blocks.len(),
            view == body@,
            reached@.to_set() == reachable_within(view, n as nat),
            forall|m: int| 0 <= m < k ==> reachable_within(view, n as nat).contains(#[trigger] view.blocks[m].id),
        decreases n - k,
    {
        if !holds_block(&reached, body.blocks[k].id) {
            assert(!reachable_within(view, n as nat).contains(view.blocks[k as int].id));
            return Err(StructuralError::UnreachableBlock { function_id: function.id, block_id: body.blocks[k].id });
        }
        k = k + 1;
    }
    let finished = finished_blocks(body);
    let mut k: usize = 0;
    while k < n
        invariant
            k <= n == view.blocks.len(),
            view == body@,
            all_blocks_reachable(view),
            finished@.to_set() == finished_within(view, n as nat),
            forall|m: int| 0 <= m < k ==> finished_within(view, n as nat).contains(#[trigger] view.blocks[m].id),
        decreases n - k,
    {
        if !holds_block(&finished, body.blocks[k].id) {
            assert(!finished_within(view, n as nat).contains(view.blocks[k as int].id));
            return Err(StructuralError::CyclicControlFlow(function.id));
        }
        k = k + 1;
    }
    Ok(())
}

/// `error` reports unreachable Blocks or cyclic control flow in a body.
pub open spec fn body_violation_of_flow(function: FunctionView, body: BodyView, error: StructuralError) -> bool {
    ||| exists|k: int|
        0 <= k < body.blocks.len() && error == (StructuralError::UnreachableBlock {
            function_id: function.id,
            block_id: #[trigger] body.blocks[k].id,
        }) && !reachable_within(body, body.blocks.len()).contains(body.blocks[k].id)
    ||| error == StructuralError::CyclicControlFlow(function.id) && all_blocks_reachable(body)
        && !control_flow_acyclic(body)
}

/// Checks one Function body.
fn validate_body(modules: &Vec<Module>, function: &Function, body: &FunctionBody) -> (r: Result<
    (),
    StructuralError,
>)
    ensures
        r is Ok <==> body_valid(module_views(modules@), function@, body@),
        r matches Err(e) ==> body_violation(module_views(modules@), function@, body@, e),
{
    let ghost mv = module_views(modules@);
    let ghost view = body@;
    if body.blocks.len() == 0 {
        return Err(StructuralError::FunctionBodyHasNoBlocks(function.id));
    }
    if position_of_block(&body.blocks, body.entry_block_id).is_none() {
        return Err(
            StructuralError::EntryBlockNotInBody {
                function_id: function.id,
                entry_block_id: body.entry_block_id,
            },
        );
    }
    let mut k: usize = 0;
    while k < body.blocks.len()
        invariant
            k <= body.blocks@.len(),
            view == body@,
            mv == module_views(modules@),
            forall|m: int| 0 <= m < k ==> block_valid(mv, function@, view, #[trigger] view.blocks[m]),
        decreases body.blocks.len() - k,
    {
        match validate_block(modules, function, body, &body.blocks[k]) {
            Err(e) => {
                assert(block_violation(mv, function@, view, view.blocks[k as int], e));
                return Err(e);
            },
            Ok(()) => {},
        }
        k = k + 1;
    }
    validate_control_flow(function, body)
}

/// Checks that a value type resolves.
fn check_value_type(modules: &Vec<Module>, value_type: ValueType) -> (r: Result<(), StructuralError>)
    ensures
        r is Ok <==> value_type_resolves(module_views(modules@), value_type),
        r matches Err(e) ==> e matches StructuralError::DanglingValueType(id) && value_type
            == ValueType::Domain(id) && find_domain_type(module_views(modules@), id) is None,
{
    match value_type {
        ValueType::Domain(id) => {
            if locate_domain_type(modules, id).is_none() {
                return Err(StructuralError::DanglingValueType(id));
            }
            Ok(())
        },
        ValueType::Intrinsic(_) => Ok(()),
    }
}

/// Checks that every Function signature resolves.
fn validate_signatures(modules: &Vec<Module>) -> (r: Result<(), StructuralError>)
    ensures
        r is Ok <==> signatures_resolve(module_views(modules@)),
        r matches Err(e) ==> program_violation(module_views(modules@), e),
{
    let ghost mv = module_views(modules@);
    let mut i: usize = 0;
    while i < modules.len()
        invariant
            i <= modules@.len(),
            mv == module_views(modules@),
            forall|a: int, b: int|
                0 <= a < i && 0 <= b < mv[a].functions.len() ==> signature_resolves(
                    mv,
                    #[trigger] mv[a].functions[b],
                ),
        decreases modules.len() - i,
    {
        let functions = &modules[i].functions;
        let mut j: usize = 0;
        while j < functions.len()
            invariant
                i < modules@.len(),
                j <= functions@.len(),
                *functions == modules@[i as int].functions,
                mv == module_views(modules@),
                forall|a: int, b: int|
                    0 <= a < i && 0 <= b < mv[a].functions.len() ==> signature_resolves(
                        mv,
                        #[trigger] mv[a].functions[b],
                    ),
                forall|b: int| 0 <= b < j ==> signature_resolves(mv, #[trigger] mv[i as int].functions[b]),
            decreases functions.len() - j,
        {
            let function = &functions[j];
            let ghost fv = mv[i as int].functions[j as int];
            assert(fv == function@);
            match check_value_type(modules, function.return_type) {
                Err(e) => {
                    assert(signature_mentions(mv[i as int].functions[j as int], e->DanglingValueType_0));
                    return Err(e);
                },
                Ok(()) => {},
            }
            let mut p: usize = 0;
            while p < function.parameters.len()
                invariant
                    p <= function.parameters@.len(),
                    fv == function@,
                    fv == mv[i as int].functions[j as int],
                    mv == module_views(modules@),
                    i < mv.len(),
                    j < mv[i as int].functions.len(),
                    forall|q: int| 0 <= q < p ==> value_type_resolves(mv, #[trigger] fv.parameters[q].value_type),
                decreases function.parameters.len() - p,
            {
                match check_value_type(modules, function.parameters[p].value_type) {
                    Err(e) => {
                        assert(fv.parameters[p as int].value_type == ValueType::Domain(e->DanglingValueType_0));
                        assert(signature_mentions(mv[i as int].functions[j as int], e->DanglingValueType_0));
                        return Err(e);
                    },
                    Ok(()) => {},
                }
                p = p + 1;
            }
            j = j + 1;
        }
        i = i + 1;
    }
    Ok(())
}

/// Checks every Function body.
fn validate_bodies(modules: &Vec<Module>) -> (r: Result<(), StructuralError>)
    ensures
        r is Ok <==> bodies_valid(module_views(modules@)),
        r matches Err(e) ==> (exists|i: int, j: int|
            0 <= i < module_views(modules@).len() && 0 <= j < module_views(modules@)[i].functions.len()
                && (#[trigger] module_views(modules@)[i].functions[j]).body is Some && body_violation(
                module_views(modules@),
                module_views(modules@)[i].functions[j],
                module_views(modules@)[i].functions[j].body->0,
                e,
            )),
{
    let ghost mv = module_views(modules@);
    let mut i: usize = 0;
    while i < modules.len()
        invariant
            i <= modules@.len(),
            mv == module_views(modules@),
            forall|a: int, b: int|
                0 <= a < i && 0 <= b < mv[a].functions.len() ==> match (
                #[trigger] mv[a].functions[b]).body {
                    Some(body) => body_valid(mv, mv[a].functions[b], body),
                    None => true,
                },
        decreases modules.len() - i,
    {
        let functions = &modules[i].functions;
        let mut j: usize = 0;
        while j < functions.len()
            invariant
                i < modules@.len(),
                j <= functions@.len(),
                *functions == modules@[i as int].functions,
                mv == module_views(modules@),
                forall|a: int, b: int|
                    0 <= a < i && 0 <= b < mv[a].functions.len() ==> match (
                    #[trigger] mv[a].functions[b]).body {
                        Some(body) => body_valid(mv, mv[a].functions[b], body),
                        None => true,
                    },
                forall|b: int|
                    0 <= b < j ==> match (#[trigger] mv[i as int].functions[b]).body {
                        Some(body) => body_valid(mv, mv[i as int].functions[b], body),
                        None => true,
                    },
            decreases functions.len() - j,
        {
            let function = &functions[j];
            assert(mv[i as int].functions[j as int] == function@);
            match &function.body {
                Some(body) => {
                    match validate_body(modules, function, body) {
                        Err(e) => {
                            assert(body_violation(mv, mv[i as int].functions[j as int], mv[i as int].functions[j as int].body->0, e));
                            return Err(e);
                        },
                        Ok(()) => {},
                    }
                },
                None => {},
            }
            j = j + 1;
        }
        i = i + 1;
    }
    Ok(())
}

/// Checks that no identity occurs twice within its category.
fn validate_identities(modules: &Vec<Module>) -> (r: Result<(), StructuralError>)
    ensures
        r is Ok <==> identities_distinct(module_views(modules@)),
        r matches Err(e) ==> program_violation(module_views(modules@), e),
{
    let ghost mv = module_views(modules@);
    let inventory = collect_inventory(modules);
    match first_repeat(&inventory.modules) {
        Some(q) => {
            let (ns, counter) = inventory.modules[q];
            let id = crate::ids::ModuleId { namespace_id: crate::ids::AllocationNamespaceId(ns), counter };
            assert(module_keys(mv)[q as int] == module_key(id));
            return Err(StructuralError::DuplicateModuleIdentity(id));
        },
        None => {},
    }
    match first_repeat(&inventory.types) {
        Some(q) => {
            let (ns, counter) = inventory.types[q];
            let id = TypeId { namespace_id: crate::ids::AllocationNamespaceId(ns), counter };
            assert(type_keys(mv)[q as int] == type_key(id));
            return Err(StructuralError::DuplicateTypeIdentity(id));
        },
        None => {},
    }
    match first_repeat(&inventory.functions) {
        Some(q) => {
            let (ns, counter) = inventory.functions[q];
            let id = FunctionId { namespace_id: crate::ids::AllocationNamespaceId(ns), counter };
            assert(function_keys(mv)[q as int] == function_key(id));
            return Err(StructuralError::DuplicateFunctionIdentity(id));
        },
        None => {},
    }
    match first_repeat(&inventory.parameters) {
        Some(q) => {
            let (ns, counter) = inventory.parameters[q];
            let id = crate::ids::ParameterId { namespace_id: crate::ids::AllocationNamespaceId(ns), counter };
            assert(parameter_keys(mv)[q as int] == parameter_key(id));
            return Err(StructuralError::DuplicateParameterIdentity(id));
        },
        None => {},
    }
    match first_repeat(&inventory.blocks) {
        Some(q) => {
            let (ns, counter) = inventory.blocks[q];
            let id = BlockId { namespace_id: crate::ids::AllocationNamespaceId(ns), counter };
            assert(block_keys(mv)[q as int] == block_key(id));
            return Err(StructuralError::DuplicateBlockIdentity(id));
        },
        None => {},
    }
    match first_repeat(&inventory.expressions) {
        Some(q) => {
            let (ns, counter) = inventory.expressions[q];
            let id = ExpressionId { namespace_id: crate::ids::AllocationNamespaceId(ns), counter };
            assert(expression_keys(mv)[q as int] == expression_key(id));
            return Err(StructuralError::DuplicateExpressionIdentity(id));
        },
        None => {},
    }
    Ok(())
}

/// Validates the structure of a Program revision's Modules.
pub fn validate_modules(modules: &Vec<Module>) -> (r: Result<(), StructuralError>)
    ensures
        r is Ok <==> structurally_valid(module_views(modules@)),
        r matches Err(e) ==> program_violation(module_views(modules@), e),
{
    validate_identities(modules)?;
    validate_signatures(modules)?;
    validate_bodies(modules)
}

} // verus!
