//! Read-only derivation of an Expression's value type.
use vstd::prelude::*;

use crate::body::{find_expression_in, position_of_expression, Block, BlockView, ExpressionKind, KindView};
use crate::error::ExpressionTypeError;
use crate::ids::ExpressionId;
use crate::intrinsic::{IntrinsicType, ValueType};
use crate::locate::{
    expression_location, find_domain_type, find_function, function_blocks, locate_domain_type,
    locate_expression, locate_function,
};
use crate::model::{find_parameter_in, module_views, Function, FunctionView, Module, ModuleView};

verus! {

/// The type of an arithmetic Expression `id` from its operand types.
pub open spec fn arithmetic_type(
    id: ExpressionId,
    left: Result<ValueType, ExpressionTypeError>,
    right: Result<ValueType, ExpressionTypeError>,
) -> Result<ValueType, ExpressionTypeError> {
    match (left, right) {
        (Ok(l), Ok(r)) => if l != r {
            Err(ExpressionTypeError::OperandTypeMismatch { expression_id: id, left_type: l, right_type: r })
        } else if l == ValueType::Intrinsic(IntrinsicType::Int32) || l == ValueType::Intrinsic(
            IntrinsicType::Int64,
        ) {
            Ok(l)
        } else {
            Err(ExpressionTypeError::UnsupportedOperandType { expression_id: id, operand_type: l })
        },
        _ => Err(ExpressionTypeError::OperandTypeUnavailable { expression_id: id }),
    }
}

/// The type of a comparison Expression `id` from its operand types: equality
/// compares any two values of one intrinsic type, ordering compares integers.
pub open spec fn comparison_type(
    id: ExpressionId,
    left: Result<ValueType, ExpressionTypeError>,
    right: Result<ValueType, ExpressionTypeError>,
    ordering: bool,
) -> Result<ValueType, ExpressionTypeError> {
    match (left, right) {
        (Ok(l), Ok(r)) => if l != r {
            Err(ExpressionTypeError::OperandTypeMismatch { expression_id: id, left_type: l, right_type: r })
        } else if (ordering && l != ValueType::Intrinsic(IntrinsicType::Int32) && l != ValueType::Intrinsic(
            IntrinsicType::Int64,
        )) || l is Domain {
            Err(ExpressionTypeError::UnsupportedOperandType { expression_id: id, operand_type: l })
        } else {
            Ok(ValueType::Intrinsic(IntrinsicType::Bool))
        },
        _ => Err(ExpressionTypeError::OperandTypeUnavailable { expression_id: id }),
    }
}

/// The type of a Domain projection `id` from the type of its source.
pub open spec fn projection_type(
    modules: Seq<ModuleView>,
    id: ExpressionId,
    source: ExpressionId,
    source_type: Result<ValueType, ExpressionTypeError>,
) -> Result<ValueType, ExpressionTypeError> {
    match source_type {
        Err(_) => Err(
            ExpressionTypeError::DomainProjectSourceTypeUnavailable {
                expression_id: id,
                source_expression_id: source,
            },
        ),
        Ok(ValueType::Intrinsic(i)) => Err(
            ExpressionTypeError::DomainProjectSourceNotDomain {
                expression_id: id,
                source_expression_id: source,
                actual_type: ValueType::Intrinsic(i),
            },
        ),
        Ok(ValueType::Domain(t)) => match find_domain_type(modules, t) {
            Some(d) => Ok(ValueType::Intrinsic(d.representation)),
            None => Err(ExpressionTypeError::UnresolvedDomainType { expression_id: id, type_id: t }),
        },
    }
}

/// The type of a value of type `value_type` referenced by Expression `id`.
pub open spec fn resolved_type(
    modules: Seq<ModuleView>,
    id: ExpressionId,
    value_type: ValueType,
) -> Result<ValueType, ExpressionTypeError> {
    match value_type {
        ValueType::Domain(t) => if find_domain_type(modules, t) is Some {
            Ok(value_type)
        } else {
            Err(ExpressionTypeError::UnresolvedDomainType { expression_id: id, type_id: t })
        },
        ValueType::Intrinsic(_) => Ok(value_type),
    }
}

/// The type of the Block's Expression `id`, following same-Block operands
/// at most `fuel` levels deep. An operand deeper than that (which only a
/// dependency cycle produces when `fuel` is the Block's size) has no
/// available type.
pub open spec fn expression_type_in(
    modules: Seq<ModuleView>,
    function: FunctionView,
    block: BlockView,
    id: ExpressionId,
    fuel: nat,
) -> Result<ValueType, ExpressionTypeError>
    decreases fuel,
{
    match find_expression_in(block.expressions, id) {
        None => Err(ExpressionTypeError::OperandTypeUnavailable { expression_id: id }),
        Some(e) => match e.kind {
            KindView::Int32Literal(_) => Ok(ValueType::Intrinsic(IntrinsicType::Int32)),
            KindView::Int64Literal(_) => Ok(ValueType::Intrinsic(IntrinsicType::Int64)),
            KindView::BoolLiteral(_) => Ok(ValueType::Intrinsic(IntrinsicType::Bool)),
            KindView::UnitLiteral => Ok(ValueType::Intrinsic(IntrinsicType::Unit)),
            KindView::TextLiteral(_) => Ok(ValueType::Intrinsic(IntrinsicType::Text)),
            KindView::BytesLiteral(_) => Ok(ValueType::Intrinsic(IntrinsicType::Bytes)),
            KindView::ParameterReference(p) => match find_parameter_in(function.parameters, p) {
                Some(parameter) => resolved_type(modules, id, parameter.value_type),
                None => Err(ExpressionTypeError::UnresolvedParameter { expression_id: id, parameter_id: p }),
            },
            KindView::Call { target, .. } => match find_function(modules, target) {
                Some(f) => Ok(f.return_type),
                None => Err(ExpressionTypeError::UnresolvedFunction { expression_id: id, function_id: target }),
            },
            KindView::DomainConstruct { type_id, .. } => if find_domain_type(modules, type_id) is Some {
                Ok(ValueType::Domain(type_id))
            } else {
                Err(ExpressionTypeError::UnresolvedDomainType { expression_id: id, type_id })
            },
            KindView::DomainProject { value } => {
                let source = if fuel == 0 {
                    Err(ExpressionTypeError::OperandTypeUnavailable { expression_id: value })
                } else {
                    expression_type_in(modules, function, block, value, (fuel - 1) as nat)
                };
                projection_type(modules, id, value, source)
            },
            KindView::Add { left, right } | KindView::Subtract { left, right } | KindView::Multiply {
                left,
                right,
            } | KindView::Divide { left, right } | KindView::Remainder { left, right } => {
                if fuel == 0 {
                    Err(ExpressionTypeError::OperandTypeUnavailable { expression_id: id })
                } else {
                    arithmetic_type(
                        id,
                        expression_type_in(modules, function, block, left, (fuel - 1) as nat),
                        expression_type_in(modules, function, block, right, (fuel - 1) as nat),
                    )
                }
            },
            KindView::Equal { left, right } | KindView::NotEqual { left, right } => {
                if fuel == 0 {
                    Err(ExpressionTypeError::OperandTypeUnavailable { expression_id: id })
                } else {
                    comparison_type(
                        id,
                        expression_type_in(modules, function, block, left, (fuel - 1) as nat),
                        expression_type_in(modules, function, block, right, (fuel - 1) as nat),
                        false,
                    )
                }
            },
            KindView::LessThan { left, right } | KindView::LessThanOrEqual { left, right }
            | KindView::GreaterThan { left, right } | KindView::GreaterThanOrEqual { left, right } => {
                if fuel == 0 {
                    Err(ExpressionTypeError::OperandTypeUnavailable { expression_id: id })
                } else {
                    comparison_type(
                        id,
                        expression_type_in(modules, function, block, left, (fuel - 1) as nat),
                        expression_type_in(modules, function, block, right, (fuel - 1) as nat),
                        true,
                    )
                }
            },
        },
    }
}

/// The value type of Expression `id` of the Program, or `None` where no
/// Block owns an Expression with that identity.
pub open spec fn expression_type(modules: Seq<ModuleView>, id: ExpressionId) -> Option<
    Result<ValueType, ExpressionTypeError>,
> {
    match expression_location(modules, id) {
        Some((i, j, k, l)) => {
            let function = modules[i].functions[j];
            let block = function_blocks(function)[k];
            Some(expression_type_in(modules, function, block, id, block.expressions.len()))
        },
        None => None,
    }
}

fn arithmetic_result(
    id: ExpressionId,
    left: Result<ValueType, ExpressionTypeError>,
    right: Result<ValueType, ExpressionTypeError>,
) -> (r: Result<ValueType, ExpressionTypeError>)
    ensures
        r == arithmetic_type(id, left, right),
{
    match (left, right) {
        (Ok(l), Ok(r)) => if l != r {
            Err(ExpressionTypeError::OperandTypeMismatch { expression_id: id, left_type: l, right_type: r })
        } else {
            match l {
                ValueType::Intrinsic(IntrinsicType::Int32) | ValueType::Intrinsic(IntrinsicType::Int64) => Ok(l),
                _ => Err(ExpressionTypeError::UnsupportedOperandType { expression_id: id, operand_type: l }),
            }
        },
        _ => Err(ExpressionTypeError::OperandTypeUnavailable { expression_id: id }),
    }
}

fn comparison_result(
    id: ExpressionId,
    left: Result<ValueType, ExpressionTypeError>,
    right: Result<ValueType, ExpressionTypeError>,
    ordering: bool,
) -> (r: Result<ValueType, ExpressionTypeError>)
    ensures
        r == comparison_type(id, left, right, ordering),
{
    match (left, right) {
        (Ok(l), Ok(r)) => if l != r {
            Err(ExpressionTypeError::OperandTypeMismatch { expression_id: id, left_type: l, right_type: r })
        } else {
            let integer = match l {
                ValueType::Intrinsic(IntrinsicType::Int32) | ValueType::Intrinsic(IntrinsicType::Int64) => true,
                _ => false,
            };
            let domain = match l {
                ValueType::Domain(_) => true,
                ValueType::Intrinsic(_) => false,
            };
            if (ordering && !integer) || domain {
                Err(ExpressionTypeError::UnsupportedOperandType { expression_id: id, operand_type: l })
            } else {
                Ok(ValueType::Intrinsic(IntrinsicType::Bool))
            }
        },
        _ => Err(ExpressionTypeError::OperandTypeUnavailable { expression_id: id }),
    }
}

fn projection_result(
    modules: &Vec<Module>,
    id: ExpressionId,
    source: ExpressionId,
    source_type: Result<ValueType, ExpressionTypeError>,
) -> (r: Result<ValueType, ExpressionTypeError>)
    ensures
        r == projection_type(module_views(modules@), id, source, source_type),
{
    match source_type {
        Err(_) => Err(
            ExpressionTypeError::DomainProjectSourceTypeUnavailable {
                expression_id: id,
                source_expression_id: source,
            },
        ),
        Ok(ValueType::Intrinsic(i)) => Err(
            ExpressionTypeError::DomainProjectSourceNotDomain {
                expression_id: id,
                source_expression_id: source,
                actual_type: ValueType::Intrinsic(i),
            },
        ),
        Ok(ValueType::Domain(t)) => match locate_domain_type(modules, t) {
            Some((i, k)) => Ok(ValueType::Intrinsic(modules[i].domain_types[k].representation)),
            None => Err(ExpressionTypeError::UnresolvedDomainType { expression_id: id, type_id: t }),
        },
    }
}

fn resolved_result(modules: &Vec<Module>, id: ExpressionId, value_type: ValueType) -> (r: Result<
    ValueType,
    ExpressionTypeError,
>)
    ensures
        r == resolved_type(module_views(modules@), id, value_type),
{
    match value_type {
        ValueType::Domain(t) => if locate_domain_type(modules, t).is_some() {
            Ok(value_type)
        } else {
            Err(ExpressionTypeError::UnresolvedDomainType { expression_id: id, type_id: t })
        },
        ValueType::Intrinsic(_) => Ok(value_type),
    }
}

/// `level` holds the type of every Expression of the Block, by position,
/// derived `fuel` levels deep.
pub open spec fn typed_level(
    level: Seq<Result<ValueType, ExpressionTypeError>>,
    modules: Seq<ModuleView>,
    function: FunctionView,
    block: BlockView,
    fuel: nat,
) -> bool {
    &&& level.len() == block.expressions.len()
    &&& forall|q: int| 0 <= q < level.len() ==> #[trigger] level[q] == expression_type_in(
        modules,
        function,
        block,
        block.expressions[q].id,
        fuel,
    )
}

/// The type, `fuel` levels deep, of operand `operand` of the Block, read
/// from the types of its Expressions at that depth.
fn operand_type(
    modules: &Vec<Module>,
    function: &Function,
    block: &Block,
    level: &Vec<Result<ValueType, ExpressionTypeError>>,
    operand: ExpressionId,
    fuel: usize,
) -> (r: Result<ValueType, ExpressionTypeError>)
    requires
        typed_level(level@, module_views(modules@), function@, block@, fuel as nat),
    ensures
        r == expression_type_in(module_views(modules@), function@, block@, operand, fuel as nat),
{
    let ghost views = block@.expressions;
    proof {
        crate::lookup::lemma_first_index_facts(views, crate::body::expression_has_id(operand));
    }
    match position_of_expression(&block.expressions, operand) {
        Some(p) => {
            assert(views[p as int].id == operand);
            level[p]
        },
        None => Err(ExpressionTypeError::OperandTypeUnavailable { expression_id: operand }),
    }
}

/// The type of the Block's Expression `id`, `fuel` levels deep, from the
/// types of the Block's Expressions one level shallower.
fn type_from_level(
    modules: &Vec<Module>,
    function: &Function,
    block: &Block,
    level: &Vec<Result<ValueType, ExpressionTypeError>>,
    id: ExpressionId,
    fuel: usize,
) -> (r: Result<ValueType, ExpressionTypeError>)
    requires
        fuel > 0 ==> typed_level(level@, module_views(modules@), function@, block@, (fuel - 1) as nat),
    ensures
        r == expression_type_in(module_views(modules@), function@, block@, id, fuel as nat),
{
    let l = match position_of_expression(&block.expressions, id) {
        None => {
            return Err(ExpressionTypeError::OperandTypeUnavailable { expression_id: id });
        },
        Some(l) => l,
    };
    match &block.expressions[l].kind {
        ExpressionKind::Int32Literal(_) => Ok(ValueType::Intrinsic(IntrinsicType::Int32)),
        ExpressionKind::Int64Literal(_) => Ok(ValueType::Intrinsic(IntrinsicType::Int64)),
        ExpressionKind::BoolLiteral(_) => Ok(ValueType::Intrinsic(IntrinsicType::Bool)),
        ExpressionKind::UnitLiteral => Ok(ValueType::Intrinsic(IntrinsicType::Unit)),
        ExpressionKind::TextLiteral(_) => Ok(ValueType::Intrinsic(IntrinsicType::Text)),
        ExpressionKind::BytesLiteral(_) => Ok(ValueType::Intrinsic(IntrinsicType::Bytes)),
        ExpressionKind::ParameterReference(p) => match function.parameter(*p) {
            Some(parameter) => resolved_result(modules, id, parameter.value_type),
            None => Err(ExpressionTypeError::UnresolvedParameter { expression_id: id, parameter_id: *p }),
        },
        ExpressionKind::Call { target, .. } => match locate_function(modules, *target) {
            Some((i, j)) => Ok(modules[i].functions[j].return_type),
            None => Err(ExpressionTypeError::UnresolvedFunction { expression_id: id, function_id: *target }),
        },
        ExpressionKind::DomainConstruct { type_id, .. } => if locate_domain_type(modules, *type_id).is_some() {
            Ok(ValueType::Domain(*type_id))
        } else {
            Err(ExpressionTypeError::UnresolvedDomainType { expression_id: id, type_id: *type_id })
        },
        ExpressionKind::DomainProject { value } => {
            let source = if fuel == 0 {
                Err(ExpressionTypeError::OperandTypeUnavailable { expression_id: *value })
            } else {
                operand_type(modules, function, block, level, *value, fuel - 1)
            };
            projection_result(modules, id, *value, source)
        },
        ExpressionKind::Add { left, right } | ExpressionKind::Subtract { left, right }
        | ExpressionKind::Multiply { left, right } | ExpressionKind::Divide { left, right }
        | ExpressionKind::Remainder { left, right } => {
            if fuel == 0 {
                Err(ExpressionTypeError::OperandTypeUnavailable { expression_id: id })
            } else {
                let left_type = operand_type(modules, function, block, level, *left, fuel - 1);
                let right_type = operand_type(modules, function, block, level, *right, fuel - 1);
                arithmetic_result(id, left_type, right_type)
            }
        },
        ExpressionKind::Equal { left, right } | ExpressionKind::NotEqual { left, right } => {
            if fuel == 0 {
                Err(ExpressionTypeError::OperandTypeUnavailable { expression_id: id })
            } else {
                let left_type = operand_type(modules, function, block, level, *left, fuel - 1);
                let right_type = operand_type(modules, function, block, level, *right, fuel - 1);
                comparison_result(id, left_type, right_type, false)
            }
        },
        ExpressionKind::LessThan { left, right } | ExpressionKind::LessThanOrEqual { left, right }
        | ExpressionKind::GreaterThan { left, right }
        | ExpressionKind::GreaterThanOrEqual { left, right } => {
            if fuel == 0 {
                Err(ExpressionTypeError::OperandTypeUnavailable { expression_id: id })
            } else {
                let left_type = operand_type(modules, function, block, level, *left, fuel - 1);
                let right_type = operand_type(modules, function, block, level, *right, fuel - 1);
                comparison_result(id, left_type, right_type, true)
            }
        },
    }
}

/// The types of every Expression of the Block, `fuel` levels deep, from
/// those one level shallower.
fn next_level(
    modules: &Vec<Module>,
    function: &Function,
    block: &Block,
    level: &Vec<Result<ValueType, ExpressionTypeError>>,
    fuel: usize,
) -> (r: Vec<Result<ValueType, ExpressionTypeError>>)
    requires
        fuel > 0 ==> typed_level(level@, module_views(modules@), function@, block@, (fuel - 1) as nat),
    ensures
        typed_level(r@, module_views(modules@), function@, block@, fuel as nat),
{
    let ghost mv = module_views(modules@);
    let mut next: Vec<Result<ValueType, ExpressionTypeError>> = Vec::new();
    let mut q: usize = 0;
    while q < block.expressions.len()
        invariant
            q <= block.expressions@.len(),
            next@.len() == q,
            mv == module_views(modules@),
            fuel > 0 ==> typed_level(level@, mv, function@, block@, (fuel - 1) as nat),
            forall|k: int| 0 <= k < q ==> #[trigger] next@[k] == expression_type_in(
                mv,
                function@,
                block@,
                block@.expressions[k].id,
                fuel as nat,
            ),
        decreases block.expressions.len() - q,
    {
        let t = type_from_level(modules, function, block, level, block.expressions[q].id, fuel);
        next.push(t);
        q = q + 1;
    }
    next
}

/// Derives the type of the Block's Expression `id`, `fuel` levels deep,
/// one level of the whole Block at a time, so that each Expression is
/// typed once per level.
fn derive_expression_type_in_block(
    modules: &Vec<Module>,
    function: &Function,
    block: &Block,
    id: ExpressionId,
    fuel: usize,
) -> (r: Result<ValueType, ExpressionTypeError>)
    ensures
        r == expression_type_in(module_views(modules@), function@, block@, id, fuel as nat),
{
    let empty: Vec<Result<ValueType, ExpressionTypeError>> = Vec::new();
    if fuel == 0 {
        return type_from_level(modules, function, block, &empty, id, 0);
    }
    let mut level = next_level(modules, function, block, &empty, 0);
    let mut f: usize = 0;
    while f + 1 < fuel
        invariant
            f < fuel,
            typed_level(level@, module_views(modules@), function@, block@, f as nat),
        decreases fuel - f,
    {
        level = next_level(modules, function, block, &level, f + 1);
        f = f + 1;
    }
    type_from_level(modules, function, block, &level, id, fuel)
}

/// Derives the value type of Expression `id` of the Program.
pub(crate) fn derive_expression_type(modules: &Vec<Module>, id: ExpressionId) -> (r: Option<
    Result<ValueType, ExpressionTypeError>,
>)
    ensures
        r == expression_type(module_views(modules@), id),
{
    match locate_expression(modules, id) {
        None => None,
        Some((i, j, k, _l)) => {
            let function = &modules[i].functions[j];
            match &function.body {
                Some(body) => {
                    let block = &body.blocks[k];
                    assert(module_views(modules@)[i as int].functions[j as int] == function@);
                    Some(derive_expression_type_in_block(modules, function, block, id, block.expressions.len()))
                },
                None => None,
            }
        },
    }
}

} // verus!
