//! Semantic equality of Program content: equal identities and semantic
//! data, with presentation text compared by its characters.
use vstd::prelude::*;

use crate::body::{Block, BlockView, BodyView, Expression, ExpressionKind, FunctionBody};
use crate::ids::ExpressionId;
use crate::model::{function_views, module_views, DomainType, Function, FunctionView, Module, ModuleView, Parameter};
use crate::presentation::{text_of, PresentationMetadata};

verus! {

/// Two presentations carry the same text.
pub open spec fn same_presentation(a: PresentationMetadata, b: PresentationMetadata) -> bool {
    text_of(a.preferred_name) == text_of(b.preferred_name) && text_of(a.documentation) == text_of(
        b.documentation,
    )
}

/// Two Parameters are semantically equal.
pub open spec fn same_parameter(a: Parameter, b: Parameter) -> bool {
    a.id == b.id && a.value_type == b.value_type && same_presentation(a.presentation, b.presentation)
}

/// Two Domain Types are semantically equal.
pub open spec fn same_domain_type(a: DomainType, b: DomainType) -> bool {
    a.id == b.id && a.representation == b.representation && same_presentation(a.presentation, b.presentation)
}

/// Two Functions are semantically equal.
pub open spec fn same_function(a: FunctionView, b: FunctionView) -> bool {
    &&& a.id == b.id
    &&& a.return_type == b.return_type
    &&& a.parameters.len() == b.parameters.len()
    &&& forall|p: int| 0 <= p < a.parameters.len() ==> same_parameter(#[trigger] a.parameters[p], b.parameters[p])
    &&& a.body == b.body
    &&& same_presentation(a.presentation, b.presentation)
}

/// Two Modules are semantically equal.
pub open spec fn same_module(a: ModuleView, b: ModuleView) -> bool {
    &&& a.id == b.id
    &&& a.domain_types.len() == b.domain_types.len()
    &&& forall|t: int| 0 <= t < a.domain_types.len() ==> same_domain_type(#[trigger] a.domain_types[t], b.domain_types[t])
    &&& a.functions.len() == b.functions.len()
    &&& forall|j: int| 0 <= j < a.functions.len() ==> same_function(#[trigger] a.functions[j], b.functions[j])
    &&& same_presentation(a.presentation, b.presentation)
}

/// Two sets of Modules are semantically equal, position by position.
pub open spec fn same_modules(a: Seq<ModuleView>, b: Seq<ModuleView>) -> bool {
    a.len() == b.len() && forall|i: int| 0 <= i < a.len() ==> same_module(#[trigger] a[i], b[i])
}

fn same_text(a: &Option<String>, b: &Option<String>) -> (r: bool)
    ensures
        r == (text_of(*a) == text_of(*b)),
{
    match (a, b) {
        (Some(x), Some(y)) => *x == *y,
        (None, None) => true,
        _ => false,
    }
}

fn same_presentation_of(a: &PresentationMetadata, b: &PresentationMetadata) -> (r: bool)
    ensures
        r == same_presentation(*a, *b),
{
    same_text(&a.preferred_name, &b.preferred_name) && same_text(&a.documentation, &b.documentation)
}

fn same_id_list(a: &Vec<ExpressionId>, b: &Vec<ExpressionId>) -> (r: bool)
    ensures
        r == (a@ == b@),
{
    if a.len() != b.len() {
        return false;
    }
    let mut k: usize = 0;
    while k < a.len()
        invariant
            k <= a@.len() == b@.len(),
            forall|m: int| 0 <= m < k ==> a@[m] == b@[m],
        decreases a.len() - k,
    {
        if a[k] != b[k] {
            return false;
        }
        k = k + 1;
    }
    assert(a@ =~= b@);
    true
}

fn same_bytes(a: &Vec<u8>, b: &Vec<u8>) -> (r: bool)
    ensures
        r == (a@ == b@),
{
    if a.len() != b.len() {
        return false;
    }
    let mut k: usize = 0;
    while k < a.len()
        invariant
            k <= a@.len() == b@.len(),
            forall|m: int| 0 <= m < k ==> a@[m] == b@[m],
        decreases a.len() - k,
    {
        if a[k] != b[k] {
            return false;
        }
        k = k + 1;
    }
    assert(a@ =~= b@);
    true
}

fn same_kind(a: &ExpressionKind, b: &ExpressionKind) -> (r: bool)
    ensures
        r == (a@ == b@),
{
    match (a, b) {
        (ExpressionKind::Int32Literal(x), ExpressionKind::Int32Literal(y)) => *x == *y,
        (ExpressionKind::Int64Literal(x), ExpressionKind::Int64Literal(y)) => *x == *y,
        (ExpressionKind::BoolLiteral(x), ExpressionKind::BoolLiteral(y)) => *x == *y,
        (ExpressionKind::UnitLiteral, ExpressionKind::UnitLiteral) => true,
        (ExpressionKind::TextLiteral(x), ExpressionKind::TextLiteral(y)) => *x == *y,
        (ExpressionKind::BytesLiteral(x), ExpressionKind::BytesLiteral(y)) => same_bytes(x, y),
        (ExpressionKind::ParameterReference(x), ExpressionKind::ParameterReference(y)) => *x == *y,
        (ExpressionKind::Add { left: l1, right: r1 }, ExpressionKind::Add { left: l2, right: r2 }) => *l1 == *l2 && *r1 == *r2,
        (ExpressionKind::Subtract { left: l1, right: r1 }, ExpressionKind::Subtract { left: l2, right: r2 }) => *l1 == *l2 && *r1 == *r2,
        (ExpressionKind::Multiply { left: l1, right: r1 }, ExpressionKind::Multiply { left: l2, right: r2 }) => *l1 == *l2 && *r1 == *r2,
        (ExpressionKind::Divide { left: l1, right: r1 }, ExpressionKind::Divide { left: l2, right: r2 }) => *l1 == *l2 && *r1 == *r2,
        (ExpressionKind::Remainder { left: l1, right: r1 }, ExpressionKind::Remainder { left: l2, right: r2 }) => *l1 == *l2 && *r1 == *r2,
        (ExpressionKind::Equal { left: l1, right: r1 }, ExpressionKind::Equal { left: l2, right: r2 }) => *l1 == *l2 && *r1 == *r2,
        (ExpressionKind::NotEqual { left: l1, right: r1 }, ExpressionKind::NotEqual { left: l2, right: r2 }) => *l1 == *l2 && *r1 == *r2,
        (ExpressionKind::LessThan { left: l1, right: r1 }, ExpressionKind::LessThan { left: l2, right: r2 }) => *l1 == *l2 && *r1 == *r2,
        (ExpressionKind::LessThanOrEqual { left: l1, right: r1 }, ExpressionKind::LessThanOrEqual { left: l2, right: r2 }) => *l1 == *l2 && *r1 == *r2,
        (ExpressionKind::GreaterThan { left: l1, right: r1 }, ExpressionKind::GreaterThan { left: l2, right: r2 }) => *l1 == *l2 && *r1 == *r2,
        (ExpressionKind::GreaterThanOrEqual { left: l1, right: r1 }, ExpressionKind::GreaterThanOrEqual { left: l2, right: r2 }) => *l1 == *l2 && *r1 == *r2,
        (ExpressionKind::Call { target: t1, arguments: a1 }, ExpressionKind::Call { target: t2, arguments: a2 }) => *t1 == *t2 && same_id_list(a1, a2),
        (ExpressionKind::DomainConstruct { type_id: t1, value: v1 }, ExpressionKind::DomainConstruct { type_id: t2, value: v2 }) => *t1 == *t2 && *v1 == *v2,
        (ExpressionKind::DomainProject { value: v1 }, ExpressionKind::DomainProject { value: v2 }) => *v1 == *v2,
        _ => false,
    }
}

fn same_block(a: &Block, b: &Block) -> (r: bool)
    ensures
        r == (a@ == b@),
{
    if a.id != b.id || a.terminator != b.terminator || !same_id_list(&a.effect_sequence, &b.effect_sequence) {
        return false;
    }
    if a.expressions.len() != b.expressions.len() {
        assert(a@.expressions.len() != b@.expressions.len());
        return false;
    }
    let mut l: usize = 0;
    while l < a.expressions.len()
        invariant
            l <= a.expressions@.len() == b.expressions@.len(),
            forall|m: int| 0 <= m < l ==> a.expressions@[m]@ == b.expressions@[m]@,
        decreases a.expressions.len() - l,
    {
        if a.expressions[l].id != b.expressions[l].id || !same_kind(&a.expressions[l].kind, &b.expressions[l].kind) {
            assert(a@.expressions[l as int] != b@.expressions[l as int]);
            return false;
        }
        l = l + 1;
    }
    assert(a@.expressions =~= b@.expressions);
    true
}

fn same_body(a: &FunctionBody, b: &FunctionBody) -> (r: bool)
    ensures
        r == (a@ == b@),
{
    if a.entry_block_id != b.entry_block_id || a.blocks.len() != b.blocks.len() {
        assert(a@.entry_block_id != b@.entry_block_id || a@.blocks.len() != b@.blocks.len());
        return false;
    }
    let mut k: usize = 0;
    while k < a.blocks.len()
        invariant
            k <= a.blocks@.len() == b.blocks@.len(),
            forall|m: int| 0 <= m < k ==> a.blocks@[m]@ == b.blocks@[m]@,
        decreases a.blocks.len() - k,
    {
        if !same_block(&a.blocks[k], &b.blocks[k]) {
            assert(a@.blocks[k as int] != b@.blocks[k as int]);
            return false;
        }
        k = k + 1;
    }
    assert(a@.blocks =~= b@.blocks);
    true
}

fn same_function_of(a: &Function, b: &Function) -> (r: bool)
    ensures
        r == same_function(a@, b@),
{
    if a.id != b.id || a.return_type != b.return_type || a.parameters.len() != b.parameters.len() {
        return false;
    }
    let mut p: usize = 0;
    while p < a.parameters.len()
        invariant
            p <= a.parameters@.len() == b.parameters@.len(),
            forall|m: int| 0 <= m < p ==> same_parameter(#[trigger] a.parameters@[m], b.parameters@[m]),
        decreases a.parameters.len() - p,
    {
        let x = &a.parameters[p];
        let y = &b.parameters[p];
        if x.id != y.id || x.value_type != y.value_type || !same_presentation_of(&x.presentation, &y.presentation) {
            return false;
        }
        p = p + 1;
    }
    let bodies = match (&a.body, &b.body) {
        (Some(x), Some(y)) => same_body(x, y),
        (None, None) => true,
        _ => false,
    };
    bodies && same_presentation_of(&a.presentation, &b.presentation)
}

fn same_module_of(a: &Module, b: &Module) -> (r: bool)
    ensures
        r == same_module(a@, b@),
{
    if a.id != b.id || a.domain_types.len() != b.domain_types.len() || a.functions.len() != b.functions.len() {
        return false;
    }
    let mut t: usize = 0;
    while t < a.domain_types.len()
        invariant
            t <= a.domain_types@.len() == b.domain_types@.len(),
            forall|m: int| 0 <= m < t ==> same_domain_type(#[trigger] a.domain_types@[m], b.domain_types@[m]),
        decreases a.domain_types.len() - t,
    {
        let x = &a.domain_types[t];
        let y = &b.domain_types[t];
        if x.id != y.id || x.representation != y.representation || !same_presentation_of(&x.presentation, &y.presentation) {
            return false;
        }
        t = t + 1;
    }
    let mut j: usize = 0;
    while j < a.functions.len()
        invariant
            j <= a.functions@.len() == b.functions@.len(),
            forall|m: int| 0 <= m < j ==> same_function(#[trigger] a@.functions[m], b@.functions[m]),
        decreases a.functions.len() - j,
    {
        if !same_function_of(&a.functions[j], &b.functions[j]) {
            assert(!same_function(a@.functions[j as int], b@.functions[j as int]));
            return false;
        }
        j = j + 1;
    }
    same_presentation_of(&a.presentation, &b.presentation)
}

/// Whether two sets of Modules are semantically equal.
pub(crate) fn same_modules_of(a: &Vec<Module>, b: &Vec<Module>) -> (r: bool)
    ensures
        r == same_modules(module_views(a@), module_views(b@)),
{
    if a.len() != b.len() {
        return false;
    }
    let ghost av = module_views(a@);
    let ghost bv = module_views(b@);
    let mut i: usize = 0;
    while i < a.len()
        invariant
            i <= a@.len() == b@.len(),
            av == module_views(a@),
            bv == module_views(b@),
            forall|m: int| 0 <= m < i ==> same_module(#[trigger] av[m], bv[m]),
        decreases a.len() - i,
    {
        if !same_module_of(&a[i], &b[i]) {
            assert(!same_module(av[i as int], bv[i as int]));
            return false;
        }
        i = i + 1;
    }
    true
}

} // verus!
