//! Persistence checkpoints and validated reconstruction of a Program lineage
//! from detached persistent state.
use vstd::prelude::*;

use crate::body::{block_views, expression_views, Block, BlockView, Expression, ExpressionKind, ExpressionView, FunctionBody, KindView, Terminator};
use crate::ids::{
    be_value_of, u128_from_be_bytes, u128_to_be_bytes, be_bytes_of, AllocationCounterState, AllocationNamespaceId, BlockId, ExpressionId,
    FunctionId, ModuleId, ParameterId, ProgramId, RevisionId, TypeId,
};
use crate::intrinsic::{IntrinsicType, ValueType};
use crate::inventory::{
    block_keys, collect_inventory, expression_keys, function_keys, module_keys, parameter_keys, type_keys,
};
use crate::model::{function_views, module_views, DomainType, Function, FunctionView, Module, ModuleView, Parameter};
use crate::presentation::PresentationMetadata;
use crate::program::{present_history, revision_wf, RevisionState, RevisionView, History};
use crate::validation::{structurally_valid, validate_modules};
use crate::authority::{claim_failure, restore_failure_of, restored_claim, AuthorityLease, AuthorityRegistry};

verus! {

/// Persistent state of the lineage-local revision allocator.
#[derive(Clone, Copy, Debug, PartialEq, Eq, Structural)]
pub enum RevisionCounterState {
    Available(u64),
    Exhausted,
}

/// Raw wire components for one typed persistent entity reference: the
/// sixteen namespace bytes and the counter.
#[derive(Clone, Copy, Debug, PartialEq, Eq)]
pub struct PersistenceEntityId {
    pub namespace: [u8; 16],
    pub counter: u64,
}

/// The allocation namespace that a persistent reference names.
pub open spec fn entity_namespace(id: PersistenceEntityId) -> AllocationNamespaceId {
    AllocationNamespaceId(be_value_of(id.namespace@) as u128)
}

/// The Module identity that a persistent reference names.
pub open spec fn module_id_of(id: PersistenceEntityId) -> ModuleId {
    ModuleId { namespace_id: entity_namespace(id), counter: id.counter }
}

/// The Domain Type identity that a persistent reference names.
pub open spec fn type_id_of(id: PersistenceEntityId) -> TypeId {
    TypeId { namespace_id: entity_namespace(id), counter: id.counter }
}

/// The Function identity that a persistent reference names.
pub open spec fn function_id_of(id: PersistenceEntityId) -> FunctionId {
    FunctionId { namespace_id: entity_namespace(id), counter: id.counter }
}

/// The Parameter identity that a persistent reference names.
pub open spec fn parameter_id_of(id: PersistenceEntityId) -> ParameterId {
    ParameterId { namespace_id: entity_namespace(id), counter: id.counter }
}

/// The Block identity that a persistent reference names.
pub open spec fn block_id_of(id: PersistenceEntityId) -> BlockId {
    BlockId { namespace_id: entity_namespace(id), counter: id.counter }
}

/// The Expression identity that a persistent reference names.
pub open spec fn expression_id_of(id: PersistenceEntityId) -> ExpressionId {
    ExpressionId { namespace_id: entity_namespace(id), counter: id.counter }
}

impl PersistenceEntityId {
    /// A persistent reference from its namespace bytes and counter.
    pub fn new(namespace: [u8; 16], counter: u64) -> (r: Self)
        ensures
            r.namespace == namespace,
            r.counter == counter,
    {
        PersistenceEntityId { namespace, counter }
    }

    /// Returns the sixteen namespace bytes.
    pub fn namespace_bytes(self) -> (r: [u8; 16])
        ensures
            r == self.namespace,
    {
        self.namespace
    }

    /// Returns the counter.
    pub fn counter(self) -> (r: u64)
        ensures
            r == self.counter,
    {
        self.counter
    }

    fn namespace_id(self) -> (r: AllocationNamespaceId)
        ensures
            r == entity_namespace(self),
    {
        AllocationNamespaceId(u128_from_be_bytes(self.namespace))
    }

    fn module_id(self) -> (r: ModuleId)
        ensures
            r == module_id_of(self),
    {
        ModuleId { namespace_id: self.namespace_id(), counter: self.counter }
    }

    fn type_id(self) -> (r: TypeId)
        ensures
            r == type_id_of(self),
    {
        TypeId { namespace_id: self.namespace_id(), counter: self.counter }
    }

    fn function_id(self) -> (r: FunctionId)
        ensures
            r == function_id_of(self),
    {
        FunctionId { namespace_id: self.namespace_id(), counter: self.counter }
    }

    fn parameter_id(self) -> (r: ParameterId)
        ensures
            r == parameter_id_of(self),
    {
        ParameterId { namespace_id: self.namespace_id(), counter: self.counter }
    }

    fn block_id(self) -> (r: BlockId)
        ensures
            r == block_id_of(self),
    {
        BlockId { namespace_id: self.namespace_id(), counter: self.counter }
    }

    fn expression_id(self) -> (r: ExpressionId)
        ensures
            r == expression_id_of(self),
    {
        ExpressionId { namespace_id: self.namespace_id(), counter: self.counter }
    }
}

/// The persistent reference of an identity with namespace `namespace_id`
/// and counter `counter`.
fn persistent_reference(namespace_id: AllocationNamespaceId, counter: u64) -> (r: PersistenceEntityId)
    ensures
        r.namespace@ == be_bytes_of(namespace_id.0),
        r.counter == counter,
{
    PersistenceEntityId { namespace: u128_to_be_bytes(namespace_id.0), counter }
}

/// A persistent value type: intrinsic, or a reference to a Domain Type.
#[derive(Clone, Copy, Debug, PartialEq, Eq)]
pub enum PersistenceValueType {
    Intrinsic(IntrinsicType),
    Domain(PersistenceEntityId),
}

/// The value type that a persistent value type names.
pub open spec fn value_type_of(t: PersistenceValueType) -> ValueType {
    match t {
        PersistenceValueType::Intrinsic(i) => ValueType::Intrinsic(i),
        PersistenceValueType::Domain(id) => ValueType::Domain(type_id_of(id)),
    }
}

impl PersistenceValueType {
    fn into_value_type(self) -> (r: ValueType)
        ensures
            r == value_type_of(self),
    {
        match self {
            PersistenceValueType::Intrinsic(i) => ValueType::Intrinsic(i),
            PersistenceValueType::Domain(id) => ValueType::Domain(id.type_id()),
        }
    }
}

/// A persistent Expression kind, with persistent references.
#[derive(Clone, Debug, PartialEq, Eq)]
pub enum PersistenceExpressionKind {
    Int32Literal(i32),
    Int64Literal(i64),
    BoolLiteral(bool),
    UnitLiteral,
    TextLiteral(String),
    BytesLiteral(Vec<u8>),
    ParameterReference(PersistenceEntityId),
    Add { left: PersistenceEntityId, right: PersistenceEntityId },
    Subtract { left: PersistenceEntityId, right: PersistenceEntityId },
    Multiply { left: PersistenceEntityId, right: PersistenceEntityId },
    Divide { left: PersistenceEntityId, right: PersistenceEntityId },
    Remainder { left: PersistenceEntityId, right: PersistenceEntityId },
    Equal { left: PersistenceEntityId, right: PersistenceEntityId },
    NotEqual { left: PersistenceEntityId, right: PersistenceEntityId },
    LessThan { left: PersistenceEntityId, right: PersistenceEntityId },
    LessThanOrEqual { left: PersistenceEntityId, right: PersistenceEntityId },
    GreaterThan { left: PersistenceEntityId, right: PersistenceEntityId },
    GreaterThanOrEqual { left: PersistenceEntityId, right: PersistenceEntityId },
    Call { target: PersistenceEntityId, arguments: Vec<PersistenceEntityId> },
    DomainConstruct { type_id: PersistenceEntityId, value: PersistenceEntityId },
    DomainProject { value: PersistenceEntityId },
}

/// The Expression identities that a sequence of persistent references names.
pub open spec fn expression_ids_of(ids: Seq<PersistenceEntityId>) -> Seq<ExpressionId> {
    ids.map_values(|id: PersistenceEntityId| expression_id_of(id))
}

/// The Expression kind that a persistent Expression kind names.
pub open spec fn kind_of(kind: PersistenceExpressionKind) -> KindView {
    match kind {
        PersistenceExpressionKind::Int32Literal(v) => KindView::Int32Literal(v),
        PersistenceExpressionKind::Int64Literal(v) => KindView::Int64Literal(v),
        PersistenceExpressionKind::BoolLiteral(v) => KindView::BoolLiteral(v),
        PersistenceExpressionKind::UnitLiteral => KindView::UnitLiteral,
        PersistenceExpressionKind::TextLiteral(v) => KindView::TextLiteral(v@),
        PersistenceExpressionKind::BytesLiteral(v) => KindView::BytesLiteral(v@),
        PersistenceExpressionKind::ParameterReference(p) => KindView::ParameterReference(parameter_id_of(p)),
        PersistenceExpressionKind::Add { left, right } => KindView::Add { left: expression_id_of(left), right: expression_id_of(right) },
        PersistenceExpressionKind::Subtract { left, right } => KindView::Subtract { left: expression_id_of(left), right: expression_id_of(right) },
        PersistenceExpressionKind::Multiply { left, right } => KindView::Multiply { left: expression_id_of(left), right: expression_id_of(right) },
        PersistenceExpressionKind::Divide { left, right } => KindView::Divide { left: expression_id_of(left), right: expression_id_of(right) },
        PersistenceExpressionKind::Remainder { left, right } => KindView::Remainder { left: expression_id_of(left), right: expression_id_of(right) },
        PersistenceExpressionKind::Equal { left, right } => KindView::Equal { left: expression_id_of(left), right: expression_id_of(right) },
        PersistenceExpressionKind::NotEqual { left, right } => KindView::NotEqual { left: expression_id_of(left), right: expression_id_of(right) },
        PersistenceExpressionKind::LessThan { left, right } => KindView::LessThan { left: expression_id_of(left), right: expression_id_of(right) },
        PersistenceExpressionKind::LessThanOrEqual { left, right } => KindView::LessThanOrEqual { left: expression_id_of(left), right: expression_id_of(right) },
        PersistenceExpressionKind::GreaterThan { left, right } => KindView::GreaterThan { left: expression_id_of(left), right: expression_id_of(right) },
        PersistenceExpressionKind::GreaterThanOrEqual { left, right } => KindView::GreaterThanOrEqual { left: expression_id_of(left), right: expression_id_of(right) },
        PersistenceExpressionKind::Call { target, arguments } => KindView::Call { target: function_id_of(target), arguments: expression_ids_of(arguments@) },
        PersistenceExpressionKind::DomainConstruct { type_id, value } => KindView::DomainConstruct { type_id: type_id_of(type_id), value: expression_id_of(value) },
        PersistenceExpressionKind::DomainProject { value } => KindView::DomainProject { value: expression_id_of(value) },
    }
}

/// Converts persistent references into Expression identities.
fn into_expression_ids(ids: Vec<PersistenceEntityId>) -> (r: Vec<ExpressionId>)
    ensures
        r@ == expression_ids_of(ids@),
{
    let mut out: Vec<ExpressionId> = Vec::new();
    let mut k: usize = 0;
    while k < ids.len()
        invariant
            k <= ids@.len(),
            out@ == expression_ids_of(ids@.take(k as int)),
        decreases ids.len() - k,
    {
        out.push(ids[k].expression_id());
        k = k + 1;
        assert(out@ =~= expression_ids_of(ids@.take(k as int)));
    }
    assert(ids@.take(k as int) =~= ids@);
    out
}

impl PersistenceExpressionKind {
    fn into_expression_kind(self) -> (r: ExpressionKind)
        ensures
            r@ == kind_of(self),
    {
        match self {
            PersistenceExpressionKind::Int32Literal(v) => ExpressionKind::Int32Literal(v),
            PersistenceExpressionKind::Int64Literal(v) => ExpressionKind::Int64Literal(v),
            PersistenceExpressionKind::BoolLiteral(v) => ExpressionKind::BoolLiteral(v),
            PersistenceExpressionKind::UnitLiteral => ExpressionKind::UnitLiteral,
            PersistenceExpressionKind::TextLiteral(v) => ExpressionKind::TextLiteral(v),
            PersistenceExpressionKind::BytesLiteral(v) => ExpressionKind::BytesLiteral(v),
            PersistenceExpressionKind::ParameterReference(p) => ExpressionKind::ParameterReference(p.parameter_id()),
            PersistenceExpressionKind::Add { left, right } => ExpressionKind::Add { left: left.expression_id(), right: right.expression_id() },
            PersistenceExpressionKind::Subtract { left, right } => ExpressionKind::Subtract { left: left.expression_id(), right: right.expression_id() },
            PersistenceExpressionKind::Multiply { left, right } => ExpressionKind::Multiply { left: left.expression_id(), right: right.expression_id() },
            PersistenceExpressionKind::Divide { left, right } => ExpressionKind::Divide { left: left.expression_id(), right: right.expression_id() },
            PersistenceExpressionKind::Remainder { left, right } => ExpressionKind::Remainder { left: left.expression_id(), right: right.expression_id() },
            PersistenceExpressionKind::Equal { left, right } => ExpressionKind::Equal { left: left.expression_id(), right: right.expression_id() },
            PersistenceExpressionKind::NotEqual { left, right } => ExpressionKind::NotEqual { left: left.expression_id(), right: right.expression_id() },
            PersistenceExpressionKind::LessThan { left, right } => ExpressionKind::LessThan { left: left.expression_id(), right: right.expression_id() },
            PersistenceExpressionKind::LessThanOrEqual { left, right } => ExpressionKind::LessThanOrEqual { left: left.expression_id(), right: right.expression_id() },
            PersistenceExpressionKind::GreaterThan { left, right } => ExpressionKind::GreaterThan { left: left.expression_id(), right: right.expression_id() },
            PersistenceExpressionKind::GreaterThanOrEqual { left, right } => ExpressionKind::GreaterThanOrEqual { left: left.expression_id(), right: right.expression_id() },
            PersistenceExpressionKind::Call { target, arguments } => ExpressionKind::Call {
                target: target.function_id(),
                arguments: into_expression_ids(arguments),
            },
            PersistenceExpressionKind::DomainConstruct { type_id, value } => ExpressionKind::DomainConstruct {
                type_id: type_id.type_id(),
                value: value.expression_id(),
            },
            PersistenceExpressionKind::DomainProject { value } => ExpressionKind::DomainProject { value: value.expression_id() },
        }
    }
}

/// A persistent Block terminator, with persistent references.
#[derive(Clone, Copy, Debug, PartialEq, Eq)]
pub enum PersistenceTerminator {
    Return { expression: PersistenceEntityId },
    Branch { condition: PersistenceEntityId, true_block: PersistenceEntityId, false_block: PersistenceEntityId },
}

/// The terminator that a persistent terminator names.
pub open spec fn terminator_of(t: PersistenceTerminator) -> Terminator {
    match t {
        PersistenceTerminator::Return { expression } => Terminator::Return { expression: expression_id_of(expression) },
        PersistenceTerminator::Branch { condition, true_block, false_block } => Terminator::Branch {
            condition: expression_id_of(condition),
            true_block: block_id_of(true_block),
            false_block: block_id_of(false_block),
        },
    }
}

impl PersistenceTerminator {
    fn into_terminator(self) -> (r: Terminator)
        ensures
            r == terminator_of(self),
    {
        match self {
            PersistenceTerminator::Return { expression } => Terminator::Return { expression: expression.expression_id() },
            PersistenceTerminator::Branch { condition, true_block, false_block } => Terminator::Branch {
                condition: condition.expression_id(),
                true_block: true_block.block_id(),
                false_block: false_block.block_id(),
            },
        }
    }
}

/// Persistent presentation metadata.
#[derive(Debug)]
pub struct PersistencePresentation {
    pub presentation: PresentationMetadata,
}

impl PersistencePresentation {
    /// Persistent presentation metadata from its optional text.
    pub fn new(preferred_name: Option<String>, documentation: Option<String>) -> (r: Self)
        ensures
            r.presentation == (PresentationMetadata { preferred_name, documentation }),
    {
        PersistencePresentation { presentation: PresentationMetadata { preferred_name, documentation } }
    }
}

/// A persistent Expression, staged as the Expression it names.
#[derive(Debug)]
pub struct PersistenceExpression {
    pub expression: Expression,
}

impl PersistenceExpression {
    /// A persistent Expression from its reference and kind.
    pub fn new(id: PersistenceEntityId, kind: PersistenceExpressionKind) -> (r: Self)
        ensures
            r.expression@ == (ExpressionView { id: expression_id_of(id), kind: kind_of(kind) }),
    {
        PersistenceExpression { expression: Expression { id: id.expression_id(), kind: kind.into_expression_kind() } }
    }

    /// Returns the persistent reference of this Expression.
    pub fn persistent_id(&self) -> (r: PersistenceEntityId)
        ensures
            r.namespace@ == be_bytes_of(self.expression.id.namespace_id.0),
            r.counter == self.expression.id.counter,
    {
        persistent_reference(self.expression.id.namespace_id, self.expression.id.counter)
    }
}

/// Unstages persistent Expressions.
fn into_expressions(items: Vec<PersistenceExpression>) -> (r: Vec<Expression>)
    ensures
        expression_views(r@) == items@.map_values(|x: PersistenceExpression| x.expression@),
{
    let ghost orig = items@;
    let total = items.len();
    let mut items = items;
    let mut out: Vec<Expression> = Vec::new();
    let mut k: usize = 0;
    while items.len() > 0
        invariant
            k + items@.len() == orig.len() == total,
            items@ == orig.subrange(k as int, orig.len() as int),
            out@.len() == k,
            forall|m: int| 0 <= m < k ==> #[trigger] out@[m]@ == orig[m].expression@,
        decreases items.len(),
    {
        let item = items.remove(0);
        assert(item == orig[k as int]);
        out.push(item.expression);
        k = k + 1;
        assert(items@ =~= orig.subrange(k as int, orig.len() as int));
    }
    assert(expression_views(out@) =~= orig.map_values(|x: PersistenceExpression| x.expression@));
    out
}

/// A persistent Block, staged as the Block it names.
#[derive(Debug)]
pub struct PersistenceBlock {
    pub block: Block,
}

impl PersistenceBlock {
    /// A persistent Block from its reference, Expressions, effect sequence,
    /// and terminator.
    pub fn new(
        id: PersistenceEntityId,
        expressions: Vec<PersistenceExpression>,
        effect_sequence: Vec<PersistenceEntityId>,
        terminator: PersistenceTerminator,
    ) -> (r: Self)
        ensures
            r.block@ == (BlockView {
                id: block_id_of(id),
                expressions: expressions@.map_values(|x: PersistenceExpression| x.expression@),
                effect_sequence: expression_ids_of(effect_sequence@),
                terminator: Some(terminator_of(terminator)),
            }),
    {
        PersistenceBlock {
            block: Block {
                id: id.block_id(),
                expressions: into_expressions(expressions),
                effect_sequence: into_expression_ids(effect_sequence),
                terminator: Some(terminator.into_terminator()),
            },
        }
    }

    /// Returns the persistent reference of this Block.
    pub fn persistent_id(&self) -> (r: PersistenceEntityId)
        ensures
            r.namespace@ == be_bytes_of(self.block.id.namespace_id.0),
            r.counter == self.block.id.counter,
    {
        persistent_reference(self.block.id.namespace_id, self.block.id.counter)
    }
}

/// Unstages persistent Blocks.
fn into_blocks(items: Vec<PersistenceBlock>) -> (r: Vec<Block>)
    ensures
        block_views(r@) == items@.map_values(|x: PersistenceBlock| x.block@),
{
    let ghost orig = items@;
    let total = items.len();
    let mut items = items;
    let mut out: Vec<Block> = Vec::new();
    let mut k: usize = 0;
    while items.len() > 0
        invariant
            k + items@.len() == orig.len() == total,
            items@ == orig.subrange(k as int, orig.len() as int),
            out@.len() == k,
            forall|m: int| 0 <= m < k ==> #[trigger] out@[m]@ == orig[m].block@,
        decreases items.len(),
    {
        let item = items.remove(0);
        assert(item == orig[k as int]);
        out.push(item.block);
        k = k + 1;
        assert(items@ =~= orig.subrange(k as int, orig.len() as int));
    }
    assert(block_views(out@) =~= orig.map_values(|x: PersistenceBlock| x.block@));
    out
}

/// A persistent Function body, staged as the body it names.
#[derive(Debug)]
pub struct PersistenceBody {
    pub body: FunctionBody,
}

impl PersistenceBody {
    /// A persistent body from its entry reference and Blocks.
    pub fn new(entry_block_id: PersistenceEntityId, blocks: Vec<PersistenceBlock>) -> (r: Self)
        ensures
            r.body@.entry_block_id == block_id_of(entry_block_id),
            r.body@.blocks == blocks@.map_values(|x: PersistenceBlock| x.block@),
    {
        PersistenceBody { body: FunctionBody { entry_block_id: entry_block_id.block_id(), blocks: into_blocks(blocks) } }
    }
}

/// A persistent Parameter, staged as the Parameter it names.
#[derive(Debug)]
pub struct PersistenceParameter {
    pub parameter: Parameter,
}

impl PersistenceParameter {
    /// A persistent Parameter from its reference, type, and presentation.
    pub fn new(id: PersistenceEntityId, value_type: PersistenceValueType, presentation: PersistencePresentation) -> (r: Self)
        ensures
            r.parameter == (Parameter {
                id: parameter_id_of(id),
                value_type: value_type_of(value_type),
                presentation: presentation.presentation,
            }),
    {
        PersistenceParameter {
            parameter: Parameter {
                id: id.parameter_id(),
                value_type: value_type.into_value_type(),
                presentation: presentation.presentation,
            },
        }
    }
}

/// Unstages persistent Parameters.
fn into_parameters(items: Vec<PersistenceParameter>) -> (r: Vec<Parameter>)
    ensures
        seq_identity(r@) == items@.map_values(|x: PersistenceParameter| x.parameter),
{
    let ghost orig = items@;
    let total = items.len();
    let mut items = items;
    let mut out: Vec<Parameter> = Vec::new();
    let mut k: usize = 0;
    while items.len() > 0
        invariant
            k + items@.len() == orig.len() == total,
            items@ == orig.subrange(k as int, orig.len() as int),
            out@.len() == k,
            forall|m: int| 0 <= m < k ==> #[trigger] out@[m] == orig[m].parameter,
        decreases items.len(),
    {
        let item = items.remove(0);
        assert(item == orig[k as int]);
        out.push(item.parameter);
        k = k + 1;
        assert(items@ =~= orig.subrange(k as int, orig.len() as int));
    }
    assert(seq_identity(out@) =~= orig.map_values(|x: PersistenceParameter| x.parameter));
    out
}

/// A persistent Function, staged as the Function it names.
#[derive(Debug)]
pub struct PersistenceFunction {
    pub function: Function,
}

impl PersistenceFunction {
    /// A persistent Function from its reference, signature, optional body,
    /// and presentation.
    pub fn new(
        id: PersistenceEntityId,
        return_type: PersistenceValueType,
        parameters: Vec<PersistenceParameter>,
        body: Option<PersistenceBody>,
        presentation: PersistencePresentation,
    ) -> (r: Self)
        ensures
            r.function@ == (FunctionView {
                id: function_id_of(id),
                return_type: value_type_of(return_type),
                parameters: parameters@.map_values(|x: PersistenceParameter| x.parameter),
                body: match body {
                    Some(b) => Some(b.body@),
                    None => None,
                },
                presentation: presentation.presentation,
            }),
    {
        let body = match body {
            Some(b) => Some(b.body),
            None => None,
        };
        PersistenceFunction {
            function: Function {
                id: id.function_id(),
                return_type: return_type.into_value_type(),
                parameters: into_parameters(parameters),
                body,
                presentation: presentation.presentation,
            },
        }
    }

    /// Returns the persistent reference of this Function.
    pub fn persistent_id(&self) -> (r: PersistenceEntityId)
        ensures
            r.namespace@ == be_bytes_of(self.function.id.namespace_id.0),
            r.counter == self.function.id.counter,
    {
        persistent_reference(self.function.id.namespace_id, self.function.id.counter)
    }
}

/// Unstages persistent Functions.
fn into_functions(items: Vec<PersistenceFunction>) -> (r: Vec<Function>)
    ensures
        function_views(r@) == items@.map_values(|x: PersistenceFunction| x.function@),
{
    let ghost orig = items@;
    let total = items.len();
    let mut items = items;
    let mut out: Vec<Function> = Vec::new();
    let mut k: usize = 0;
    while items.len() > 0
        invariant
            k + items@.len() == orig.len() == total,
            items@ == orig.subrange(k as int, orig.len() as int),
            out@.len() == k,
            forall|m: int| 0 <= m < k ==> #[trigger] out@[m]@ == orig[m].function@,
        decreases items.len(),
    {
        let item = items.remove(0);
        assert(item == orig[k as int]);
        out.push(item.function);
        k = k + 1;
        assert(items@ =~= orig.subrange(k as int, orig.len() as int));
    }
    assert(function_views(out@) =~= orig.map_values(|x: PersistenceFunction| x.function@));
    out
}

/// A persistent Domain Type, staged as the Domain Type it names.
#[derive(Debug)]
pub struct PersistenceDomainType {
    pub domain_type: DomainType,
}

impl PersistenceDomainType {
    /// A persistent Domain Type from its reference, representation, and
    /// presentation.
    pub fn new(id: PersistenceEntityId, representation: IntrinsicType, presentation: PersistencePresentation) -> (r: Self)
        ensures
            r.domain_type == (DomainType { id: type_id_of(id), representation, presentation: presentation.presentation }),
    {
        PersistenceDomainType {
            domain_type: DomainType { id: id.type_id(), representation, presentation: presentation.presentation },
        }
    }

    /// Returns the persistent reference of this Domain Type.
    pub fn persistent_id(&self) -> (r: PersistenceEntityId)
        ensures
            r.namespace@ == be_bytes_of(self.domain_type.id.namespace_id.0),
            r.counter == self.domain_type.id.counter,
    {
        persistent_reference(self.domain_type.id.namespace_id, self.domain_type.id.counter)
    }
}

/// Unstages persistent Domain Types.
fn into_domain_types(items: Vec<PersistenceDomainType>) -> (r: Vec<DomainType>)
    ensures
        seq_identity(r@) == items@.map_values(|x: PersistenceDomainType| x.domain_type),
{
    let ghost orig = items@;
    let total = items.len();
    let mut items = items;
    let mut out: Vec<DomainType> = Vec::new();
    let mut k: usize = 0;
    while items.len() > 0
        invariant
            k + items@.len() == orig.len() == total,
            items@ == orig.subrange(k as int, orig.len() as int),
            out@.len() == k,
            forall|m: int| 0 <= m < k ==> #[trigger] out@[m] == orig[m].domain_type,
        decreases items.len(),
    {
        let item = items.remove(0);
        assert(item == orig[k as int]);
        out.push(item.domain_type);
        k = k + 1;
        assert(items@ =~= orig.subrange(k as int, orig.len() as int));
    }
    assert(seq_identity(out@) =~= orig.map_values(|x: PersistenceDomainType| x.domain_type));
    out
}

/// A persistent Module, staged as the Module it names.
#[derive(Debug)]
pub struct PersistenceModule {
    pub module: Module,
}

impl PersistenceModule {
    /// A persistent Module from its reference, presentation, Domain Types,
    /// and Functions.
    pub fn new(
        id: PersistenceEntityId,
        presentation: PersistencePresentation,
        domain_types: Vec<PersistenceDomainType>,
        functions: Vec<PersistenceFunction>,
    ) -> (r: Self)
        ensures
            r.module@ == (ModuleView {
                id: module_id_of(id),
                domain_types: domain_types@.map_values(|x: PersistenceDomainType| x.domain_type),
                functions: functions@.map_values(|x: PersistenceFunction| x.function@),
                presentation: presentation.presentation,
            }),
    {
        PersistenceModule {
            module: Module {
                id: id.module_id(),
                domain_types: into_domain_types(domain_types),
                functions: into_functions(functions),
                presentation: presentation.presentation,
            },
        }
    }

    /// Returns the persistent reference of this Module.
    pub fn persistent_id(&self) -> (r: PersistenceEntityId)
        ensures
            r.namespace@ == be_bytes_of(self.module.id.namespace_id.0),
            r.counter == self.module.id.counter,
    {
        persistent_reference(self.module.id.namespace_id, self.module.id.counter)
    }
}

/// Unstages persistent Modules.
fn into_modules(items: Vec<PersistenceModule>) -> (r: Vec<Module>)
    ensures
        module_views(r@) == items@.map_values(|x: PersistenceModule| x.module@),
{
    let ghost orig = items@;
    let total = items.len();
    let mut items = items;
    let mut out: Vec<Module> = Vec::new();
    let mut k: usize = 0;
    while items.len() > 0
        invariant
            k + items@.len() == orig.len() == total,
            items@ == orig.subrange(k as int, orig.len() as int),
            out@.len() == k,
            forall|m: int| 0 <= m < k ==> #[trigger] out@[m]@ == orig[m].module@,
        decreases items.len(),
    {
        let item = items.remove(0);
        assert(item == orig[k as int]);
        out.push(item.module);
        k = k + 1;
        assert(items@ =~= orig.subrange(k as int, orig.len() as int));
    }
    assert(module_views(out@) =~= orig.map_values(|x: PersistenceModule| x.module@));
    out
}

/// The identity of a sequence, for conversions that need no view.
pub open spec fn seq_identity<T>(s: Seq<T>) -> Seq<T> {
    s
}

/// Failure to reconstruct a live lineage from detached persistent state.
#[derive(Clone, Copy, Debug, PartialEq, Eq, Structural)]
pub enum PersistenceRestoreError {
    InvalidRevisionAllocator,
    DuplicateEntityIdentity,
    EntityAllocatorBehind,
    StructuralViolation,
    AuthorityAlreadyActive,
    StaleAuthority,
    AuthorityIdentityCollision,
}

/// Detached reconstruction candidate: a complete decoded document, staged
/// as the library values it names.
#[derive(Debug)]
pub struct PersistenceProgram {
    pub program_id: ProgramId,
    pub revision_id: RevisionId,
    pub revision_counter_state: RevisionCounterState,
    pub allocation_namespace_id: AllocationNamespaceId,
    pub allocation_counter_state: AllocationCounterState,
    pub modules: Vec<Module>,
}

impl PersistenceProgram {
    /// A reconstruction candidate from its raw identities, allocator states,
    /// and Modules.
    pub fn new(
        program_id: [u8; 16],
        revision_id: u64,
        revision_counter_state: RevisionCounterState,
        allocation_namespace_id: [u8; 16],
        allocation_counter_state: AllocationCounterState,
        modules: Vec<PersistenceModule>,
    ) -> (r: Self)
        ensures
            r.program_id == ProgramId(be_value_of(program_id@) as u128),
            r.revision_id == RevisionId(revision_id),
            r.revision_counter_state == revision_counter_state,
            r.allocation_namespace_id == AllocationNamespaceId(be_value_of(allocation_namespace_id@) as u128),
            r.allocation_counter_state == allocation_counter_state,
            module_views(r.modules@) == modules@.map_values(|x: PersistenceModule| x.module@),
    {
        PersistenceProgram {
            program_id: ProgramId(u128_from_be_bytes(program_id)),
            revision_id: RevisionId(revision_id),
            revision_counter_state,
            allocation_namespace_id: AllocationNamespaceId(u128_from_be_bytes(allocation_namespace_id)),
            allocation_counter_state,
            modules: into_modules(modules),
        }
    }
}

/// The revision allocator continues exactly after `revision`.
pub open spec fn revision_allocator_valid(revision: RevisionId, state: RevisionCounterState) -> bool {
    match state {
        RevisionCounterState::Available(next) => revision.0 < u64::MAX && next == revision.0 + 1,
        RevisionCounterState::Exhausted => revision.0 == u64::MAX,
    }
}

/// Every identity of `modules`, category by category.
pub open spec fn restored_keys(modules: Seq<ModuleView>) -> Seq<(u128, u64)> {
    module_keys(modules) + type_keys(modules) + function_keys(modules) + parameter_keys(modules)
        + block_keys(modules) + expression_keys(modules)
}

/// The defect of identity `q` of `keys`, given the active namespace and
/// its counter state: a repeat of an earlier identity, or an identity of
/// the active namespace that its counter has not yet issued.
pub open spec fn identity_defect(
    keys: Seq<(u128, u64)>,
    q: int,
    namespace_id: AllocationNamespaceId,
    counter: AllocationCounterState,
) -> Option<PersistenceRestoreError> {
    if keys.take(q).contains(keys[q]) {
        Some(PersistenceRestoreError::DuplicateEntityIdentity)
    } else if keys[q].0 == namespace_id.0 && (counter matches AllocationCounterState::Available(next) && keys[q].1 >= next) {
        Some(PersistenceRestoreError::EntityAllocatorBehind)
    } else {
        None
    }
}

/// The first identity defect from position `q` on.
pub open spec fn first_identity_defect(
    keys: Seq<(u128, u64)>,
    q: int,
    namespace_id: AllocationNamespaceId,
    counter: AllocationCounterState,
) -> Option<PersistenceRestoreError>
    decreases keys.len() - q,
{
    if 0 <= q < keys.len() {
        match identity_defect(keys, q, namespace_id, counter) {
            Some(e) => Some(e),
            None => first_identity_defect(keys, q + 1, namespace_id, counter),
        }
    } else {
        None
    }
}

/// Why a candidate cannot be reconstructed, or none where it can.
pub open spec fn restore_error(
    revision_id: RevisionId,
    revision_counter_state: RevisionCounterState,
    namespace_id: AllocationNamespaceId,
    counter: AllocationCounterState,
    modules: Seq<ModuleView>,
) -> Option<PersistenceRestoreError> {
    if !revision_allocator_valid(revision_id, revision_counter_state) {
        Some(PersistenceRestoreError::InvalidRevisionAllocator)
    } else {
        match first_identity_defect(crate::inventory::identity_walk(modules), 0, namespace_id, counter) {
            Some(e) => Some(e),
            None => if structurally_valid(modules) {
                None
            } else {
                Some(PersistenceRestoreError::StructuralViolation)
            },
        }
    }
}

/// The observable state of a persistence checkpoint.
pub struct CheckpointView {
    pub program_id: ProgramId,
    pub revision: RevisionView,
    pub next_revision: Option<u64>,
    pub namespace_id: AllocationNamespaceId,
    pub counter: AllocationCounterState,
}

/// The revision counter state that a next revision value describes.
pub open spec fn counter_state_of(next_revision: Option<u64>) -> RevisionCounterState {
    match next_revision {
        Some(n) => RevisionCounterState::Available(n),
        None => RevisionCounterState::Exhausted,
    }
}

fn counter_state_from(next_revision: Option<u64>) -> (r: RevisionCounterState)
    ensures
        r == counter_state_of(next_revision),
{
    match next_revision {
        Some(n) => RevisionCounterState::Available(n),
        None => RevisionCounterState::Exhausted,
    }
}

/// Immutable observation of a Program head for durable persistence,
/// including the revision allocator needed to resume the same lineage.
#[derive(Debug)]
pub struct PersistenceSnapshot {
    program_id: ProgramId,
    state: RevisionState,
    next_revision: Option<u64>,
    namespace_id: AllocationNamespaceId,
    counter: AllocationCounterState,
}

impl PersistenceSnapshot {
    /// The observable state of this checkpoint.
    pub closed spec fn observe(&self) -> CheckpointView {
        CheckpointView {
            program_id: self.program_id,
            revision: self.state@,
            next_revision: self.next_revision,
            namespace_id: self.namespace_id,
            counter: self.counter,
        }
    }

    pub(crate) fn from_parts(
        program_id: ProgramId,
        state: RevisionState,
        next_revision: Option<u64>,
        namespace_id: AllocationNamespaceId,
        counter: AllocationCounterState,
    ) -> (r: Self)
        ensures
            r@ == (CheckpointView { program_id, revision: state@, next_revision, namespace_id, counter }),
    {
        PersistenceSnapshot { program_id, state, next_revision, namespace_id, counter }
    }

    /// Returns the Program identity.
    pub fn program_id(&self) -> (r: ProgramId)
        ensures
            r == self@.program_id,
    {
        self.program_id
    }

    /// Returns the revision identity.
    pub fn revision_id(&self) -> (r: RevisionId)
        ensures
            r == self@.revision.revision_id,
    {
        self.state.revision_id
    }

    /// Returns the state of the revision allocator.
    pub fn revision_counter_state(&self) -> (r: RevisionCounterState)
        ensures
            r == counter_state_of(self@.next_revision),
    {
        counter_state_from(self.next_revision)
    }

    /// Returns the active allocation namespace.
    pub fn allocation_namespace_id(&self) -> (r: AllocationNamespaceId)
        ensures
            r == self@.namespace_id,
    {
        self.namespace_id
    }

    /// Returns the state of the entity counter.
    pub fn allocation_counter_state(&self) -> (r: AllocationCounterState)
        ensures
            r == self@.counter,
    {
        self.counter
    }

    /// Enumerates the Modules. The order carries no meaning.
    pub fn modules(&self) -> (r: std::slice::Iter<'_, Module>)
        ensures
            module_views(vstd::std_specs::slice::into_iter_elts(r)) == self@.revision.modules,
    {
        broadcast use vstd::std_specs::slice::axiom_spec_slice_iter;

        self.state.modules.as_slice().iter()
    }

    /// The Modules, in stored order.
    pub(crate) fn module_list(&self) -> (r: &Vec<Module>)
        ensures
            module_views(r@) == self@.revision.modules,
    {
        &self.state.modules
    }
}

impl View for PersistenceSnapshot {
    type V = CheckpointView;

    open spec fn view(&self) -> CheckpointView {
        self.observe()
    }
}

/// Structurally validated immutable persistence state. Validation claims
/// no mutable allocation authority.
#[derive(Debug)]
pub struct ValidatedPersistenceState {
    program_id: ProgramId,
    state: RevisionState,
    next_revision: Option<u64>,
    namespace_id: AllocationNamespaceId,
    counter: AllocationCounterState,
}

impl ValidatedPersistenceState {
    /// The observable state of this validated checkpoint.
    pub closed spec fn observe(&self) -> CheckpointView {
        CheckpointView {
            program_id: self.program_id,
            revision: self.state@,
            next_revision: self.next_revision,
            namespace_id: self.namespace_id,
            counter: self.counter,
        }
    }

    #[verifier::type_invariant]
    spec fn well_formed(self) -> bool {
        &&& revision_wf(self.state@)
        &&& crate::program::history_issued(self.state@.history, self.namespace_id, self.counter)
        &&& crate::program::keys_issued(module_keys(self.state@.modules), self.namespace_id, self.counter)
        &&& crate::program::functions_issued(self.state@.modules, self.namespace_id, self.counter)
        &&& crate::program::parameters_issued(self.state@.modules, self.namespace_id, self.counter)
        &&& crate::program::revision_follows(self.state@.revision_id, self.next_revision)
    }

    /// Returns the Program identity.
    pub fn program_id(&self) -> (r: ProgramId)
        ensures
            r == self@.program_id,
    {
        self.program_id
    }

    /// Returns the revision identity.
    pub fn revision_id(&self) -> (r: RevisionId)
        ensures
            r == self@.revision.revision_id,
    {
        self.state.revision_id
    }

    /// Returns the state of the revision allocator.
    pub fn revision_counter_state(&self) -> (r: RevisionCounterState)
        ensures
            r == counter_state_of(self@.next_revision),
    {
        counter_state_from(self.next_revision)
    }

    /// Returns the active allocation namespace.
    pub fn allocation_namespace_id(&self) -> (r: AllocationNamespaceId)
        ensures
            r == self@.namespace_id,
    {
        self.namespace_id
    }

    /// Returns the state of the entity counter.
    pub fn allocation_counter_state(&self) -> (r: AllocationCounterState)
        ensures
            r == self@.counter,
    {
        self.counter
    }

    /// Enumerates the Modules. The order carries no meaning.
    pub fn modules(&self) -> (r: std::slice::Iter<'_, Module>)
        ensures
            module_views(vstd::std_specs::slice::into_iter_elts(r)) == self@.revision.modules,
    {
        broadcast use vstd::std_specs::slice::axiom_spec_slice_iter;

        self.state.modules.as_slice().iter()
    }

    /// Returns the number of Modules.
    pub(crate) fn module_count(&self) -> (r: usize)
        ensures
            r == self@.revision.modules.len(),
    {
        self.state.modules.len()
    }

    /// Returns an immutable encodable observation of this state, without
    /// granting mutation authority.
    pub fn persistence_snapshot(&self) -> (r: PersistenceSnapshot)
        ensures
            r@ == self@,
    {
        PersistenceSnapshot::from_parts(self.program_id, self.state.copied(), self.next_revision, self.namespace_id, self.counter)
    }
}

impl View for ValidatedPersistenceState {
    type V = CheckpointView;

    open spec fn view(&self) -> CheckpointView {
        self.observe()
    }
}

/// Finds the first identity defect of `keys`.
fn find_identity_defect(
    keys: &Vec<(u128, u64)>,
    namespace_id: AllocationNamespaceId,
    counter: AllocationCounterState,
) -> (r: Option<PersistenceRestoreError>)
    ensures
        r == first_identity_defect(keys@, 0, namespace_id, counter),
{
    let mut q: usize = 0;
    while q < keys.len()
        invariant
            q <= keys@.len(),
            first_identity_defect(keys@, 0, namespace_id, counter) == first_identity_defect(keys@, q as int, namespace_id, counter),
        decreases keys.len() - q,
    {
        let key = keys[q];
        let mut p: usize = 0;
        let mut repeated = false;
        while p < q
            invariant
                p <= q < keys@.len(),
                key == keys@[q as int],
                repeated == keys@.take(p as int).contains(key),
            decreases q - p,
        {
            let ghost before = keys@.take(p as int);
            let ghost after = keys@.take(p + 1);
            assert(after =~= before.push(keys@[p as int]));
            if keys[p].0 == key.0 && keys[p].1 == key.1 {
                assert(after[p as int] == key);
                repeated = true;
            }
            proof {
                if after.contains(key) && keys@[p as int] != key {
                    let m = choose|m: int| 0 <= m < after.len() && #[trigger] after[m] == key;
                    assert(before[m] == key);
                }
                if before.contains(key) {
                    let m = choose|m: int| 0 <= m < before.len() && #[trigger] before[m] == key;
                    assert(after[m] == key);
                }
            }
            p = p + 1;
        }
        if repeated {
            return Some(PersistenceRestoreError::DuplicateEntityIdentity);
        }
        let behind = match counter {
            AllocationCounterState::Available(next) => key.0 == namespace_id.0 && key.1 >= next,
            AllocationCounterState::Exhausted => false,
        };
        if behind {
            return Some(PersistenceRestoreError::EntityAllocatorBehind);
        }
        q = q + 1;
    }
    None
}

impl crate::program::MnirProgram {
    /// Validates detached persistent state without claiming mutable
    /// authority: the revision allocator must continue exactly after the
    /// persisted revision, every identity must occur once and be issued by
    /// its namespace's counter, and the Program must be structurally valid.
    pub fn validate_persistence(candidate: PersistenceProgram) -> (r: Result<ValidatedPersistenceState, PersistenceRestoreError>)
        ensures
            match r {
                Ok(v) => restore_error(
                    candidate.revision_id,
                    candidate.revision_counter_state,
                    candidate.allocation_namespace_id,
                    candidate.allocation_counter_state,
                    module_views(candidate.modules@),
                ) is None && v@ == (CheckpointView {
                    program_id: candidate.program_id,
                    revision: RevisionView {
                        revision_id: candidate.revision_id,
                        modules: module_views(candidate.modules@),
                        history: present_history(module_views(candidate.modules@)),
                    },
                    next_revision: match candidate.revision_counter_state {
                        RevisionCounterState::Available(n) => Some(n),
                        RevisionCounterState::Exhausted => None,
                    },
                    namespace_id: candidate.allocation_namespace_id,
                    counter: candidate.allocation_counter_state,
                }),
                Err(e) => restore_error(
                    candidate.revision_id,
                    candidate.revision_counter_state,
                    candidate.allocation_namespace_id,
                    candidate.allocation_counter_state,
                    module_views(candidate.modules@),
                ) == Some(e),
            },
    {
        let revision = candidate.revision_id.0;
        let allocator_valid = match candidate.revision_counter_state {
            RevisionCounterState::Available(next) => revision < u64::MAX && next == revision + 1,
            RevisionCounterState::Exhausted => revision == u64::MAX,
        };
        if !allocator_valid {
            return Err(PersistenceRestoreError::InvalidRevisionAllocator);
        }
        let inventory = collect_inventory(&candidate.modules);
        let keys = crate::inventory::collect_identity_walk(&candidate.modules);
        if let Some(e) = find_identity_defect(&keys, candidate.allocation_namespace_id, candidate.allocation_counter_state) {
            return Err(e);
        }
        if validate_modules(&candidate.modules).is_err() {
            return Err(PersistenceRestoreError::StructuralViolation);
        }
        let next_revision = match candidate.revision_counter_state {
            RevisionCounterState::Available(n) => Some(n),
            RevisionCounterState::Exhausted => None,
        };
        let history = History {
            modules: inventory.modules,
            functions: inventory.functions,
            parameters: inventory.parameters,
            blocks: inventory.blocks,
            expressions: inventory.expressions,
        };
        proof {
            lemma_restorable_history_issued(
                module_views(candidate.modules@),
                candidate.allocation_namespace_id,
                candidate.allocation_counter_state,
            );
            crate::program::lemma_functions_issued_flat(
                module_views(candidate.modules@),
                candidate.allocation_namespace_id,
                candidate.allocation_counter_state,
            );
            crate::program::lemma_parameters_issued_flat(
                module_views(candidate.modules@),
                candidate.allocation_namespace_id,
                candidate.allocation_counter_state,
            );
        }
        Ok(
            ValidatedPersistenceState {
                program_id: candidate.program_id,
                state: RevisionState { revision_id: candidate.revision_id, modules: candidate.modules, history },
                next_revision,
                namespace_id: candidate.allocation_namespace_id,
                counter: candidate.allocation_counter_state,
            },
        )
    }

    /// Activates a validated checkpoint as the mutable continuation of its
    /// lineage, with the persisted allocator states exactly. The lineage's
    /// allocation authority is claimed from `registry` first
    /// ([`restored_claim`]): a lineage with a live continuation, a stale
    /// checkpoint, or a colliding namespace is refused, and the registry is
    /// then left unchanged. The lease returned is released through the
    /// registry when the continuation ends.
    pub fn activate_persistence(
        registry: &mut AuthorityRegistry,
        validated: ValidatedPersistenceState,
    ) -> (r: Result<(Self, AuthorityLease), PersistenceRestoreError>)
        ensures
            final(registry)@ == restored_claim(
                old(registry)@,
                validated@.program_id,
                validated@.namespace_id,
                validated@.revision.revision_id,
                validated@.counter,
            ).0,
            match restored_claim(
                old(registry)@,
                validated@.program_id,
                validated@.namespace_id,
                validated@.revision.revision_id,
                validated@.counter,
            ).1 {
                Ok(lease) => r matches Ok((p, l)) && l == lease && p@ == (crate::program::ProgramView {
                    program_id: validated@.program_id,
                    revision: validated@.revision,
                    next_revision: validated@.next_revision,
                    namespace_id: validated@.namespace_id,
                    counter: validated@.counter,
                }),
                Err(e) => r == Err::<(Self, AuthorityLease), PersistenceRestoreError>(claim_failure(e)),
            },
    {
        proof {
            use_type_invariant(&validated);
        }
        let lease = match registry.claim_restored(
            validated.program_id,
            validated.namespace_id,
            validated.state.revision_id,
            validated.counter,
        ) {
            Ok(lease) => lease,
            Err(e) => {
                return Err(restore_failure_of(e));
            },
        };
        let ValidatedPersistenceState { program_id, state, next_revision, namespace_id, counter } = validated;
        Ok((crate::program::MnirProgram::restored(program_id, state, next_revision, namespace_id, counter), lease))
    }

    /// Captures one immutable, internally consistent persistence checkpoint
    /// of the head revision.
    pub fn persistence_snapshot(&self) -> (r: PersistenceSnapshot)
        ensures
            r@ == (CheckpointView {
                program_id: self@.program_id,
                revision: self@.revision,
                next_revision: self@.next_revision,
                namespace_id: self@.namespace_id,
                counter: self@.counter,
            }),
            crate::program::revision_follows(r@.revision.revision_id, r@.next_revision),
    {
        proof {
            use_type_invariant(self);
            self.lemma_head_issued();
        }
        PersistenceSnapshot::from_parts(
            self.program_id(),
            self.copy_head(),
            self.next_revision(),
            self.allocation_namespace_id(),
            self.allocation_counter_state(),
        )
    }
}


/// Identities without a defect are all issued: each category of the
/// present History of `modules` is.
pub proof fn lemma_restorable_history_issued(
    modules: Seq<ModuleView>,
    namespace_id: AllocationNamespaceId,
    counter: AllocationCounterState,
)
    requires
        first_identity_defect(crate::inventory::identity_walk(modules), 0, namespace_id, counter) is None,
    ensures
        crate::program::history_issued(crate::program::present_history(modules), namespace_id, counter),
{
    crate::revalidate::lemma_walk_defects(modules, namespace_id, counter);
    let keys = restored_keys(modules);
    crate::revalidate::lemma_no_identity_defect(keys, namespace_id, counter);
    let m = module_keys(modules);
    let t = type_keys(modules);
    let f = function_keys(modules);
    let p = parameter_keys(modules);
    let b = block_keys(modules);
    let e = expression_keys(modules);
    assert forall|i: int| 0 <= i < m.len() implies crate::program::key_issued(#[trigger] m[i], namespace_id, counter) by {
        assert(keys[i] == m[i]);
    }
    assert forall|i: int| 0 <= i < f.len() implies crate::program::key_issued(#[trigger] f[i], namespace_id, counter) by {
        assert(keys[m.len() + t.len() + i] == f[i]);
    }
    assert forall|i: int| 0 <= i < p.len() implies crate::program::key_issued(#[trigger] p[i], namespace_id, counter) by {
        assert(keys[m.len() + t.len() + f.len() + i] == p[i]);
    }
    assert forall|i: int| 0 <= i < b.len() implies crate::program::key_issued(#[trigger] b[i], namespace_id, counter) by {
        assert(keys[m.len() + t.len() + f.len() + p.len() + i] == b[i]);
    }
    assert forall|i: int| 0 <= i < e.len() implies crate::program::key_issued(#[trigger] e[i], namespace_id, counter) by {
        assert(keys[m.len() + t.len() + f.len() + p.len() + b.len() + i] == e[i]);
    }
}

} // verus!
