//! Function bodies: Blocks, Expressions, effect sequences, and terminators.
use vstd::prelude::*;
use vstd::std_specs::slice::into_iter_elts;

use crate::ids::{BlockId, ExpressionId, FunctionId, ParameterId, TypeId};
use crate::lookup::{first_index_where, is_first_where, lemma_first_index_facts, lemma_first_index_is};

verus! {

broadcast use vstd::std_specs::slice::axiom_spec_slice_iter;

/// The closed set of Block terminators. Terminators have no identity of
/// their own and are not Expressions.
#[derive(Clone, Copy, Debug, PartialEq, Eq, Structural)]
pub enum Terminator {
    Return { expression: ExpressionId },
    Branch { condition: ExpressionId, true_block: BlockId, false_block: BlockId },
}

/// The closed set of Expression alternatives. Operand and argument positions
/// are part of the semantic data.
#[derive(Clone, Debug, PartialEq, Eq)]
pub enum ExpressionKind {
    Int32Literal(i32),
    Int64Literal(i64),
    BoolLiteral(bool),
    UnitLiteral,
    TextLiteral(String),
    BytesLiteral(Vec<u8>),
    ParameterReference(ParameterId),
    Add { left: ExpressionId, right: ExpressionId },
    Subtract { left: ExpressionId, right: ExpressionId },
    Multiply { left: ExpressionId, right: ExpressionId },
    Divide { left: ExpressionId, right: ExpressionId },
    Remainder { left: ExpressionId, right: ExpressionId },
    Equal { left: ExpressionId, right: ExpressionId },
    NotEqual { left: ExpressionId, right: ExpressionId },
    LessThan { left: ExpressionId, right: ExpressionId },
    LessThanOrEqual { left: ExpressionId, right: ExpressionId },
    GreaterThan { left: ExpressionId, right: ExpressionId },
    GreaterThanOrEqual { left: ExpressionId, right: ExpressionId },
    Call { target: FunctionId, arguments: Vec<ExpressionId> },
    DomainConstruct { type_id: TypeId, value: ExpressionId },
    DomainProject { value: ExpressionId },
}

/// The semantic data of an Expression kind, by value.
pub enum KindView {
    Int32Literal(i32),
    Int64Literal(i64),
    BoolLiteral(bool),
    UnitLiteral,
    TextLiteral(Seq<char>),
    BytesLiteral(Seq<u8>),
    ParameterReference(ParameterId),
    Add { left: ExpressionId, right: ExpressionId },
    Subtract { left: ExpressionId, right: ExpressionId },
    Multiply { left: ExpressionId, right: ExpressionId },
    Divide { left: ExpressionId, right: ExpressionId },
    Remainder { left: ExpressionId, right: ExpressionId },
    Equal { left: ExpressionId, right: ExpressionId },
    NotEqual { left: ExpressionId, right: ExpressionId },
    LessThan { left: ExpressionId, right: ExpressionId },
    LessThanOrEqual { left: ExpressionId, right: ExpressionId },
    GreaterThan { left: ExpressionId, right: ExpressionId },
    GreaterThanOrEqual { left: ExpressionId, right: ExpressionId },
    Call { target: FunctionId, arguments: Seq<ExpressionId> },
    DomainConstruct { type_id: TypeId, value: ExpressionId },
    DomainProject { value: ExpressionId },
}

impl View for ExpressionKind {
    type V = KindView;

    open spec fn view(&self) -> KindView {
        match self {
            ExpressionKind::Int32Literal(x) => KindView::Int32Literal(*x),
            ExpressionKind::Int64Literal(x) => KindView::Int64Literal(*x),
            ExpressionKind::BoolLiteral(x) => KindView::BoolLiteral(*x),
            ExpressionKind::UnitLiteral => KindView::UnitLiteral,
            ExpressionKind::TextLiteral(x) => KindView::TextLiteral(x@),
            ExpressionKind::BytesLiteral(x) => KindView::BytesLiteral(x@),
            ExpressionKind::ParameterReference(x) => KindView::ParameterReference(*x),
            ExpressionKind::Add { left, right } => KindView::Add { left: *left, right: *right },
            ExpressionKind::Subtract { left, right } => KindView::Subtract { left: *left, right: *right },
            ExpressionKind::Multiply { left, right } => KindView::Multiply { left: *left, right: *right },
            ExpressionKind::Divide { left, right } => KindView::Divide { left: *left, right: *right },
            ExpressionKind::Remainder { left, right } => KindView::Remainder { left: *left, right: *right },
            ExpressionKind::Equal { left, right } => KindView::Equal { left: *left, right: *right },
            ExpressionKind::NotEqual { left, right } => KindView::NotEqual { left: *left, right: *right },
            ExpressionKind::LessThan { left, right } => KindView::LessThan { left: *left, right: *right },
            ExpressionKind::LessThanOrEqual { left, right } => KindView::LessThanOrEqual { left: *left, right: *right },
            ExpressionKind::GreaterThan { left, right } => KindView::GreaterThan { left: *left, right: *right },
            ExpressionKind::GreaterThanOrEqual { left, right } => KindView::GreaterThanOrEqual { left: *left, right: *right },
            ExpressionKind::Call { target, arguments } => KindView::Call { target: *target, arguments: arguments@ },
            ExpressionKind::DomainConstruct { type_id, value } => KindView::DomainConstruct { type_id: *type_id, value: *value },
            ExpressionKind::DomainProject { value } => KindView::DomainProject { value: *value },
        }
    }
}

/// The operands of an arithmetic Expression kind.
pub open spec fn arithmetic_operands(kind: KindView) -> Option<(ExpressionId, ExpressionId)> {
    match kind {
        KindView::Add { left, right } => Some((left, right)),
        KindView::Subtract { left, right } => Some((left, right)),
        KindView::Multiply { left, right } => Some((left, right)),
        KindView::Divide { left, right } => Some((left, right)),
        KindView::Remainder { left, right } => Some((left, right)),
        _ => None,
    }
}

/// The operands of an equality comparison Expression kind.
pub open spec fn equality_operands(kind: KindView) -> Option<(ExpressionId, ExpressionId)> {
    match kind {
        KindView::Equal { left, right } => Some((left, right)),
        KindView::NotEqual { left, right } => Some((left, right)),
        _ => None,
    }
}

/// The operands of an ordering comparison Expression kind.
pub open spec fn ordering_operands(kind: KindView) -> Option<(ExpressionId, ExpressionId)> {
    match kind {
        KindView::LessThan { left, right } => Some((left, right)),
        KindView::LessThanOrEqual { left, right } => Some((left, right)),
        KindView::GreaterThan { left, right } => Some((left, right)),
        KindView::GreaterThanOrEqual { left, right } => Some((left, right)),
        _ => None,
    }
}

/// The operands of any comparison Expression kind.
pub open spec fn comparison_operands(kind: KindView) -> Option<(ExpressionId, ExpressionId)> {
    match equality_operands(kind) {
        Some(pair) => Some(pair),
        None => ordering_operands(kind),
    }
}

/// The two operands of an arithmetic or comparison kind.
pub open spec fn binary_operands(kind: KindView) -> Option<(ExpressionId, ExpressionId)> {
    match arithmetic_operands(kind) {
        Some(pair) => Some(pair),
        None => comparison_operands(kind),
    }
}

/// The same-Block Expressions that an Expression kind depends on, in
/// operand and argument order.
pub open spec fn dependencies_of(kind: KindView) -> Seq<ExpressionId> {
    match kind {
        KindView::Call { arguments, .. } => arguments,
        KindView::DomainConstruct { value, .. } => seq![value],
        KindView::DomainProject { value } => seq![value],
        _ => match binary_operands(kind) {
            Some((left, right)) => seq![left, right],
            None => Seq::empty(),
        },
    }
}

impl ExpressionKind {
    /// The two operands of an arithmetic or comparison kind.
    pub(crate) fn binary_operands(&self) -> (r: Option<(ExpressionId, ExpressionId)>)
        ensures
            r == binary_operands(self@),
    {
        match self {
            ExpressionKind::Add { left, right } => Some((*left, *right)),
            ExpressionKind::Subtract { left, right } => Some((*left, *right)),
            ExpressionKind::Multiply { left, right } => Some((*left, *right)),
            ExpressionKind::Divide { left, right } => Some((*left, *right)),
            ExpressionKind::Remainder { left, right } => Some((*left, *right)),
            ExpressionKind::Equal { left, right } => Some((*left, *right)),
            ExpressionKind::NotEqual { left, right } => Some((*left, *right)),
            ExpressionKind::LessThan { left, right } => Some((*left, *right)),
            ExpressionKind::LessThanOrEqual { left, right } => Some((*left, *right)),
            ExpressionKind::GreaterThan { left, right } => Some((*left, *right)),
            ExpressionKind::GreaterThanOrEqual { left, right } => Some((*left, *right)),
            _ => None,
        }
    }

    /// The dependencies of this kind, in operand and argument order.
    pub(crate) fn dependencies(&self) -> (r: Vec<ExpressionId>)
        ensures
            r@ == dependencies_of(self@),
    {
        match self {
            ExpressionKind::Call { arguments, .. } => {
                let copy = arguments.clone();
                assert(copy@ =~= arguments@);
                copy
            },
            ExpressionKind::DomainConstruct { value, .. } => {
                let v = vec![*value];
                assert(v@ =~= seq![*value]);
                v
            },
            ExpressionKind::DomainProject { value } => {
                let v = vec![*value];
                assert(v@ =~= seq![*value]);
                v
            },
            _ => match self.binary_operands() {
                Some((left, right)) => {
                    let v = vec![left, right];
                    assert(v@ =~= seq![left, right]);
                    v
                },
                None => {
                    let v: Vec<ExpressionId> = Vec::new();
                    assert(v@ =~= Seq::<ExpressionId>::empty());
                    v
                },
            },
        }
    }

    /// Whether this kind is an effectful Call.
    pub(crate) fn is_call(&self) -> (r: bool)
        ensures
            r == (self@ is Call),
    {
        match self {
            ExpressionKind::Call { .. } => true,
            _ => false,
        }
    }

    pub(crate) fn copied(&self) -> (r: Self)
        ensures
            r@ == self@,
    {
        match self {
            ExpressionKind::Int32Literal(v) => ExpressionKind::Int32Literal(*v),
            ExpressionKind::Int64Literal(v) => ExpressionKind::Int64Literal(*v),
            ExpressionKind::BoolLiteral(v) => ExpressionKind::BoolLiteral(*v),
            ExpressionKind::UnitLiteral => ExpressionKind::UnitLiteral,
            ExpressionKind::TextLiteral(v) => ExpressionKind::TextLiteral(v.clone()),
            ExpressionKind::BytesLiteral(v) => {
                let c = v.clone();
                assert(c@ =~= v@);
                ExpressionKind::BytesLiteral(c)
            },
            ExpressionKind::ParameterReference(p) => ExpressionKind::ParameterReference(*p),
            ExpressionKind::Add { left, right } => ExpressionKind::Add { left: *left, right: *right },
            ExpressionKind::Subtract { left, right } => ExpressionKind::Subtract { left: *left, right: *right },
            ExpressionKind::Multiply { left, right } => ExpressionKind::Multiply { left: *left, right: *right },
            ExpressionKind::Divide { left, right } => ExpressionKind::Divide { left: *left, right: *right },
            ExpressionKind::Remainder { left, right } => ExpressionKind::Remainder { left: *left, right: *right },
            ExpressionKind::Equal { left, right } => ExpressionKind::Equal { left: *left, right: *right },
            ExpressionKind::NotEqual { left, right } => ExpressionKind::NotEqual { left: *left, right: *right },
            ExpressionKind::LessThan { left, right } => ExpressionKind::LessThan { left: *left, right: *right },
            ExpressionKind::LessThanOrEqual { left, right } => ExpressionKind::LessThanOrEqual { left: *left, right: *right },
            ExpressionKind::GreaterThan { left, right } => ExpressionKind::GreaterThan { left: *left, right: *right },
            ExpressionKind::GreaterThanOrEqual { left, right } => ExpressionKind::GreaterThanOrEqual { left: *left, right: *right },
            ExpressionKind::Call { target, arguments } => {
                let c = arguments.clone();
                assert(c@ =~= arguments@);
                ExpressionKind::Call { target: *target, arguments: c }
            },
            ExpressionKind::DomainConstruct { type_id, value } => ExpressionKind::DomainConstruct { type_id: *type_id, value: *value },
            ExpressionKind::DomainProject { value } => ExpressionKind::DomainProject { value: *value },
        }
    }
}

/// An independently addressable Expression owned by one Block.
#[derive(Clone, Debug, PartialEq, Eq)]
pub struct Expression {
    pub id: ExpressionId,
    pub kind: ExpressionKind,
}

/// The identity and semantic data of an Expression.
pub struct ExpressionView {
    pub id: ExpressionId,
    pub kind: KindView,
}

impl View for Expression {
    type V = ExpressionView;

    open spec fn view(&self) -> ExpressionView {
        ExpressionView { id: self.id, kind: self.kind@ }
    }
}

impl Expression {
    /// Returns this Expression's identity.
    pub fn id(&self) -> (r: ExpressionId)
        ensures
            r == self.id,
    {
        self.id
    }

    /// Exposes all semantic data carried by this Expression.
    pub fn kind(&self) -> (r: &ExpressionKind)
        ensures
            r@ == self.kind@,
    {
        &self.kind
    }

    pub(crate) fn copied(&self) -> (r: Self)
        ensures
            r@ == self@,
    {
        Expression { id: self.id, kind: self.kind.copied() }
    }
}

/// Selects Expressions by identity.
pub open spec fn expression_has_id(id: ExpressionId) -> spec_fn(ExpressionView) -> bool {
    |e: ExpressionView| e.id == id
}

/// The position of the first Expression with identity `id`, or `-1`.
pub open spec fn expression_index(expressions: Seq<ExpressionView>, id: ExpressionId) -> int {
    first_index_where(expressions, expression_has_id(id))
}

/// The first Expression of `expressions` with identity `id`.
pub open spec fn find_expression_in(expressions: Seq<ExpressionView>, id: ExpressionId) -> Option<
    ExpressionView,
> {
    let i = expression_index(expressions, id);
    if i >= 0 {
        Some(expressions[i])
    } else {
        None
    }
}

/// The views of a sequence of Expressions.
pub open spec fn expression_views(expressions: Seq<Expression>) -> Seq<ExpressionView> {
    expressions.map_values(|e: Expression| e@)
}

/// Finds the position of the first Expression with identity `id`.
pub(crate) fn position_of_expression(expressions: &Vec<Expression>, id: ExpressionId) -> (r:
    Option<usize>)
    ensures
        match r {
            Some(i) => i as int == expression_index(expression_views(expressions@), id) && i
                < expressions@.len(),
            None => expression_index(expression_views(expressions@), id) == -1,
        },
{
    let ghost views = expression_views(expressions@);
    let mut i: usize = 0;
    while i < expressions.len()
        invariant
            i <= expressions@.len(),
            views == expression_views(expressions@),
            forall|j: int| 0 <= j < i ==> !(expression_has_id(id))(#[trigger] views[j]),
        decreases expressions.len() - i,
    {
        if expressions[i].id == id {
            proof {
                assert(is_first_where(views, expression_has_id(id), i as int));
                lemma_first_index_is(views, expression_has_id(id), i as int);
            }
            return Some(i);
        }
        i = i + 1;
    }
    proof {
        lemma_first_index_facts(views, expression_has_id(id));
    }
    None
}

/// One independently addressable Block owned by a Function body.
#[derive(Clone, Debug, PartialEq, Eq)]
pub struct Block {
    pub id: BlockId,
    pub expressions: Vec<Expression>,
    pub effect_sequence: Vec<ExpressionId>,
    pub terminator: Option<Terminator>,
}

/// The identity, Expressions, effect order, and terminator of a Block.
pub struct BlockView {
    pub id: BlockId,
    pub expressions: Seq<ExpressionView>,
    pub effect_sequence: Seq<ExpressionId>,
    pub terminator: Option<Terminator>,
}

impl View for Block {
    type V = BlockView;

    open spec fn view(&self) -> BlockView {
        BlockView {
            id: self.id,
            expressions: expression_views(self.expressions@),
            effect_sequence: self.effect_sequence@,
            terminator: self.terminator,
        }
    }
}

impl Block {
    pub(crate) fn new(id: BlockId) -> (r: Self)
        ensures
            r@ == fresh_block(id),
    {
        let r = Block {
            id,
            expressions: Vec::new(),
            effect_sequence: Vec::new(),
            terminator: None,
        };
        assert(r@.expressions =~= Seq::<ExpressionView>::empty());
        assert(r@.effect_sequence =~= Seq::<ExpressionId>::empty());
        r
    }

    /// Returns this Block's identity.
    pub fn id(&self) -> (r: BlockId)
        ensures
            r == self.id,
    {
        self.id
    }

    /// Returns the number of Expressions owned by this Block.
    pub fn expression_count(&self) -> (r: usize)
        ensures
            r == self@.expressions.len(),
    {
        self.expressions.len()
    }

    /// Looks up an owned Expression by identity.
    pub fn expression(&self, id: ExpressionId) -> (r: Option<&Expression>)
        ensures
            match r {
                Some(e) => find_expression_in(self@.expressions, id) == Some(e@),
                None => find_expression_in(self@.expressions, id) is None,
            },
    {
        match position_of_expression(&self.expressions, id) {
            Some(i) => Some(&self.expressions[i]),
            None => None,
        }
    }

    /// Enumerates the owned Expressions. The order carries no meaning.
    pub fn expressions(&self) -> (r: std::slice::Iter<'_, Expression>)
        ensures
            into_iter_elts(r) == self.expressions@,
    {
        self.expressions.as_slice().iter()
    }

    /// Returns the effectful Call Expressions in semantic execution order.
    pub fn effect_sequence(&self) -> (r: &[ExpressionId])
        ensures
            r@ == self@.effect_sequence,
    {
        self.effect_sequence.as_slice()
    }

    /// Returns the returned Expression when this Block ends in a Return.
    pub fn return_expression_id(&self) -> (r: Option<ExpressionId>)
        ensures
            r == (match self.terminator {
                Some(Terminator::Return { expression }) => Some(expression),
                _ => None,
            }),
    {
        match self.terminator {
            Some(Terminator::Return { expression }) => Some(expression),
            _ => None,
        }
    }

    /// Inspects this Block's terminator, if one has been installed.
    pub fn terminator(&self) -> (r: Option<&Terminator>)
        ensures
            match r {
                Some(t) => self.terminator == Some(*t),
                None => self.terminator is None,
            },
    {
        match &self.terminator {
            Some(t) => Some(t),
            None => None,
        }
    }

    pub(crate) fn copied(&self) -> (r: Self)
        ensures
            r@ == self@,
    {
        let mut expressions: Vec<Expression> = Vec::new();
        let mut i: usize = 0;
        while i < self.expressions.len()
            invariant
                i <= self.expressions@.len(),
                expressions@.len() == i,
                forall|k: int| 0 <= k < i ==> #[trigger] expressions@[k]@ == self.expressions@[k]@,
            decreases self.expressions.len() - i,
        {
            expressions.push(self.expressions[i].copied());
            i = i + 1;
        }
        assert(expression_views(expressions@) =~= expression_views(self.expressions@));
        let effect_sequence = self.effect_sequence.clone();
        assert(effect_sequence@ =~= self.effect_sequence@);
        Block { id: self.id, expressions, effect_sequence, terminator: self.terminator }
    }
}

/// A fresh Block: identity `id`, no Expressions, no effects, no terminator.
pub open spec fn fresh_block(id: BlockId) -> BlockView {
    BlockView {
        id,
        expressions: Seq::empty(),
        effect_sequence: Seq::empty(),
        terminator: None,
    }
}

/// Selects Blocks by identity.
pub open spec fn block_has_id(id: BlockId) -> spec_fn(BlockView) -> bool {
    |b: BlockView| b.id == id
}

/// The position of the first Block with identity `id`, or `-1`.
pub open spec fn block_index(blocks: Seq<BlockView>, id: BlockId) -> int {
    first_index_where(blocks, block_has_id(id))
}

/// The first Block of `blocks` with identity `id`.
pub open spec fn find_block_in(blocks: Seq<BlockView>, id: BlockId) -> Option<BlockView> {
    let i = block_index(blocks, id);
    if i >= 0 {
        Some(blocks[i])
    } else {
        None
    }
}

/// The views of a sequence of Blocks.
pub open spec fn block_views(blocks: Seq<Block>) -> Seq<BlockView> {
    blocks.map_values(|b: Block| b@)
}

/// Finds the position of the first Block with identity `id`.
pub(crate) fn position_of_block(blocks: &Vec<Block>, id: BlockId) -> (r: Option<usize>)
    ensures
        match r {
            Some(i) => i as int == block_index(block_views(blocks@), id) && i < blocks@.len(),
            None => block_index(block_views(blocks@), id) == -1,
        },
{
    let ghost views = block_views(blocks@);
    let mut i: usize = 0;
    while i < blocks.len()
        invariant
            i <= blocks@.len(),
            views == block_views(blocks@),
            forall|j: int| 0 <= j < i ==> !(block_has_id(id))(#[trigger] views[j]),
        decreases blocks.len() - i,
    {
        if blocks[i].id == id {
            proof {
                assert(is_first_where(views, block_has_id(id), i as int));
                lemma_first_index_is(views, block_has_id(id), i as int);
            }
            return Some(i);
        }
        i = i + 1;
    }
    proof {
        lemma_first_index_facts(views, block_has_id(id));
    }
    None
}

/// The optional executable body owned by a Function: an identity-addressed
/// collection of Blocks with a distinguished entry Block.
#[derive(Clone, Debug, PartialEq, Eq)]
pub struct FunctionBody {
    pub entry_block_id: BlockId,
    pub blocks: Vec<Block>,
}

/// The entry identity and Blocks of a body.
pub struct BodyView {
    pub entry_block_id: BlockId,
    pub blocks: Seq<BlockView>,
}

impl View for FunctionBody {
    type V = BodyView;

    open spec fn view(&self) -> BodyView {
        BodyView { entry_block_id: self.entry_block_id, blocks: block_views(self.blocks@) }
    }
}

/// The view of an optional body.
pub open spec fn body_view(body: Option<FunctionBody>) -> Option<BodyView> {
    match body {
        Some(b) => Some(b@),
        None => None,
    }
}

impl FunctionBody {
    /// The body owns a Block with its entry identity.
    pub open spec fn has_entry_block(&self) -> bool {
        find_block_in(self@.blocks, self.entry_block_id) is Some
    }

    pub(crate) fn new(entry: BlockId) -> (r: Self)
        ensures
            r@ == fresh_body(entry),
    {
        let block = Block::new(entry);
        let mut blocks: Vec<Block> = Vec::new();
        blocks.push(block);
        let r = FunctionBody { entry_block_id: entry, blocks };
        assert(r@.blocks =~= seq![fresh_block(entry)]);
        r
    }

    /// Returns the entry Block identity.
    pub fn block_id(&self) -> (r: BlockId)
        ensures
            r == self.entry_block_id,
    {
        self.entry_block_id
    }

    /// Returns the entry Block.
    pub fn block(&self) -> (r: &Block)
        requires
            self.has_entry_block(),
        ensures
            find_block_in(self@.blocks, self.entry_block_id) == Some(r@),
    {
        match position_of_block(&self.blocks, self.entry_block_id) {
            Some(i) => &self.blocks[i],
            None => {
                assert(false);
                &self.blocks[0]
            },
        }
    }

    /// Returns the distinguished entry Block identity.
    pub fn entry_block_id(&self) -> (r: BlockId)
        ensures
            r == self.entry_block_id,
    {
        self.entry_block_id
    }

    /// Looks up any Block owned by this body by identity.
    pub fn block_by_id(&self, id: BlockId) -> (r: Option<&Block>)
        ensures
            match r {
                Some(b) => find_block_in(self@.blocks, id) == Some(b@),
                None => find_block_in(self@.blocks, id) is None,
            },
    {
        match position_of_block(&self.blocks, id) {
            Some(i) => Some(&self.blocks[i]),
            None => None,
        }
    }

    /// Enumerates all owned Blocks. The order carries no meaning.
    pub fn blocks(&self) -> (r: std::slice::Iter<'_, Block>)
        ensures
            into_iter_elts(r) == self.blocks@,
    {
        self.blocks.as_slice().iter()
    }

    /// Returns the number of owned Blocks.
    pub fn block_count(&self) -> (r: usize)
        ensures
            r == self@.blocks.len(),
    {
        self.blocks.len()
    }

    pub(crate) fn copied(&self) -> (r: Self)
        ensures
            r@ == self@,
    {
        let mut blocks: Vec<Block> = Vec::new();
        let mut i: usize = 0;
        while i < self.blocks.len()
            invariant
                i <= self.blocks@.len(),
                blocks@.len() == i,
                forall|k: int| 0 <= k < i ==> #[trigger] blocks@[k]@ == self.blocks@[k]@,
            decreases self.blocks.len() - i,
        {
            blocks.push(self.blocks[i].copied());
            i = i + 1;
        }
        assert(block_views(blocks@) =~= block_views(self.blocks@));
        FunctionBody { entry_block_id: self.entry_block_id, blocks }
    }
}

/// A fresh body whose only Block is a fresh entry Block.
pub open spec fn fresh_body(entry: BlockId) -> BodyView {
    BodyView { entry_block_id: entry, blocks: seq![fresh_block(entry)] }
}

} // verus!
