//! Typed failures of structural validation, mutation, and expression typing.
use vstd::prelude::*;

use crate::ids::{
    BlockId, ExpressionId, FunctionId, IdentifierCategory, ModuleId, ParameterId, RevisionId,
    TypeId,
};
use crate::intrinsic::ValueType;

verus! {

/// Structural failures of a Program revision candidate.
#[derive(Clone, Copy, Debug, PartialEq, Eq, Structural)]
pub enum StructuralError {
    ModuleIdentityMismatch { collection_id: ModuleId, module_id: ModuleId },
    FunctionIdentityMismatch { collection_id: FunctionId, function_id: FunctionId },
    DuplicateModuleIdentity(ModuleId),
    DuplicateFunctionIdentity(FunctionId),
    DomainTypeIdentityMismatch { collection_id: TypeId, type_id: TypeId },
    DuplicateTypeIdentity(TypeId),
    DuplicateParameterIdentity(ParameterId),
    FunctionBodyHasNoBlocks(FunctionId),
    EntryBlockNotInBody { function_id: FunctionId, entry_block_id: BlockId },
    BlockIdentityMismatch { collection_id: BlockId, block_id: BlockId },
    DuplicateBlockIdentity(BlockId),
    ExpressionIdentityMismatch { collection_id: ExpressionId, expression_id: ExpressionId },
    DuplicateExpressionIdentity(ExpressionId),
    UnterminatedBlock(BlockId),
    ReturnExpressionNotInBlock { block_id: BlockId, expression_id: ExpressionId },
    BranchConditionNotInBlock { block_id: BlockId, expression_id: ExpressionId },
    BranchTargetNotInBody { block_id: BlockId, target_block_id: BlockId },
    UnreachableBlock { function_id: FunctionId, block_id: BlockId },
    CyclicControlFlow(FunctionId),
    DanglingParameterReference {
        expression_id: ExpressionId,
        parameter_id: ParameterId,
        function_id: FunctionId,
    },
    DanglingValueType(TypeId),
    DanglingDomainConstructTarget { expression_id: ExpressionId, type_id: TypeId },
    DomainExpressionSourceNotInBlock {
        expression_id: ExpressionId,
        source_id: ExpressionId,
        block_id: BlockId,
    },
    ArithmeticOperandNotInBlock {
        expression_id: ExpressionId,
        operand_id: ExpressionId,
        block_id: BlockId,
    },
    ComparisonOperandNotInBlock {
        expression_id: ExpressionId,
        operand_id: ExpressionId,
        block_id: BlockId,
    },
    DanglingCallTarget { expression_id: ExpressionId, function_id: FunctionId },
    CallArgumentNotInBlock {
        expression_id: ExpressionId,
        argument_id: ExpressionId,
        block_id: BlockId,
    },
    EffectSequenceEntryNotInBlock { block_id: BlockId, expression_id: ExpressionId },
    EffectSequenceEntryNotCall { block_id: BlockId, expression_id: ExpressionId },
    DuplicateEffectSequenceEntry { block_id: BlockId, expression_id: ExpressionId },
    CallMissingFromEffectSequence { block_id: BlockId, expression_id: ExpressionId },
    EffectSequenceOrderConflict {
        block_id: BlockId,
        dependency_id: ExpressionId,
        dependent_id: ExpressionId,
    },
    CyclicExpressionDependency(BlockId),
}

/// The logical lifecycle states of a mutation transaction.
#[derive(Clone, Copy, Debug, PartialEq, Eq, Structural)]
pub enum TransactionState {
    Active,
    Failed,
    Committed,
    Discarded,
}

/// Typed failures from Program construction and mutation APIs.
#[derive(Clone, Copy, Debug, PartialEq, Eq, Structural)]
pub enum MutationError {
    IdentifierExhausted(IdentifierCategory),
    IdentityGenerationFailed(IdentifierCategory),
    IdentityCollision(IdentifierCategory),
    TransactionNotActive(TransactionState),
    UnknownModule(ModuleId),
    UnknownType(TypeId),
    UnknownFunction(FunctionId),
    UnknownParameter(ParameterId),
    UnknownBlock(BlockId),
    UnknownExpression(ExpressionId),
    FunctionBodyAlreadyExists(FunctionId),
    FunctionBodyAbsent(FunctionId),
    EntryBlockCannotBeRemoved(BlockId),
    ParameterNotOwnedByFunction { parameter_id: ParameterId, function_id: FunctionId },
    ExpressionNotOwnedByBlock { expression_id: ExpressionId, block_id: BlockId },
    BlockNotOwnedByFunctionBody { block_id: BlockId, function_id: FunctionId },
    EffectSequenceEntryNotCall(ExpressionId),
    DuplicateEffectSequenceEntry(ExpressionId),
    SourceRevisionChanged { expected: RevisionId, actual: RevisionId },
    StructuralViolation(StructuralError),
}

/// A read-only failure to derive an Expression's value type. It never
/// poisons a transaction.
#[derive(Clone, Copy, Debug, PartialEq, Eq, Structural)]
pub enum ExpressionTypeError {
    UnresolvedParameter { expression_id: ExpressionId, parameter_id: ParameterId },
    UnresolvedFunction { expression_id: ExpressionId, function_id: FunctionId },
    UnresolvedDomainType { expression_id: ExpressionId, type_id: TypeId },
    OperandTypeUnavailable { expression_id: ExpressionId },
    OperandTypeMismatch {
        expression_id: ExpressionId,
        left_type: ValueType,
        right_type: ValueType,
    },
    UnsupportedOperandType { expression_id: ExpressionId, operand_type: ValueType },
    DomainProjectSourceTypeUnavailable {
        expression_id: ExpressionId,
        source_expression_id: ExpressionId,
    },
    DomainProjectSourceNotDomain {
        expression_id: ExpressionId,
        source_expression_id: ExpressionId,
        actual_type: ValueType,
    },
}

} // verus!
