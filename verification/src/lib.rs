//! Canonical data model for MNIR Programs: identity, revisions, snapshots,
//! forks, controlled mutation, structural validation, expression typing,
//! persistence reconstruction, and the canonical `.mnir` byte format.
#![allow(unused_imports)]

mod authority;
mod body;
mod canonical;
mod cbor;
mod decode;
mod document;
mod edit;
mod encode;
mod error;
mod format;
mod ids;
mod intrinsic;
mod inventory;
mod laws;
mod locate;
mod lookup;
mod model;
mod order;
mod persistence;
mod presentation;
mod roundtrip;
mod scan;
mod program;
mod properties;
mod reorder;
mod revalidate;
mod semantic;
mod transaction;
mod typing;
mod validation;
mod writer;

pub use authority::{
    AuthorityClaimError, AuthorityLease, AuthorityRecord, AuthorityRegistry, counter_is_older,
    restore_failure_of,
};
pub use body::{Block, Expression, ExpressionKind, FunctionBody, Terminator};
pub use decode::{
    decode_expression_kind, decode_intrinsic, decode_persistence_value_type, decode_revision_counter,
    decode_string_option, decode_terminator, fixed_array,
};
pub use document::{DecodedProgram, decode, validate_envelope, validate_file_size};
pub use encode::{encode, encode_entity_id, encode_expression_kind, encode_terminator, encode_value_type, intrinsic_tag_of};
pub use format::{DecodeError, EncodeError};
pub use scan::{validate_canonical_cbor, validate_collection_count, validate_item_length};
pub use error::{ExpressionTypeError, MutationError, StructuralError, TransactionState};
pub use ids::{
    AllocationCounterState, AllocationNamespaceId, BlockId, ExpressionId, FunctionId,
    IdentifierCategory, ModuleId, ParameterId, ProgramId, RevisionId, TypeId,
};
pub use intrinsic::{IntoValueType, IntrinsicType, ValueType};
pub use model::{DomainType, Function, Module, Parameter};
pub use presentation::PresentationMetadata;
pub use program::{
    IDENTITY_GENERATION_ATTEMPTS, MnirProgram, ProgramSnapshot, accept_identity, allocate_identity_with,
};
pub use transaction::MutationTransaction;
pub use validation::validate_modules;
pub use persistence::{
    PersistenceBlock, PersistenceBody, PersistenceDomainType, PersistenceEntityId,
    PersistenceExpression, PersistenceExpressionKind, PersistenceFunction, PersistenceModule,
    PersistenceParameter, PersistencePresentation, PersistenceProgram, PersistenceRestoreError,
    PersistenceSnapshot, PersistenceTerminator, PersistenceValueType, RevisionCounterState,
    ValidatedPersistenceState,
};
