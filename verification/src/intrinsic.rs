//! The closed intrinsic type set and the complete semantic value type.
use vstd::prelude::*;

use crate::ids::TypeId;

verus! {

/// An intrinsic type whose identity and semantics are defined by MNIR.
///
/// Equality is based only on the intrinsic alternative.
#[derive(Clone, Copy, Debug, PartialEq, Eq, Hash, Structural)]
pub enum IntrinsicType {
    /// The target-independent signed 32-bit intrinsic type.
    Int32,
    /// The target-independent signed 64-bit intrinsic type.
    Int64,
    /// The two-valued logical intrinsic type.
    Bool,
    /// The single-valued Unit intrinsic type.
    Unit,
    /// Unicode text.
    Text,
    /// An uninterpreted byte sequence.
    Bytes,
}

/// The complete semantic type of an MNIR value: an intrinsic type or a
/// nominal Domain Type identified by its `TypeId`.
#[derive(Clone, Copy, Debug, PartialEq, Eq, Hash, Structural)]
pub enum ValueType {
    Intrinsic(IntrinsicType),
    Domain(TypeId),
}

impl vstd::std_specs::convert::FromSpecImpl<IntrinsicType> for ValueType {
    open spec fn obeys_from_spec() -> bool {
        true
    }

    open spec fn from_spec(value: IntrinsicType) -> Self {
        ValueType::Intrinsic(value)
    }
}

impl From<IntrinsicType> for ValueType {
    fn from(value: IntrinsicType) -> (r: Self) {
        ValueType::Intrinsic(value)
    }
}

impl vstd::std_specs::cmp::PartialEqSpecImpl<IntrinsicType> for ValueType {
    open spec fn obeys_eq_spec() -> bool {
        true
    }

    open spec fn eq_spec(&self, other: &IntrinsicType) -> bool {
        *self == ValueType::Intrinsic(*other)
    }
}

/// A value type compares equal to an intrinsic type exactly when it is that
/// intrinsic type.
impl PartialEq<IntrinsicType> for ValueType {
    fn eq(&self, other: &IntrinsicType) -> (r: bool) {
        match self {
            ValueType::Intrinsic(intrinsic) => *intrinsic == *other,
            ValueType::Domain(_) => false,
        }
    }
}

/// A source of a complete value type: an intrinsic type or a value type.
pub trait IntoValueType {
    /// The value type that this source denotes.
    spec fn denoted_value_type(&self) -> ValueType;

    /// Converts this source into the value type that it denotes.
    fn into_value_type(self) -> (r: ValueType)
        ensures
            r == self.denoted_value_type(),
    ;
}

impl IntoValueType for IntrinsicType {
    open spec fn denoted_value_type(&self) -> ValueType {
        ValueType::Intrinsic(*self)
    }

    fn into_value_type(self) -> (r: ValueType) {
        ValueType::Intrinsic(self)
    }
}

impl IntoValueType for ValueType {
    open spec fn denoted_value_type(&self) -> ValueType {
        *self
    }

    fn into_value_type(self) -> (r: ValueType) {
        self
    }
}

} // verus!
