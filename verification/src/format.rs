//! The canonical `.mnir` format 1.0: its envelope, resource limits, and
//! error categories.
use vstd::prelude::*;

verus! {

/// The eight bytes that open every `.mnir` file.
pub const MAGIC: [u8; 8] = [0x89, 0x4d, 0x4e, 0x49, 0x52, 0x0d, 0x0a, 0x1a];

/// The supported major format version.
pub const FORMAT_MAJOR: u16 = 1;

/// The supported minor format version.
pub const FORMAT_MINOR: u16 = 0;

/// The length of the envelope: the magic bytes and the two big-endian
/// version numbers.
pub const ENVELOPE_LEN: usize = 12;

/// The largest accepted file, in bytes.
pub const MAX_FILE_SIZE: usize = 0x4000_0000;

/// The largest payload: what a file of the largest size leaves after the
/// envelope.
pub const PAYLOAD_LIMIT: usize = 0x3fff_fff4;

/// The largest Text or Bytes item, in bytes.
pub const MAX_ITEM_SIZE: u64 = 0x1000_0000;

/// The largest number of elements of one collection.
pub const MAX_COLLECTION_COUNT: u64 = 0x100_0000;

/// The deepest nesting of data items, the top-level item at depth one.
pub const MAX_DEPTH: u8 = 16;

/// The twelve envelope bytes of format 1.0.
pub open spec fn envelope() -> Seq<u8> {
    seq![0x89u8, 0x4du8, 0x4eu8, 0x49u8, 0x52u8, 0x0du8, 0x0au8, 0x1au8, 0u8, 1u8, 0u8, 0u8]
}

/// Canonical encoding failure.
#[derive(Clone, Copy, Debug, PartialEq, Eq, Structural)]
pub enum EncodeError {
    InvalidCheckpoint,
    ResourceLimitExceeded,
}

/// Machine-readable canonical decoding failure categories.
#[derive(Clone, Copy, Debug, PartialEq, Eq, Structural)]
pub enum DecodeError {
    UnsupportedFormatVersion,
    MalformedEncoding,
    NonCanonicalEncoding,
    ResourceLimitExceeded,
    InvalidWireSchema,
    StructurallyInvalidProgram,
}

impl EncodeError {
    /// A human-readable description of this failure.
    pub fn message(&self) -> (r: &'static str)
        ensures
            r@ == (match *self {
                EncodeError::InvalidCheckpoint => "invalid persistence checkpoint"@,
                EncodeError::ResourceLimitExceeded => "persistence resource limit exceeded"@,
            }),
    {
        match self {
            EncodeError::InvalidCheckpoint => "invalid persistence checkpoint",
            EncodeError::ResourceLimitExceeded => "persistence resource limit exceeded",
        }
    }
}

impl DecodeError {
    /// A human-readable description of this failure.
    pub fn message(&self) -> (r: &'static str)
        ensures
            r@ == (match *self {
                DecodeError::UnsupportedFormatVersion => "unsupported MNIR format version"@,
                DecodeError::MalformedEncoding => "malformed MNIR encoding"@,
                DecodeError::NonCanonicalEncoding => "non-canonical MNIR encoding"@,
                DecodeError::ResourceLimitExceeded => "MNIR persistence resource limit exceeded"@,
                DecodeError::InvalidWireSchema => "invalid MNIR wire schema"@,
                DecodeError::StructurallyInvalidProgram => "structurally invalid MNIR Program"@,
            }),
    {
        match self {
            DecodeError::UnsupportedFormatVersion => "unsupported MNIR format version",
            DecodeError::MalformedEncoding => "malformed MNIR encoding",
            DecodeError::NonCanonicalEncoding => "non-canonical MNIR encoding",
            DecodeError::ResourceLimitExceeded => "MNIR persistence resource limit exceeded",
            DecodeError::InvalidWireSchema => "invalid MNIR wire schema",
            DecodeError::StructurallyInvalidProgram => "structurally invalid MNIR Program",
        }
    }
}

} // verus!
