//! Identifier categories and the persistent identities of Programs,
//! revisions, allocation namespaces, and semantic entities.
use vstd::prelude::*;

verus! {

/// The identifier categories defined by MNIR.
#[derive(Clone, Copy, Debug, PartialEq, Eq, Hash, Structural)]
pub enum IdentifierCategory {
    Program,
    Revision,
    AllocationNamespace,
    Module,
    Type,
    Function,
    Parameter,
    Block,
    Expression,
}

/// The sixteen big-endian bytes of a 128-bit identity value.
pub open spec fn be_bytes_of(value: u128) -> Seq<u8> {
    Seq::new(16, |i: int| ((value >> ((8 * (15 - i)) as u128)) & 0xff) as u8)
}

/// The 128-bit value whose big-endian bytes are `bytes`.
pub open spec fn be_value_of(bytes: Seq<u8>) -> int
    decreases bytes.len(),
{
    if bytes.len() == 0 {
        0
    } else {
        be_value_of(bytes.drop_last()) * 256 + bytes.last()
    }
}

/// Writes a 128-bit identity value as its sixteen big-endian bytes.
pub fn u128_to_be_bytes(value: u128) -> (bytes: [u8; 16])
    ensures
        bytes@ == be_bytes_of(value),
{
    let bytes = [
        ((value >> 120u128) & 0xff) as u8,
        ((value >> 112u128) & 0xff) as u8,
        ((value >> 104u128) & 0xff) as u8,
        ((value >> 96u128) & 0xff) as u8,
        ((value >> 88u128) & 0xff) as u8,
        ((value >> 80u128) & 0xff) as u8,
        ((value >> 72u128) & 0xff) as u8,
        ((value >> 64u128) & 0xff) as u8,
        ((value >> 56u128) & 0xff) as u8,
        ((value >> 48u128) & 0xff) as u8,
        ((value >> 40u128) & 0xff) as u8,
        ((value >> 32u128) & 0xff) as u8,
        ((value >> 24u128) & 0xff) as u8,
        ((value >> 16u128) & 0xff) as u8,
        ((value >> 8u128) & 0xff) as u8,
        (value & 0xff) as u8,
    ];
    assert(bytes@ =~= be_bytes_of(value)) by {
        assert(value >> 0u128 == value) by (bit_vector);
    }
    bytes
}

/// Reads sixteen big-endian bytes as one 128-bit identity value.
pub fn u128_from_be_bytes(bytes: [u8; 16]) -> (value: u128)
    ensures
        value == be_value_of(bytes@),
{
    let mut value: u128 = 0;
    let mut i: usize = 0;
    while i < 16
        invariant
            i <= 16,
            value == be_value_of(bytes@.subrange(0, i as int)),
            value < pow256(i as nat),
        decreases 16 - i,
    {
        let byte = bytes[i];
        proof {
            lemma_pow256_step(i as nat);
            assert(bytes@.subrange(0, i + 1).drop_last() =~= bytes@.subrange(0, i as int));
            assert(value * 256 + byte < pow256((i + 1) as nat)) by (nonlinear_arith)
                requires
                    value < pow256(i as nat),
                    byte < 256,
                    pow256((i + 1) as nat) == pow256(i as nat) * 256,
            ;
            lemma_pow256_bound((i + 1) as nat);
        }
        value = value * 256 + byte as u128;
        i = i + 1;
    }
    assert(bytes@.subrange(0, 16) =~= bytes@);
    value
}

/// `256` raised to `n`.
pub open spec fn pow256(n: nat) -> nat
    decreases n,
{
    if n == 0 {
        1
    } else {
        256 * pow256((n - 1) as nat)
    }
}

proof fn lemma_pow256_step(n: nat)
    ensures
        pow256(n + 1) == pow256(n) * 256,
{
}

proof fn lemma_pow256_bound(n: nat)
    requires
        n <= 16,
    ensures
        pow256(n) <= 0x1_0000_0000_0000_0000_0000_0000_0000_0000,
    decreases n,
{
    if n > 0 {
        lemma_pow256_bound((n - 1) as nat);
        assert(pow256((n - 1) as nat) <= pow256(15)) by {
            lemma_pow256_monotone((n - 1) as nat, 15);
        }
        reveal_with_fuel(pow256, 17);
    } else {
    }
}

pub(crate) proof fn lemma_pow256_monotone(a: nat, b: nat)
    requires
        a <= b,
    ensures
        pow256(a) <= pow256(b),
    decreases b,
{
    if a < b {
        lemma_pow256_monotone(a, (b - 1) as nat);
    }
}

/// Opaque identity of one Program lineage.
#[derive(Clone, Copy, Debug, PartialEq, Eq, Hash, Structural)]
pub struct ProgramId(pub u128);

impl ProgramId {
    /// The identity value carried by this Program identity.
    pub open spec fn value(self) -> u128 {
        self.0
    }

    /// Returns the sixteen persistent bytes of this identity.
    pub fn persistent_bytes(self) -> (bytes: [u8; 16])
        ensures
            bytes@ == be_bytes_of(self.value()),
    {
        u128_to_be_bytes(self.0)
    }
}

/// Opaque identity of one committed revision within a Program lineage.
#[derive(Clone, Copy, Debug, PartialEq, Eq, Hash, Structural)]
pub struct RevisionId(pub u64);

impl RevisionId {
    /// The persistent value of this revision identity.
    pub open spec fn value(self) -> u64 {
        self.0
    }

    /// Returns the persistent value of this revision identity.
    pub fn persistent_value(self) -> (value: u64)
        ensures
            value == self.value(),
    {
        self.0
    }
}

/// Collision-resistant minting domain for persistent semantic entity IDs.
#[derive(Clone, Copy, Debug, PartialEq, Eq, Hash, Structural)]
pub struct AllocationNamespaceId(pub u128);

impl AllocationNamespaceId {
    /// The identity value carried by this namespace.
    pub open spec fn value(self) -> u128 {
        self.0
    }

    /// Returns the sixteen persistent bytes of this namespace.
    pub fn persistent_bytes(self) -> (bytes: [u8; 16])
        ensures
            bytes@ == be_bytes_of(self.value()),
    {
        u128_to_be_bytes(self.0)
    }
}

/// Read-only state of a lineage's single active entity counter.
#[derive(Clone, Copy, Debug, PartialEq, Eq, Hash, Structural)]
pub enum AllocationCounterState {
    Available(u64),
    Exhausted,
}

/// Persistent typed identity of one Module.
#[derive(Clone, Copy, Debug, PartialEq, Eq, Hash, Structural)]
pub struct ModuleId {
    pub namespace_id: AllocationNamespaceId,
    pub counter: u64,
}

/// Persistent typed identity of one Domain Type.
#[derive(Clone, Copy, Debug, PartialEq, Eq, Hash, Structural)]
pub struct TypeId {
    pub namespace_id: AllocationNamespaceId,
    pub counter: u64,
}

/// Persistent typed identity of one Function.
#[derive(Clone, Copy, Debug, PartialEq, Eq, Hash, Structural)]
pub struct FunctionId {
    pub namespace_id: AllocationNamespaceId,
    pub counter: u64,
}

/// Persistent typed identity of one Parameter.
#[derive(Clone, Copy, Debug, PartialEq, Eq, Hash, Structural)]
pub struct ParameterId {
    pub namespace_id: AllocationNamespaceId,
    pub counter: u64,
}

/// Persistent typed identity of one Block.
#[derive(Clone, Copy, Debug, PartialEq, Eq, Hash, Structural)]
pub struct BlockId {
    pub namespace_id: AllocationNamespaceId,
    pub counter: u64,
}

/// Persistent typed identity of one Expression.
#[derive(Clone, Copy, Debug, PartialEq, Eq, Hash, Structural)]
pub struct ExpressionId {
    pub namespace_id: AllocationNamespaceId,
    pub counter: u64,
}

impl ModuleId {
    /// Returns the persistent allocation namespace component.
    pub fn namespace_id(self) -> (r: AllocationNamespaceId)
        ensures
            r == self.namespace_id,
    {
        self.namespace_id
    }

    /// Returns the persistent counter component.
    pub fn counter(self) -> (r: u64)
        ensures
            r == self.counter,
    {
        self.counter
    }
}

impl TypeId {
    /// Returns the persistent allocation namespace component.
    pub fn namespace_id(self) -> (r: AllocationNamespaceId)
        ensures
            r == self.namespace_id,
    {
        self.namespace_id
    }

    /// Returns the persistent counter component.
    pub fn counter(self) -> (r: u64)
        ensures
            r == self.counter,
    {
        self.counter
    }
}

impl FunctionId {
    /// Returns the persistent allocation namespace component.
    pub fn namespace_id(self) -> (r: AllocationNamespaceId)
        ensures
            r == self.namespace_id,
    {
        self.namespace_id
    }

    /// Returns the persistent counter component.
    pub fn counter(self) -> (r: u64)
        ensures
            r == self.counter,
    {
        self.counter
    }
}

impl ParameterId {
    /// Returns the persistent allocation namespace component.
    pub fn namespace_id(self) -> (r: AllocationNamespaceId)
        ensures
            r == self.namespace_id,
    {
        self.namespace_id
    }

    /// Returns the persistent counter component.
    pub fn counter(self) -> (r: u64)
        ensures
            r == self.counter,
    {
        self.counter
    }
}

impl BlockId {
    /// Returns the persistent allocation namespace component.
    pub fn namespace_id(self) -> (r: AllocationNamespaceId)
        ensures
            r == self.namespace_id,
    {
        self.namespace_id
    }

    /// Returns the persistent counter component.
    pub fn counter(self) -> (r: u64)
        ensures
            r == self.counter,
    {
        self.counter
    }
}

impl ExpressionId {
    /// Returns the persistent allocation namespace component.
    pub fn namespace_id(self) -> (r: AllocationNamespaceId)
        ensures
            r == self.namespace_id,
    {
        self.namespace_id
    }

    /// Returns the persistent counter component.
    pub fn counter(self) -> (r: u64)
        ensures
            r == self.counter,
    {
        self.counter
    }
}

} // verus!
