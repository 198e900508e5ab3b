//! Reading and writing whole `.mnir` files: the envelope, the canonical
//! profile, the wire schema, and structural validation, in that order.
use vstd::prelude::*;
use vstd::slice::slice_subrange;

use crate::decode::{WireProgram, candidate_is, decode_payload, modules_are, wire_payload};
use crate::format::{
    DecodeError, ENVELOPE_LEN, FORMAT_MAJOR, FORMAT_MINOR, MAGIC, MAX_FILE_SIZE, envelope,
};
use crate::ids::{AllocationCounterState, AllocationNamespaceId, ProgramId, RevisionId};
use crate::model::module_views;
use crate::persistence::{
    CheckpointView, PersistenceProgram, PersistenceSnapshot, RevisionCounterState,
    ValidatedPersistenceState, counter_state_of, restore_error,
};
use crate::program::{MnirProgram, ProgramView, present_history};
use crate::authority::{restored_claim, AuthorityLease, AuthorityRegistry};
use crate::scan::{canonical_check, validate_canonical_cbor};

verus! {

/// The envelope of a file: within the size limit, the magic bytes, format
/// version 1.0, and a payload after it.
pub open spec fn envelope_check(b: Seq<u8>) -> Result<(), DecodeError> {
    if b.len() > MAX_FILE_SIZE {
        Err(DecodeError::ResourceLimitExceeded)
    } else if b.len() < 8 || b.take(8) != envelope().take(8) {
        Err(DecodeError::MalformedEncoding)
    } else if b.len() < ENVELOPE_LEN {
        Err(DecodeError::MalformedEncoding)
    } else if b[8] * 256 + b[9] != FORMAT_MAJOR || b[10] * 256 + b[11] != FORMAT_MINOR {
        Err(DecodeError::UnsupportedFormatVersion)
    } else if b.len() == ENVELOPE_LEN {
        Err(DecodeError::MalformedEncoding)
    } else {
        Ok(())
    }
}

/// The document that a file holds: its envelope is checked, then the
/// canonical profile of its payload, then the payload is read.
pub open spec fn decoded_document(b: Seq<u8>) -> Result<WireProgram, DecodeError> {
    match envelope_check(b) {
        Err(e) => Err(e),
        Ok(()) => match canonical_check(b.skip(ENVELOPE_LEN as int)) {
            Err(e) => Err(e),
            Ok(()) => wire_payload(b.skip(ENVELOPE_LEN as int)),
        },
    }
}

/// The revision allocator state that a next revision value describes, as an
/// option.
pub open spec fn next_revision_of(state: RevisionCounterState) -> Option<u64> {
    match state {
        RevisionCounterState::Available(n) => Some(n),
        RevisionCounterState::Exhausted => None,
    }
}

/// A checkpoint that holds the decoded document.
pub open spec fn checkpoint_is(v: CheckpointView, w: WireProgram) -> bool {
    &&& v.program_id == w.program_id
    &&& v.revision.revision_id == w.revision_id
    &&& modules_are(v.revision.modules, w.modules)
    &&& v.revision.history == present_history(v.revision.modules)
    &&& v.next_revision == next_revision_of(w.revision_counter_state)
    &&& v.namespace_id == w.namespace_id
    &&& v.counter == w.counter
}

/// Modules that reconstruct a valid lineage with the decoded identities and
/// allocator states.
pub open spec fn restorable(w: WireProgram, modules: Seq<crate::model::ModuleView>) -> bool {
    restore_error(w.revision_id, w.revision_counter_state, w.namespace_id, w.counter, modules) is None
}

/// Fully decoded and structurally validated immutable persistence state.
///
/// Decoding does not grant mutable allocation authority; [`Self::activate`]
/// turns the checkpoint into a mutable continuation.
#[derive(Debug)]
pub struct DecodedProgram {
    validated: ValidatedPersistenceState,
}

impl View for DecodedProgram {
    type V = CheckpointView;

    closed spec fn view(&self) -> CheckpointView {
        self.validated@
    }
}

impl DecodedProgram {
    /// Returns the Program identity.
    pub fn program_id(&self) -> (r: ProgramId)
        ensures
            r == self@.program_id,
    {
        self.validated.program_id()
    }

    /// Returns the revision identity.
    pub fn revision_id(&self) -> (r: RevisionId)
        ensures
            r == self@.revision.revision_id,
    {
        self.validated.revision_id()
    }

    /// Returns the state of the revision allocator.
    pub fn revision_counter_state(&self) -> (r: RevisionCounterState)
        ensures
            r == counter_state_of(self@.next_revision),
    {
        self.validated.revision_counter_state()
    }

    /// Returns the allocation namespace.
    pub fn allocation_namespace_id(&self) -> (r: AllocationNamespaceId)
        ensures
            r == self@.namespace_id,
    {
        self.validated.allocation_namespace_id()
    }

    /// Returns the state of the entity counter.
    pub fn allocation_counter_state(&self) -> (r: AllocationCounterState)
        ensures
            r == self@.counter,
    {
        self.validated.allocation_counter_state()
    }

    /// Returns the number of Modules.
    pub fn module_count(&self) -> (r: usize)
        ensures
            r == self@.revision.modules.len(),
    {
        self.validated.module_count()
    }

    /// Returns an immutable checkpoint suitable for canonical re-encoding.
    pub fn persistence_snapshot(&self) -> (r: PersistenceSnapshot)
        ensures
            r@ == self@,
    {
        self.validated.persistence_snapshot()
    }

    /// Turns this checkpoint into the mutable continuation of its lineage,
    /// with the persisted allocator states exactly, once `registry` grants
    /// the lineage's allocation authority ([`restored_claim`]). A repeated,
    /// concurrent or stale activation is refused as
    /// `StructurallyInvalidProgram`, and nothing is claimed.
    pub fn activate(self, registry: &mut AuthorityRegistry) -> (r: Result<(MnirProgram, AuthorityLease), DecodeError>)
        ensures
            final(registry)@ == restored_claim(
                old(registry)@,
                self@.program_id,
                self@.namespace_id,
                self@.revision.revision_id,
                self@.counter,
            ).0,
            match restored_claim(old(registry)@, self@.program_id, self@.namespace_id, self@.revision.revision_id, self@.counter).1 {
                Ok(lease) => r matches Ok((p, l)) && l == lease && p@ == (ProgramView {
                    program_id: self@.program_id,
                    revision: self@.revision,
                    next_revision: self@.next_revision,
                    namespace_id: self@.namespace_id,
                    counter: self@.counter,
                }),
                Err(_) => r == Err::<(MnirProgram, AuthorityLease), DecodeError>(DecodeError::StructurallyInvalidProgram),
            },
    {
        match MnirProgram::activate_persistence(registry, self.validated) {
            Ok(activated) => Ok(activated),
            Err(_) => Err(DecodeError::StructurallyInvalidProgram),
        }
    }
}

/// The limit on the size of a file: accepted up to [`MAX_FILE_SIZE`]
/// bytes inclusive.
pub fn validate_file_size(len: u64) -> (r: Result<(), DecodeError>)
    ensures
        r == (if len > MAX_FILE_SIZE {
            Err(DecodeError::ResourceLimitExceeded)
        } else {
            Ok(())
        }),
{
    if len > MAX_FILE_SIZE as u64 {
        Err(DecodeError::ResourceLimitExceeded)
    } else {
        Ok(())
    }
}

/// Checks the envelope of a file: [`envelope_check`].
pub fn validate_envelope(bytes: &[u8]) -> (r: Result<(), DecodeError>)
    ensures
        r == envelope_check(bytes@),
{
    let len = bytes.len();
    if let Err(e) = validate_file_size(len as u64) {
        return Err(e);
    }
    if len < 8 {
        return Err(DecodeError::MalformedEncoding);
    }
    let mut i: usize = 0;
    while i < 8
        invariant
            i <= 8,
            len == bytes@.len(),
            len >= 8,
            len <= MAX_FILE_SIZE,
            forall|j: int| 0 <= j < i ==> bytes@[j] == envelope()[j],
        decreases 8 - i,
    {
        if bytes[i] != MAGIC[i] {
            assert(bytes@.take(8)[i as int] != envelope().take(8)[i as int]);
            return Err(DecodeError::MalformedEncoding);
        }
        i = i + 1;
    }
    assert(bytes@.take(8) =~= envelope().take(8));
    if len < ENVELOPE_LEN {
        return Err(DecodeError::MalformedEncoding);
    }
    let major = bytes[8] as u16 * 256 + bytes[9] as u16;
    let minor = bytes[10] as u16 * 256 + bytes[11] as u16;
    if major != FORMAT_MAJOR || minor != FORMAT_MINOR {
        return Err(DecodeError::UnsupportedFormatVersion);
    }
    if len == ENVELOPE_LEN {
        return Err(DecodeError::MalformedEncoding);
    }
    Ok(())
}

/// Decodes and structurally validates one exact canonical format-1.0 file
/// into an immutable observation; the mutable continuation requires
/// [`DecodedProgram::activate`].
///
/// Where the document is read but no valid lineage is reconstructed from
/// it, the failure is `StructurallyInvalidProgram`.
pub fn decode(bytes: &[u8]) -> (r: Result<DecodedProgram, DecodeError>)
    ensures
        match decoded_document(bytes@) {
            Err(e) => r == Err::<DecodedProgram, DecodeError>(e),
            Ok(w) => match r {
                Ok(d) => checkpoint_is(d@, w) && restorable(w, d@.revision.modules),
                Err(e) => e == DecodeError::StructurallyInvalidProgram && exists|c: PersistenceProgram|
                    candidate_is(c, w) && !restorable(w, module_views(c.modules@)),
            },
        },
{
    if let Err(e) = validate_envelope(bytes) {
        return Err(e);
    }
    let payload = slice_subrange(bytes, ENVELOPE_LEN, bytes.len());
    assert(payload@ =~= bytes@.skip(ENVELOPE_LEN as int));
    if let Err(e) = validate_canonical_cbor(payload) {
        return Err(e);
    }
    let candidate = match decode_payload(payload) {
        Ok(c) => c,
        Err(e) => return Err(e),
    };
    let ghost staged = candidate;
    match MnirProgram::validate_persistence(candidate) {
        Ok(validated) => Ok(DecodedProgram { validated }),
        Err(_) => {
            assert(candidate_is(staged, decoded_document(bytes@)->Ok_0));
            Err(DecodeError::StructurallyInvalidProgram)
        },
    }
}

} // verus!
