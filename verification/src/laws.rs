//! Properties that hold across the operations of the library.
use vstd::prelude::*;

use crate::canonical::{lemma_payload_pieces, lemma_payload_pieces_same};
use crate::decode::{WireProgram, candidate_is, wire_payload};
use crate::document::{checkpoint_is, decoded_document, envelope_check, restorable};
use crate::encode::pieces_payload;
use crate::roundtrip::{
    checkpoint_identities_distinct, flat, lemma_outcome_flat, lemma_payload_reads_back,
    lemma_valid_identities_distinct, wire_program_of,
};
use crate::encode::encoded_file;
use crate::format::{DecodeError, EncodeError, ENVELOPE_LEN, PAYLOAD_LIMIT, envelope};
use crate::model::ModuleView;
use crate::model::module_views;
use crate::persistence::{CheckpointView, PersistenceProgram, counter_state_of, restore_error};
use crate::revalidate::lemma_restore_transfer;
use crate::program::merged;
use crate::scan::canonical_check;
use crate::transaction::{TransactionView, committed, edited, issued, rejected, when_active};
use crate::error::{MutationError, TransactionState};
use crate::authority::{
    AuthorityClaimError, AuthorityLease, AuthorityRecord, AuthorityRegistry, lemma_record_index_of, record_index,
    registry_wf, restored_claim,
};
use crate::ids::{AllocationCounterState, AllocationNamespaceId, ProgramId, RevisionId};

verus! {

/// An operation on a transaction that is no longer active changes nothing
/// and is refused with the transaction's state.
pub proof fn law_inactive_transaction_refuses_every_operation<T>(
    t: TransactionView,
    outcome: (TransactionView, Result<T, MutationError>),
)
    requires
        t.state != TransactionState::Active,
    ensures
        when_active(t, outcome) == (t, Err::<T, MutationError>(MutationError::TransactionNotActive(t.state))),
{
}

/// A rejected operation leaves the candidate, the provisional identities,
/// and the lineage as they were, and fails the transaction.
pub proof fn law_rejected_operation_changes_only_the_state<T>(t: TransactionView, e: MutationError)
    ensures
        rejected::<T>(t, e).0.candidate == t.candidate,
        rejected::<T>(t, e).0.provisional == t.provisional,
        rejected::<T>(t, e).0.program == t.program,
        rejected::<T>(t, e).0.state == TransactionState::Failed,
        rejected::<T>(t, e).1 == Err::<T, MutationError>(e),
{
}

/// An edit of the candidate never changes the committed lineage.
pub proof fn law_edits_leave_the_lineage_unchanged<T>(t: TransactionView, candidate: Seq<ModuleView>, value: T)
    ensures
        edited(t, candidate, value).0.program == t.program,
        edited(t, candidate, value).0.candidate == candidate,
{
}

/// Issuing an identity advances only the entity counter: the committed
/// revision and the candidate are untouched.
pub proof fn law_issuing_advances_only_the_counter(t: TransactionView, c: u64)
    ensures
        issued(t, c).program.revision == t.program.revision,
        issued(t, c).program.program_id == t.program.program_id,
        issued(t, c).program.namespace_id == t.program.namespace_id,
        issued(t, c).candidate == t.candidate,
        c < u64::MAX ==> issued(t, c).program.counter == crate::ids::AllocationCounterState::Available((c + 1) as u64),
        c == u64::MAX ==> issued(t, c).program.counter == crate::ids::AllocationCounterState::Exhausted,
{
}

proof fn lemma_merged_keeps_all(keys: Seq<(u128, u64)>, additions: Seq<(u128, u64)>)
    ensures
        forall|k: (u128, u64)| #[trigger] merged(keys, additions).contains(k) <==> keys.contains(k) || additions.contains(k),
    decreases additions.len(),
{
    if additions.len() > 0 {
        let rest = additions.drop_last();
        let last = additions.last();
        lemma_merged_keeps_all(keys, rest);
        let prefix = merged(keys, rest);
        assert(additions =~= rest.push(last));
        assert forall|k: (u128, u64)| #[trigger] merged(keys, additions).contains(k) <==> keys.contains(k)
            || additions.contains(k) by {
            assert(additions.contains(k) <==> rest.contains(k) || k == last) by {
                if additions.contains(k) {
                    let i = choose|i: int| 0 <= i < additions.len() && additions[i] == k;
                    if i < rest.len() {
                        assert(rest[i] == k);
                    }
                }
                if rest.contains(k) {
                    let i = choose|i: int| 0 <= i < rest.len() && rest[i] == k;
                    assert(additions[i] == k);
                }
                if k == last {
                    assert(additions[additions.len() - 1] == k);
                }
            }
            if !prefix.contains(last) {
                assert(prefix.push(last).contains(k) <==> prefix.contains(k) || k == last) by {
                    if prefix.push(last).contains(k) {
                        let i = choose|i: int| 0 <= i < prefix.push(last).len() && prefix.push(last)[i] == k;
                        if i < prefix.len() {
                            assert(prefix[i] == k);
                        }
                    }
                    if prefix.contains(k) {
                        let i = choose|i: int| 0 <= i < prefix.len() && prefix[i] == k;
                        assert(prefix.push(last)[i] == k);
                    }
                    if k == last {
                        assert(prefix.push(last)[prefix.len() as int] == k);
                    }
                }
            }
        }
    }
}

/// Identities are never forgotten: the history of a committed revision
/// holds every identity of the revision it replaced and every identity the
/// transaction issued, and nothing else.
pub proof fn law_commit_remembers_every_identity(t: TransactionView, n: u64, k: (u128, u64))
    ensures
        t.program.revision.history.modules.contains(k) || t.provisional.modules.contains(k)
            <==> committed(t, n).program.revision.history.modules.contains(k),
        t.program.revision.history.functions.contains(k) || t.provisional.functions.contains(k)
            <==> committed(t, n).program.revision.history.functions.contains(k),
        t.program.revision.history.parameters.contains(k) || t.provisional.parameters.contains(k)
            <==> committed(t, n).program.revision.history.parameters.contains(k),
        t.program.revision.history.blocks.contains(k) || t.provisional.blocks.contains(k)
            <==> committed(t, n).program.revision.history.blocks.contains(k),
        t.program.revision.history.expressions.contains(k) || t.provisional.expressions.contains(k)
            <==> committed(t, n).program.revision.history.expressions.contains(k),
{
    lemma_merged_keeps_all(t.program.revision.history.modules, t.provisional.modules);
    lemma_merged_keeps_all(t.program.revision.history.functions, t.provisional.functions);
    lemma_merged_keeps_all(t.program.revision.history.parameters, t.provisional.parameters);
    lemma_merged_keeps_all(t.program.revision.history.blocks, t.provisional.blocks);
    lemma_merged_keeps_all(t.program.revision.history.expressions, t.provisional.expressions);
}

/// A commit installs the candidate as revision `n`, continues the revision
/// allocator right after it, and keeps the lineage's identity, namespace,
/// and entity counter.
pub proof fn law_commit_installs_the_candidate(t: TransactionView, n: u64)
    ensures
        committed(t, n).program.revision.revision_id.0 == n,
        committed(t, n).program.revision.modules == t.candidate,
        committed(t, n).program.program_id == t.program.program_id,
        committed(t, n).program.namespace_id == t.program.namespace_id,
        committed(t, n).program.counter == t.program.counter,
        n < u64::MAX ==> committed(t, n).program.next_revision == Some((n + 1) as u64),
        n == u64::MAX ==> committed(t, n).program.next_revision is None,
        committed(t, n).state == TransactionState::Committed,
{
}

/// Every encoded file begins with the twelve envelope bytes of format 1.0.
pub proof fn law_encoded_files_begin_with_the_envelope(checkpoint: CheckpointView)
    ensures
        encoded_file(checkpoint) matches Ok(bytes) ==> bytes.len() >= ENVELOPE_LEN && bytes.take(
            ENVELOPE_LEN as int,
        ) == envelope(),
{
    if let Ok(bytes) = encoded_file(checkpoint) {
        assert(bytes.take(ENVELOPE_LEN as int) =~= envelope());
    }
}

/// Only files with a valid envelope and a canonical payload decode.
pub proof fn law_decoded_files_are_canonical(bytes: Seq<u8>)
    ensures
        decoded_document(bytes) is Ok ==> envelope_check(bytes) is Ok && canonical_check(
            bytes.skip(ENVELOPE_LEN as int),
        ) is Ok,
{
}


// ---------------------------------------------------------------------
// Allocation authority.
// ---------------------------------------------------------------------

/// A lineage has at most one mutable continuation: once a restored claim
/// succeeds, every further claim of the same lineage is refused until the
/// lease is released.
pub proof fn law_one_active_continuation_per_lineage(
    records: Seq<AuthorityRecord>,
    program_id: ProgramId,
    namespace: AllocationNamespaceId,
    revision: RevisionId,
    counter: AllocationCounterState,
    next_namespace: AllocationNamespaceId,
    next_revision: RevisionId,
    next_counter: AllocationCounterState,
)
    requires
        registry_wf(records),
        restored_claim(records, program_id, namespace, revision, counter).1 is Ok,
    ensures
        restored_claim(
            restored_claim(records, program_id, namespace, revision, counter).0,
            program_id,
            next_namespace,
            next_revision,
            next_counter,
        ).1 is Err,
        next_namespace == namespace ==> restored_claim(
            restored_claim(records, program_id, namespace, revision, counter).0,
            program_id,
            next_namespace,
            next_revision,
            next_counter,
        ).1 == Err::<AuthorityLease, AuthorityClaimError>(AuthorityClaimError::AlreadyActive),
{
    let after = restored_claim(records, program_id, namespace, revision, counter).0;
    let i = record_index(records, program_id);
    crate::authority::lemma_record_index_facts(records, program_id);
    if i < 0 {
        let k = records.len() as int;
        assert(after[k].program_id == program_id);
        assert forall|a: int, b: int| 0 <= a < b < after.len() implies #[trigger] after[a].program_id != #[trigger] after[b].program_id by {
            if b == k {
                assert(after[a] == records[a]);
            }
        }
        lemma_record_index_of(after, k);
    } else {
        assert(after[i].program_id == program_id);
        assert forall|a: int, b: int| 0 <= a < b < after.len() implies #[trigger] after[a].program_id != #[trigger] after[b].program_id by {
            assert(after[a].program_id == records[a].program_id);
            assert(after[b].program_id == records[b].program_id);
        }
        lemma_record_index_of(after, i);
    }
}

/// Once the continuation of a lineage ends, the same checkpoint can
/// continue the lineage again.
pub proof fn law_released_lineage_can_be_continued_again(
    records: Seq<AuthorityRecord>,
    program_id: ProgramId,
    namespace: AllocationNamespaceId,
    revision: RevisionId,
    counter: AllocationCounterState,
)
    requires
        registry_wf(records),
        restored_claim(records, program_id, namespace, revision, counter).1 is Ok,
    ensures
        ({
            let after = restored_claim(records, program_id, namespace, revision, counter).0;
            let lease = restored_claim(records, program_id, namespace, revision, counter).1->Ok_0;
            let i = record_index(after, program_id);
            &&& 0 <= i < after.len()
            &&& restored_claim(
                after.update(i, crate::authority::released(after[i], lease.claim)),
                program_id,
                namespace,
                revision,
                counter,
            ).1 is Ok
        }),
{
    let after = restored_claim(records, program_id, namespace, revision, counter).0;
    let i0 = record_index(records, program_id);
    crate::authority::lemma_record_index_facts(records, program_id);
    let k = if i0 < 0 { records.len() as int } else { i0 };
    assert(after[k].program_id == program_id);
    assert forall|a: int, b: int| 0 <= a < b < after.len() implies #[trigger] after[a].program_id != #[trigger] after[b].program_id by {
        if i0 < 0 && b == k {
            assert(after[a] == records[a]);
        } else {
            assert(after[a].program_id == records[a].program_id);
            assert(after[b].program_id == records[b].program_id);
        }
    }
    lemma_record_index_of(after, k);
    let lease = restored_claim(records, program_id, namespace, revision, counter).1->Ok_0;
    let again = after.update(k, crate::authority::released(after[k], lease.claim));
    assert forall|a: int, b: int| 0 <= a < b < again.len() implies #[trigger] again[a].program_id != #[trigger] again[b].program_id by {
        assert(again[a].program_id == after[a].program_id);
        assert(again[b].program_id == after[b].program_id);
    }
    assert(again[k].program_id == program_id);
    lemma_record_index_of(again, k);
}

/// A committed identity is never issued again: the counter of a lineage
/// has passed every identity of its History, and every later issuance
/// gives a counter no smaller than the current one, so none of them gives
/// an identity the History holds.
pub proof fn law_committed_identities_are_never_issued_again(
    history: crate::program::HistoryView,
    namespace_id: AllocationNamespaceId,
    counter: AllocationCounterState,
    later: Seq<u64>,
)
    requires
        crate::program::history_issued(history, namespace_id, counter),
        forall|k: int| 0 <= k < later.len() ==> (counter matches AllocationCounterState::Available(next) && #[trigger] later[k]
            >= next),
    ensures
        forall|k: int| 0 <= k < later.len() ==> {
            &&& !history.modules.contains((namespace_id.0, #[trigger] later[k]))
            &&& !history.functions.contains((namespace_id.0, later[k]))
            &&& !history.parameters.contains((namespace_id.0, later[k]))
            &&& !history.blocks.contains((namespace_id.0, later[k]))
            &&& !history.expressions.contains((namespace_id.0, later[k]))
        },
{
    assert forall|k: int| 0 <= k < later.len() implies {
        &&& !history.modules.contains((namespace_id.0, #[trigger] later[k]))
        &&& !history.functions.contains((namespace_id.0, later[k]))
        &&& !history.parameters.contains((namespace_id.0, later[k]))
        &&& !history.blocks.contains((namespace_id.0, later[k]))
        &&& !history.expressions.contains((namespace_id.0, later[k]))
    } by {
        let key = (namespace_id.0, later[k]);
        if history.modules.contains(key) {
            let i = choose|i: int| 0 <= i < history.modules.len() && history.modules[i] == key;
            assert(crate::program::key_issued(history.modules[i], namespace_id, counter));
        }
        if history.functions.contains(key) {
            let i = choose|i: int| 0 <= i < history.functions.len() && history.functions[i] == key;
            assert(crate::program::key_issued(history.functions[i], namespace_id, counter));
        }
        if history.parameters.contains(key) {
            let i = choose|i: int| 0 <= i < history.parameters.len() && history.parameters[i] == key;
            assert(crate::program::key_issued(history.parameters[i], namespace_id, counter));
        }
        if history.blocks.contains(key) {
            let i = choose|i: int| 0 <= i < history.blocks.len() && history.blocks[i] == key;
            assert(crate::program::key_issued(history.blocks[i], namespace_id, counter));
        }
        if history.expressions.contains(key) {
            let i = choose|i: int| 0 <= i < history.expressions.len() && history.expressions[i] == key;
            assert(crate::program::key_issued(history.expressions[i], namespace_id, counter));
        }
    }
}

/// A checkpoint older than what its lineage has reached cannot become a
/// mutable continuation.
pub proof fn law_stale_checkpoints_are_refused(
    records: Seq<AuthorityRecord>,
    program_id: ProgramId,
    namespace: AllocationNamespaceId,
    revision: RevisionId,
    counter: AllocationCounterState,
)
    requires
        record_index(records, program_id) >= 0,
        revision.0 < records[record_index(records, program_id)].revision.0 || crate::authority::counter_older(
            counter,
            records[record_index(records, program_id)].counter,
        ),
    ensures
        restored_claim(records, program_id, namespace, revision, counter).1 is Err,
        restored_claim(records, program_id, namespace, revision, counter).0 == records,
{
}


// ---------------------------------------------------------------------
// Files read back what was written.
// ---------------------------------------------------------------------

/// A written file reads back: the bytes that encoding a checkpoint writes
/// pass the envelope and the canonical profile, and decode to the
/// checkpoint's identities, allocator states and content, each collection
/// in canonical order. Decoding refuses repeated identities, so the
/// checkpoint holds none.
#[verifier::spinoff_prover]
pub proof fn law_encoded_files_decode_to_their_checkpoint(checkpoint: CheckpointView, bytes: Seq<u8>)
    requires
        encoded_file(checkpoint) == Ok::<Seq<u8>, EncodeError>(bytes),
        checkpoint_identities_distinct(checkpoint),
    ensures
        decoded_document(bytes) == Ok::<WireProgram, DecodeError>(wire_program_of(checkpoint)),
{
    let pieces = pieces_payload(checkpoint);
    lemma_outcome_flat(pieces, 0);
    let payload = flat(pieces);
    assert(bytes == envelope() + payload);
    lemma_payload_reads_back(payload, checkpoint);
    lemma_file_reads_back(bytes, payload, wire_program_of(checkpoint));
}

/// A file of the envelope and a payload that passes the canonical profile
/// decodes as the payload reads.
proof fn lemma_file_reads_back(bytes: Seq<u8>, payload: Seq<u8>, document: WireProgram)
    requires
        bytes == envelope() + payload,
        payload.len() <= PAYLOAD_LIMIT,
        canonical_check(payload) == Ok::<(), DecodeError>(()),
        wire_payload(payload) == Ok::<WireProgram, DecodeError>(document),
    ensures
        decoded_document(bytes) == Ok::<WireProgram, DecodeError>(document),
{
    assert(payload.len() >= 1);
    assert(bytes.take(8) =~= envelope().take(8));
    assert(bytes[8] == 0 && bytes[9] == 1 && bytes[10] == 0 && bytes[11] == 0);
    assert(bytes.skip(ENVELOPE_LEN as int) =~= payload);
    assert(envelope_check(bytes) == Ok::<(), DecodeError>(()));
}

/// Re-encoding is exact: a checkpoint that holds what the file of another
/// checkpoint decodes to writes the very same bytes.
pub proof fn law_decoded_checkpoints_encode_to_the_same_bytes(
    checkpoint: CheckpointView,
    bytes: Seq<u8>,
    document: WireProgram,
    decoded: CheckpointView,
)
    requires
        encoded_file(checkpoint) == Ok::<Seq<u8>, EncodeError>(bytes),
        checkpoint_identities_distinct(checkpoint),
        decoded_document(bytes) == Ok::<WireProgram, DecodeError>(document),
        checkpoint_is(decoded, document),
    ensures
        encoded_file(decoded) == Ok::<Seq<u8>, EncodeError>(bytes),
{
    law_encoded_files_decode_to_their_checkpoint(checkpoint, bytes);
    lemma_payload_pieces(decoded, checkpoint);
}


/// A checkpoint that reconstructs as stored is read back from its file:
/// the file decodes to the checkpoint's canonical form, and every
/// reconstruction candidate read from it reconstructs, so decoding the
/// file succeeds.
#[verifier::spinoff_prover]
pub proof fn law_written_files_reconstruct(checkpoint: CheckpointView, bytes: Seq<u8>, candidate: PersistenceProgram)
    requires
        encoded_file(checkpoint) == Ok::<Seq<u8>, EncodeError>(bytes),
        restore_error(
            checkpoint.revision.revision_id,
            counter_state_of(checkpoint.next_revision),
            checkpoint.namespace_id,
            checkpoint.counter,
            checkpoint.revision.modules,
        ) is None,
    ensures
        decoded_document(bytes) == Ok::<WireProgram, DecodeError>(wire_program_of(checkpoint)),
        candidate_is(candidate, wire_program_of(checkpoint)) ==> restorable(
            wire_program_of(checkpoint),
            module_views(candidate.modules@),
        ),
{
    lemma_valid_identities_distinct(checkpoint.revision.modules);
    law_encoded_files_decode_to_their_checkpoint(checkpoint, bytes);
    if candidate_is(candidate, wire_program_of(checkpoint)) {
        lemma_restore_transfer(
            checkpoint.revision.revision_id,
            counter_state_of(checkpoint.next_revision),
            checkpoint.namespace_id,
            checkpoint.counter,
            module_views(candidate.modules@),
            checkpoint.revision.modules,
        );
    }
}


/// Encoding ignores the stored order: two checkpoints with the same
/// content, whatever order each identity-ordered collection is stored in,
/// write the same file, or fail alike.
pub proof fn law_encoding_ignores_stored_order(v: CheckpointView, u: CheckpointView)
    requires
        wire_program_of(v) == wire_program_of(u),
        checkpoint_identities_distinct(v),
        checkpoint_identities_distinct(u),
    ensures
        encoded_file(v) == encoded_file(u),
{
    lemma_payload_pieces_same(v, u);
}

} // verus!
