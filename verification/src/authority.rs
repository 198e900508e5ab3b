//! The allocation authority registry: which Program lineages are known,
//! with their allocation namespaces, the newest revision and entity counter
//! observed, and whether a mutable continuation of each is active.
//!
//! The registry decides every claim; whoever owns it (one per process)
//! keeps it behind a lock and releases a claim when its lease ends.
use vstd::prelude::*;

use crate::persistence::PersistenceRestoreError;
use crate::ids::{AllocationCounterState, AllocationNamespaceId, IdentifierCategory, ProgramId, RevisionId};

verus! {

/// Why a mutable continuation of a lineage cannot be claimed.
#[derive(Clone, Copy, Debug, PartialEq, Eq, Structural)]
pub enum AuthorityClaimError {
    AlreadyActive,
    Stale,
    IdentityCollision(IdentifierCategory),
}

/// The reconstruction failure that a refused claim of a restored lineage
/// is reported as.
pub open spec fn claim_failure(error: AuthorityClaimError) -> PersistenceRestoreError {
    match error {
        AuthorityClaimError::AlreadyActive => PersistenceRestoreError::AuthorityAlreadyActive,
        AuthorityClaimError::Stale => PersistenceRestoreError::StaleAuthority,
        AuthorityClaimError::IdentityCollision(_) => PersistenceRestoreError::AuthorityIdentityCollision,
    }
}

/// Reports a refused claim of a restored lineage: [`claim_failure`].
pub fn restore_failure_of(error: AuthorityClaimError) -> (r: PersistenceRestoreError)
    ensures
        r == claim_failure(error),
{
    match error {
        AuthorityClaimError::AlreadyActive => PersistenceRestoreError::AuthorityAlreadyActive,
        AuthorityClaimError::Stale => PersistenceRestoreError::StaleAuthority,
        AuthorityClaimError::IdentityCollision(_) => PersistenceRestoreError::AuthorityIdentityCollision,
    }
}

/// What the registry knows of one lineage.
#[derive(Clone, Copy, Debug, PartialEq, Eq, Structural)]
pub struct AuthorityRecord {
    pub program_id: ProgramId,
    pub namespace: AllocationNamespaceId,
    pub revision: RevisionId,
    pub counter: AllocationCounterState,
    pub active_claim: Option<u64>,
    pub next_claim: u64,
}

/// The right of one mutable continuation to allocate in its lineage.
#[derive(Clone, Copy, Debug, PartialEq, Eq, Structural)]
pub struct AuthorityLease {
    pub program_id: ProgramId,
    pub claim: u64,
}

/// Counter state `candidate` is behind `latest`: it would issue an
/// identity that `latest` has already passed.
pub open spec fn counter_older(candidate: AllocationCounterState, latest: AllocationCounterState) -> bool {
    match (candidate, latest) {
        (AllocationCounterState::Available(left), AllocationCounterState::Available(right)) => left < right,
        (AllocationCounterState::Available(_), AllocationCounterState::Exhausted) => true,
        (AllocationCounterState::Exhausted, _) => false,
    }
}

/// Exec form of [`counter_older`].
pub fn counter_is_older(candidate: AllocationCounterState, latest: AllocationCounterState) -> (r: bool)
    ensures
        r == counter_older(candidate, latest),
{
    match (candidate, latest) {
        (AllocationCounterState::Available(left), AllocationCounterState::Available(right)) => left < right,
        (AllocationCounterState::Available(_), AllocationCounterState::Exhausted) => true,
        (AllocationCounterState::Exhausted, _) => false,
    }
}

/// The position of the record of `program_id`, or `-1`.
pub open spec fn record_index(records: Seq<AuthorityRecord>, program_id: ProgramId) -> int
    decreases records.len(),
{
    if records.len() == 0 {
        -1
    } else if records.last().program_id == program_id {
        records.len() - 1
    } else {
        record_index(records.drop_last(), program_id)
    }
}

/// Some record uses allocation namespace `namespace`.
pub open spec fn namespace_known(records: Seq<AuthorityRecord>, namespace: AllocationNamespaceId) -> bool {
    exists|i: int| 0 <= i < records.len() && #[trigger] records[i].namespace == namespace
}

/// The claim after `next`: the next claim number, skipping zero.
pub open spec fn claim_after(next: u64) -> u64 {
    if next == u64::MAX {
        1
    } else {
        (next + 1) as u64
    }
}

/// What claiming a fresh lineage gives: a collision with a known Program
/// identity or namespace, or a new active record with claim one.
pub open spec fn fresh_claim(
    records: Seq<AuthorityRecord>,
    program_id: ProgramId,
    namespace: AllocationNamespaceId,
    revision: RevisionId,
    counter: AllocationCounterState,
) -> (Seq<AuthorityRecord>, Result<AuthorityLease, AuthorityClaimError>) {
    if record_index(records, program_id) >= 0 {
        (records, Err(AuthorityClaimError::IdentityCollision(IdentifierCategory::Program)))
    } else if namespace_known(records, namespace) {
        (records, Err(AuthorityClaimError::IdentityCollision(IdentifierCategory::AllocationNamespace)))
    } else {
        (
            records.push(AuthorityRecord { program_id, namespace, revision, counter, active_claim: Some(1), next_claim: 2 }),
            Ok(AuthorityLease { program_id, claim: 1 }),
        )
    }
}

/// What claiming a restored lineage gives. An unknown lineage is recorded
/// unless its namespace is taken; a known one must keep its namespace,
/// have no active continuation, and be no older than what was observed.
/// A successful claim raises the observed revision and counter to the
/// restored ones and takes the next claim number.
pub open spec fn restored_claim(
    records: Seq<AuthorityRecord>,
    program_id: ProgramId,
    namespace: AllocationNamespaceId,
    revision: RevisionId,
    counter: AllocationCounterState,
) -> (Seq<AuthorityRecord>, Result<AuthorityLease, AuthorityClaimError>) {
    let i = record_index(records, program_id);
    if i < 0 {
        if namespace_known(records, namespace) {
            (records, Err(AuthorityClaimError::IdentityCollision(IdentifierCategory::AllocationNamespace)))
        } else {
            (
                records.push(AuthorityRecord { program_id, namespace, revision, counter, active_claim: Some(1), next_claim: 2 }),
                Ok(AuthorityLease { program_id, claim: 1 }),
            )
        }
    } else {
        let record = records[i];
        if record.namespace != namespace {
            (records, Err(AuthorityClaimError::IdentityCollision(IdentifierCategory::AllocationNamespace)))
        } else if record.active_claim is Some {
            (records, Err(AuthorityClaimError::AlreadyActive))
        } else if revision.0 < record.revision.0 || counter_older(counter, record.counter) {
            (records, Err(AuthorityClaimError::Stale))
        } else {
            (
                records.update(i, AuthorityRecord {
                    revision,
                    counter: if counter_older(record.counter, counter) { counter } else { record.counter },
                    active_claim: Some(record.next_claim),
                    next_claim: claim_after(record.next_claim),
                    ..record
                }),
                Ok(AuthorityLease { program_id, claim: record.next_claim }),
            )
        }
    }
}

/// The record of a lease after an observation: the newest revision and the
/// most advanced counter seen.
pub open spec fn observed(record: AuthorityRecord, revision: RevisionId, counter: AllocationCounterState) -> AuthorityRecord {
    AuthorityRecord {
        revision: if revision.0 > record.revision.0 { revision } else { record.revision },
        counter: if counter_older(record.counter, counter) { counter } else { record.counter },
        ..record
    }
}

/// The record of a lineage after its lease ends: inactive where the lease
/// held the active claim.
pub open spec fn released(record: AuthorityRecord, claim: u64) -> AuthorityRecord {
    if record.active_claim == Some(claim) {
        AuthorityRecord { active_claim: None, ..record }
    } else {
        record
    }
}

/// The records of a registry: each Program identity and each namespace at
/// most once, and claim numbers from one up.
pub open spec fn registry_wf(records: Seq<AuthorityRecord>) -> bool {
    &&& forall|i: int, j: int| 0 <= i < j < records.len() ==> #[trigger] records[i].program_id != #[trigger] records[j].program_id
    &&& forall|i: int, j: int| 0 <= i < j < records.len() ==> #[trigger] records[i].namespace != #[trigger] records[j].namespace
    &&& forall|i: int| 0 <= i < records.len() ==> #[trigger] records[i].next_claim >= 1
}

/// The lineages known to a process and their allocation authority.
#[derive(Debug)]
pub struct AuthorityRegistry {
    records: Vec<AuthorityRecord>,
}

impl View for AuthorityRegistry {
    type V = Seq<AuthorityRecord>;

    closed spec fn view(&self) -> Seq<AuthorityRecord> {
        self.records@
    }
}

pub proof fn lemma_record_index_facts(records: Seq<AuthorityRecord>, program_id: ProgramId)
    ensures
        -1 <= record_index(records, program_id) < records.len(),
        record_index(records, program_id) >= 0 ==> records[record_index(records, program_id)].program_id == program_id,
        record_index(records, program_id) < 0 ==> forall|i: int| 0 <= i < records.len() ==> #[trigger] records[i].program_id != program_id,
    decreases records.len(),
{
    if records.len() > 0 {
        lemma_record_index_facts(records.drop_last(), program_id);
        assert forall|i: int| 0 <= i < records.len() - 1 implies #[trigger] records[i] == records.drop_last()[i] by {}
    }
}

/// In a registry, the record of a Program identity is the one that holds
/// it.
pub proof fn lemma_record_index_of(records: Seq<AuthorityRecord>, i: int)
    requires
        0 <= i < records.len(),
        forall|a: int, b: int| 0 <= a < b < records.len() ==> #[trigger] records[a].program_id != #[trigger] records[b].program_id,
    ensures
        record_index(records, records[i].program_id) == i,
    decreases records.len(),
{
    if i < records.len() - 1 {
        assert(records.last().program_id != records[i].program_id);
        let prefix = records.drop_last();
        assert(prefix[i] == records[i]);
        assert forall|a: int, b: int| 0 <= a < b < prefix.len() implies #[trigger] prefix[a].program_id != #[trigger] prefix[b].program_id by {
            assert(prefix[a] == records[a]);
            assert(prefix[b] == records[b]);
        }
        lemma_record_index_of(prefix, i);
    }
}

impl AuthorityRegistry {
    #[verifier::type_invariant]
    spec fn well_formed(self) -> bool {
        registry_wf(self.records@)
    }

    /// Replaces record `i`, or appends a record where `i` is `None`,
    /// keeping the registry well formed.
    fn store(&mut self, i: Option<usize>, record: AuthorityRecord)
        requires
            match i {
                Some(k) => k < old(self)@.len() && registry_wf(old(self)@.update(k as int, record)),
                None => registry_wf(old(self)@.push(record)),
            },
        ensures
            match i {
                Some(k) => final(self)@ == old(self)@.update(k as int, record),
                None => final(self)@ == old(self)@.push(record),
            },
    {
        let mut records: Vec<AuthorityRecord> = Vec::new();
        std::mem::swap(&mut records, &mut self.records);
        match i {
            Some(k) => {
                records.set(k, record);
            },
            None => {
                records.push(record);
            },
        }
        self.records = records;
    }

    /// A registry that knows no lineage.
    pub fn new() -> (r: Self)
        ensures
            r@ == Seq::<AuthorityRecord>::empty(),
    {
        AuthorityRegistry { records: Vec::new() }
    }

    /// Finds the record of `program_id`: [`record_index`].
    fn find(&self, program_id: ProgramId) -> (r: Option<usize>)
        ensures
            match r {
                Some(i) => i as int == record_index(self@, program_id),
                None => record_index(self@, program_id) < 0,
            },
    {
        proof {
            lemma_record_index_facts(self@, program_id);
        }
        let mut k = self.records.len();
        assert(self@.take(k as int) =~= self@);
        while k > 0
            invariant
                k <= self.records.len(),
                record_index(self@, program_id) == record_index(self@.take(k as int), program_id),
            decreases k,
        {
            let ghost prefix = self@.take(k as int);
            assert(prefix.drop_last() =~= self@.take(k - 1));
            if self.records[k - 1].program_id == program_id {
                return Some(k - 1);
            }
            k = k - 1;
        }
        None
    }

    fn namespace_taken(&self, namespace: AllocationNamespaceId) -> (r: bool)
        ensures
            r == namespace_known(self@, namespace),
    {
        let mut i: usize = 0;
        while i < self.records.len()
            invariant
                i <= self.records.len(),
                forall|j: int| 0 <= j < i ==> #[trigger] self@[j].namespace != namespace,
            decreases self.records.len() - i,
        {
            if self.records[i].namespace == namespace {
                return true;
            }
            i = i + 1;
        }
        false
    }

    /// Claims the authority of a new lineage: [`fresh_claim`].
    pub fn claim_fresh(
        &mut self,
        program_id: ProgramId,
        namespace: AllocationNamespaceId,
        revision: RevisionId,
        counter: AllocationCounterState,
    ) -> (r: Result<AuthorityLease, AuthorityClaimError>)
        ensures
            (final(self)@, r) == fresh_claim(old(self)@, program_id, namespace, revision, counter),
    {
        proof {
            use_type_invariant(&*self);
        }
        if self.find(program_id).is_some() {
            return Err(AuthorityClaimError::IdentityCollision(IdentifierCategory::Program));
        }
        if self.namespace_taken(namespace) {
            return Err(AuthorityClaimError::IdentityCollision(IdentifierCategory::AllocationNamespace));
        }
        proof {
            lemma_record_index_facts(self@, program_id);
        }
        let record = AuthorityRecord { program_id, namespace, revision, counter, active_claim: Some(1), next_claim: 2 };
        self.store(None, record);
        Ok(AuthorityLease { program_id, claim: 1 })
    }

    /// Claims the authority of a restored lineage: [`restored_claim`].
    pub fn claim_restored(
        &mut self,
        program_id: ProgramId,
        namespace: AllocationNamespaceId,
        revision: RevisionId,
        counter: AllocationCounterState,
    ) -> (r: Result<AuthorityLease, AuthorityClaimError>)
        ensures
            (final(self)@, r) == restored_claim(old(self)@, program_id, namespace, revision, counter),
    {
        proof {
            use_type_invariant(&*self);
            lemma_record_index_facts(self@, program_id);
        }
        match self.find(program_id) {
            None => {
                if self.namespace_taken(namespace) {
                    return Err(AuthorityClaimError::IdentityCollision(IdentifierCategory::AllocationNamespace));
                }
                let record = AuthorityRecord { program_id, namespace, revision, counter, active_claim: Some(1), next_claim: 2 };
                self.store(None, record);
                Ok(AuthorityLease { program_id, claim: 1 })
            },
            Some(i) => {
                let record = self.records[i];
                if record.namespace != namespace {
                    return Err(AuthorityClaimError::IdentityCollision(IdentifierCategory::AllocationNamespace));
                }
                if record.active_claim.is_some() {
                    return Err(AuthorityClaimError::AlreadyActive);
                }
                if revision.0 < record.revision.0 || counter_is_older(counter, record.counter) {
                    return Err(AuthorityClaimError::Stale);
                }
                let claim = record.next_claim;
                let next_claim = if claim == u64::MAX {
                    1
                } else {
                    claim + 1
                };
                let updated = AuthorityRecord {
                    revision,
                    counter: if counter_is_older(record.counter, counter) {
                        counter
                    } else {
                        record.counter
                    },
                    active_claim: Some(claim),
                    next_claim,
                    ..record
                };
                self.store(Some(i), updated);
                Ok(AuthorityLease { program_id, claim })
            },
        }
    }

    /// Records what a lease's lineage has reached: [`observed`]. Nothing
    /// changes where the registry holds no record of the lineage.
    pub fn observe(&mut self, lease: &AuthorityLease, revision: RevisionId, counter: AllocationCounterState)
        ensures
            record_index(old(self)@, lease.program_id) >= 0 ==> final(self)@ == old(self)@.update(
                record_index(old(self)@, lease.program_id),
                observed(old(self)@[record_index(old(self)@, lease.program_id)], revision, counter),
            ),
            record_index(old(self)@, lease.program_id) < 0 ==> final(self)@ == old(self)@,
    {
        proof {
            use_type_invariant(&*self);
            lemma_record_index_facts(self@, lease.program_id);
        }
        if let Some(i) = self.find(lease.program_id) {
            let record = self.records[i];
            let updated = AuthorityRecord {
                revision: if revision.0 > record.revision.0 {
                    revision
                } else {
                    record.revision
                },
                counter: if counter_is_older(record.counter, counter) {
                    counter
                } else {
                    record.counter
                },
                ..record
            };
            self.store(Some(i), updated);
        }
    }

    /// Ends a lease: its lineage becomes inactive where the lease held the
    /// active claim ([`released`]).
    pub fn release(&mut self, lease: &AuthorityLease)
        ensures
            record_index(old(self)@, lease.program_id) >= 0 ==> final(self)@ == old(self)@.update(
                record_index(old(self)@, lease.program_id),
                released(old(self)@[record_index(old(self)@, lease.program_id)], lease.claim),
            ),
            record_index(old(self)@, lease.program_id) < 0 ==> final(self)@ == old(self)@,
    {
        proof {
            use_type_invariant(&*self);
            lemma_record_index_facts(self@, lease.program_id);
        }
        if let Some(i) = self.find(lease.program_id) {
            let record = self.records[i];
            if record.active_claim == Some(lease.claim) {
                let updated = AuthorityRecord { active_claim: None, ..record };
                self.store(Some(i), updated);
            }
        }
    }

    /// The Program identities of every known lineage, in the order they
    /// became known.
    pub fn known_program_ids(&self) -> (r: Vec<ProgramId>)
        ensures
            r@ == self@.map_values(|record: AuthorityRecord| record.program_id),
    {
        let mut out: Vec<ProgramId> = Vec::new();
        let mut i: usize = 0;
        while i < self.records.len()
            invariant
                i <= self.records.len(),
                out@ == self@.take(i as int).map_values(|record: AuthorityRecord| record.program_id),
            decreases self.records.len() - i,
        {
            out.push(self.records[i].program_id);
            i = i + 1;
            assert(out@ =~= self@.take(i as int).map_values(|record: AuthorityRecord| record.program_id));
        }
        assert(self@.take(i as int) =~= self@);
        out
    }

    /// The allocation namespaces of every known lineage, in the order they
    /// became known.
    pub fn known_namespaces(&self) -> (r: Vec<AllocationNamespaceId>)
        ensures
            r@ == self@.map_values(|record: AuthorityRecord| record.namespace),
    {
        let mut out: Vec<AllocationNamespaceId> = Vec::new();
        let mut i: usize = 0;
        while i < self.records.len()
            invariant
                i <= self.records.len(),
                out@ == self@.take(i as int).map_values(|record: AuthorityRecord| record.namespace),
            decreases self.records.len() - i,
        {
            out.push(self.records[i].namespace);
            i = i + 1;
            assert(out@ =~= self@.take(i as int).map_values(|record: AuthorityRecord| record.namespace));
        }
        assert(self@.take(i as int) =~= self@);
        out
    }
}

} // verus!
