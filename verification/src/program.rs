//! Program lineages: identity, committed revisions, committed identity
//! history, immutable snapshots, forks, and the lineage's single entity
//! allocation authority.
use vstd::prelude::*;

use crate::body::{Block, Expression};
use crate::error::{ExpressionTypeError, MutationError, StructuralError};
use crate::ids::{
    be_value_of,
    u128_from_be_bytes, AllocationCounterState, AllocationNamespaceId, BlockId, ExpressionId,
    FunctionId, IdentifierCategory, ModuleId, ParameterId, ProgramId, RevisionId, TypeId,
};
use crate::intrinsic::ValueType;
use crate::inventory::{
    block_key, block_keys, collect_inventory, expression_key, expression_keys, function_key,
    function_keys, module_key, module_keys, parameter_key, parameter_keys, type_keys, Inventory,
};
use crate::locate::{
    find_block, find_domain_type, find_expression, find_function, find_parameter, locate_block,
    locate_domain_type, locate_expression, locate_function, locate_parameter,
};
use crate::model::{
    copy_modules, find_module_in, module_views, position_of_module, DomainType, Function,
    Module, ModuleView, Parameter,
};
use crate::typing::{derive_expression_type, expression_type};
use crate::validation::{structurally_valid, validate_modules};

verus! {

/// How many random candidates identity generation draws before it reports
/// a collision.
pub const IDENTITY_GENERATION_ATTEMPTS: usize = 32;

/// The error of the operating system's entropy source.
#[verifier::external_type_specification]
#[verifier::external_body]
pub struct ExEntropyError(getrandom::Error);

/// Draws sixteen bytes from the operating system's entropy source by
/// `getrandom::fill`. Nothing is stated of the bytes, which come from
/// chance, nor of when the source fails.
#[verifier::external_body]
fn draw_entropy() -> (r: Result<[u8; 16], getrandom::Error>) {
    let mut bytes = [0u8; 16];
    match getrandom::fill(&mut bytes) {
        Ok(()) => Ok(bytes),
        Err(error) => Err(error),
    }
}


/// The lineage's entity counter has already issued identity `key`: a key
/// of the active namespace lies below the next counter.
pub open spec fn key_issued(key: (u128, u64), namespace_id: AllocationNamespaceId, counter: AllocationCounterState) -> bool {
    match counter {
        AllocationCounterState::Available(next) => key.0 != namespace_id.0 || key.1 < next,
        AllocationCounterState::Exhausted => true,
    }
}

/// The counter's next identity is none of the keys it has issued.
pub proof fn lemma_next_key_fresh(keys: Seq<(u128, u64)>, namespace_id: AllocationNamespaceId, c: u64)
    requires
        keys_issued(keys, namespace_id, AllocationCounterState::Available(c)),
    ensures
        !keys.contains((namespace_id.0, c)),
{
    if keys.contains((namespace_id.0, c)) {
        let k = choose|k: int| 0 <= k < keys.len() && keys[k] == (namespace_id.0, c);
        assert(key_issued(keys[k], namespace_id, AllocationCounterState::Available(c)));
    }
}

/// Every key of `keys` is one the counter has already issued.
pub open spec fn keys_issued(keys: Seq<(u128, u64)>, namespace_id: AllocationNamespaceId, counter: AllocationCounterState) -> bool {
    forall|i: int| 0 <= i < keys.len() ==> key_issued(#[trigger] keys[i], namespace_id, counter)
}

/// Every identity of a History is one the counter has already issued, so
/// the counter never issues it again.
pub open spec fn history_issued(h: HistoryView, namespace_id: AllocationNamespaceId, counter: AllocationCounterState) -> bool {
    &&& keys_issued(h.modules, namespace_id, counter)
    &&& keys_issued(h.functions, namespace_id, counter)
    &&& keys_issued(h.parameters, namespace_id, counter)
    &&& keys_issued(h.blocks, namespace_id, counter)
    &&& keys_issued(h.expressions, namespace_id, counter)
}

/// Issuing counter `c` keeps every issued key issued.
pub proof fn lemma_history_issued_advanced(h: HistoryView, namespace_id: AllocationNamespaceId, c: u64)
    requires
        history_issued(h, namespace_id, AllocationCounterState::Available(c)),
    ensures
        history_issued(h, namespace_id, advanced(c)),
{
}


/// Issuing counter `c` keeps every issued key issued.
pub proof fn lemma_keys_issued_advanced(keys: Seq<(u128, u64)>, namespace_id: AllocationNamespaceId, c: u64)
    requires
        keys_issued(keys, namespace_id, AllocationCounterState::Available(c)),
    ensures
        keys_issued(keys, namespace_id, advanced(c)),
{
}

/// Modules with the same identities, in order, have the same keys.
pub proof fn lemma_module_ids_kept(prior: Seq<ModuleView>, now: Seq<ModuleView>)
    requires
        prior.len() == now.len(),
        forall|k: int| 0 <= k < prior.len() ==> #[trigger] now[k].id == prior[k].id,
    ensures
        module_keys(now) == module_keys(prior),
{
    assert(module_keys(now) =~= module_keys(prior));
}


/// Every Function identity of every Module is one the counter has issued.
pub open spec fn functions_issued(modules: Seq<ModuleView>, namespace_id: AllocationNamespaceId, counter: AllocationCounterState) -> bool {
    forall|i: int| 0 <= i < modules.len() ==> keys_issued(
        crate::inventory::function_key_list(#[trigger] modules[i].functions),
        namespace_id,
        counter,
    )
}

/// A flattened run of keys is issued exactly where each group is.
pub proof fn lemma_flatten_issued(groups: Seq<Seq<(u128, u64)>>, namespace_id: AllocationNamespaceId, counter: AllocationCounterState)
    ensures
        keys_issued(groups.flatten(), namespace_id, counter) <==> forall|k: int| 0 <= k < groups.len() ==> keys_issued(#[trigger] groups[k], namespace_id, counter),
    decreases groups.len(),
{
    if groups.len() > 0 {
        let rest = groups.drop_first();
        lemma_flatten_issued(rest, namespace_id, counter);
        let all = groups.flatten();
        assert(all == groups[0] + rest.flatten());
        if keys_issued(all, namespace_id, counter) {
            assert forall|i: int| 0 <= i < groups[0].len() implies key_issued(#[trigger] groups[0][i], namespace_id, counter) by {
                assert(all[i] == groups[0][i]);
            }
            assert forall|i: int| 0 <= i < rest.flatten().len() implies key_issued(#[trigger] rest.flatten()[i], namespace_id, counter) by {
                assert(all[groups[0].len() + i] == rest.flatten()[i]);
            }
            assert forall|k: int| 0 <= k < groups.len() implies keys_issued(#[trigger] groups[k], namespace_id, counter) by {
                if k > 0 {
                    assert(groups[k] == rest[k - 1]);
                }
            }
        }
        if forall|k: int| 0 <= k < groups.len() ==> keys_issued(#[trigger] groups[k], namespace_id, counter) {
            assert(keys_issued(groups[0], namespace_id, counter));
            assert forall|k: int| 0 <= k < rest.len() implies keys_issued(#[trigger] rest[k], namespace_id, counter) by {
                assert(rest[k] == groups[k + 1]);
            }
            assert forall|i: int| 0 <= i < all.len() implies key_issued(#[trigger] all[i], namespace_id, counter) by {
                if i < groups[0].len() {
                    assert(all[i] == groups[0][i]);
                } else {
                    assert(all[i] == rest.flatten()[i - groups[0].len()]);
                }
            }
        }
    }
}

/// The Function identities of a list of Modules are issued exactly where
/// each Module's are.
pub proof fn lemma_functions_issued_flat(modules: Seq<ModuleView>, namespace_id: AllocationNamespaceId, counter: AllocationCounterState)
    ensures
        functions_issued(modules, namespace_id, counter) <==> keys_issued(function_keys(modules), namespace_id, counter),
{
    let groups = modules.map_values(|m: ModuleView| crate::inventory::function_key_list(m.functions));
    lemma_flatten_issued(groups, namespace_id, counter);
    assert forall|k: int| 0 <= k < modules.len() implies groups[k] == crate::inventory::function_key_list(#[trigger] modules[k].functions) by {}
}

/// Modules with the same Function identities, in order, issue the same.
pub proof fn lemma_function_ids_kept(prior: Seq<ModuleView>, now: Seq<ModuleView>)
    requires
        prior.len() == now.len(),
        forall|k: int| 0 <= k < prior.len() ==> (#[trigger] now[k]).functions.len() == prior[k].functions.len(),
        forall|k: int, j: int| 0 <= k < prior.len() && 0 <= j < prior[k].functions.len() ==> #[trigger] now[k].functions[j].id
            == prior[k].functions[j].id,
    ensures
        forall|k: int| 0 <= k < prior.len() ==> crate::inventory::function_key_list(#[trigger] now[k].functions)
            == crate::inventory::function_key_list(prior[k].functions),
{
    assert forall|k: int| 0 <= k < prior.len() implies crate::inventory::function_key_list(#[trigger] now[k].functions)
        == crate::inventory::function_key_list(prior[k].functions) by {
        assert(crate::inventory::function_key_list(now[k].functions) =~= crate::inventory::function_key_list(prior[k].functions));
    }
}


/// Every Parameter identity of every Function is one the counter has
/// issued.
pub open spec fn parameters_issued(modules: Seq<ModuleView>, namespace_id: AllocationNamespaceId, counter: AllocationCounterState) -> bool {
    forall|i: int, j: int| 0 <= i < modules.len() && 0 <= j < modules[i].functions.len() ==> keys_issued(
        crate::inventory::function_parameter_keys(#[trigger] modules[i].functions[j]),
        namespace_id,
        counter,
    )
}

/// The Parameter identities of a list of Modules are issued exactly where
/// each Function's are.
pub proof fn lemma_parameters_issued_flat(modules: Seq<ModuleView>, namespace_id: AllocationNamespaceId, counter: AllocationCounterState)
    ensures
        parameters_issued(modules, namespace_id, counter) <==> keys_issued(parameter_keys(modules), namespace_id, counter),
{
    let groups = modules.map_values(|m: ModuleView| crate::inventory::functions_parameter_keys(m.functions));
    lemma_flatten_issued(groups, namespace_id, counter);
    assert forall|i: int| 0 <= i < modules.len() implies (keys_issued(#[trigger] groups[i], namespace_id, counter) <==> forall|j: int|
        0 <= j < modules[i].functions.len() ==> keys_issued(
            crate::inventory::function_parameter_keys(#[trigger] modules[i].functions[j]),
            namespace_id,
            counter,
        )) by {
        let fs = modules[i].functions;
        let inner = fs.map_values(|f: crate::model::FunctionView| crate::inventory::function_parameter_keys(f));
        assert(groups[i] == inner.flatten());
        lemma_flatten_issued(inner, namespace_id, counter);
        assert forall|j: int| 0 <= j < fs.len() implies inner[j] == crate::inventory::function_parameter_keys(#[trigger] fs[j]) by {}
    }
    if parameters_issued(modules, namespace_id, counter) {
        assert forall|i: int| 0 <= i < groups.len() implies keys_issued(#[trigger] groups[i], namespace_id, counter) by {
            assert forall|j: int| 0 <= j < modules[i].functions.len() implies keys_issued(
                crate::inventory::function_parameter_keys(#[trigger] modules[i].functions[j]),
                namespace_id,
                counter,
            ) by {}
        }
    }
    if keys_issued(parameter_keys(modules), namespace_id, counter) {
        assert forall|i: int, j: int| 0 <= i < modules.len() && 0 <= j < modules[i].functions.len() implies keys_issued(
            crate::inventory::function_parameter_keys(#[trigger] modules[i].functions[j]),
            namespace_id,
            counter,
        ) by {
            assert(keys_issued(groups[i], namespace_id, counter));
        }
    }
}

/// Modules with the same Parameter identities, in order, issue the same.
pub proof fn lemma_parameter_ids_kept(prior: Seq<ModuleView>, now: Seq<ModuleView>)
    requires
        prior.len() == now.len(),
        forall|k: int| 0 <= k < prior.len() ==> (#[trigger] now[k]).functions.len() == prior[k].functions.len(),
        forall|k: int, j: int| 0 <= k < prior.len() && 0 <= j < prior[k].functions.len() ==> (#[trigger] now[k].functions[j]).parameters.len()
            == prior[k].functions[j].parameters.len(),
        forall|k: int, j: int, q: int| 0 <= k < prior.len() && 0 <= j < prior[k].functions.len() && 0 <= q
            < prior[k].functions[j].parameters.len() ==> #[trigger] now[k].functions[j].parameters[q].id
            == prior[k].functions[j].parameters[q].id,
    ensures
        forall|k: int, j: int| 0 <= k < prior.len() && 0 <= j < prior[k].functions.len() ==> crate::inventory::function_parameter_keys(
            #[trigger] now[k].functions[j],
        ) == crate::inventory::function_parameter_keys(prior[k].functions[j]),
{
    assert forall|k: int, j: int| 0 <= k < prior.len() && 0 <= j < prior[k].functions.len() implies crate::inventory::function_parameter_keys(
        #[trigger] now[k].functions[j],
    ) == crate::inventory::function_parameter_keys(prior[k].functions[j]) by {
        assert(crate::inventory::function_parameter_keys(now[k].functions[j]) =~= crate::inventory::function_parameter_keys(
            prior[k].functions[j],
        ));
    }
}

/// Merging issued keys gives issued keys.
pub proof fn lemma_merged_issued(
    keys: Seq<(u128, u64)>,
    additions: Seq<(u128, u64)>,
    namespace_id: AllocationNamespaceId,
    counter: AllocationCounterState,
)
    requires
        keys_issued(keys, namespace_id, counter),
        keys_issued(additions, namespace_id, counter),
    ensures
        keys_issued(merged(keys, additions), namespace_id, counter),
    decreases additions.len(),
{
    if additions.len() > 0 {
        let rest = additions.drop_last();
        assert forall|i: int| 0 <= i < rest.len() implies key_issued(#[trigger] rest[i], namespace_id, counter) by {
            assert(rest[i] == additions[i]);
        }
        lemma_merged_issued(keys, rest, namespace_id, counter);
        assert(key_issued(additions[additions.len() - 1], namespace_id, counter));
    }
}

/// Whether `values` holds `value`.
pub(crate) fn holds_value(values: &Vec<u128>, value: u128) -> (r: bool)
    ensures
        r == values@.contains(value),
{
    let mut k: usize = 0;
    while k < values.len()
        invariant
            k <= values@.len(),
            forall|m: int| 0 <= m < k ==> values@[m] != value,
        decreases values.len() - k,
    {
        if values[k] == value {
            assert(values@[k as int] == value);
            return true;
        }
        k = k + 1;
    }
    false
}

/// Whether `keys` holds `key`.
pub(crate) fn holds_key(keys: &Vec<(u128, u64)>, key: (u128, u64)) -> (r: bool)
    ensures
        r == keys@.contains(key),
{
    let mut k: usize = 0;
    while k < keys.len()
        invariant
            k <= keys@.len(),
            forall|m: int| 0 <= m < k ==> keys@[m] != key,
        decreases keys.len() - k,
    {
        if keys[k].0 == key.0 && keys[k].1 == key.1 {
            assert(keys@[k as int] == key);
            return true;
        }
        k = k + 1;
    }
    false
}

/// What drawing the candidates `draws` for an identity of `category` gives,
/// from attempt `i` on: the first candidate that `known` does not hold,
/// with the number of candidates taken; `IdentityCollision` once
/// [`IDENTITY_GENERATION_ATTEMPTS`] candidates all collided; and
/// `IdentityGenerationFailed` where the source gives no further candidate.
pub open spec fn identity_choice(
    category: IdentifierCategory,
    known: Seq<u128>,
    draws: Seq<u128>,
    i: int,
) -> (Result<u128, MutationError>, int)
    decreases IDENTITY_GENERATION_ATTEMPTS - i,
{
    if i < 0 || i >= IDENTITY_GENERATION_ATTEMPTS {
        (Err(MutationError::IdentityCollision(category)), i)
    } else if i >= draws.len() {
        (Err(MutationError::IdentityGenerationFailed(category)), i)
    } else if !known.contains(draws[i]) {
        (Ok(draws[i]), i + 1)
    } else {
        identity_choice(category, known, draws, i + 1)
    }
}

/// Candidates that all collided are passed over.
proof fn lemma_identity_choice_skip(category: IdentifierCategory, known: Seq<u128>, draws: Seq<u128>, j: int)
    requires
        0 <= j <= draws.len(),
        j <= IDENTITY_GENERATION_ATTEMPTS,
        forall|k: int| 0 <= k < j ==> known.contains(#[trigger] draws[k]),
    ensures
        identity_choice(category, known, draws, 0) == identity_choice(category, known, draws, j),
    decreases j,
{
    if j > 0 {
        lemma_identity_choice_skip(category, known, draws, j - 1);
        assert(known.contains(draws[j - 1]));
    }
}

/// Accepts a drawn identity value where `known` does not hold it.
pub fn accept_identity(known: &Vec<u128>, drawn: [u8; 16]) -> (r: Option<u128>)
    ensures
        r == (if known@.contains(be_value_of(drawn@) as u128) {
            None::<u128>
        } else {
            Some(be_value_of(drawn@) as u128)
        }),
{
    let candidate = u128_from_be_bytes(drawn);
    if holds_value(known, candidate) {
        None
    } else {
        Some(candidate)
    }
}

/// Draws identity values of `category` from `draws`, in order, until one
/// that `known` does not hold: [`identity_choice`], with the number of
/// candidates taken.
pub fn allocate_identity_with(category: IdentifierCategory, known: &Vec<u128>, draws: &Vec<[u8; 16]>) -> (r: (
    Result<u128, MutationError>,
    usize,
))
    ensures
        (r.0, r.1 as int) == identity_choice(category, known@, draws@.map_values(|d: [u8; 16]| be_value_of(d@) as u128), 0),
{
    let ghost values = draws@.map_values(|d: [u8; 16]| be_value_of(d@) as u128);
    let mut attempt: usize = 0;
    while attempt < IDENTITY_GENERATION_ATTEMPTS
        invariant
            attempt <= IDENTITY_GENERATION_ATTEMPTS,
            values == draws@.map_values(|d: [u8; 16]| be_value_of(d@) as u128),
            attempt <= draws.len() || attempt == 0,
            identity_choice(category, known@, values, 0) == identity_choice(category, known@, values, attempt as int),
        decreases IDENTITY_GENERATION_ATTEMPTS - attempt,
    {
        if attempt >= draws.len() {
            return (Err(MutationError::IdentityGenerationFailed(category)), attempt);
        }
        match accept_identity(known, draws[attempt]) {
            Some(value) => {
                return (Ok(value), attempt + 1);
            },
            None => {},
        }
        attempt = attempt + 1;
    }
    (Err(MutationError::IdentityCollision(category)), attempt)
}

/// Draws a random identity value of `category` that `known` does not hold,
/// retrying a bounded number of times: [`identity_choice`] over the values
/// drawn, which the ghost result records.
pub(crate) fn allocate_identity(category: IdentifierCategory, known: &Vec<u128>) -> (r: (Result<
    u128,
    MutationError,
>, Ghost<Seq<u128>>))
    ensures
        r.1@.len() <= IDENTITY_GENERATION_ATTEMPTS,
        r.0 == identity_choice(category, known@, r.1@, 0).0,
        match r.0 {
            Ok(value) => !known@.contains(value),
            Err(e) => e == MutationError::IdentityGenerationFailed(category) || (e
                == MutationError::IdentityCollision(category) && known@.len() > 0),
        },
{
    let ghost mut drawn: Seq<u128> = Seq::empty();
    let mut attempt: usize = 0;
    while attempt < IDENTITY_GENERATION_ATTEMPTS
        invariant
            attempt <= IDENTITY_GENERATION_ATTEMPTS,
            drawn.len() == attempt,
            forall|k: int| 0 <= k < attempt ==> known@.contains(#[trigger] drawn[k]),
            attempt > 0 ==> known@.len() > 0,
        decreases IDENTITY_GENERATION_ATTEMPTS - attempt,
    {
        let bytes = match draw_entropy() {
            Ok(bytes) => bytes,
            Err(_) => {
                proof {
                    lemma_identity_choice_skip(category, known@, drawn, attempt as int);
                }
                return (Err(MutationError::IdentityGenerationFailed(category)), Ghost(drawn));
            },
        };
        let accepted = accept_identity(known, bytes);
        let ghost value = be_value_of(bytes@) as u128;
        proof {
            let prior = drawn;
            drawn = drawn.push(value);
            assert forall|k: int| 0 <= k < attempt implies known@.contains(#[trigger] drawn[k]) by {
                assert(drawn[k] == prior[k]);
            }
            lemma_identity_choice_skip(category, known@, drawn, attempt as int);
        }
        match accepted {
            Some(value) => {
                return (Ok(value), Ghost(drawn));
            },
            None => {},
        }
        attempt = attempt + 1;
    }
    proof {
        lemma_identity_choice_skip(category, known@, drawn, attempt as int);
    }
    (Err(MutationError::IdentityCollision(category)), Ghost(drawn))
}

/// The identity history of a lineage: every identity that a committed
/// revision has ever introduced, per category, each once.
#[derive(Debug)]
pub struct History {
    pub modules: Vec<(u128, u64)>,
    pub functions: Vec<(u128, u64)>,
    pub parameters: Vec<(u128, u64)>,
    pub blocks: Vec<(u128, u64)>,
    pub expressions: Vec<(u128, u64)>,
}

/// The identities of a History, per category.
pub struct HistoryView {
    pub modules: Seq<(u128, u64)>,
    pub functions: Seq<(u128, u64)>,
    pub parameters: Seq<(u128, u64)>,
    pub blocks: Seq<(u128, u64)>,
    pub expressions: Seq<(u128, u64)>,
}

impl View for History {
    type V = HistoryView;

    open spec fn view(&self) -> HistoryView {
        HistoryView {
            modules: self.modules@,
            functions: self.functions@,
            parameters: self.parameters@,
            blocks: self.blocks@,
            expressions: self.expressions@,
        }
    }
}

/// No identity occurs twice in a History.
pub open spec fn history_distinct(h: HistoryView) -> bool {
    &&& h.modules.no_duplicates()
    &&& h.functions.no_duplicates()
    &&& h.parameters.no_duplicates()
    &&& h.blocks.no_duplicates()
    &&& h.expressions.no_duplicates()
}

/// A key is merged in exactly where it was kept or added.
pub proof fn lemma_merged_contains(keys: Seq<(u128, u64)>, additions: Seq<(u128, u64)>, key: (u128, u64))
    ensures
        merged(keys, additions).contains(key) <==> keys.contains(key) || additions.contains(key),
    decreases additions.len(),
{
    if additions.len() > 0 {
        let rest = additions.drop_last();
        let last = additions.last();
        lemma_merged_contains(keys, rest, key);
        let prefix = merged(keys, rest);
        if rest.contains(key) {
            let i = choose|i: int| 0 <= i < rest.len() && rest[i] == key;
            assert(additions[i] == key);
        }
        if additions.contains(key) && last != key {
            let i = choose|i: int| 0 <= i < additions.len() && additions[i] == key;
            assert(rest[i] == key);
        }
        if last == key {
            assert(additions[additions.len() - 1] == key);
        }
        if !prefix.contains(last) {
            let grown = prefix.push(last);
            if prefix.contains(key) {
                let i = choose|i: int| 0 <= i < prefix.len() && prefix[i] == key;
                assert(grown[i] == key);
            }
            if last == key {
                assert(grown[prefix.len() as int] == key);
            }
            if grown.contains(key) && last != key {
                let i = choose|i: int| 0 <= i < grown.len() && grown[i] == key;
                assert(prefix[i] == key);
            }
        }
    }
}

/// Every category of History `h` holds exactly the keys that `a` or `b`
/// holds.
pub open spec fn history_joins(h: HistoryView, a: HistoryView, b: HistoryView) -> bool {
    &&& forall|key: (u128, u64)| #[trigger] h.modules.contains(key) <==> a.modules.contains(key) || b.modules.contains(key)
    &&& forall|key: (u128, u64)| #[trigger] h.functions.contains(key) <==> a.functions.contains(key) || b.functions.contains(key)
    &&& forall|key: (u128, u64)| #[trigger] h.parameters.contains(key) <==> a.parameters.contains(key) || b.parameters.contains(key)
    &&& forall|key: (u128, u64)| #[trigger] h.blocks.contains(key) <==> a.blocks.contains(key) || b.blocks.contains(key)
    &&& forall|key: (u128, u64)| #[trigger] h.expressions.contains(key) <==> a.expressions.contains(key) || b.expressions.contains(
        key,
    )
}

/// Extends `keys` by `additions`, each key at most once.
pub open spec fn merged(keys: Seq<(u128, u64)>, additions: Seq<(u128, u64)>) -> Seq<(u128, u64)>
    decreases additions.len(),
{
    if additions.len() == 0 {
        keys
    } else {
        let prefix = merged(keys, additions.drop_last());
        if prefix.contains(additions.last()) {
            prefix
        } else {
            prefix.push(additions.last())
        }
    }
}

/// Extends `keys` by `additions`, each key at most once.
pub(crate) fn merge_keys(keys: &mut Vec<(u128, u64)>, additions: &Vec<(u128, u64)>)
    requires
        old(keys)@.no_duplicates(),
    ensures
        final(keys)@ == merged(old(keys)@, additions@),
        final(keys)@.no_duplicates(),
        forall|k: (u128, u64)| final(keys)@.contains(k) <==> (old(keys)@.contains(k) || additions@.contains(k)),
{
    let ghost base = keys@;
    let mut a: usize = 0;
    while a < additions.len()
        invariant
            a <= additions@.len(),
            keys@ == merged(base, additions@.take(a as int)),
            keys@.no_duplicates(),
            forall|k: (u128, u64)| keys@.contains(k) <==> (base.contains(k) || additions@.take(a as int).contains(k)),
        decreases additions.len() - a,
    {
        let key = additions[a];
        let ghost before = additions@.take(a as int);
        let ghost after = additions@.take(a + 1);
        assert(after.drop_last() =~= before);
        assert(after =~= before.push(key));
        let ghost keys_before = keys@;
        assert(forall|k: (u128, u64)| keys_before.contains(k) <==> (base.contains(k) || before.contains(k)));
        let present = holds_key(keys, key);
        if !present {
            keys.push(key);
            assert(keys@ == keys_before.push(key));
        }
        a = a + 1;
        assert forall|k: (u128, u64)| keys@.contains(k) <==> (base.contains(k) || after.contains(k)) by {
            if after.contains(k) && k != key {
                let m = choose|m: int| 0 <= m < after.len() && #[trigger] after[m] == k;
                assert(before[m] == k);
            }
            if before.contains(k) {
                let m = choose|m: int| 0 <= m < before.len() && #[trigger] before[m] == k;
                assert(after[m] == k);
            }
            if k == key {
                assert(after[after.len() - 1] == k);
                if !present {
                    assert(keys@[keys_before.len() as int] == k);
                }
            }
            if keys@.contains(k) && k != key {
                let m = choose|m: int| 0 <= m < keys@.len() && #[trigger] keys@[m] == k;
                assert(keys_before[m] == k);
            }
            if keys_before.contains(k) {
                let m = choose|m: int| 0 <= m < keys_before.len() && #[trigger] keys_before[m] == k;
                assert(keys@[m] == k);
            }
        }
        assert(after.drop_last() == before);
    }
    assert(additions@.take(a as int) =~= additions@);
    assert(base == old(keys)@);
    assert forall|k: (u128, u64)| keys@.contains(k) <==> (old(keys)@.contains(k) || additions@.contains(k)) by {
        assert(additions@.take(a as int) == additions@);
    }
}

/// Copies a sequence of identity keys.
pub(crate) fn copy_keys(keys: &Vec<(u128, u64)>) -> (r: Vec<(u128, u64)>)
    ensures
        r@ == keys@,
{
    let mut out: Vec<(u128, u64)> = Vec::new();
    let mut k: usize = 0;
    while k < keys.len()
        invariant
            k <= keys@.len(),
            out@ == keys@.take(k as int),
        decreases keys.len() - k,
    {
        out.push(keys[k]);
        k = k + 1;
        assert(out@ =~= keys@.take(k as int));
    }
    assert(keys@.take(k as int) =~= keys@);
    out
}

impl History {
    /// The History that holds no identity.
    pub open spec fn empty_view() -> HistoryView {
        HistoryView {
            modules: Seq::empty(),
            functions: Seq::empty(),
            parameters: Seq::empty(),
            blocks: Seq::empty(),
            expressions: Seq::empty(),
        }
    }

    pub(crate) fn empty() -> (r: Self)
        ensures
            r@ == History::empty_view(),
    {
        let r = History {
            modules: Vec::new(),
            functions: Vec::new(),
            parameters: Vec::new(),
            blocks: Vec::new(),
            expressions: Vec::new(),
        };
        assert(r@.modules =~= Seq::empty());
        assert(r@.functions =~= Seq::empty());
        assert(r@.parameters =~= Seq::empty());
        assert(r@.blocks =~= Seq::empty());
        assert(r@.expressions =~= Seq::empty());
        r
    }

    pub(crate) fn copied(&self) -> (r: Self)
        ensures
            r@ == self@,
    {
        History {
            modules: copy_keys(&self.modules),
            functions: copy_keys(&self.functions),
            parameters: copy_keys(&self.parameters),
            blocks: copy_keys(&self.blocks),
            expressions: copy_keys(&self.expressions),
        }
    }
}

/// The History of a lineage begun from `modules`: the identities present.
pub open spec fn present_history(modules: Seq<ModuleView>) -> HistoryView {
    HistoryView {
        modules: module_keys(modules),
        functions: function_keys(modules),
        parameters: parameter_keys(modules),
        blocks: block_keys(modules),
        expressions: expression_keys(modules),
    }
}

/// One committed revision: its identity, Modules, and identity History.
#[derive(Debug)]
pub struct RevisionState {
    pub revision_id: RevisionId,
    pub modules: Vec<Module>,
    pub history: History,
}

/// The identity, Modules, and identity History of a revision.
pub struct RevisionView {
    pub revision_id: RevisionId,
    pub modules: Seq<ModuleView>,
    pub history: HistoryView,
}

impl View for RevisionState {
    type V = RevisionView;

    open spec fn view(&self) -> RevisionView {
        RevisionView {
            revision_id: self.revision_id,
            modules: module_views(self.modules@),
            history: self.history@,
        }
    }
}

/// A committed revision is structurally valid and lists each historical
/// identity once.
pub open spec fn revision_wf(r: RevisionView) -> bool {
    structurally_valid(r.modules) && history_distinct(r.history)
}

impl RevisionState {
    pub(crate) fn copied(&self) -> (r: Self)
        ensures
            r@ == self@,
    {
        RevisionState {
            revision_id: self.revision_id,
            modules: copy_modules(&self.modules),
            history: self.history.copied(),
        }
    }
}

/// The next state of a lineage's entity counter after issuing `counter`.
pub open spec fn advanced(counter: u64) -> AllocationCounterState {
    if counter == u64::MAX {
        AllocationCounterState::Exhausted
    } else {
        AllocationCounterState::Available((counter + 1) as u64)
    }
}

/// The observable state of a Program lineage.
pub struct ProgramView {
    pub program_id: ProgramId,
    pub revision: RevisionView,
    pub next_revision: Option<u64>,
    pub namespace_id: AllocationNamespaceId,
    pub counter: AllocationCounterState,
}

/// Immutable observation of one committed Program revision, with the
/// allocation state observed when it was taken.
#[derive(Debug)]
pub struct ProgramSnapshot {
    program_id: ProgramId,
    state: RevisionState,
    namespace_id: AllocationNamespaceId,
    counter: AllocationCounterState,
}

/// The observable state of a snapshot.
pub struct SnapshotView {
    pub program_id: ProgramId,
    pub revision: RevisionView,
    pub namespace_id: AllocationNamespaceId,
    pub counter: AllocationCounterState,
}

/// Mutable, linear Program lineage and its current head revision.
#[derive(Debug)]
pub struct MnirProgram {
    program_id: ProgramId,
    head: RevisionState,
    next_revision: Option<u64>,
    namespace_id: AllocationNamespaceId,
    counter: AllocationCounterState,
}

impl ProgramSnapshot {
    /// The observable state of this snapshot.
    pub closed spec fn observe(&self) -> SnapshotView {
        SnapshotView {
            program_id: self.program_id,
            revision: self.state@,
            namespace_id: self.namespace_id,
            counter: self.counter,
        }
    }

    #[verifier::type_invariant]
    spec fn well_formed(self) -> bool {
        revision_wf(self.state@)
    }
}

impl View for ProgramSnapshot {
    type V = SnapshotView;

    open spec fn view(&self) -> SnapshotView {
        self.observe()
    }
}

impl MnirProgram {
    /// The observable state of this lineage.
    pub closed spec fn observe(&self) -> ProgramView {
        ProgramView {
            program_id: self.program_id,
            revision: self.head@,
            next_revision: self.next_revision,
            namespace_id: self.namespace_id,
            counter: self.counter,
        }
    }

    #[verifier::type_invariant]
    pub(crate) closed spec fn well_formed(self) -> bool {
        &&& revision_wf(self.head@)
        &&& revision_follows(self.head@.revision_id, self.next_revision)
        &&& history_issued(self.head@.history, self.namespace_id, self.counter)
        &&& keys_issued(module_keys(self.head@.modules), self.namespace_id, self.counter)
        &&& functions_issued(self.head@.modules, self.namespace_id, self.counter)
        &&& parameters_issued(self.head@.modules, self.namespace_id, self.counter)
    }
}

impl MnirProgram {
    /// A well-formed lineage's counter has issued every identity of its
    /// head: those in its History and those of its Modules.
    pub(crate) proof fn lemma_head_issued(&self)
        requires
            self.well_formed(),
        ensures
            history_issued(self@.revision.history, self@.namespace_id, self@.counter),
            keys_issued(module_keys(self@.revision.modules), self@.namespace_id, self@.counter),
            revision_wf(self@.revision),
            revision_follows(self@.revision.revision_id, self@.next_revision),
    {
    }
}

impl View for MnirProgram {
    type V = ProgramView;

    open spec fn view(&self) -> ProgramView {
        self.observe()
    }
}

/// The namespaces present in a lineage: its active namespace and those of
/// every present identity.
pub open spec fn present_namespaces(modules: Seq<ModuleView>, active: AllocationNamespaceId) -> Seq<u128> {
    seq![active.0] + module_keys(modules).map_values(|k: (u128, u64)| k.0) + type_keys(modules).map_values(
        |k: (u128, u64)| k.0,
    ) + function_keys(modules).map_values(|k: (u128, u64)| k.0) + parameter_keys(modules).map_values(
        |k: (u128, u64)| k.0,
    ) + block_keys(modules).map_values(|k: (u128, u64)| k.0) + expression_keys(modules).map_values(
        |k: (u128, u64)| k.0,
    )
}


/// The identities present in `modules` lie in namespaces that
/// [`present_namespaces`] lists, so a namespace outside it has issued none
/// of them.
pub proof fn lemma_present_history_outside(modules: Seq<ModuleView>, active: AllocationNamespaceId, fresh: AllocationNamespaceId, counter: AllocationCounterState)
    requires
        !present_namespaces(modules, active).contains(fresh.0),
    ensures
        history_issued(present_history(modules), fresh, counter),
{
    let ns = present_namespaces(modules, active);
    let a = seq![active.0];
    let m = module_keys(modules).map_values(|k: (u128, u64)| k.0);
    let t = type_keys(modules).map_values(|k: (u128, u64)| k.0);
    let f = function_keys(modules).map_values(|k: (u128, u64)| k.0);
    let p = parameter_keys(modules).map_values(|k: (u128, u64)| k.0);
    let b = block_keys(modules).map_values(|k: (u128, u64)| k.0);
    let e = expression_keys(modules).map_values(|k: (u128, u64)| k.0);
    assert forall|i: int| 0 <= i < module_keys(modules).len() implies key_issued(#[trigger] module_keys(modules)[i], fresh, counter) by {
        assert(ns[1 + i] == m[i]);
    }
    assert forall|i: int| 0 <= i < function_keys(modules).len() implies key_issued(#[trigger] function_keys(modules)[i], fresh, counter) by {
        assert(ns[1 + m.len() + t.len() + i] == f[i]);
    }
    assert forall|i: int| 0 <= i < parameter_keys(modules).len() implies key_issued(#[trigger] parameter_keys(modules)[i], fresh, counter) by {
        assert(ns[1 + m.len() + t.len() + f.len() + i] == p[i]);
    }
    assert forall|i: int| 0 <= i < block_keys(modules).len() implies key_issued(#[trigger] block_keys(modules)[i], fresh, counter) by {
        assert(ns[1 + m.len() + t.len() + f.len() + p.len() + i] == b[i]);
    }
    assert forall|i: int| 0 <= i < expression_keys(modules).len() implies key_issued(#[trigger] expression_keys(modules)[i], fresh, counter) by {
        assert(ns[1 + m.len() + t.len() + f.len() + p.len() + b.len() + i] == e[i]);
    }
}

/// Appends the namespaces of `keys` to `out`.
fn append_namespaces(out: &mut Vec<u128>, keys: &Vec<(u128, u64)>)
    ensures
        final(out)@ == old(out)@ + keys@.map_values(|k: (u128, u64)| k.0),
{
    let ghost base = out@;
    let mut k: usize = 0;
    while k < keys.len()
        invariant
            k <= keys@.len(),
            out@ == base + keys@.take(k as int).map_values(|k: (u128, u64)| k.0),
        decreases keys.len() - k,
    {
        out.push(keys[k].0);
        k = k + 1;
        assert(out@ =~= base + keys@.take(k as int).map_values(|k: (u128, u64)| k.0));
    }
    assert(keys@.take(k as int) =~= keys@);
}

/// The revision allocator follows the head: the next revision is the one
/// after it, or none after the last.
pub open spec fn revision_follows(revision_id: RevisionId, next_revision: Option<u64>) -> bool {
    match next_revision {
        Some(n) => revision_id.0 < u64::MAX && n == revision_id.0 + 1,
        None => revision_id.0 == u64::MAX,
    }
}

/// A lineage just begun: revision one, the next revision two, and the
/// entity counter at one.
pub open spec fn begun(v: ProgramView) -> bool {
    &&& v.revision.revision_id == RevisionId(1)
    &&& v.next_revision == Some(2u64)
    &&& v.counter == AllocationCounterState::Available(1)
}

impl RevisionState {
    /// The initial revision of a new Program: no Modules, no history.
    fn initial() -> (r: Self)
        ensures
            r@.revision_id == RevisionId(1),
            r@.modules.len() == 0,
            r@.history == present_history(Seq::<ModuleView>::empty()),
            revision_wf(r@),
    {
        let r = RevisionState { revision_id: RevisionId(1), modules: Vec::new(), history: History::empty() };
        let ghost empty = Seq::<ModuleView>::empty();
        assert(r@.modules =~= empty);
        assert(module_keys(empty) =~= Seq::empty());
        assert(type_keys(empty) =~= Seq::empty());
        assert(function_keys(empty) =~= Seq::empty());
        assert(parameter_keys(empty) =~= Seq::empty());
        assert(block_keys(empty) =~= Seq::empty());
        assert(expression_keys(empty) =~= Seq::empty());
        assert(r@.history.modules =~= module_keys(empty));
        assert(r@.history.functions =~= function_keys(empty));
        assert(r@.history.parameters =~= parameter_keys(empty));
        assert(r@.history.blocks =~= block_keys(empty));
        assert(r@.history.expressions =~= expression_keys(empty));
        r
    }

    fn module_count(&self) -> (r: usize)
        ensures
            r == self@.modules.len(),
    {
        self.modules.len()
    }

    fn validate(&self) -> (r: Result<(), StructuralError>)
        ensures
            r is Ok <==> structurally_valid(self@.modules),
            r matches Err(e) ==> crate::validation::program_violation(self@.modules, e),
    {
        validate_modules(&self.modules)
    }
}

impl MnirProgram {
    /// Constructs an empty, structurally valid Program with fresh random
    /// Program and allocation namespace identities and its initial committed
    /// revision.
    pub fn new() -> (r: Result<Self, MutationError>)
        ensures
            match r {
                Ok(p) => begun(p@) && p@.revision.modules.len() == 0 && p@.revision.history
                    == present_history(Seq::<ModuleView>::empty()),
                Err(e) => e == MutationError::IdentityGenerationFailed(IdentifierCategory::Program)
                    || e == MutationError::IdentityGenerationFailed(
                    IdentifierCategory::AllocationNamespace,
                ),
            },
    {
        let none: Vec<u128> = Vec::new();
        let program_value = allocate_identity(IdentifierCategory::Program, &none).0?;
        let namespace_value = allocate_identity(IdentifierCategory::AllocationNamespace, &none).0?;
        Ok(
            MnirProgram {
                program_id: ProgramId(program_value),
                head: RevisionState::initial(),
                next_revision: Some(2),
                namespace_id: AllocationNamespaceId(namespace_value),
                counter: AllocationCounterState::Available(1),
            },
        )
    }

    /// Returns this lineage's Program identity.
    pub fn program_id(&self) -> (r: ProgramId)
        ensures
            r == self@.program_id,
    {
        self.program_id
    }

    /// Returns the head revision's identity.
    pub fn revision_id(&self) -> (r: RevisionId)
        ensures
            r == self@.revision.revision_id,
    {
        self.head.revision_id
    }

    /// Returns the lineage's active allocation namespace.
    pub fn allocation_namespace_id(&self) -> (r: AllocationNamespaceId)
        ensures
            r == self@.namespace_id,
    {
        self.namespace_id
    }

    /// Returns the state of the lineage's entity counter.
    pub fn allocation_counter_state(&self) -> (r: AllocationCounterState)
        ensures
            r == self@.counter,
    {
        self.counter
    }

    /// Returns the number of Modules of the head revision.
    pub fn module_count(&self) -> (r: usize)
        ensures
            r == self@.revision.modules.len(),
    {
        self.head.module_count()
    }

    /// Looks up a Module of the head revision.
    pub fn module(&self, id: ModuleId) -> (r: Option<&Module>)
        ensures
            match r {
                Some(m) => find_module_in(self@.revision.modules, id) == Some(m@),
                None => find_module_in(self@.revision.modules, id) is None,
            },
    {
        crate::locate::lookup_module(&self.head.modules, id)
    }

    /// Looks up a Function of the head revision.
    pub fn function(&self, id: FunctionId) -> (r: Option<&Function>)
        ensures
            match r {
                Some(f) => find_function(self@.revision.modules, id) == Some(f@),
                None => find_function(self@.revision.modules, id) is None,
            },
    {
        crate::locate::lookup_function(&self.head.modules, id)
    }

    /// Looks up a Domain Type of the head revision.
    pub fn domain_type(&self, id: TypeId) -> (r: Option<&DomainType>)
        ensures
            match r {
                Some(t) => find_domain_type(self@.revision.modules, id) == Some(*t),
                None => find_domain_type(self@.revision.modules, id) is None,
            },
    {
        crate::locate::lookup_domain_type(&self.head.modules, id)
    }

    /// Looks up a Parameter of the head revision.
    pub fn parameter(&self, id: ParameterId) -> (r: Option<&Parameter>)
        ensures
            match r {
                Some(p) => find_parameter(self@.revision.modules, id) == Some(*p),
                None => find_parameter(self@.revision.modules, id) is None,
            },
    {
        crate::locate::lookup_parameter(&self.head.modules, id)
    }

    /// Looks up a Block of the head revision.
    pub fn block(&self, id: BlockId) -> (r: Option<&Block>)
        ensures
            match r {
                Some(b) => find_block(self@.revision.modules, id) == Some(b@),
                None => find_block(self@.revision.modules, id) is None,
            },
    {
        crate::locate::lookup_block(&self.head.modules, id)
    }

    /// Looks up an Expression of the head revision.
    pub fn expression(&self, id: ExpressionId) -> (r: Option<&Expression>)
        ensures
            match r {
                Some(e) => find_expression(self@.revision.modules, id) == Some(e@),
                None => find_expression(self@.revision.modules, id) is None,
            },
    {
        crate::locate::lookup_expression(&self.head.modules, id)
    }

    /// Derives the value type of an Expression of the head revision.
    pub fn expression_type(&self, id: ExpressionId) -> (r: Option<Result<ValueType, ExpressionTypeError>>)
        ensures
            r == expression_type(self@.revision.modules, id),
    {
        derive_expression_type(&self.head.modules, id)
    }

    /// Validates the head revision, which a lineage only ever holds when it
    /// is structurally valid.
    pub fn validate_structure(&self) -> (r: Result<(), StructuralError>)
        ensures
            r is Ok <==> structurally_valid(self@.revision.modules),
            r is Ok,
    {
        proof {
            use_type_invariant(self);
        }
        self.head.validate()
    }

    /// Returns an immutable observation of the head revision.
    pub fn snapshot(&self) -> (r: ProgramSnapshot)
        ensures
            r@ == (SnapshotView {
                program_id: self@.program_id,
                revision: self@.revision,
                namespace_id: self@.namespace_id,
                counter: self@.counter,
            }),
    {
        proof {
            use_type_invariant(self);
        }
        ProgramSnapshot {
            program_id: self.program_id,
            state: self.head.copied(),
            namespace_id: self.namespace_id,
            counter: self.counter,
        }
    }

    /// Returns how many Module identities the lineage has committed.
    pub fn committed_module_id_count(&self) -> (r: usize)
        ensures
            r == self@.revision.history.modules.len(),
    {
        self.head.history.modules.len()
    }

    /// Whether the lineage has committed Module identity `id`.
    pub fn is_module_id_committed(&self, id: ModuleId) -> (r: bool)
        ensures
            r == self@.revision.history.modules.contains(module_key(id)),
    {
        holds_key(&self.head.history.modules, (id.namespace_id.0, id.counter))
    }

    /// Returns how many Function identities the lineage has committed.
    pub fn committed_function_id_count(&self) -> (r: usize)
        ensures
            r == self@.revision.history.functions.len(),
    {
        self.head.history.functions.len()
    }

    /// Whether the lineage has committed Function identity `id`.
    pub fn is_function_id_committed(&self, id: FunctionId) -> (r: bool)
        ensures
            r == self@.revision.history.functions.contains(function_key(id)),
    {
        holds_key(&self.head.history.functions, (id.namespace_id.0, id.counter))
    }

    /// Returns how many Parameter identities the lineage has committed.
    pub fn committed_parameter_id_count(&self) -> (r: usize)
        ensures
            r == self@.revision.history.parameters.len(),
    {
        self.head.history.parameters.len()
    }

    /// Whether the lineage has committed Parameter identity `id`.
    pub fn is_parameter_id_committed(&self, id: ParameterId) -> (r: bool)
        ensures
            r == self@.revision.history.parameters.contains(parameter_key(id)),
    {
        holds_key(&self.head.history.parameters, (id.namespace_id.0, id.counter))
    }

    /// Returns how many Block identities the lineage has committed.
    pub fn committed_block_id_count(&self) -> (r: usize)
        ensures
            r == self@.revision.history.blocks.len(),
    {
        self.head.history.blocks.len()
    }

    /// Whether the lineage has committed Block identity `id`.
    pub fn is_block_id_committed(&self, id: BlockId) -> (r: bool)
        ensures
            r == self@.revision.history.blocks.contains(block_key(id)),
    {
        holds_key(&self.head.history.blocks, (id.namespace_id.0, id.counter))
    }

    /// Returns how many Expression identities the lineage has committed.
    pub fn committed_expression_id_count(&self) -> (r: usize)
        ensures
            r == self@.revision.history.expressions.len(),
    {
        self.head.history.expressions.len()
    }

    /// Whether the lineage has committed Expression identity `id`.
    pub fn is_expression_id_committed(&self, id: ExpressionId) -> (r: bool)
        ensures
            r == self@.revision.history.expressions.contains(expression_key(id)),
    {
        holds_key(&self.head.history.expressions, (id.namespace_id.0, id.counter))
    }

    /// A lineage continued from a validated checkpoint.
    pub(crate) fn restored(
        program_id: ProgramId,
        head: RevisionState,
        next_revision: Option<u64>,
        namespace_id: AllocationNamespaceId,
        counter: AllocationCounterState,
    ) -> (r: Self)
        requires
            revision_wf(head@),
            history_issued(head@.history, namespace_id, counter),
            keys_issued(module_keys(head@.modules), namespace_id, counter),
            functions_issued(head@.modules, namespace_id, counter),
            parameters_issued(head@.modules, namespace_id, counter),
            revision_follows(head@.revision_id, next_revision),
        ensures
            r@ == (ProgramView { program_id, revision: head@, next_revision, namespace_id, counter }),
    {
        MnirProgram { program_id, head, next_revision, namespace_id, counter }
    }

    /// Returns the next revision value, if any remains.
    pub(crate) fn next_revision(&self) -> (r: Option<u64>)
        ensures
            r == self@.next_revision,
    {
        self.next_revision
    }

    /// Copies the head revision.
    pub(crate) fn copy_head(&self) -> (r: RevisionState)
        ensures
            r@ == self@.revision,
    {
        self.head.copied()
    }

    /// The Modules of the head revision.
    pub(crate) fn head_modules(&self) -> (r: &Vec<Module>)
        ensures
            module_views(r@) == self@.revision.modules,
    {
        &self.head.modules
    }

    /// Copies the Modules of the head revision.
    pub(crate) fn copy_head_modules(&self) -> (r: Vec<Module>)
        ensures
            module_views(r@) == self@.revision.modules,
            keys_issued(module_keys(self@.revision.modules), self@.namespace_id, self@.counter),
            functions_issued(self@.revision.modules, self@.namespace_id, self@.counter),
            parameters_issued(self@.revision.modules, self@.namespace_id, self@.counter),
    {
        proof {
            use_type_invariant(self);
        }
        copy_modules(&self.head.modules)
    }

    /// Copies the identity History of the head revision.
    pub(crate) fn copy_history(&self) -> (r: History)
        ensures
            r@ == self@.revision.history,
            history_distinct(r@),
            history_issued(r@, self@.namespace_id, self@.counter),
    {
        proof {
            use_type_invariant(self);
        }
        self.head.history.copied()
    }

    /// Issues the current entity counter of the active namespace for an
    /// identity of `category`, and advances the counter.
    pub(crate) fn reserve(&mut self, category: IdentifierCategory) -> (r: Result<
        (AllocationNamespaceId, u64),
        MutationError,
    >)
        ensures
            final(self)@.program_id == old(self)@.program_id,
            final(self)@.revision == old(self)@.revision,
            final(self)@.next_revision == old(self)@.next_revision,
            final(self)@.namespace_id == old(self)@.namespace_id,
            match old(self)@.counter {
                AllocationCounterState::Available(c) => r == Ok::<(AllocationNamespaceId, u64), MutationError>((old(self)@.namespace_id, c))
                    && final(self)@.counter == advanced(c),
                AllocationCounterState::Exhausted => r == Err::<(AllocationNamespaceId, u64), MutationError>(MutationError::IdentifierExhausted(category))
                    && final(self)@.counter == old(self)@.counter,
            },
        no_unwind
    {
        proof {
            use_type_invariant(&*self);
        }
        match self.counter {
            AllocationCounterState::Available(c) => {
                self.counter = if c < u64::MAX {
                    AllocationCounterState::Available(c + 1)
                } else {
                    AllocationCounterState::Exhausted
                };
                Ok((self.namespace_id, c))
            },
            AllocationCounterState::Exhausted => Err(MutationError::IdentifierExhausted(category)),
        }
    }

    /// Installs a structurally valid revision as the new head, with the next
    /// revision identity.
    pub(crate) fn install(&mut self, modules: Vec<Module>, history: History) -> (r: Result<
        RevisionId,
        MutationError,
    >)
        requires
            structurally_valid(module_views(modules@)),
            history_distinct(history@),
            history_issued(history@, old(self)@.namespace_id, old(self)@.counter),
            keys_issued(module_keys(module_views(modules@)), old(self)@.namespace_id, old(self)@.counter),
            functions_issued(module_views(modules@), old(self)@.namespace_id, old(self)@.counter),
            parameters_issued(module_views(modules@), old(self)@.namespace_id, old(self)@.counter),
        ensures
            final(self)@.program_id == old(self)@.program_id,
            final(self)@.namespace_id == old(self)@.namespace_id,
            final(self)@.counter == old(self)@.counter,
            match old(self)@.next_revision {
                Some(n) => r == Ok::<RevisionId, MutationError>(RevisionId(n)) && final(self)@.revision == (RevisionView {
                    revision_id: RevisionId(n),
                    modules: module_views(modules@),
                    history: history@,
                }) && final(self)@.next_revision == (if n == u64::MAX {
                    None::<u64>
                } else {
                    Some((n + 1) as u64)
                }),
                None => r == Err::<RevisionId, MutationError>(MutationError::IdentifierExhausted(IdentifierCategory::Revision))
                    && final(self)@ == old(self)@,
            },
        no_unwind
    {
        match self.next_revision {
            Some(n) => {
                let revision_id = RevisionId(n);
                let next_revision = if n < u64::MAX {
                    Some(n + 1)
                } else {
                    None
                };
                let program_id = self.program_id;
                let namespace_id = self.namespace_id;
                let counter = self.counter;
                *self = MnirProgram {
                    program_id,
                    head: RevisionState { revision_id, modules, history },
                    next_revision,
                    namespace_id,
                    counter,
                };
                Ok(revision_id)
            },
            None => Err(MutationError::IdentifierExhausted(IdentifierCategory::Revision)),
        }
    }
}

impl ProgramSnapshot {
    /// Returns the Program identity of the observed lineage.
    pub fn program_id(&self) -> (r: ProgramId)
        ensures
            r == self@.program_id,
    {
        self.program_id
    }

    /// Returns the observed revision's identity.
    pub fn revision_id(&self) -> (r: RevisionId)
        ensures
            r == self@.revision.revision_id,
    {
        self.state.revision_id
    }

    /// Returns the allocation namespace observed with this snapshot.
    pub fn allocation_namespace_id(&self) -> (r: AllocationNamespaceId)
        ensures
            r == self@.namespace_id,
    {
        self.namespace_id
    }

    /// Returns the entity counter state observed with this snapshot.
    pub fn allocation_counter_state(&self) -> (r: AllocationCounterState)
        ensures
            r == self@.counter,
    {
        self.counter
    }

    /// Returns the number of Modules of the observed revision.
    pub fn module_count(&self) -> (r: usize)
        ensures
            r == self@.revision.modules.len(),
    {
        self.state.module_count()
    }

    /// Looks up a Module of the observed revision.
    pub fn module(&self, id: ModuleId) -> (r: Option<&Module>)
        ensures
            match r {
                Some(m) => find_module_in(self@.revision.modules, id) == Some(m@),
                None => find_module_in(self@.revision.modules, id) is None,
            },
    {
        crate::locate::lookup_module(&self.state.modules, id)
    }

    /// Enumerates the Modules of the observed revision. The order carries no
    /// meaning.
    pub fn modules(&self) -> (r: std::slice::Iter<'_, Module>)
        ensures
            module_views(vstd::std_specs::slice::into_iter_elts(r)) == self@.revision.modules,
    {
        broadcast use vstd::std_specs::slice::axiom_spec_slice_iter;

        self.state.modules.as_slice().iter()
    }

    /// Looks up a Function of the observed revision.
    pub fn function(&self, id: FunctionId) -> (r: Option<&Function>)
        ensures
            match r {
                Some(f) => find_function(self@.revision.modules, id) == Some(f@),
                None => find_function(self@.revision.modules, id) is None,
            },
    {
        crate::locate::lookup_function(&self.state.modules, id)
    }

    /// Looks up a Domain Type of the observed revision.
    pub fn domain_type(&self, id: TypeId) -> (r: Option<&DomainType>)
        ensures
            match r {
                Some(t) => find_domain_type(self@.revision.modules, id) == Some(*t),
                None => find_domain_type(self@.revision.modules, id) is None,
            },
    {
        crate::locate::lookup_domain_type(&self.state.modules, id)
    }

    /// Looks up a Parameter of the observed revision.
    pub fn parameter(&self, id: ParameterId) -> (r: Option<&Parameter>)
        ensures
            match r {
                Some(p) => find_parameter(self@.revision.modules, id) == Some(*p),
                None => find_parameter(self@.revision.modules, id) is None,
            },
    {
        crate::locate::lookup_parameter(&self.state.modules, id)
    }

    /// Looks up a Block of the observed revision.
    pub fn block(&self, id: BlockId) -> (r: Option<&Block>)
        ensures
            match r {
                Some(b) => find_block(self@.revision.modules, id) == Some(b@),
                None => find_block(self@.revision.modules, id) is None,
            },
    {
        crate::locate::lookup_block(&self.state.modules, id)
    }

    /// Looks up an Expression of the observed revision.
    pub fn expression(&self, id: ExpressionId) -> (r: Option<&Expression>)
        ensures
            match r {
                Some(e) => find_expression(self@.revision.modules, id) == Some(e@),
                None => find_expression(self@.revision.modules, id) is None,
            },
    {
        crate::locate::lookup_expression(&self.state.modules, id)
    }

    /// Derives the value type of an Expression of the observed revision.
    pub fn expression_type(&self, id: ExpressionId) -> (r: Option<Result<ValueType, ExpressionTypeError>>)
        ensures
            r == expression_type(self@.revision.modules, id),
    {
        derive_expression_type(&self.state.modules, id)
    }

    /// Validates the observed revision, which is always structurally valid.
    pub fn validate_structure(&self) -> (r: Result<(), StructuralError>)
        ensures
            r is Ok <==> structurally_valid(self@.revision.modules),
            r is Ok,
    {
        proof {
            use_type_invariant(self);
        }
        self.state.validate()
    }

    /// Begins a distinct Program lineage from this snapshot. Inherited
    /// identities and references are preserved exactly; the new lineage has
    /// a fresh Program identity and a fresh allocation namespace, distinct
    /// from every namespace present in the snapshot.
    pub fn fork(&self) -> (r: Result<MnirProgram, MutationError>)
        ensures
            match r {
                Ok(p) => {
                    &&& begun(p@)
                    &&& p@.program_id != self@.program_id
                    &&& !present_namespaces(self@.revision.modules, self@.namespace_id).contains(
                        p@.namespace_id.0,
                    )
                    &&& p@.revision.modules == self@.revision.modules
                    &&& p@.revision.history == present_history(self@.revision.modules)
                },
                Err(e) => e == MutationError::IdentityGenerationFailed(IdentifierCategory::Program)
                    || e == MutationError::IdentityCollision(IdentifierCategory::Program) || e
                    == MutationError::IdentityGenerationFailed(
                    IdentifierCategory::AllocationNamespace,
                ) || e == MutationError::IdentityCollision(IdentifierCategory::AllocationNamespace),
            },
    {
        proof {
            use_type_invariant(self);
        }
        let mut known_programs: Vec<u128> = Vec::new();
        known_programs.push(self.program_id.0);
        let program_value = allocate_identity(IdentifierCategory::Program, &known_programs).0?;
        assert(known_programs@[0] == self.program_id.0);
        let modules = copy_modules(&self.state.modules);
        let inventory = collect_inventory(&modules);
        let mut namespaces: Vec<u128> = Vec::new();
        namespaces.push(self.namespace_id.0);
        append_namespaces(&mut namespaces, &inventory.modules);
        append_namespaces(&mut namespaces, &inventory.types);
        append_namespaces(&mut namespaces, &inventory.functions);
        append_namespaces(&mut namespaces, &inventory.parameters);
        append_namespaces(&mut namespaces, &inventory.blocks);
        append_namespaces(&mut namespaces, &inventory.expressions);
        assert(namespaces@ =~= present_namespaces(self@.revision.modules, self@.namespace_id));
        let namespace_value = allocate_identity(IdentifierCategory::AllocationNamespace, &namespaces).0?;
        let history = History {
            modules: inventory.modules,
            functions: inventory.functions,
            parameters: inventory.parameters,
            blocks: inventory.blocks,
            expressions: inventory.expressions,
        };
        proof {
            lemma_present_history_outside(
                self@.revision.modules,
                self@.namespace_id,
                AllocationNamespaceId(namespace_value),
                AllocationCounterState::Available(1),
            );
            lemma_functions_issued_flat(
                self@.revision.modules,
                AllocationNamespaceId(namespace_value),
                AllocationCounterState::Available(1),
            );
            lemma_parameters_issued_flat(
                self@.revision.modules,
                AllocationNamespaceId(namespace_value),
                AllocationCounterState::Available(1),
            );
        }
        Ok(
            MnirProgram {
                program_id: ProgramId(program_value),
                head: RevisionState { revision_id: RevisionId(1), modules, history },
                next_revision: Some(2),
                namespace_id: AllocationNamespaceId(namespace_value),
                counter: AllocationCounterState::Available(1),
            },
        )
    }
}

} // verus!
