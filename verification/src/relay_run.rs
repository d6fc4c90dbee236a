//! One bounded build of the relay distribution, from the catalog to the
//! evidence.
//!
//! The state is read once, every batch of new objects is scanned into it, and
//! the distribution follows from the last state.

use vstd::prelude::*;
use vstd::slice::*;
use vstd::string::*;

use crate::artifact::{object_input_list, object_inputs, BatchLimits, InputBatch, InputIdentity};
use crate::build_runs::{inputs_before, lemma_inputs_grow, plan_gives};
use crate::bytes::{bytes_less, lemma_lex_transitive, lex_less};
use crate::digest::{sha256_hex, sha256_text};
use crate::disk::DiskBudget;
use crate::error::{to_i64, Error, Result};
use crate::input::ResolvedSnapshot;
use crate::input_index::{are_new, holds_all, inputs_are_new, list_pending, pending_places};
use crate::relay_build::{
    complete_relay_distribution, completes_relays, config_fits, enforce_state_size, evidence_valid,
    extends_baseline, memberships_among, physical_totals, refuses_evidence, state_totals,
    totals_are, totals_count, totals_of, validate_advance, validate_applied_inputs,
    validate_config, validate_evidence, BatchStats, BoundedRelayDistribution, CandidateTotals,
    PhysicalTotals, RelayDistributionConfig, RelayDistributionEvidence, RelayLineage, RelayState,
};
use crate::relay_distribution::RelayDistributionRow;
use crate::relay_rows::{
    distributes, id_at, ids_differ, materialize_rows, users_overflow, RelayCandidate,
};
use crate::relay_scan::{
    ids_increase, lemma_increasing_ids_differ, scan_outcome, scan_rows, ScannedRelayRow,
};

verus! {

/// `after` are the totals `before` with those of a batch.
pub open spec fn adds_totals(
    before: PhysicalTotals,
    stats: BatchStats,
    after: PhysicalTotals,
) -> bool {
    &&& after.physical_rows == before.physical_rows + stats.physical_rows
    &&& after.physical_relay_events == before.physical_relay_events + stats.physical_relay_events
    &&& after.raw_relay_tags == before.raw_relay_tags + stats.raw_relay_tags
    &&& after.invalid_relay_tags == before.invalid_relay_tags + stats.invalid_relay_tags
    &&& after.duplicate_relay_tags == before.duplicate_relay_tags + stats.duplicate_relay_tags
}

/// A total and a count that cannot be stored as one.
pub open spec fn total_overflows(total: i64, count: u64, error: Error) -> bool {
    ||| count > i64::MAX && error is NumericOverflow
    ||| total + count > i64::MAX && error is Invalid
}

/// Some total of a batch cannot be added.
pub open spec fn totals_overflow(before: PhysicalTotals, stats: BatchStats, error: Error) -> bool {
    ||| total_overflows(before.physical_rows, stats.physical_rows, error)
    ||| total_overflows(before.physical_relay_events, stats.physical_relay_events, error)
    ||| total_overflows(before.raw_relay_tags, stats.raw_relay_tags, error)
    ||| total_overflows(before.invalid_relay_tags, stats.invalid_relay_tags, error)
    ||| total_overflows(before.duplicate_relay_tags, stats.duplicate_relay_tags, error)
}

/// Add the count of a batch to a stored total.
fn add_total(total: i64, field: &'static str, count: u64) -> (outcome: Result<i64>)
    ensures
        match outcome {
            Ok(sum) => sum == total + count,
            Err(error) => total_overflows(total, count, error),
        },
{
    match to_i64(field, count) {
        Ok(count) => match total.checked_add(count) {
            Some(sum) => Ok(sum),
            None => Err(Error::Invalid("relay totals overflowed")),
        },
        Err(error) => Err(error),
    }
}

/// Add the counts of a batch to the stored totals.
fn add_totals(totals: PhysicalTotals, stats: BatchStats) -> (outcome: Result<PhysicalTotals>)
    ensures
        match outcome {
            Ok(sum) => adds_totals(totals, stats, sum),
            Err(error) => totals_overflow(totals, stats, error),
        },
{
    let physical_rows: i64 = match add_total(
        totals.physical_rows,
        "relay batch physical rows",
        stats.physical_rows,
    ) {
        Ok(sum) => sum,
        Err(error) => {
            return Err(error);
        },
    };
    let physical_relay_events: i64 = match add_total(
        totals.physical_relay_events,
        "relay batch physical events",
        stats.physical_relay_events,
    ) {
        Ok(sum) => sum,
        Err(error) => {
            return Err(error);
        },
    };
    let raw_relay_tags: i64 = match add_total(
        totals.raw_relay_tags,
        "relay batch raw tags",
        stats.raw_relay_tags,
    ) {
        Ok(sum) => sum,
        Err(error) => {
            return Err(error);
        },
    };
    let invalid_relay_tags: i64 = match add_total(
        totals.invalid_relay_tags,
        "relay batch invalid tags",
        stats.invalid_relay_tags,
    ) {
        Ok(sum) => sum,
        Err(error) => {
            return Err(error);
        },
    };
    let duplicate_relay_tags: i64 = match add_total(
        totals.duplicate_relay_tags,
        "relay batch duplicate tags",
        stats.duplicate_relay_tags,
    ) {
        Ok(sum) => sum,
        Err(error) => {
            return Err(error);
        },
    };
    Ok(
        PhysicalTotals {
            physical_rows,
            physical_relay_events,
            raw_relay_tags,
            invalid_relay_tags,
            duplicate_relay_tags,
        },
    )
}

/// The sizes of an input can be stored.
pub open spec fn is_storable(input: InputIdentity) -> bool {
    input.byte_size <= i64::MAX && input.row_count <= i64::MAX
}

/// Put the inputs of a batch behind those that were applied.
fn extend_applied(applied: Vec<InputIdentity>, inputs: &Vec<InputIdentity>) -> (outcome: Result<
    Vec<InputIdentity>,
>)
    ensures
        match outcome {
            Ok(all) => all@ == applied@ + inputs@ && forall|i: int|
                0 <= i < inputs@.len() ==> is_storable(#[trigger] inputs@[i]),
            Err(error) => error is NumericOverflow && exists|i: int|
                0 <= i < inputs@.len() && !is_storable(#[trigger] inputs@[i]),
        },
{
    let ghost first = applied@;
    let mut all: Vec<InputIdentity> = applied;
    let mut i: usize = 0;
    assert(all@ =~= first + inputs@.take(0));
    while i < inputs.len()
        invariant
            i <= inputs@.len(),
            first == applied@,
            all@ == first + inputs@.take(i as int),
            forall|j: int| 0 <= j < i ==> is_storable(#[trigger] inputs@[j]),
        decreases inputs.len() - i,
    {
        let input: &InputIdentity = &inputs[i];
        match to_i64("relay input byte size", input.byte_size) {
            Ok(_) => {},
            Err(error) => {
                assert(!is_storable(inputs@[i as int]));
                return Err(error);
            },
        }
        match to_i64("relay input row count", input.row_count) {
            Ok(_) => {},
            Err(error) => {
                assert(!is_storable(inputs@[i as int]));
                return Err(error);
            },
        }
        all.push(
            InputIdentity {
                identity: input.identity.clone(),
                byte_size: input.byte_size,
                row_count: input.row_count,
                sha256: input.sha256.clone(),
            },
        );
        assert(all@ =~= first + inputs@.take(i + 1));
        i += 1;
    }
    assert(inputs@.take(inputs@.len() as int) =~= inputs@);
    Ok(all)
}

/// `next` is the state with a batch that was scanned.
pub open spec fn applies_scan(
    state: RelayState,
    inputs: Seq<InputIdentity>,
    scanned: (Vec<RelayCandidate>, BatchStats),
    next: RelayState,
) -> bool {
    &&& next.snapshot_id == state.snapshot_id
    &&& next.applied@ == state.applied@ + inputs
    &&& next.candidates == scanned.0
    &&& adds_totals(state.physical, scanned.1, next.physical)
}

/// What applying a batch to a state comes to.
pub open spec fn apply_outcome<N: Fn(&str) -> Option<String>>(
    normalize: N,
    state: RelayState,
    inputs: Seq<InputIdentity>,
    rows: Seq<ScannedRelayRow>,
    outcome: Result<RelayState>,
) -> bool {
    match outcome {
        Ok(next) => {
            &&& are_new(inputs, state.applied@)
            &&& forall|i: int| 0 <= i < inputs.len() ==> is_storable(#[trigger] inputs[i])
            &&& exists|scanned: (Vec<RelayCandidate>, BatchStats)| #[trigger]
                applies_scan(state, inputs, scanned, next) && scan_outcome(
                    normalize,
                    state.candidates@,
                    rows,
                    Ok(scanned),
                )
        },
        Err(error) => {
            ||| scan_outcome(normalize, state.candidates@, rows, Err(error))
            ||| error is Invalid && !are_new(inputs, state.applied@)
            ||| error is NumericOverflow && exists|i: int|
                0 <= i < inputs.len() && !is_storable(#[trigger] inputs[i])
            ||| exists|scanned: (Vec<RelayCandidate>, BatchStats)| #[trigger]
                scan_outcome(normalize, state.candidates@, rows, Ok(scanned)) && totals_overflow(
                    state.physical,
                    scanned.1,
                    error,
                )
        },
    }
}

/// Apply the rows of a batch and its inputs to a state.
pub fn apply_batch<N: Fn(&str) -> Option<String>>(
    state: RelayState,
    inputs: &Vec<InputIdentity>,
    rows: &Vec<ScannedRelayRow>,
    normalize: &N,
) -> (outcome: Result<RelayState>)
    requires
        ids_increase(state.candidates@),
        forall|url: &str| #[trigger] call_requires(*normalize, (url,)),
    ensures
        apply_outcome(*normalize, state, inputs@, rows@, outcome),
        outcome is Ok ==> ids_increase(outcome->Ok_0.candidates@),
{
    let RelayState { snapshot_id, applied, candidates, physical } = state;
    let scan: Result<(Vec<RelayCandidate>, BatchStats)> = scan_rows(candidates, rows, normalize);
    let ghost made = scan;
    let (candidates, stats) = match scan {
        Ok(scanned) => scanned,
        Err(error) => {
            return Err(error);
        },
    };
    if !inputs_are_new(inputs, &applied) {
        return Err(Error::Invalid("relay object is applied already"));
    }
    let applied: Vec<InputIdentity> = match extend_applied(applied, inputs) {
        Ok(all) => all,
        Err(error) => {
            return Err(error);
        },
    };
    let ghost scanned = (candidates, stats);
    assert(scan_outcome(*normalize, state.candidates@, rows@, Ok(scanned)));
    let physical: PhysicalTotals = match add_totals(physical, stats) {
        Ok(sum) => sum,
        Err(error) => {
            return Err(error);
        },
    };
    let next: RelayState = RelayState { snapshot_id, applied, candidates, physical };
    assert(applies_scan(state, inputs@, scanned, next));
    Ok(next)
}

/// What a build of the relay distribution needs from outside.
pub struct RelaySteps<'a, P, O, L, S, N, C, Z, J, V> {
    /// Reserves disk space.
    pub reserve: &'a P,
    /// Reads the state.
    pub open: &'a O,
    /// Cuts inputs into batches.
    pub plan: &'a L,
    /// Reads the rows of a batch, given the places of its objects in the catalog.
    pub scan: &'a S,
    /// Normalizes a relay URL.
    pub normalize: &'a N,
    /// Stores the state.
    pub commit: &'a C,
    /// Number of pages of the stored state, and their size.
    pub size: &'a Z,
    /// Writes the distribution as JSON.
    pub encode: &'a J,
    /// Writes the evidence as JSON.
    pub encode_evidence: &'a V,
}

/// Every step may be taken.
pub open spec fn steps_callable<
    P: Fn(DiskBudget) -> Result<()>,
    O: Fn() -> Result<RelayState>,
    L: Fn(&Vec<InputIdentity>, BatchLimits) -> Result<Vec<InputBatch>>,
    S: Fn(&InputBatch, &[usize]) -> Result<Vec<ScannedRelayRow>>,
    N: Fn(&str) -> Option<String>,
    C: Fn(&RelayState) -> Result<()>,
    Z: Fn(&RelayState) -> Result<(u64, u64)>,
    J: Fn(&Vec<RelayDistributionRow>) -> Result<Vec<u8>>,
    V: Fn(&RelayDistributionEvidence) -> Result<Vec<u8>>,
>(steps: RelaySteps<P, O, L, S, N, C, Z, J, V>) -> bool {
    &&& forall|budget: DiskBudget| #[trigger] call_requires(*steps.reserve, (budget,))
    &&& call_requires(*steps.open, ())
    &&& forall|inputs: &Vec<InputIdentity>, limits: BatchLimits| #[trigger]
        call_requires(*steps.plan, (inputs, limits))
    &&& forall|batch: &InputBatch, places: &[usize]| #[trigger]
        call_requires(*steps.scan, (batch, places))
    &&& forall|url: &str| #[trigger] call_requires(*steps.normalize, (url,))
    &&& forall|state: &RelayState| #[trigger] call_requires(*steps.commit, (state,))
    &&& forall|state: &RelayState| #[trigger] call_requires(*steps.size, (state,))
    &&& forall|rows: &Vec<RelayDistributionRow>| #[trigger] call_requires(*steps.encode, (rows,))
    &&& forall|evidence: &RelayDistributionEvidence| #[trigger]
        call_requires(*steps.encode_evidence, (evidence,))
}

/// `rows` are those of the batch with the number `i`.
pub open spec fn scan_gives<S: Fn(&InputBatch, &[usize]) -> Result<Vec<ScannedRelayRow>>>(
    scan: S,
    batches: Seq<InputBatch>,
    places: Seq<usize>,
    i: int,
    rows: Result<Vec<ScannedRelayRow>>,
) -> bool {
    exists|own: &[usize]|
        own@ == places.subrange(inputs_before(batches, i), inputs_before(batches, i + 1))
            && #[trigger] call_ensures(scan, (&batches[i], own), rows)
}

/// `next` is the stored state behind the batch with the number `i`.
pub open spec fn batch_applies<
    S: Fn(&InputBatch, &[usize]) -> Result<Vec<ScannedRelayRow>>,
    N: Fn(&str) -> Option<String>,
    C: Fn(&RelayState) -> Result<()>,
>(
    scan: S,
    normalize: N,
    commit: C,
    batches: Seq<InputBatch>,
    places: Seq<usize>,
    i: int,
    state: RelayState,
    next: RelayState,
) -> bool {
    &&& call_ensures(commit, (&next,), Ok(()))
    &&& exists|rows: Vec<ScannedRelayRow>| #[trigger]
        scan_gives(scan, batches, places, i, Ok(rows)) && apply_outcome(
            normalize,
            state,
            batches[i].inputs@,
            rows@,
            Ok(next),
        )
}

/// The batch with the number `i` cannot be applied.
pub open spec fn batch_fails<
    S: Fn(&InputBatch, &[usize]) -> Result<Vec<ScannedRelayRow>>,
    N: Fn(&str) -> Option<String>,
    C: Fn(&RelayState) -> Result<()>,
>(
    scan: S,
    normalize: N,
    commit: C,
    batches: Seq<InputBatch>,
    places: Seq<usize>,
    i: int,
    state: RelayState,
    error: Error,
) -> bool {
    ||| scan_gives(scan, batches, places, i, Err(error))
    ||| exists|rows: Vec<ScannedRelayRow>| #[trigger]
        scan_gives(scan, batches, places, i, Ok(rows)) && {
            ||| apply_outcome(normalize, state, batches[i].inputs@, rows@, Err(error))
            ||| exists|next: RelayState| #[trigger]
                call_ensures(commit, (&next,), Err(error)) && apply_outcome(
                    normalize,
                    state,
                    batches[i].inputs@,
                    rows@,
                    Ok(next),
                )
        }
}

/// `states` are those before and behind each of the first batches.
pub open spec fn applies_batches<
    S: Fn(&InputBatch, &[usize]) -> Result<Vec<ScannedRelayRow>>,
    N: Fn(&str) -> Option<String>,
    C: Fn(&RelayState) -> Result<()>,
>(
    states: Seq<RelayState>,
    scan: S,
    normalize: N,
    commit: C,
    batches: Seq<InputBatch>,
    places: Seq<usize>,
    first: RelayState,
) -> bool {
    &&& 0 < states.len() <= batches.len() + 1
    &&& states[0] == first
    &&& forall|i: int|
        0 <= i < states.len() - 1 ==> batch_applies(
            scan,
            normalize,
            commit,
            batches,
            places,
            i,
            #[trigger] states[i],
            states[i + 1],
        )
}

/// What applying the batches to a state comes to.
pub open spec fn batches_outcome<
    S: Fn(&InputBatch, &[usize]) -> Result<Vec<ScannedRelayRow>>,
    N: Fn(&str) -> Option<String>,
    C: Fn(&RelayState) -> Result<()>,
>(
    scan: S,
    normalize: N,
    commit: C,
    batches: Seq<InputBatch>,
    places: Seq<usize>,
    first: RelayState,
    outcome: Result<RelayState>,
) -> bool {
    match outcome {
        Ok(last) => inputs_before(batches, batches.len() as int) == places.len() && exists|
            states: Seq<RelayState>,
        | #[trigger]
            applies_batches(states, scan, normalize, commit, batches, places, first)
                && states.len() == batches.len() + 1 && states.last() == last,
        Err(error) => {
            ||| error is Invalid && inputs_before(batches, batches.len() as int) != places.len()
            ||| exists|states: Seq<RelayState>| #[trigger]
                applies_batches(states, scan, normalize, commit, batches, places, first)
                    && states.len() <= batches.len() && batch_fails(
                    scan,
                    normalize,
                    commit,
                    batches,
                    places,
                    states.len() - 1,
                    states.last(),
                    error,
                )
        },
    }
}

/// Apply the batches to a state, and store it behind each of them.
fn apply_batches<
    S: Fn(&InputBatch, &[usize]) -> Result<Vec<ScannedRelayRow>>,
    N: Fn(&str) -> Option<String>,
    C: Fn(&RelayState) -> Result<()>,
>(
    first: RelayState,
    batches: &Vec<InputBatch>,
    places: &Vec<usize>,
    scan: &S,
    normalize: &N,
    commit: &C,
) -> (outcome: Result<RelayState>)
    requires
        ids_increase(first.candidates@),
        forall|batch: &InputBatch, own: &[usize]| #[trigger] call_requires(*scan, (batch, own)),
        forall|url: &str| #[trigger] call_requires(*normalize, (url,)),
        forall|state: &RelayState| #[trigger] call_requires(*commit, (state,)),
    ensures
        batches_outcome(*scan, *normalize, *commit, batches@, places@, first, outcome),
        outcome is Ok ==> ids_increase(outcome->Ok_0.candidates@),
{
    let ghost mut states: Seq<RelayState> = seq![first];
    let mut state: RelayState = first;
    let mut offset: usize = 0;
    let mut i: usize = 0;
    while i < batches.len()
        invariant
            i <= batches@.len(),
            offset <= places@.len(),
            offset == inputs_before(batches@, i as int),
            ids_increase(state.candidates@),
            forall|batch: &InputBatch, own: &[usize]| #[trigger]
                call_requires(*scan, (batch, own)),
            forall|url: &str| #[trigger] call_requires(*normalize, (url,)),
            forall|state: &RelayState| #[trigger] call_requires(*commit, (state,)),
            states.len() == i + 1,
            states.last() == state,
            applies_batches(states, *scan, *normalize, *commit, batches@, places@, first),
        decreases batches.len() - i,
    {
        let batch: &InputBatch = &batches[i];
        proof {
            lemma_inputs_grow(batches@, i + 1, batches@.len() as int);
        }
        if batch.inputs.len() > places.len() - offset {
            return Err(Error::Invalid("relay batch locations are incomplete"));
        }
        let end: usize = offset + batch.inputs.len();
        let own: &[usize] = slice_subrange(places.as_slice(), offset, end);
        let rows: Vec<ScannedRelayRow> = match scan(batch, own) {
            Ok(rows) => rows,
            Err(error) => {
                assert(scan_gives(*scan, batches@, places@, i as int, Err(error)));
                return Err(error);
            },
        };
        assert(scan_gives(*scan, batches@, places@, i as int, Ok(rows)));
        let ghost before = state;
        let next: RelayState = match apply_batch(state, &batch.inputs, &rows, normalize) {
            Ok(next) => next,
            Err(error) => {
                assert(batch_fails(
                    *scan,
                    *normalize,
                    *commit,
                    batches@,
                    places@,
                    i as int,
                    before,
                    error,
                ));
                return Err(error);
            },
        };
        match commit(&next) {
            Ok(done) => {
                assert(done == ());
                assert(call_ensures(*commit, (&next,), Ok(())));
            },
            Err(error) => {
                assert(call_ensures(*commit, (&next,), Err(error)));
                assert(batch_fails(
                    *scan,
                    *normalize,
                    *commit,
                    batches@,
                    places@,
                    i as int,
                    before,
                    error,
                ));
                return Err(error);
            },
        }
        proof {
            assert(batch_applies(
                *scan,
                *normalize,
                *commit,
                batches@,
                places@,
                i as int,
                before,
                next,
            ));
            let longer = states.push(next);
            assert forall|k: int| 0 <= k < longer.len() - 1 implies batch_applies(
                *scan,
                *normalize,
                *commit,
                batches@,
                places@,
                k,
                #[trigger] longer[k],
                longer[k + 1],
            ) by {
                if k < i {
                    assert(longer[k] == states[k] && longer[k + 1] == states[k + 1]);
                }
            }
            states = longer;
        }
        state = next;
        offset = end;
        i += 1;
    }
    if offset != places.len() {
        return Err(Error::Invalid("relay batches did not consume all pending locations"));
    }
    Ok(state)
}

/// Whether event IDs strictly increase.
fn candidates_increase(candidates: &Vec<RelayCandidate>) -> (increase: bool)
    ensures
        increase == ids_increase(candidates@),
{
    let mut i: usize = 1;
    while i < candidates.len()
        invariant
            1 <= i,
            candidates@.len() > 0 ==> i <= candidates@.len(),
            forall|a: int, b: int|
                0 <= a < b < i && b < candidates@.len() ==> lex_less(
                    #[trigger] id_at(candidates@, a),
                    #[trigger] id_at(candidates@, b),
                ),
        decreases candidates.len() - i,
    {
        if !bytes_less(&candidates[i - 1].event_id, &candidates[i].event_id) {
            assert(!lex_less(id_at(candidates@, i - 1), id_at(candidates@, i as int)));
            return false;
        }
        proof {
            assert forall|a: int, b: int| 0 <= a < b < i + 1 implies lex_less(
                #[trigger] id_at(candidates@, a),
                #[trigger] id_at(candidates@, b),
            ) by {
                if b == i && a < i - 1 {
                    lemma_lex_transitive(
                        id_at(candidates@, a),
                        id_at(candidates@, i - 1),
                        id_at(candidates@, b),
                    );
                }
            }
        }
        i += 1;
    }
    true
}

/// What a relay build is made for.
pub struct RelayBuild<'a> {
    /// The snapshot.
    pub snapshot: &'a ResolvedSnapshot,
    /// Fixed upper time boundary.
    pub as_of_epoch: u64,
    /// Resource and serving settings.
    pub config: &'a RelayDistributionConfig,
    /// Bytes of the state that is stored already.
    pub retained_bytes: u64,
}

/// Disk space that a build reserves.
pub open spec fn state_budget(build: RelayBuild) -> DiskBudget {
    DiskBudget {
        output_bytes: build.config.max_state_bytes,
        temporary_bytes: 0,
        retained_bytes: build.retained_bytes,
        reserve_bytes: build.config.disk_reserve_bytes,
    }
}

/// What the evidence of a build comes to.
pub open spec fn product_from_evidence<V: Fn(&RelayDistributionEvidence) -> Result<Vec<u8>>>(
    encode_evidence: V,
    evidence: RelayDistributionEvidence,
    rows_json: Seq<u8>,
    state: RelayState,
    outcome: Result<BoundedRelayDistribution>,
) -> bool {
    if !evidence_valid(evidence, rows_json, state) {
        outcome is Err && refuses_evidence(evidence, rows_json, state, outcome->Err_0)
    } else {
        exists|json: Result<Vec<u8>>| #[trigger]
            call_ensures(encode_evidence, (&evidence,), json) && match json {
                Err(error) => outcome == Err::<BoundedRelayDistribution, Error>(error),
                Ok(bytes) => {
                    &&& outcome is Ok
                    &&& outcome->Ok_0.evidence == evidence
                    &&& outcome->Ok_0.evidence_sha256@ == sha256_text(bytes@)
                },
            }
    }
}

/// What the distribution of a state comes to.
pub open spec fn product_from_rows<V: Fn(&RelayDistributionEvidence) -> Result<Vec<u8>>>(
    encode_evidence: V,
    build: RelayBuild,
    lineage: Option<RelayLineage>,
    inputs: Vec<InputIdentity>,
    state: RelayState,
    rows: Vec<RelayDistributionRow>,
    rows_json: Seq<u8>,
    outcome: Result<BoundedRelayDistribution>,
) -> bool {
    if memberships_among(state.candidates@, state.candidates@.len() as int) > u64::MAX {
        outcome is Err && outcome->Err_0 is Invalid
    } else if !totals_count(state.physical) {
        outcome is Err && outcome->Err_0 is NegativeLedgerValue
    } else {
        exists|
            evidence: RelayDistributionEvidence,
            totals: CandidateTotals,
            physical: BatchStats,
        | #[trigger]
            completes_relays(
                evidence,
                build.snapshot.catalog.snapshot_id@,
                build.as_of_epoch,
                *build.config,
                lineage,
                inputs,
                rows,
                rows_json,
                totals,
                physical,
            ) && totals_of(totals, state.candidates@, build.as_of_epoch) && totals_are(
                state.physical,
                physical,
            ) && product_from_evidence(encode_evidence, evidence, rows_json, state, outcome)
    }
}

/// `json` is the distribution of the candidates as JSON.
pub open spec fn rows_encode<J: Fn(&Vec<RelayDistributionRow>) -> Result<Vec<u8>>>(
    encode: J,
    rows: Vec<RelayDistributionRow>,
    json: Result<Vec<u8>>,
) -> bool {
    call_ensures(encode, (&rows,), json)
}

/// What the last state of a build comes to.
pub open spec fn product_from_state<
    Z: Fn(&RelayState) -> Result<(u64, u64)>,
    J: Fn(&Vec<RelayDistributionRow>) -> Result<Vec<u8>>,
    V: Fn(&RelayDistributionEvidence) -> Result<Vec<u8>>,
>(
    size: Z,
    encode: J,
    encode_evidence: V,
    build: RelayBuild,
    lineage: Option<RelayLineage>,
    inputs: Vec<InputIdentity>,
    state: RelayState,
    outcome: Result<BoundedRelayDistribution>,
) -> bool {
    exists|sized: Result<(u64, u64)>| #[trigger]
        call_ensures(size, (&state,), sized) && match sized {
            Err(error) => outcome == Err::<BoundedRelayDistribution, Error>(error),
            Ok((pages, page_size)) => if pages * page_size > build.config.max_state_bytes
                || users_overflow(state.candidates@, build.as_of_epoch) {
                outcome is Err && outcome->Err_0 is Invalid
            } else {
                exists|rows: Vec<RelayDistributionRow>, json: Result<Vec<u8>>| #[trigger]
                    rows_encode(encode, rows, json) && distributes(
                        rows@,
                        state.candidates@,
                        build.as_of_epoch,
                        build.config.minimum_users,
                    ) && match json {
                        Err(error) => outcome == Err::<BoundedRelayDistribution, Error>(error),
                        Ok(bytes) => product_from_rows(
                            encode_evidence,
                            build,
                            lineage,
                            inputs,
                            state,
                            rows,
                            bytes@,
                            outcome,
                        ),
                    }
            },
        }
}

/// `named` is the state, for the snapshot.
pub open spec fn covers(named: RelayState, state: RelayState, snapshot_id: Seq<char>) -> bool {
    &&& named.snapshot_id is Some
    &&& named.snapshot_id->0@ == snapshot_id
    &&& named.applied == state.applied
    &&& named.candidates == state.candidates
    &&& named.physical == state.physical
}

/// What the state behind the batches comes to.
pub open spec fn product_from_last<
    P: Fn(DiskBudget) -> Result<()>,
    O: Fn() -> Result<RelayState>,
    L: Fn(&Vec<InputIdentity>, BatchLimits) -> Result<Vec<InputBatch>>,
    S: Fn(&InputBatch, &[usize]) -> Result<Vec<ScannedRelayRow>>,
    N: Fn(&str) -> Option<String>,
    C: Fn(&RelayState) -> Result<()>,
    Z: Fn(&RelayState) -> Result<(u64, u64)>,
    J: Fn(&Vec<RelayDistributionRow>) -> Result<Vec<u8>>,
    V: Fn(&RelayDistributionEvidence) -> Result<Vec<u8>>,
>(
    steps: RelaySteps<P, O, L, S, N, C, Z, J, V>,
    build: RelayBuild,
    lineage: Option<RelayLineage>,
    inputs: Vec<InputIdentity>,
    state: RelayState,
    outcome: Result<BoundedRelayDistribution>,
) -> bool {
    exists|named: RelayState, stored: Result<()>| #[trigger]
        call_ensures(*steps.commit, (&named,), stored) && covers(
            named,
            state,
            build.snapshot.catalog.snapshot_id@,
        ) && match stored {
            Err(error) => outcome == Err::<BoundedRelayDistribution, Error>(error),
            Ok(_) => product_from_state(
                *steps.size,
                *steps.encode,
                *steps.encode_evidence,
                build,
                lineage,
                inputs,
                named,
                outcome,
            ),
        }
}

/// What the batches of a build come to.
pub open spec fn product_from_batches<
    P: Fn(DiskBudget) -> Result<()>,
    O: Fn() -> Result<RelayState>,
    L: Fn(&Vec<InputIdentity>, BatchLimits) -> Result<Vec<InputBatch>>,
    S: Fn(&InputBatch, &[usize]) -> Result<Vec<ScannedRelayRow>>,
    N: Fn(&str) -> Option<String>,
    C: Fn(&RelayState) -> Result<()>,
    Z: Fn(&RelayState) -> Result<(u64, u64)>,
    J: Fn(&Vec<RelayDistributionRow>) -> Result<Vec<u8>>,
    V: Fn(&RelayDistributionEvidence) -> Result<Vec<u8>>,
>(
    steps: RelaySteps<P, O, L, S, N, C, Z, J, V>,
    build: RelayBuild,
    lineage: Option<RelayLineage>,
    inputs: Vec<InputIdentity>,
    state: RelayState,
    batches: Vec<InputBatch>,
    outcome: Result<BoundedRelayDistribution>,
) -> bool {
    exists|ran: Result<RelayState>| #[trigger]
        batches_outcome(
            *steps.scan,
            *steps.normalize,
            *steps.commit,
            batches@,
            pending_places(inputs@, state.applied@, inputs@.len() as int),
            state,
            ran,
        ) && match ran {
            Err(error) => outcome == Err::<BoundedRelayDistribution, Error>(error),
            Ok(last) => product_from_last(steps, build, lineage, inputs, last, outcome),
        }
}

/// The inputs at the places.
pub open spec fn inputs_at(inputs: Seq<InputIdentity>, places: Seq<usize>) -> Seq<InputIdentity> {
    Seq::new(places.len(), |k: int| inputs[places[k] as int])
}

/// What the state that a build starts with comes to.
pub open spec fn product_from_open<
    P: Fn(DiskBudget) -> Result<()>,
    O: Fn() -> Result<RelayState>,
    L: Fn(&Vec<InputIdentity>, BatchLimits) -> Result<Vec<InputBatch>>,
    S: Fn(&InputBatch, &[usize]) -> Result<Vec<ScannedRelayRow>>,
    N: Fn(&str) -> Option<String>,
    C: Fn(&RelayState) -> Result<()>,
    Z: Fn(&RelayState) -> Result<(u64, u64)>,
    J: Fn(&Vec<RelayDistributionRow>) -> Result<Vec<u8>>,
    V: Fn(&RelayDistributionEvidence) -> Result<Vec<u8>>,
>(
    steps: RelaySteps<P, O, L, S, N, C, Z, J, V>,
    build: RelayBuild,
    lineage: Option<RelayLineage>,
    inputs: Vec<InputIdentity>,
    state: RelayState,
    outcome: Result<BoundedRelayDistribution>,
) -> bool {
    if !holds_all(inputs@, state.applied@) || !ids_increase(state.candidates@) {
        outcome is Err && outcome->Err_0 is Invalid
    } else {
        exists|planned: Result<Vec<InputBatch>>| #[trigger]
            plan_gives(
                *steps.plan,
                inputs_at(
                    inputs@,
                    pending_places(inputs@, state.applied@, inputs@.len() as int),
                ),
                build.config.batch_limits,
                planned,
            ) && match planned {
                Err(error) => outcome == Err::<BoundedRelayDistribution, Error>(error),
                Ok(batches) => product_from_batches(
                    steps,
                    build,
                    lineage,
                    inputs,
                    state,
                    batches,
                    outcome,
                ),
            }
    }
}

/// What a build comes to once its disk space is reserved.
pub open spec fn product_from_inputs<
    P: Fn(DiskBudget) -> Result<()>,
    O: Fn() -> Result<RelayState>,
    L: Fn(&Vec<InputIdentity>, BatchLimits) -> Result<Vec<InputBatch>>,
    S: Fn(&InputBatch, &[usize]) -> Result<Vec<ScannedRelayRow>>,
    N: Fn(&str) -> Option<String>,
    C: Fn(&RelayState) -> Result<()>,
    Z: Fn(&RelayState) -> Result<(u64, u64)>,
    J: Fn(&Vec<RelayDistributionRow>) -> Result<Vec<u8>>,
    V: Fn(&RelayDistributionEvidence) -> Result<Vec<u8>>,
>(
    steps: RelaySteps<P, O, L, S, N, C, Z, J, V>,
    build: RelayBuild,
    lineage: Option<RelayLineage>,
    inputs: Vec<InputIdentity>,
    outcome: Result<BoundedRelayDistribution>,
) -> bool {
    exists|opened: Result<RelayState>| #[trigger]
        call_ensures(*steps.open, (), opened) && match opened {
            Err(error) => outcome == Err::<BoundedRelayDistribution, Error>(error),
            Ok(state) => product_from_open(steps, build, lineage, inputs, state, outcome),
        }
}

/// The inputs are the objects of the catalog.
pub open spec fn lists_catalog(inputs: Vec<InputIdentity>, snapshot: ResolvedSnapshot) -> bool {
    inputs@ == object_input_list(snapshot.catalog.objects@)
}

/// What a build of the relay distribution comes to.
pub open spec fn builds_relays<
    P: Fn(DiskBudget) -> Result<()>,
    O: Fn() -> Result<RelayState>,
    L: Fn(&Vec<InputIdentity>, BatchLimits) -> Result<Vec<InputBatch>>,
    S: Fn(&InputBatch, &[usize]) -> Result<Vec<ScannedRelayRow>>,
    N: Fn(&str) -> Option<String>,
    C: Fn(&RelayState) -> Result<()>,
    Z: Fn(&RelayState) -> Result<(u64, u64)>,
    J: Fn(&Vec<RelayDistributionRow>) -> Result<Vec<u8>>,
    V: Fn(&RelayDistributionEvidence) -> Result<Vec<u8>>,
>(
    steps: RelaySteps<P, O, L, S, N, C, Z, J, V>,
    build: RelayBuild,
    lineage: Option<RelayLineage>,
    outcome: Result<BoundedRelayDistribution>,
) -> bool {
    if !config_fits(*build.snapshot, build.as_of_epoch, *build.config) {
        outcome == Err::<BoundedRelayDistribution, Error>(
            Error::Invalid("relay distribution snapshot or bounded configuration is invalid"),
        )
    } else {
        exists|reserved: Result<()>| #[trigger]
            call_ensures(*steps.reserve, (state_budget(build),), reserved) && match reserved {
                Err(error) => outcome == Err::<BoundedRelayDistribution, Error>(error),
                Ok(_) => exists|inputs: Vec<InputIdentity>| #[trigger]
                    lists_catalog(inputs, *build.snapshot) && product_from_inputs(
                        steps,
                        build,
                        lineage,
                        inputs,
                        outcome,
                    ),
            }
    }
}

/// Complete the evidence of a state and validate it.
fn finish_state<
    Z: Fn(&RelayState) -> Result<(u64, u64)>,
    J: Fn(&Vec<RelayDistributionRow>) -> Result<Vec<u8>>,
    V: Fn(&RelayDistributionEvidence) -> Result<Vec<u8>>,
>(
    size: &Z,
    encode: &J,
    encode_evidence: &V,
    build: &RelayBuild,
    lineage: Option<RelayLineage>,
    inputs: Vec<InputIdentity>,
    state: &RelayState,
) -> (outcome: Result<BoundedRelayDistribution>)
    requires
        ids_increase(state.candidates@),
        forall|state: &RelayState| #[trigger] call_requires(*size, (state,)),
        forall|rows: &Vec<RelayDistributionRow>| #[trigger] call_requires(*encode, (rows,)),
        forall|evidence: &RelayDistributionEvidence| #[trigger]
            call_requires(*encode_evidence, (evidence,)),
    ensures
        product_from_state(
            *size,
            *encode,
            *encode_evidence,
            *build,
            lineage,
            inputs,
            *state,
            outcome,
        ),
{
    proof {
        lemma_increasing_ids_differ(state.candidates@);
    }
    let (pages, page_size) = match size(state) {
        Ok(sized) => sized,
        Err(error) => {
            return Err(error);
        },
    };
    assert(call_ensures(*size, (state,), Ok((pages, page_size))));
    match enforce_state_size(pages, page_size, build.config.max_state_bytes) {
        Ok(()) => {},
        Err(error) => {
            return Err(error);
        },
    }
    let rows: Vec<RelayDistributionRow> = match materialize_rows(
        &state.candidates,
        build.as_of_epoch,
        build.config.minimum_users,
    ) {
        Ok(rows) => rows,
        Err(error) => {
            return Err(error);
        },
    };
    let json: Vec<u8> = match encode(&rows) {
        Ok(json) => {
            assert(rows_encode(*encode, rows, Ok(json)));
            json
        },
        Err(error) => {
            assert(rows_encode(*encode, rows, Err(error)));
            return Err(error);
        },
    };
    let ghost (listed, held, own) = (rows, inputs, lineage);
    let outcome: Result<BoundedRelayDistribution> = finish_rows(
        encode_evidence,
        build,
        lineage,
        inputs,
        state,
        rows,
        json.as_slice(),
    );
    assert(product_from_rows(
        *encode_evidence,
        *build,
        own,
        held,
        *state,
        listed,
        json@,
        outcome,
    ));
    outcome
}

/// Complete the evidence of a distribution and validate it.
fn finish_rows<V: Fn(&RelayDistributionEvidence) -> Result<Vec<u8>>>(
    encode_evidence: &V,
    build: &RelayBuild,
    lineage: Option<RelayLineage>,
    inputs: Vec<InputIdentity>,
    state: &RelayState,
    rows: Vec<RelayDistributionRow>,
    rows_json: &[u8],
) -> (outcome: Result<BoundedRelayDistribution>)
    requires
        ids_differ(state.candidates@),
        forall|evidence: &RelayDistributionEvidence| #[trigger]
            call_requires(*encode_evidence, (evidence,)),
    ensures
        product_from_rows(
            *encode_evidence,
            *build,
            lineage,
            inputs,
            *state,
            rows,
            rows_json@,
            outcome,
        ),
{
    let totals: CandidateTotals = match state_totals(&state.candidates, build.as_of_epoch) {
        Ok(totals) => totals,
        Err(error) => {
            return Err(error);
        },
    };
    let physical: BatchStats = match physical_totals(state.physical) {
        Ok(physical) => physical,
        Err(error) => {
            return Err(error);
        },
    };
    let evidence: RelayDistributionEvidence = complete_relay_distribution(
        build.snapshot.catalog.snapshot_id.as_str(),
        build.as_of_epoch,
        build.config,
        lineage,
        inputs,
        rows,
        rows_json,
        totals,
        physical,
    );
    let ghost stated = evidence;
    match validate_evidence(&evidence, rows_json, state) {
        Ok(()) => {},
        Err(error) => {
            assert(product_from_evidence(
                *encode_evidence,
                stated,
                rows_json@,
                *state,
                Err(error),
            ));
            return Err(error);
        },
    }
    let json: Result<Vec<u8>> = encode_evidence(&evidence);
    assert(call_ensures(*encode_evidence, (&stated,), json));
    let outcome: Result<BoundedRelayDistribution> = match json {
        Ok(bytes) => Ok(
            BoundedRelayDistribution { evidence, evidence_sha256: sha256_hex(bytes.as_slice()) },
        ),
        Err(error) => Err(error),
    };
    assert(product_from_evidence(*encode_evidence, stated, rows_json@, *state, outcome));
    outcome
}

/// Pending places are those of inputs.
proof fn lemma_places_fit(inputs: Seq<InputIdentity>, applied: Seq<InputIdentity>, count: int)
    requires
        0 <= count <= inputs.len() <= usize::MAX,
    ensures
        forall|k: int|
            0 <= k < pending_places(inputs, applied, count).len() ==> (#[trigger] pending_places(
                inputs,
                applied,
                count,
            )[k]) < count,
    decreases count,
{
    if count > 0 {
        lemma_places_fit(inputs, applied, count - 1);
        let earlier = pending_places(inputs, applied, count - 1);
        let places = pending_places(inputs, applied, count);
        assert forall|k: int| 0 <= k < places.len() implies (#[trigger] places[k]) < count by {
            if k < earlier.len() {
                assert(places[k] == earlier[k]);
            }
        }
    }
}

/// Copy the inputs at the places.
fn pick_inputs(inputs: &Vec<InputIdentity>, places: &Vec<usize>) -> (picked: Vec<InputIdentity>)
    requires
        forall|k: int| 0 <= k < places@.len() ==> (#[trigger] places@[k]) < inputs@.len(),
    ensures
        picked@ == inputs_at(inputs@, places@),
{
    let mut picked: Vec<InputIdentity> = Vec::new();
    let mut k: usize = 0;
    while k < places.len()
        invariant
            k <= places@.len(),
            forall|k: int| 0 <= k < places@.len() ==> (#[trigger] places@[k]) < inputs@.len(),
            picked@ == inputs_at(inputs@, places@).take(k as int),
        decreases places.len() - k,
    {
        let input: &InputIdentity = &inputs[places[k]];
        picked.push(
            InputIdentity {
                identity: input.identity.clone(),
                byte_size: input.byte_size,
                row_count: input.row_count,
                sha256: input.sha256.clone(),
            },
        );
        assert(picked@ =~= inputs_at(inputs@, places@).take(k + 1));
        k += 1;
    }
    assert(picked@ =~= inputs_at(inputs@, places@));
    picked
}

/// Store the state behind the batches for the snapshot, and finish the build.
fn finish_last<
    P: Fn(DiskBudget) -> Result<()>,
    O: Fn() -> Result<RelayState>,
    L: Fn(&Vec<InputIdentity>, BatchLimits) -> Result<Vec<InputBatch>>,
    S: Fn(&InputBatch, &[usize]) -> Result<Vec<ScannedRelayRow>>,
    N: Fn(&str) -> Option<String>,
    C: Fn(&RelayState) -> Result<()>,
    Z: Fn(&RelayState) -> Result<(u64, u64)>,
    J: Fn(&Vec<RelayDistributionRow>) -> Result<Vec<u8>>,
    V: Fn(&RelayDistributionEvidence) -> Result<Vec<u8>>,
>(
    steps: &RelaySteps<P, O, L, S, N, C, Z, J, V>,
    build: &RelayBuild,
    lineage: Option<RelayLineage>,
    inputs: Vec<InputIdentity>,
    state: RelayState,
) -> (outcome: Result<BoundedRelayDistribution>)
    requires
        ids_increase(state.candidates@),
        steps_callable(*steps),
    ensures
        product_from_last(*steps, *build, lineage, inputs, state, outcome),
{
    let ghost last = state;
    let named: RelayState = RelayState {
        snapshot_id: Some(build.snapshot.catalog.snapshot_id.clone()),
        applied: state.applied,
        candidates: state.candidates,
        physical: state.physical,
    };
    assert(covers(named, last, build.snapshot.catalog.snapshot_id@));
    let commit: &C = steps.commit;
    match commit(&named) {
        Ok(done) => {
            assert(done == ());
            assert(call_ensures(*steps.commit, (&named,), Ok(())));
        },
        Err(error) => {
            assert(call_ensures(*steps.commit, (&named,), Err(error)));
            return Err(error);
        },
    }
    finish_state(steps.size, steps.encode, steps.encode_evidence, build, lineage, inputs, &named)
}

/// Apply the objects that the state lacks, and finish the build.
fn run_state<
    P: Fn(DiskBudget) -> Result<()>,
    O: Fn() -> Result<RelayState>,
    L: Fn(&Vec<InputIdentity>, BatchLimits) -> Result<Vec<InputBatch>>,
    S: Fn(&InputBatch, &[usize]) -> Result<Vec<ScannedRelayRow>>,
    N: Fn(&str) -> Option<String>,
    C: Fn(&RelayState) -> Result<()>,
    Z: Fn(&RelayState) -> Result<(u64, u64)>,
    J: Fn(&Vec<RelayDistributionRow>) -> Result<Vec<u8>>,
    V: Fn(&RelayDistributionEvidence) -> Result<Vec<u8>>,
>(
    steps: &RelaySteps<P, O, L, S, N, C, Z, J, V>,
    build: &RelayBuild,
    lineage: Option<RelayLineage>,
    inputs: Vec<InputIdentity>,
    state: RelayState,
) -> (outcome: Result<BoundedRelayDistribution>)
    requires
        steps_callable(*steps),
    ensures
        product_from_open(*steps, *build, lineage, inputs, state, outcome),
{
    match validate_applied_inputs(&state.applied, &inputs) {
        Ok(()) => {},
        Err(error) => {
            return Err(error);
        },
    }
    if !candidates_increase(&state.candidates) {
        return Err(Error::Invalid("relay state is not ordered by event ID"));
    }
    let places: Vec<usize> = list_pending(&inputs, &state.applied);
    let count: usize = inputs.len();
    proof {
        lemma_places_fit(inputs@, state.applied@, count as int);
    }
    let pending: Vec<InputIdentity> = pick_inputs(&inputs, &places);
    let plan: &L = steps.plan;
    let batches: Vec<InputBatch> = match plan(&pending, build.config.batch_limits) {
        Ok(batches) => {
            assert(plan_gives(*steps.plan, pending@, build.config.batch_limits, Ok(batches)));
            batches
        },
        Err(error) => {
            assert(plan_gives(*steps.plan, pending@, build.config.batch_limits, Err(error)));
            return Err(error);
        },
    };
    let ghost (opened, held, own) = (state, inputs, lineage);
    let ran: Result<RelayState> = apply_batches(
        state,
        &batches,
        &places,
        steps.scan,
        steps.normalize,
        steps.commit,
    );
    let ghost made = ran;
    assert(batches_outcome(
        *steps.scan,
        *steps.normalize,
        *steps.commit,
        batches@,
        pending_places(held@, opened.applied@, held@.len() as int),
        opened,
        made,
    ));
    let outcome: Result<BoundedRelayDistribution> = match ran {
        Ok(last) => finish_last(steps, build, lineage, inputs, last),
        Err(error) => Err(error),
    };
    assert(product_from_batches(*steps, *build, own, held, opened, batches, outcome));
    outcome
}

/// Build the relay distribution of a snapshot, for its lineage.
fn build_relay_distribution<
    P: Fn(DiskBudget) -> Result<()>,
    O: Fn() -> Result<RelayState>,
    L: Fn(&Vec<InputIdentity>, BatchLimits) -> Result<Vec<InputBatch>>,
    S: Fn(&InputBatch, &[usize]) -> Result<Vec<ScannedRelayRow>>,
    N: Fn(&str) -> Option<String>,
    C: Fn(&RelayState) -> Result<()>,
    Z: Fn(&RelayState) -> Result<(u64, u64)>,
    J: Fn(&Vec<RelayDistributionRow>) -> Result<Vec<u8>>,
    V: Fn(&RelayDistributionEvidence) -> Result<Vec<u8>>,
>(
    build: &RelayBuild,
    lineage: Option<RelayLineage>,
    steps: &RelaySteps<P, O, L, S, N, C, Z, J, V>,
) -> (outcome: Result<BoundedRelayDistribution>)
    requires
        steps_callable(*steps),
    ensures
        builds_relays(*steps, *build, lineage, outcome),
{
    match validate_config(build.snapshot, build.as_of_epoch, build.config) {
        Ok(()) => {},
        Err(error) => {
            return Err(error);
        },
    }
    let budget: DiskBudget = DiskBudget {
        output_bytes: build.config.max_state_bytes,
        temporary_bytes: 0,
        retained_bytes: build.retained_bytes,
        reserve_bytes: build.config.disk_reserve_bytes,
    };
    assert(budget == state_budget(*build));
    let reserve: &P = steps.reserve;
    match reserve(budget) {
        Ok(done) => {
            assert(done == ());
            assert(call_ensures(*steps.reserve, (budget,), Ok(())));
        },
        Err(error) => {
            assert(call_ensures(*steps.reserve, (budget,), Err(error)));
            return Err(error);
        },
    }
    let inputs: Vec<InputIdentity> = object_inputs(&build.snapshot.catalog.objects);
    let ghost (held, own) = (inputs, lineage);
    assert(lists_catalog(held, *build.snapshot));
    let open: &O = steps.open;
    let outcome: Result<BoundedRelayDistribution> = match open() {
        Ok(state) => {
            let ghost opened = state;
            assert(call_ensures(*steps.open, (), Ok(opened)));
            let finished: Result<BoundedRelayDistribution> = run_state(
                steps,
                build,
                lineage,
                inputs,
                state,
            );
            assert(product_from_open(*steps, *build, own, held, opened, finished));
            finished
        },
        Err(error) => {
            assert(call_ensures(*steps.open, (), Err(error)));
            Err(error)
        },
    };
    assert(product_from_inputs(*steps, *build, own, held, outcome));
    outcome
}

/// Build the relay distribution of a snapshot.
pub fn build_bounded_relay_distribution<
    P: Fn(DiskBudget) -> Result<()>,
    O: Fn() -> Result<RelayState>,
    L: Fn(&Vec<InputIdentity>, BatchLimits) -> Result<Vec<InputBatch>>,
    S: Fn(&InputBatch, &[usize]) -> Result<Vec<ScannedRelayRow>>,
    N: Fn(&str) -> Option<String>,
    C: Fn(&RelayState) -> Result<()>,
    Z: Fn(&RelayState) -> Result<(u64, u64)>,
    J: Fn(&Vec<RelayDistributionRow>) -> Result<Vec<u8>>,
    V: Fn(&RelayDistributionEvidence) -> Result<Vec<u8>>,
>(
    build: &RelayBuild,
    steps: &RelaySteps<P, O, L, S, N, C, Z, J, V>,
) -> (outcome: Result<BoundedRelayDistribution>)
    requires
        steps_callable(*steps),
    ensures
        builds_relays(*steps, *build, None, outcome),
{
    build_relay_distribution(build, None, steps)
}

/// The lineage of a build behind a baseline.
pub open spec fn follows(
    lineage: RelayLineage,
    baseline: BoundedRelayDistribution,
    snapshot: ResolvedSnapshot,
) -> bool {
    &&& lineage.baseline_evidence_sha256@ == baseline.evidence_sha256@
    &&& lineage.delta_object_count == snapshot.catalog.objects@.len()
        - baseline.evidence.inputs@.len()
}

/// Build the relay distribution of a snapshot that keeps every object of the
/// baseline, from the baseline's state.
pub fn advance_bounded_relay_distribution<
    P: Fn(DiskBudget) -> Result<()>,
    O: Fn() -> Result<RelayState>,
    L: Fn(&Vec<InputIdentity>, BatchLimits) -> Result<Vec<InputBatch>>,
    S: Fn(&InputBatch, &[usize]) -> Result<Vec<ScannedRelayRow>>,
    N: Fn(&str) -> Option<String>,
    C: Fn(&RelayState) -> Result<()>,
    Z: Fn(&RelayState) -> Result<(u64, u64)>,
    J: Fn(&Vec<RelayDistributionRow>) -> Result<Vec<u8>>,
    V: Fn(&RelayDistributionEvidence) -> Result<Vec<u8>>,
>(
    baseline: &BoundedRelayDistribution,
    build: &RelayBuild,
    steps: &RelaySteps<P, O, L, S, N, C, Z, J, V>,
) -> (outcome: Result<BoundedRelayDistribution>)
    requires
        steps_callable(*steps),
    ensures
        if extends_baseline(
            baseline.evidence,
            object_input_list(build.snapshot.catalog.objects@),
            build.as_of_epoch,
        ) {
            exists|lineage: RelayLineage| #[trigger]
                follows(lineage, *baseline, *build.snapshot) && builds_relays(
                    *steps,
                    *build,
                    Some(lineage),
                    outcome,
                )
        } else {
            outcome is Err && outcome->Err_0 is Invalid
        },
{
    let inputs: Vec<InputIdentity> = object_inputs(&build.snapshot.catalog.objects);
    let delta_object_count: u64 = match validate_advance(baseline, &inputs, build.as_of_epoch) {
        Ok(added) => added,
        Err(error) => {
            return Err(error);
        },
    };
    let lineage: RelayLineage = RelayLineage {
        baseline_evidence_sha256: baseline.evidence_sha256.clone(),
        delta_object_count,
    };
    assert(follows(lineage, *baseline, *build.snapshot));
    build_relay_distribution(build, Some(lineage), steps)
}

} // verus!
