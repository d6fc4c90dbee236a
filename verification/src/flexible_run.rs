//! One bounded build of flexible distinct leaves, from activity to the evidence.

use vstd::prelude::*;
use vstd::slice::slice_subrange;

use crate::activity::activity_stream;
use crate::artifact::{ArtifactIdentity, EncodedRun};
use crate::build_runs::starts_with;
use crate::calendar::floor_hour;
use crate::disk::{budget_of, completed_run_bytes, run_budget, run_bytes, DiskBudget, WorkFile};
use crate::error::{Error, Result};
use crate::fixed_activity::{lemma_row_count, weeks_defined, BoundedFixedActivity};
use crate::flexible_build::{
    build_bytes, chunk_bytes, complete_flexible_distinct, completes_flexible, cuts_source,
    estimate_run_bytes, is_chunk, plan_source_chunks, smaller, validate_config, CompletedLeaves,
    SourceChunk,
};
use crate::flexible_distinct::{
    build_leaves, group_leaves, largest_sketch, leaf_key, FlexibleDistinctConfig,
    FlexibleDistinctEvidence,
};
use crate::flexible_validation::ActivityState;
use crate::hour_identities::{
    cuts_groups, leaf_groups, lists_identities, transform_batch, LeafGroup,
};
use crate::leaf_stream::leaf_records;
use crate::merge::{div_up, merge_to_single, merges_outcome, CompletedRun, MergeOutcome};
use crate::records::{record_count, sorted_stream};
use crate::runs::{checkpoint_paths, list_checkpoints};

verus! {

/// The functions that a build is handed.
pub struct FlexibleSteps<'a, P, D, C, E, M, R, S, F> {
    /// Reserves disk space.
    pub reserve: &'a P,
    /// Finds the run of a batch that is stored already.
    pub find: &'a D,
    /// Stores the run of a batch.
    pub store: &'a C,
    /// Makes the empty run of a build without activity.
    pub empty: &'a E,
    /// Merges a group of a round.
    pub merge: &'a M,
    /// Reads the bytes of a run.
    pub read: &'a R,
    /// Sketches the groups of identities.
    pub sketch: &'a S,
    /// Stores the leaves; returns the artifact and the path of its checkpoint.
    pub store_leaves: &'a F,
}

/// The steps may be called on everything.
pub open spec fn steps_callable<
    P: Fn(DiskBudget) -> Result<()>,
    D: Fn(usize, SourceChunk) -> Result<Option<CompletedRun>>,
    C: Fn(usize, &EncodedRun) -> Result<CompletedRun>,
    E: Fn() -> Result<CompletedRun>,
    M: Fn(u32, usize, &[CompletedRun]) -> Result<(CompletedRun, usize)>,
    R: Fn(&CompletedRun) -> Result<Vec<u8>>,
    S: Fn(&Vec<LeafGroup>, &Vec<u8>) -> Result<Vec<Vec<u8>>>,
    F: Fn(&EncodedRun) -> Result<(ArtifactIdentity, String)>,
>(steps: FlexibleSteps<P, D, C, E, M, R, S, F>) -> bool {
    &&& forall|budget: DiskBudget| #[trigger] call_requires(*steps.reserve, (budget,))
    &&& forall|index: usize, chunk: SourceChunk| #[trigger]
        call_requires(*steps.find, (index, chunk))
    &&& forall|index: usize, run: &EncodedRun| #[trigger]
        call_requires(*steps.store, (index, run))
    &&& call_requires(*steps.empty, ())
    &&& forall|round: u32, group: usize, given: &[CompletedRun]| #[trigger]
        call_requires(*steps.merge, (round, group, given))
    &&& forall|run: &CompletedRun| #[trigger] call_requires(*steps.read, (run,))
    &&& forall|groups: &Vec<LeafGroup>, bytes: &Vec<u8>| #[trigger]
        call_requires(*steps.sketch, (groups, bytes))
    &&& forall|run: &EncodedRun| #[trigger] call_requires(*steps.store_leaves, (run,))
}

/// `made` is an outcome of the batch with the number `i`: the run that is stored
/// already, or the stored identities of its records.
pub open spec fn batch_gives<
    D: Fn(usize, SourceChunk) -> Result<Option<CompletedRun>>,
    C: Fn(usize, &EncodedRun) -> Result<CompletedRun>,
>(
    find: D,
    store: C,
    activity: Seq<u8>,
    boundary: int,
    chunks: Seq<SourceChunk>,
    i: int,
    made: Result<CompletedRun>,
) -> bool {
    exists|found: Result<Option<CompletedRun>>| #[trigger]
        call_ensures(find, (i as usize, chunks[i]), found) && match found {
            Err(error) => made == Err::<CompletedRun, Error>(error),
            Ok(Some(run)) => made == Ok::<CompletedRun, Error>(run),
            Ok(None) => if !activity_stream(chunk_bytes(activity, chunks[i])) {
                made is Err && made->Err_0 is Invalid
            } else {
                exists|listed: EncodedRun| #[trigger]
                    lists_identities(listed, chunk_bytes(activity, chunks[i]), boundary)
                        && call_ensures(store, (i as usize, &listed), made)
            },
        }
}

/// `runs` are those of the first batches.
pub open spec fn makes_runs<
    D: Fn(usize, SourceChunk) -> Result<Option<CompletedRun>>,
    C: Fn(usize, &EncodedRun) -> Result<CompletedRun>,
>(
    find: D,
    store: C,
    activity: Seq<u8>,
    boundary: int,
    chunks: Seq<SourceChunk>,
    runs: Seq<CompletedRun>,
) -> bool {
    forall|i: int|
        0 <= i < runs.len() ==> batch_gives(
            find,
            store,
            activity,
            boundary,
            chunks,
            i,
            Ok(#[trigger] runs[i]),
        )
}

/// What the batches of a build come to.
pub open spec fn batches_outcome<
    D: Fn(usize, SourceChunk) -> Result<Option<CompletedRun>>,
    C: Fn(usize, &EncodedRun) -> Result<CompletedRun>,
>(
    find: D,
    store: C,
    activity: Seq<u8>,
    boundary: int,
    chunks: Seq<SourceChunk>,
    outcome: Result<Vec<CompletedRun>>,
) -> bool {
    match outcome {
        Ok(runs) => runs@.len() == chunks.len() && makes_runs(
            find,
            store,
            activity,
            boundary,
            chunks,
            runs@,
        ),
        Err(error) => exists|runs: Seq<CompletedRun>| #[trigger]
            makes_runs(find, store, activity, boundary, chunks, runs) && runs.len() < chunks.len()
                && batch_gives(
                find,
                store,
                activity,
                boundary,
                chunks,
                runs.len() as int,
                Err(error),
            ),
    }
}

/// Find or make the run of one batch.
fn make_batch<
    D: Fn(usize, SourceChunk) -> Result<Option<CompletedRun>>,
    C: Fn(usize, &EncodedRun) -> Result<CompletedRun>,
>(
    find: &D,
    store: &C,
    activity: &[u8],
    boundary: u64,
    chunks: &Vec<SourceChunk>,
    i: usize,
) -> (made: Result<CompletedRun>)
    requires
        i < chunks@.len(),
        (chunks@[i as int].offset + chunks@[i as int].rows) * 70 <= activity@.len(),
        forall|index: usize, chunk: SourceChunk| #[trigger] call_requires(*find, (index, chunk)),
        forall|index: usize, run: &EncodedRun| #[trigger] call_requires(*store, (index, run)),
    ensures
        batch_gives(*find, *store, activity@, boundary as int, chunks@, i as int, made),
{
    let chunk: SourceChunk = chunks[i];
    match find(i, chunk) {
        Err(error) => {
            return Err(error);
        },
        Ok(Some(run)) => {
            return Ok(run);
        },
        Ok(None) => {},
    }
    let length: usize = activity.len();
    assert((chunk.offset + chunk.rows) * 70 <= length);
    let start: usize = chunk.offset as usize * 70;
    let end: usize = (chunk.offset + chunk.rows) as usize * 70;
    let part: &[u8] = slice_subrange(activity, start, end);
    assert(part@ == chunk_bytes(activity@, chunks@[i as int]));
    match transform_batch(part, boundary) {
        Err(error) => Err(error),
        Ok(run) => {
            let stored: Result<CompletedRun> = store(i, &run);
            assert(lists_identities(run, part@, boundary as int));
            stored
        },
    }
}

/// Find or make the runs of all batches.
fn make_batches<
    D: Fn(usize, SourceChunk) -> Result<Option<CompletedRun>>,
    C: Fn(usize, &EncodedRun) -> Result<CompletedRun>,
>(
    find: &D,
    store: &C,
    activity: &[u8],
    boundary: u64,
    chunks: &Vec<SourceChunk>,
) -> (outcome: Result<Vec<CompletedRun>>)
    requires
        forall|i: int|
            0 <= i < chunks@.len() ==> ((#[trigger] chunks@[i]).offset + chunks@[i].rows) * 70
                <= activity@.len(),
        forall|index: usize, chunk: SourceChunk| #[trigger] call_requires(*find, (index, chunk)),
        forall|index: usize, run: &EncodedRun| #[trigger] call_requires(*store, (index, run)),
    ensures
        batches_outcome(*find, *store, activity@, boundary as int, chunks@, outcome),
{
    let mut runs: Vec<CompletedRun> = Vec::new();
    let mut i: usize = 0;
    while i < chunks.len()
        invariant
            i <= chunks@.len(),
            runs@.len() == i,
            forall|i: int|
                0 <= i < chunks@.len() ==> ((#[trigger] chunks@[i]).offset + chunks@[i].rows) * 70
                    <= activity@.len(),
            forall|index: usize, chunk: SourceChunk| #[trigger]
                call_requires(*find, (index, chunk)),
            forall|index: usize, run: &EncodedRun| #[trigger] call_requires(*store, (index, run)),
            forall|j: int|
                0 <= j < i ==> batch_gives(
                    *find,
                    *store,
                    activity@,
                    boundary as int,
                    chunks@,
                    j,
                    Ok(#[trigger] runs@[j]),
                ),
        decreases chunks.len() - i,
    {
        match make_batch(find, store, activity, boundary, chunks, i) {
            Ok(run) => {
                runs.push(run);
            },
            Err(error) => {
                assert(makes_runs(
                    *find,
                    *store,
                    activity@,
                    boundary as int,
                    chunks@,
                    runs@,
                ));
                return Err(error);
            },
        }
        i += 1;
    }
    Ok(runs)
}

/// The leaf artifact of the sketched groups, and its largest sketch.
pub open spec fn holds_leaves(
    run: EncodedRun,
    max_leaf_bytes: usize,
    groups: Seq<LeafGroup>,
    sketches: Seq<Vec<u8>>,
) -> bool {
    let leaves = group_leaves(groups, sketches);
    &&& run.bytes@ == leaf_records(leaves)
    &&& run.rows == groups.len()
    &&& max_leaf_bytes == largest_sketch(leaves)
    &&& run.keys_are(
        groups.len() > 0,
        leaf_key(groups[0]),
        leaf_key(groups[groups.len() - 1]),
    )
}

/// A sketch is too long for its length field.
pub open spec fn has_long_sketch(sketches: Seq<Vec<u8>>) -> bool {
    exists|i: int| 0 <= i < sketches.len() && (#[trigger] sketches[i])@.len() > u32::MAX
}

/// What a build is about.
pub struct FlexibleBuild<'a> {
    /// The activity product.
    pub activity: &'a BoundedFixedActivity,
    /// Resource settings.
    pub config: &'a FlexibleDistinctConfig,
}

/// What sketched groups come to.
pub open spec fn evidence_from_sketches<F: Fn(&EncodedRun) -> Result<(ArtifactIdentity, String)>>(
    store_leaves: F,
    build: FlexibleBuild,
    batch_checkpoints: Seq<String>,
    merged: MergeOutcome,
    estimated_run_bytes: u64,
    groups: Seq<LeafGroup>,
    sketches: Seq<Vec<u8>>,
    outcome: Result<FlexibleDistinctEvidence>,
) -> bool {
    let held = smaller(
        build.config.source_records_per_batch as int,
        build.activity.evidence.activity_artifact.row_count as int,
    ) * 38;
    if groups.len() != sketches.len() || has_long_sketch(sketches) {
        outcome is Err && outcome->Err_0 is Invalid
    } else {
        exists|
            run: EncodedRun,
            max_leaf_bytes: usize,
            stored: Result<(ArtifactIdentity, String)>,
        |
            #![trigger holds_leaves(run, max_leaf_bytes, groups, sketches), call_ensures(
                store_leaves,
                (&run,),
                stored,
            )]
            {
                &&& holds_leaves(run, max_leaf_bytes, groups, sketches)
                &&& call_ensures(store_leaves, (&run,), stored)
                &&& match stored {
                    Err(error) => outcome == Err::<FlexibleDistinctEvidence, Error>(error),
                    Ok((artifact, checkpoint_path)) => {
                        &&& outcome is Ok <==> held <= u64::MAX
                        &&& match outcome {
                            Ok(evidence) => completes_flexible(
                                evidence,
                                *build.activity,
                                *build.config,
                                batch_checkpoints,
                                merged,
                                (CompletedLeaves { artifact, checkpoint_path, max_leaf_bytes }),
                                estimated_run_bytes,
                            ),
                            Err(error) => error is Invalid,
                        }
                    },
                }
            }
    }
}

/// What the identities of a build come to.
pub open spec fn evidence_from_identities<
    S: Fn(&Vec<LeafGroup>, &Vec<u8>) -> Result<Vec<Vec<u8>>>,
    F: Fn(&EncodedRun) -> Result<(ArtifactIdentity, String)>,
>(
    sketch: S,
    store_leaves: F,
    build: FlexibleBuild,
    batch_checkpoints: Seq<String>,
    merged: MergeOutcome,
    estimated_run_bytes: u64,
    bytes: Vec<u8>,
    outcome: Result<FlexibleDistinctEvidence>,
) -> bool {
    if !sorted_stream(bytes@, 38, 38) {
        outcome is Err && outcome->Err_0 is Invalid
    } else {
        exists|groups: Vec<LeafGroup>, sketches: Result<Vec<Vec<u8>>>|
            {
                &&& cuts_groups(groups@, bytes@, record_count(bytes@, 38))
                &&& #[trigger] call_ensures(sketch, (&groups, &bytes), sketches)
                &&& match sketches {
                    Err(error) => outcome == Err::<FlexibleDistinctEvidence, Error>(error),
                    Ok(sketches) => evidence_from_sketches(
                        store_leaves,
                        build,
                        batch_checkpoints,
                        merged,
                        estimated_run_bytes,
                        groups@,
                        sketches@,
                        outcome,
                    ),
                }
            }
    }
}

/// What the runs of a build come to.
pub open spec fn evidence_from_runs<
    P: Fn(DiskBudget) -> Result<()>,
    D: Fn(usize, SourceChunk) -> Result<Option<CompletedRun>>,
    C: Fn(usize, &EncodedRun) -> Result<CompletedRun>,
    E: Fn() -> Result<CompletedRun>,
    M: Fn(u32, usize, &[CompletedRun]) -> Result<(CompletedRun, usize)>,
    R: Fn(&CompletedRun) -> Result<Vec<u8>>,
    S: Fn(&Vec<LeafGroup>, &Vec<u8>) -> Result<Vec<Vec<u8>>>,
    F: Fn(&EncodedRun) -> Result<(ArtifactIdentity, String)>,
>(
    steps: FlexibleSteps<P, D, C, E, M, R, S, F>,
    build: FlexibleBuild,
    batch_checkpoints: Seq<String>,
    runs: Seq<CompletedRun>,
    estimated_run_bytes: u64,
    outcome: Result<FlexibleDistinctEvidence>,
) -> bool {
    exists|merged: Result<MergeOutcome>| #[trigger]
        merges_outcome(
            *steps.merge,
            runs,
            build.config.merge_fan_in as int,
            38,
            false,
            merged,
        ) && match merged {
            Err(error) => outcome == Err::<FlexibleDistinctEvidence, Error>(error),
            Ok(merged) => exists|read: Result<Vec<u8>>| #[trigger]
                call_ensures(*steps.read, (&merged.final_run,), read) && match read {
                    Err(error) => outcome == Err::<FlexibleDistinctEvidence, Error>(error),
                    Ok(bytes) => evidence_from_identities(
                        *steps.sketch,
                        *steps.store_leaves,
                        build,
                        batch_checkpoints,
                        merged,
                        estimated_run_bytes,
                        bytes,
                        outcome,
                    ),
                },
        }
}

/// What the chunks of the source come to.
pub open spec fn evidence_from_chunks<
    P: Fn(DiskBudget) -> Result<()>,
    D: Fn(usize, SourceChunk) -> Result<Option<CompletedRun>>,
    C: Fn(usize, &EncodedRun) -> Result<CompletedRun>,
    E: Fn() -> Result<CompletedRun>,
    M: Fn(u32, usize, &[CompletedRun]) -> Result<(CompletedRun, usize)>,
    R: Fn(&CompletedRun) -> Result<Vec<u8>>,
    S: Fn(&Vec<LeafGroup>, &Vec<u8>) -> Result<Vec<Vec<u8>>>,
    F: Fn(&EncodedRun) -> Result<(ArtifactIdentity, String)>,
>(
    steps: FlexibleSteps<P, D, C, E, M, R, S, F>,
    build: FlexibleBuild,
    activity: Seq<u8>,
    chunks: Seq<SourceChunk>,
    estimated_run_bytes: u64,
    outcome: Result<FlexibleDistinctEvidence>,
) -> bool {
    let as_of = build.activity.evidence.as_of_epoch;
    exists|stored: Result<Vec<CompletedRun>>| #[trigger]
        batches_outcome(
            *steps.find,
            *steps.store,
            activity,
            as_of - as_of % 3_600,
            chunks,
            stored,
        ) && match stored {
            Err(error) => outcome == Err::<FlexibleDistinctEvidence, Error>(error),
            Ok(runs) => exists|started: Result<Seq<CompletedRun>>| #[trigger]
                starts_with(*steps.empty, runs@, started) && match started {
                    Err(error) => outcome == Err::<FlexibleDistinctEvidence, Error>(error),
                    Ok(all) => evidence_from_runs(
                        steps,
                        build,
                        checkpoint_paths(runs@),
                        all,
                        estimated_run_bytes,
                        outcome,
                    ),
                },
        }
}

/// What a build of flexible distinct leaves comes to.
pub open spec fn builds_flexible<
    P: Fn(DiskBudget) -> Result<()>,
    D: Fn(usize, SourceChunk) -> Result<Option<CompletedRun>>,
    C: Fn(usize, &EncodedRun) -> Result<CompletedRun>,
    E: Fn() -> Result<CompletedRun>,
    M: Fn(u32, usize, &[CompletedRun]) -> Result<(CompletedRun, usize)>,
    R: Fn(&CompletedRun) -> Result<Vec<u8>>,
    S: Fn(&Vec<LeafGroup>, &Vec<u8>) -> Result<Vec<Vec<u8>>>,
    F: Fn(&EncodedRun) -> Result<(ArtifactIdentity, String)>,
>(
    steps: FlexibleSteps<P, D, C, E, M, R, S, F>,
    build: FlexibleBuild,
    state: ActivityState,
    retained: int,
    outcome: Result<FlexibleDistinctEvidence>,
) -> bool {
    let evidence = build.activity.evidence;
    let total = evidence.activity_artifact.row_count as int;
    let per_batch = build.config.source_records_per_batch as int;
    let bytes = build_bytes(
        total,
        div_up(total, per_batch),
        build.config.merge_fan_in as int,
    );
    if !(build.activity.completed_for(evidence.snapshot_id@, evidence.as_of_epoch)
        && build.activity.matches_state(state.activity@, state.flags@, state.metric_json@))
        || per_batch == 0 || build.config.merge_fan_in < 2 || div_up(total, per_batch) > usize::MAX
        || bytes > u64::MAX || retained > u64::MAX {
        outcome is Err && outcome->Err_0 is Invalid
    } else {
        let budget = budget_of(
            bytes as u64,
            retained as u64,
            build.config.disk_reserve_bytes,
        );
        ||| outcome is Err && call_ensures(*steps.reserve, (budget,), Err(outcome->Err_0))
        ||| call_ensures(*steps.reserve, (budget,), Ok(())) && exists|chunks: Seq<SourceChunk>|
            #[trigger]
            cuts_source(chunks, total, per_batch) && evidence_from_chunks(
                steps,
                build,
                state.activity@,
                chunks,
                bytes as u64,
                outcome,
            )
    }
}

/// Store the leaves of sketched groups and complete the evidence.
fn finish_sketches<F: Fn(&EncodedRun) -> Result<(ArtifactIdentity, String)>>(
    store_leaves: &F,
    build: &FlexibleBuild,
    batch_checkpoints: Vec<String>,
    merged: MergeOutcome,
    estimated_run_bytes: u64,
    groups: &Vec<LeafGroup>,
    sketches: &Vec<Vec<u8>>,
) -> (outcome: Result<FlexibleDistinctEvidence>)
    requires
        forall|run: &EncodedRun| #[trigger] call_requires(*store_leaves, (run,)),
    ensures
        evidence_from_sketches(
            *store_leaves,
            *build,
            batch_checkpoints@,
            merged,
            estimated_run_bytes,
            groups@,
            sketches@,
            outcome,
        ),
{
    if groups.len() != sketches.len() {
        return Err(Error::Invalid("flexible sketches do not cover the identity groups"));
    }
    let (run, max_leaf_bytes) = match build_leaves(groups, sketches) {
        Ok(built) => built,
        Err(error) => {
            return Err(error);
        },
    };
    assert(holds_leaves(run, max_leaf_bytes, groups@, sketches@));
    let stored: Result<(ArtifactIdentity, String)> = store_leaves(&run);
    let ghost given = stored;
    assert(call_ensures(*store_leaves, (&run,), given));
    match stored {
        Err(error) => Err(error),
        Ok((artifact, checkpoint_path)) => {
            let leaves: CompletedLeaves = CompletedLeaves {
                artifact,
                checkpoint_path,
                max_leaf_bytes,
            };
            complete_flexible_distinct(
                build.activity,
                build.config,
                batch_checkpoints,
                merged,
                leaves,
                estimated_run_bytes,
            )
        },
    }
}

/// Merge the runs of the batches, sketch the identities and complete the
/// evidence.
fn finish_runs<
    P: Fn(DiskBudget) -> Result<()>,
    D: Fn(usize, SourceChunk) -> Result<Option<CompletedRun>>,
    C: Fn(usize, &EncodedRun) -> Result<CompletedRun>,
    E: Fn() -> Result<CompletedRun>,
    M: Fn(u32, usize, &[CompletedRun]) -> Result<(CompletedRun, usize)>,
    R: Fn(&CompletedRun) -> Result<Vec<u8>>,
    S: Fn(&Vec<LeafGroup>, &Vec<u8>) -> Result<Vec<Vec<u8>>>,
    F: Fn(&EncodedRun) -> Result<(ArtifactIdentity, String)>,
>(
    steps: &FlexibleSteps<P, D, C, E, M, R, S, F>,
    build: &FlexibleBuild,
    batch_checkpoints: Vec<String>,
    runs: Vec<CompletedRun>,
    estimated_run_bytes: u64,
) -> (outcome: Result<FlexibleDistinctEvidence>)
    requires
        steps_callable(*steps),
        build.config.merge_fan_in >= 2,
        runs@.len() > 0,
    ensures
        evidence_from_runs(
            *steps,
            *build,
            batch_checkpoints@,
            runs@,
            estimated_run_bytes,
            outcome,
        ),
{
    let ghost all = runs@;
    let ghost paths = batch_checkpoints@;
    let merging: Result<MergeOutcome> = merge_to_single(
        runs,
        build.config.merge_fan_in,
        38,
        false,
        steps.merge,
    );
    let ghost given = merging;
    assert(merges_outcome(
        *steps.merge,
        all,
        build.config.merge_fan_in as int,
        38,
        false,
        given,
    ));
    let merged: MergeOutcome = match merging {
        Ok(merged) => merged,
        Err(error) => {
            return Err(error);
        },
    };
    let ghost last = merged;
    let read: &R = steps.read;
    let reading: Result<Vec<u8>> = read(&merged.final_run);
    let ghost held = reading;
    assert(call_ensures(*steps.read, (&last.final_run,), held));
    let bytes: Vec<u8> = match reading {
        Ok(bytes) => bytes,
        Err(error) => {
            return Err(error);
        },
    };
    let groups: Vec<LeafGroup> = match leaf_groups(bytes.as_slice()) {
        Ok(groups) => groups,
        Err(error) => {
            assert(evidence_from_identities(
                *steps.sketch,
                *steps.store_leaves,
                *build,
                paths,
                last,
                estimated_run_bytes,
                bytes,
                Err(error),
            ));
            return Err(error);
        },
    };
    let sketch: &S = steps.sketch;
    let sketching: Result<Vec<Vec<u8>>> = sketch(&groups, &bytes);
    let ghost sketched = sketching;
    assert(call_ensures(*steps.sketch, (&groups, &bytes), sketched));
    let outcome: Result<FlexibleDistinctEvidence> = match sketching {
        Ok(sketches) => finish_sketches(
            steps.store_leaves,
            build,
            batch_checkpoints,
            merged,
            estimated_run_bytes,
            &groups,
            &sketches,
        ),
        Err(error) => Err(error),
    };
    assert(evidence_from_identities(
        *steps.sketch,
        *steps.store_leaves,
        *build,
        paths,
        last,
        estimated_run_bytes,
        bytes,
        outcome,
    ));
    outcome
}

/// Build the flexible distinct leaves of an activity product.
///
/// `files` are the files of the work root. Reading the stored leaves back is
/// the part of `load_bounded_flexible_distinct`.
pub fn build_bounded_flexible_distinct<
    P: Fn(DiskBudget) -> Result<()>,
    D: Fn(usize, SourceChunk) -> Result<Option<CompletedRun>>,
    C: Fn(usize, &EncodedRun) -> Result<CompletedRun>,
    E: Fn() -> Result<CompletedRun>,
    M: Fn(u32, usize, &[CompletedRun]) -> Result<(CompletedRun, usize)>,
    R: Fn(&CompletedRun) -> Result<Vec<u8>>,
    S: Fn(&Vec<LeafGroup>, &Vec<u8>) -> Result<Vec<Vec<u8>>>,
    F: Fn(&EncodedRun) -> Result<(ArtifactIdentity, String)>,
>(
    build: &FlexibleBuild,
    state: &ActivityState,
    files: &Vec<WorkFile>,
    steps: &FlexibleSteps<P, D, C, E, M, R, S, F>,
) -> (outcome: Result<FlexibleDistinctEvidence>)
    requires
        weeks_defined(state.activity@, build.activity.evidence.as_of_epoch as int),
        steps_callable(*steps),
    ensures
        builds_flexible(*steps, *build, *state, run_bytes(files@, true), outcome),
{
    match build.activity.validate_for_publication(
        build.activity.evidence.snapshot_id.as_str(),
        build.activity.evidence.as_of_epoch,
        state.activity,
        state.flags,
        state.metric_json,
    ) {
        Ok(()) => {},
        Err(error) => {
            return Err(error);
        },
    }
    match validate_config(build.config) {
        Ok(()) => {},
        Err(error) => {
            return Err(error);
        },
    }
    let total: u64 = build.activity.evidence.activity_artifact.row_count;
    let chunks: Vec<SourceChunk> = match plan_source_chunks(
        total,
        build.config.source_records_per_batch,
    ) {
        Ok(chunks) => chunks,
        Err(error) => {
            return Err(error);
        },
    };
    let bytes: u64 = match estimate_run_bytes(total, chunks.len(), build.config.merge_fan_in) {
        Ok(bytes) => bytes,
        Err(error) => {
            return Err(error);
        },
    };
    let retained: u64 = match completed_run_bytes(files, true) {
        Ok(retained) => retained,
        Err(error) => {
            return Err(error);
        },
    };
    let budget: DiskBudget = run_budget(bytes, retained, build.config.disk_reserve_bytes);
    let reserve: &P = steps.reserve;
    match reserve(budget) {
        Ok(done) => {
            assert(done == ());
            assert(call_ensures(*steps.reserve, (budget,), Ok(())));
        },
        Err(error) => {
            return Err(error);
        },
    }
    proof {
        lemma_row_count(build.activity.evidence.activity_artifact, 70, state.activity@);
        assert forall|i: int| 0 <= i < chunks@.len() implies ((#[trigger] chunks@[i]).offset
            + chunks@[i].rows) * 70 <= state.activity@.len() by {
            assert(is_chunk(
                chunks@[i],
                i,
                total as int,
                build.config.source_records_per_batch as int,
            ));
        }
    }
    let boundary: u64 = floor_hour(build.activity.evidence.as_of_epoch);
    let storing: Result<Vec<CompletedRun>> = make_batches(
        steps.find,
        steps.store,
        state.activity,
        boundary,
        &chunks,
    );
    let ghost stored = storing;
    assert(batches_outcome(
        *steps.find,
        *steps.store,
        state.activity@,
        boundary as int,
        chunks@,
        stored,
    ));
    let mut runs: Vec<CompletedRun> = match storing {
        Ok(runs) => runs,
        Err(error) => {
            assert(evidence_from_chunks(
                *steps,
                *build,
                state.activity@,
                chunks@,
                bytes,
                Err(error),
            ));
            return Err(error);
        },
    };
    let ghost batch_runs = runs@;
    let paths: Vec<String> = list_checkpoints(&runs);
    if runs.len() == 0 {
        let empty: &E = steps.empty;
        match empty() {
            Ok(run) => {
                let ghost only = run;
                runs.push(run);
                assert(runs@ =~= seq![only]);
            },
            Err(error) => {
                assert(starts_with(*steps.empty, batch_runs, Err(error)));
                assert(evidence_from_chunks(
                    *steps,
                    *build,
                    state.activity@,
                    chunks@,
                    bytes,
                    Err(error),
                ));
                return Err(error);
            },
        }
    }
    let ghost all = runs@;
    assert(starts_with(*steps.empty, batch_runs, Ok(all)));
    let outcome: Result<FlexibleDistinctEvidence> = finish_runs(
        steps,
        build,
        paths,
        runs,
        bytes,
    );
    assert(evidence_from_chunks(*steps, *build, state.activity@, chunks@, bytes, outcome));
    outcome
}

} // verus!
