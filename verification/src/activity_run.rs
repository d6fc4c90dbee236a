//! One bounded build of fixed-grain activity, from its inputs to the evidence.

use vstd::prelude::*;
use vstd::string::*;

use crate::activity::{activity_stream, eligible};
use crate::activity_build::{
    build_bytes, complete_fixed_activity, completes_activity, estimate_run_bytes, run_identity,
    validate_advance, validate_config, ActivityBuild, FixedActivityConfig,
};
use crate::activity_counts::FinalizedActivity;
use crate::advance::{baseline_run, estimate_rows, input_rows, is_advance, CheckpointVersion};
use crate::artifact::{
    object_input_list, object_inputs, ArtifactIdentity, BatchLimits, EncodedRun, InputBatch,
    InputIdentity, RunIdentity,
};
use crate::batches::BatchProgress;
use crate::build_runs::{
    build_runs, plan_gives, run_count, runs_outcome, steps_callable, BatchRun, BuildSteps,
    MergeSettings,
};
use crate::disk::{budget_of, completed_run_bytes, run_budget, run_bytes, DiskBudget, WorkFile};
use crate::error::{Error, Result};
use crate::fixed_activity::{
    finalizable, finalize, flags_match, has_full_weeks, weeks_defined, BoundedFixedActivity,
    FixedActivityEvidence, FIXED_ACTIVITY_VERSION,
};
use crate::flexible_validation::ActivityState;
use crate::input::ResolvedSnapshot;
use crate::merge::{CompletedRun, MergeOutcome};
use crate::plan::CatalogDeltaPlan;
use crate::publisher_flags::{build_flags, flag_record};
use crate::publishers::publisher_order;
use crate::records::record;
use crate::runs::identifies_stage;

verus! {

/// What the build of a generation starts from.
pub struct ActivityInputs {
    /// Runs that the build does not make itself.
    pub first: Vec<CompletedRun>,
    /// Rows of these runs.
    pub first_rows: u64,
    /// Objects to scan.
    pub inputs: Vec<InputIdentity>,
    /// Locations of the objects.
    pub locations: usize,
    /// Evidence of the baseline, if any.
    pub baseline_evidence_sha256: Option<String>,
}

/// The steps of a build behind its merges.
pub struct ActivitySteps<'a, R, F, J> {
    /// Reads the bytes of a run.
    pub read: &'a R,
    /// Stores flags; returns the stored artifact and its bytes.
    pub store: &'a F,
    /// Writes the period tables as JSON.
    pub encode: &'a J,
}

/// The steps may be called on everything.
pub open spec fn tail_callable<
    R: Fn(&CompletedRun) -> Result<Vec<u8>>,
    F: Fn(&EncodedRun) -> Result<(ArtifactIdentity, Vec<u8>)>,
    J: Fn(&FinalizedActivity) -> Result<Vec<u8>>,
>(tail: ActivitySteps<R, F, J>) -> bool {
    &&& forall|run: &CompletedRun| #[trigger] call_requires(*tail.read, (run,))
    &&& forall|run: &EncodedRun| #[trigger] call_requires(*tail.store, (run,))
    &&& forall|tables: &FinalizedActivity| #[trigger] call_requires(*tail.encode, (tables,))
}

/// `run` holds the flags of the publishers of the activity.
pub open spec fn flags_run(run: EncodedRun, activity: Seq<u8>, as_of: int) -> bool {
    let facts = eligible(activity, as_of);
    &&& flags_match(facts, run.bytes@)
    &&& run.rows == publisher_order(facts).len()
    &&& forall|k: int|
        0 <= k < publisher_order(facts).len() ==> #[trigger] record(run.bytes@, 33, k)
            == flag_record(facts, k)
}

/// What activity and stored flags come to.
pub open spec fn activity_from_flags<J: Fn(&FinalizedActivity) -> Result<Vec<u8>>>(
    encode: J,
    snapshot: ResolvedSnapshot,
    build: ActivityBuild,
    progress: BatchProgress,
    merged: MergeOutcome,
    activity: Seq<u8>,
    flags_artifact: ArtifactIdentity,
    flags: Seq<u8>,
    outcome: Result<FixedActivityEvidence>,
) -> bool {
    let as_of = build.as_of_epoch as int;
    if !finalizable(
        activity,
        flags,
        merged.final_run.checkpoint.artifact.row_count as int,
        flags_artifact.row_count as int,
        as_of,
    ) {
        outcome is Err && outcome->Err_0 is Invalid
    } else {
        exists|finalized: FinalizedActivity, json: Result<Vec<u8>>|
            #![trigger finalized.summarizes(eligible(activity, as_of), flags), call_ensures(
                encode,
                (&finalized,),
                json,
            )]
            {
                &&& finalized.summarizes(eligible(activity, as_of), flags)
                &&& call_ensures(encode, (&finalized,), json)
                &&& match json {
                    Err(error) => outcome == Err::<FixedActivityEvidence, Error>(error),
                    Ok(json) => outcome is Ok && completes_activity(
                        outcome->Ok_0,
                        snapshot,
                        build,
                        progress,
                        merged,
                        flags_artifact,
                        finalized,
                        json@,
                    ),
                }
            }
    }
}

/// What the last run of a build comes to.
///
/// A record of the first four days of 1970 has no full week, and no activity
/// product.
pub open spec fn activity_from_run<
    R: Fn(&CompletedRun) -> Result<Vec<u8>>,
    F: Fn(&EncodedRun) -> Result<(ArtifactIdentity, Vec<u8>)>,
    J: Fn(&FinalizedActivity) -> Result<Vec<u8>>,
>(
    tail: ActivitySteps<R, F, J>,
    snapshot: ResolvedSnapshot,
    build: ActivityBuild,
    progress: BatchProgress,
    merged: MergeOutcome,
    outcome: Result<FixedActivityEvidence>,
) -> bool {
    exists|read: Result<Vec<u8>>| #[trigger]
        call_ensures(*tail.read, (&merged.final_run,), read) && match read {
            Err(error) => outcome == Err::<FixedActivityEvidence, Error>(error),
            Ok(activity) => {
                let as_of = build.as_of_epoch as int;
                if !activity_stream(activity@) || !weeks_defined(activity@, as_of) {
                    outcome is Err && outcome->Err_0 is Invalid
                } else {
                    exists|run: EncodedRun, stored: Result<(ArtifactIdentity, Vec<u8>)>|
                        #![trigger flags_run(run, activity@, as_of), call_ensures(
                            *tail.store,
                            (&run,),
                            stored,
                        )]
                        {
                            &&& flags_run(run, activity@, as_of)
                            &&& call_ensures(*tail.store, (&run,), stored)
                            &&& match stored {
                                Err(error) => outcome == Err::<FixedActivityEvidence, Error>(
                                    error,
                                ),
                                Ok((artifact, flags)) => activity_from_flags(
                                    *tail.encode,
                                    snapshot,
                                    build,
                                    progress,
                                    merged,
                                    activity@,
                                    artifact,
                                    flags@,
                                    outcome,
                                ),
                            }
                        }
                }
            },
        }
}

/// What the planned batches of a build come to.
pub open spec fn activity_from_batches<
    L: Fn(&Vec<InputIdentity>, BatchLimits) -> Result<Vec<InputBatch>>,
    P: Fn(DiskBudget) -> Result<()>,
    B: Fn(&InputBatch, usize, usize) -> Result<BatchRun>,
    E: Fn() -> Result<CompletedRun>,
    M: Fn(u32, usize, &[CompletedRun]) -> Result<(CompletedRun, usize)>,
    R: Fn(&CompletedRun) -> Result<Vec<u8>>,
    F: Fn(&EncodedRun) -> Result<(ArtifactIdentity, Vec<u8>)>,
    J: Fn(&FinalizedActivity) -> Result<Vec<u8>>,
>(
    steps: BuildSteps<L, P, B, E, M>,
    tail: ActivitySteps<R, F, J>,
    snapshot: ResolvedSnapshot,
    as_of_epoch: u64,
    config: FixedActivityConfig,
    retained: int,
    from: ActivityInputs,
    batches: Vec<InputBatch>,
    outcome: Result<FixedActivityEvidence>,
) -> bool {
    let rows = from.first_rows + input_rows(from.inputs@);
    let bytes = build_bytes(
        rows,
        run_count(batches@.len() as int, from.first@.len() as int),
        config.merge_fan_in as int,
    );
    if rows > u64::MAX || bytes > u64::MAX || retained > u64::MAX {
        outcome is Err && outcome->Err_0 is Invalid
    } else {
        exists|ran: Result<(BatchProgress, MergeOutcome)>| #[trigger]
            runs_outcome(
                steps,
                budget_of(bytes as u64, retained as u64, config.disk_reserve_bytes),
                from.first@,
                batches@,
                from.locations as int,
                (MergeSettings { fan_in: config.merge_fan_in, width: 70, reconcile: false, derived: false }),
                ran,
            ) && match ran {
                Err(error) => outcome == Err::<FixedActivityEvidence, Error>(error),
                Ok((progress, merged)) => activity_from_run(
                    tail,
                    snapshot,
                    (ActivityBuild {
                        as_of_epoch,
                        delta_objects: from.inputs@.len() as usize,
                        baseline_evidence_sha256: from.baseline_evidence_sha256,
                        batch_count: batches@.len() as usize,
                        estimated_run_bytes: bytes as u64,
                        disk_reserve_bytes: config.disk_reserve_bytes,
                    }),
                    progress,
                    merged,
                    outcome,
                ),
            }
    }
}

/// What the inputs of a build come to.
pub open spec fn activity_from_inputs<
    L: Fn(&Vec<InputIdentity>, BatchLimits) -> Result<Vec<InputBatch>>,
    P: Fn(DiskBudget) -> Result<()>,
    B: Fn(&InputBatch, usize, usize) -> Result<BatchRun>,
    E: Fn() -> Result<CompletedRun>,
    M: Fn(u32, usize, &[CompletedRun]) -> Result<(CompletedRun, usize)>,
    R: Fn(&CompletedRun) -> Result<Vec<u8>>,
    F: Fn(&EncodedRun) -> Result<(ArtifactIdentity, Vec<u8>)>,
    J: Fn(&FinalizedActivity) -> Result<Vec<u8>>,
>(
    steps: BuildSteps<L, P, B, E, M>,
    tail: ActivitySteps<R, F, J>,
    snapshot: ResolvedSnapshot,
    as_of_epoch: u64,
    config: FixedActivityConfig,
    retained: int,
    from: ActivityInputs,
    outcome: Result<FixedActivityEvidence>,
) -> bool {
    exists|planned: Result<Vec<InputBatch>>| #[trigger]
        plan_gives(*steps.plan, from.inputs@, config.batch_limits, planned) && match planned {
            Err(error) => outcome == Err::<FixedActivityEvidence, Error>(error),
            Ok(batches) => activity_from_batches(
                steps,
                tail,
                snapshot,
                as_of_epoch,
                config,
                retained,
                from,
                batches,
                outcome,
            ),
        }
}

/// Finalize activity with its stored flags and complete the evidence.
fn finish_flags<J: Fn(&FinalizedActivity) -> Result<Vec<u8>>>(
    encode: &J,
    snapshot: &ResolvedSnapshot,
    build: ActivityBuild,
    progress: BatchProgress,
    merged: MergeOutcome,
    activity: &[u8],
    flags_artifact: ArtifactIdentity,
    flags: &[u8],
) -> (outcome: Result<FixedActivityEvidence>)
    requires
        weeks_defined(activity@, build.as_of_epoch as int),
        forall|tables: &FinalizedActivity| #[trigger] call_requires(*encode, (tables,)),
    ensures
        activity_from_flags(
            *encode,
            *snapshot,
            build,
            progress,
            merged,
            activity@,
            flags_artifact,
            flags@,
            outcome,
        ),
{
    let finalized: FinalizedActivity = match finalize(
        activity,
        flags,
        &merged.final_run.checkpoint.artifact,
        &flags_artifact,
        build.as_of_epoch,
    ) {
        Ok(finalized) => finalized,
        Err(error) => {
            return Err(error);
        },
    };
    let json: Vec<u8> = match encode(&finalized) {
        Ok(json) => json,
        Err(error) => {
            return Err(error);
        },
    };
    Ok(
        complete_fixed_activity(
            snapshot,
            build,
            progress,
            merged,
            flags_artifact,
            finalized,
            json.as_slice(),
        ),
    )
}

/// Read the last run of a build, store its flags and complete the evidence.
fn finish_activity<
    R: Fn(&CompletedRun) -> Result<Vec<u8>>,
    F: Fn(&EncodedRun) -> Result<(ArtifactIdentity, Vec<u8>)>,
    J: Fn(&FinalizedActivity) -> Result<Vec<u8>>,
>(
    tail: &ActivitySteps<R, F, J>,
    snapshot: &ResolvedSnapshot,
    build: ActivityBuild,
    progress: BatchProgress,
    merged: MergeOutcome,
) -> (outcome: Result<FixedActivityEvidence>)
    requires
        tail_callable(*tail),
    ensures
        activity_from_run(*tail, *snapshot, build, progress, merged, outcome),
{
    let read: &R = tail.read;
    let activity: Vec<u8> = match read(&merged.final_run) {
        Ok(bytes) => bytes,
        Err(error) => {
            return Err(error);
        },
    };
    if !has_full_weeks(activity.as_slice(), build.as_of_epoch) {
        return Err(Error::Invalid("activity starts before the first full week"));
    }
    let run: EncodedRun = match build_flags(activity.as_slice(), build.as_of_epoch) {
        Ok(run) => run,
        Err(error) => {
            return Err(error);
        },
    };
    assert(flags_run(run, activity@, build.as_of_epoch as int));
    let store: &F = tail.store;
    match store(&run) {
        Ok((artifact, flags)) => finish_flags(
            tail.encode,
            snapshot,
            build,
            progress,
            merged,
            activity.as_slice(),
            artifact,
            flags.as_slice(),
        ),
        Err(error) => Err(error),
    }
}

/// Build fixed-grain activity from its inputs.
fn build_from_inputs<
    L: Fn(&Vec<InputIdentity>, BatchLimits) -> Result<Vec<InputBatch>>,
    P: Fn(DiskBudget) -> Result<()>,
    B: Fn(&InputBatch, usize, usize) -> Result<BatchRun>,
    E: Fn() -> Result<CompletedRun>,
    M: Fn(u32, usize, &[CompletedRun]) -> Result<(CompletedRun, usize)>,
    R: Fn(&CompletedRun) -> Result<Vec<u8>>,
    F: Fn(&EncodedRun) -> Result<(ArtifactIdentity, Vec<u8>)>,
    J: Fn(&FinalizedActivity) -> Result<Vec<u8>>,
>(
    steps: &BuildSteps<L, P, B, E, M>,
    tail: &ActivitySteps<R, F, J>,
    snapshot: &ResolvedSnapshot,
    as_of_epoch: u64,
    config: &FixedActivityConfig,
    files: &Vec<WorkFile>,
    from: ActivityInputs,
) -> (outcome: Result<FixedActivityEvidence>)
    requires
        config.merge_fan_in >= 2,
        steps_callable(*steps),
        tail_callable(*tail),
    ensures
        activity_from_inputs(
            *steps,
            *tail,
            *snapshot,
            as_of_epoch,
            *config,
            run_bytes(files@, false),
            from,
            outcome,
        ),
{
    let ghost given = from;
    let plan: &L = steps.plan;
    let batches: Vec<InputBatch> = match plan(&from.inputs, config.batch_limits) {
        Ok(batches) => {
            assert(plan_gives(*steps.plan, given.inputs@, config.batch_limits, Ok(batches)));
            batches
        },
        Err(error) => {
            assert(plan_gives(*steps.plan, given.inputs@, config.batch_limits, Err(error)));
            return Err(error);
        },
    };
    let rows: u64 = match estimate_rows(
        from.first_rows,
        &from.inputs,
        "activity row estimate overflowed",
    ) {
        Ok(rows) => rows,
        Err(error) => {
            return Err(error);
        },
    };
    let runs: usize = match batches.len().checked_add(from.first.len()) {
        Some(runs) => runs,
        None => usize::MAX,
    };
    let bytes: u64 = match estimate_run_bytes(rows, runs, config.merge_fan_in) {
        Ok(bytes) => bytes,
        Err(error) => {
            return Err(error);
        },
    };
    let retained: u64 = match completed_run_bytes(files, false) {
        Ok(retained) => retained,
        Err(error) => {
            return Err(error);
        },
    };
    let settings: MergeSettings = MergeSettings {
        fan_in: config.merge_fan_in,
        width: 70,
        reconcile: false,
        derived: false,
    };
    let budget: DiskBudget = run_budget(bytes, retained, config.disk_reserve_bytes);
    let build: ActivityBuild = ActivityBuild {
        as_of_epoch,
        delta_objects: from.inputs.len(),
        baseline_evidence_sha256: from.baseline_evidence_sha256,
        batch_count: batches.len(),
        estimated_run_bytes: bytes,
        disk_reserve_bytes: config.disk_reserve_bytes,
    };
    let ghost stated = build;
    let ran: Result<(BatchProgress, MergeOutcome)> = build_runs(
        steps,
        budget,
        from.first,
        &batches,
        from.locations,
        settings,
    );
    let outcome: Result<FixedActivityEvidence> = match ran {
        Err(error) => Err(error),
        Ok((progress, merged)) => {
            let ghost (held, last) = (progress, merged);
            let finished: Result<FixedActivityEvidence> = finish_activity(
                tail,
                snapshot,
                build,
                progress,
                merged,
            );
            assert(ran == Ok::<(BatchProgress, MergeOutcome), Error>((held, last)));
            assert(activity_from_run(*tail, *snapshot, stated, held, last, finished));
            finished
        },
    };
    proof {
        let exact = build_bytes(
            given.first_rows + input_rows(given.inputs@),
            run_count(batches@.len() as int, given.first@.len() as int),
            config.merge_fan_in as int,
        );
        let kept = run_bytes(files@, false);
        assert(exact == bytes && kept == retained);
        assert(runs_outcome(
            *steps,
            budget_of(exact as u64, kept as u64, config.disk_reserve_bytes),
            given.first@,
            batches@,
            given.locations as int,
            (MergeSettings { fan_in: config.merge_fan_in, width: 70, reconcile: false, derived: false }),
            ran,
        ));
        assert(ran is Err ==> outcome == Err::<FixedActivityEvidence, Error>(ran->Err_0));
        assert(activity_from_batches(
            *steps,
            *tail,
            *snapshot,
            as_of_epoch,
            *config,
            kept,
            given,
            batches,
            outcome,
        ));
    }
    outcome
}

/// The whole catalog is the input of a build.
pub open spec fn scans_catalog(from: ActivityInputs, snapshot: ResolvedSnapshot) -> bool {
    &&& from.first@ == Seq::<CompletedRun>::empty()
    &&& from.first_rows == 0
    &&& from.inputs@ == object_input_list(snapshot.catalog.objects@)
    &&& from.locations == snapshot.locations@.len()
    &&& from.baseline_evidence_sha256 is None
}

/// Build the fixed-grain activity of a snapshot.
///
/// `files` are the files of the work root.
pub fn build_bounded_fixed_activity<
    L: Fn(&Vec<InputIdentity>, BatchLimits) -> Result<Vec<InputBatch>>,
    P: Fn(DiskBudget) -> Result<()>,
    B: Fn(&InputBatch, usize, usize) -> Result<BatchRun>,
    E: Fn() -> Result<CompletedRun>,
    M: Fn(u32, usize, &[CompletedRun]) -> Result<(CompletedRun, usize)>,
    R: Fn(&CompletedRun) -> Result<Vec<u8>>,
    F: Fn(&EncodedRun) -> Result<(ArtifactIdentity, Vec<u8>)>,
    J: Fn(&FinalizedActivity) -> Result<Vec<u8>>,
>(
    snapshot: &ResolvedSnapshot,
    as_of_epoch: u64,
    config: &FixedActivityConfig,
    api_timestamp_max: u64,
    files: &Vec<WorkFile>,
    steps: &BuildSteps<L, P, B, E, M>,
    tail: &ActivitySteps<R, F, J>,
) -> (outcome: Result<FixedActivityEvidence>)
    requires
        steps_callable(*steps),
        tail_callable(*tail),
    ensures
        if as_of_epoch <= api_timestamp_max && config.merge_fan_in >= 2
            && snapshot.locations@.len() == snapshot.catalog.objects@.len() {
            exists|from: ActivityInputs| #[trigger]
                scans_catalog(from, *snapshot) && activity_from_inputs(
                    *steps,
                    *tail,
                    *snapshot,
                    as_of_epoch,
                    *config,
                    run_bytes(files@, false),
                    from,
                    outcome,
                )
        } else {
            outcome == Err::<FixedActivityEvidence, Error>(
                Error::Invalid("invalid fixed-activity build configuration"),
            )
        },
{
    match validate_config(snapshot, as_of_epoch, config.merge_fan_in, api_timestamp_max) {
        Ok(()) => {},
        Err(error) => {
            return Err(error);
        },
    }
    let from: ActivityInputs = ActivityInputs {
        first: Vec::new(),
        first_rows: 0,
        inputs: object_inputs(&snapshot.catalog.objects),
        locations: snapshot.locations.len(),
        baseline_evidence_sha256: None,
    };
    proof {
        assert(from.first@ =~= Seq::empty());
        assert(scans_catalog(from, *snapshot));
    }
    build_from_inputs(steps, tail, snapshot, as_of_epoch, config, files, from)
}

/// The run that holds the activity of the baseline.
pub open spec fn holds_baseline(
    run: CompletedRun,
    baseline: BoundedFixedActivity,
    target: ResolvedSnapshot,
    as_of_epoch: u64,
    version: CheckpointVersion,
) -> bool {
    &&& run.identity@ == "baseline-evidence:"@ + baseline.evidence_sha256@
    &&& run.path == baseline.evidence.activity_artifact.path
    &&& run.checkpoint_path@ == Seq::<char>::empty()
    &&& run.checkpoint.schema_version == version.schema_version
    &&& run.checkpoint.runner_version == version.runner_version
    &&& identifies_stage(
        run.checkpoint.run,
        target.catalog.snapshot_id@,
        as_of_epoch,
        "fixed-activity"@ + "-"@ + "baseline"@,
        FIXED_ACTIVITY_VERSION@,
        "pubkey-32-created-at-u32-kind-u16-event-id-32-v2"@,
    )
    &&& run.checkpoint.inputs@.len() == 0
    &&& run.checkpoint.artifact == baseline.evidence.activity_artifact
}

/// The baseline and the added objects of the plan are the input of a build.
pub open spec fn scans_delta(
    from: ActivityInputs,
    baseline: BoundedFixedActivity,
    target: ResolvedSnapshot,
    plan: CatalogDeltaPlan,
    delta_locations: usize,
    as_of_epoch: u64,
    version: CheckpointVersion,
) -> bool {
    &&& from.first@.len() == 1
    &&& holds_baseline(from.first@[0], baseline, target, as_of_epoch, version)
    &&& from.first_rows == baseline.evidence.activity_artifact.row_count
    &&& from.inputs@ == object_input_list(plan.added_objects@)
    &&& from.locations == delta_locations
    &&& from.baseline_evidence_sha256 == Some(baseline.evidence_sha256)
}

/// Extend the activity of a baseline by the objects that a plan adds.
pub fn advance_bounded_fixed_activity<
    L: Fn(&Vec<InputIdentity>, BatchLimits) -> Result<Vec<InputBatch>>,
    P: Fn(DiskBudget) -> Result<()>,
    B: Fn(&InputBatch, usize, usize) -> Result<BatchRun>,
    E: Fn() -> Result<CompletedRun>,
    M: Fn(u32, usize, &[CompletedRun]) -> Result<(CompletedRun, usize)>,
    R: Fn(&CompletedRun) -> Result<Vec<u8>>,
    F: Fn(&EncodedRun) -> Result<(ArtifactIdentity, Vec<u8>)>,
    J: Fn(&FinalizedActivity) -> Result<Vec<u8>>,
>(
    baseline: &BoundedFixedActivity,
    stored: &ActivityState,
    version: CheckpointVersion,
    target: &ResolvedSnapshot,
    plan: &CatalogDeltaPlan,
    delta_locations: usize,
    as_of_epoch: u64,
    config: &FixedActivityConfig,
    api_timestamp_max: u64,
    files: &Vec<WorkFile>,
    steps: &BuildSteps<L, P, B, E, M>,
    tail: &ActivitySteps<R, F, J>,
) -> (outcome: Result<FixedActivityEvidence>)
    requires
        weeks_defined(stored.activity@, baseline.evidence.as_of_epoch as int),
        steps_callable(*steps),
        tail_callable(*tail),
    ensures
        if baseline.completed_for(
            baseline.evidence.snapshot_id@,
            baseline.evidence.as_of_epoch,
        ) && baseline.matches_state(stored.activity@, stored.flags@, stored.metric_json@)
            && is_advance(
            *plan,
            target.catalog.snapshot_id@,
            baseline.evidence.snapshot_id@,
            delta_locations as int,
        ) && as_of_epoch <= api_timestamp_max && config.merge_fan_in >= 2
            && target.locations@.len() == target.catalog.objects@.len() {
            exists|from: ActivityInputs| #[trigger]
                scans_delta(
                    from,
                    *baseline,
                    *target,
                    *plan,
                    delta_locations,
                    as_of_epoch,
                    version,
                ) && activity_from_inputs(
                    *steps,
                    *tail,
                    *target,
                    as_of_epoch,
                    *config,
                    run_bytes(files@, false),
                    from,
                    outcome,
                )
        } else {
            outcome is Err && outcome->Err_0 is Invalid
        },
{
    match baseline.validate_for_publication(
        baseline.evidence.snapshot_id.as_str(),
        baseline.evidence.as_of_epoch,
        stored.activity,
        stored.flags,
        stored.metric_json,
    ) {
        Ok(()) => {},
        Err(error) => {
            return Err(error);
        },
    }
    match validate_advance(baseline, target, plan, delta_locations) {
        Ok(()) => {},
        Err(error) => {
            return Err(error);
        },
    }
    match validate_config(target, as_of_epoch, config.merge_fan_in, api_timestamp_max) {
        Ok(()) => {},
        Err(error) => {
            return Err(error);
        },
    }
    let run: RunIdentity = run_identity(
        target.catalog.snapshot_id.as_str(),
        as_of_epoch,
        "baseline",
    );
    let held: CompletedRun = baseline_run(
        baseline.evidence_sha256.as_str(),
        &baseline.evidence.activity_artifact,
        run,
        version,
    );
    let ghost held_run = held;
    let mut first: Vec<CompletedRun> = Vec::new();
    first.push(held);
    let from: ActivityInputs = ActivityInputs {
        first,
        first_rows: baseline.evidence.activity_artifact.row_count,
        inputs: object_inputs(&plan.added_objects),
        locations: delta_locations,
        baseline_evidence_sha256: Some(baseline.evidence_sha256.clone()),
    };
    proof {
        assert(from.first@ =~= seq![held_run]);
        assert(scans_delta(
            from,
            *baseline,
            *target,
            *plan,
            delta_locations,
            as_of_epoch,
            version,
        ));
    }
    build_from_inputs(steps, tail, target, as_of_epoch, config, files, from)
}

} // verus!
