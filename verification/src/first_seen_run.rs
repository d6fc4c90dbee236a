//! One bounded build of first-seen state, from its inputs to the evidence.

use vstd::prelude::*;
use vstd::string::*;

use crate::advance::{baseline_run, is_advance, CheckpointVersion};
use crate::artifact::{
    object_input_list, object_inputs, BatchLimits, InputBatch, InputIdentity, RunIdentity,
};
use crate::batches::BatchProgress;
use crate::build_runs::{
    build_runs, plan_gives, run_count, runs_outcome, steps_callable, BatchRun, BuildSteps,
    MergeSettings,
};
use crate::disk::{budget_of, completed_run_bytes, run_budget, run_bytes, DiskBudget, WorkFile};
use crate::error::{checked_add, Error, Result};
use crate::first_seen_build::{
    complete_first_seen, completes_first_seen, estimate_run_bytes, run_identity, validate_advance,
    validate_config, FirstSeenBuild, PubkeyFirstSeenConfig,
};
use crate::input::ResolvedSnapshot;
use crate::merge::{merge_bytes, CompletedRun, MergeOutcome};
use crate::plan::CatalogDeltaPlan;
use crate::pubkey_first_seen::{
    finalizable, finalize, new_users_table, served_count, BoundedPubkeyFirstSeen, NewUsersDaily,
    PubkeyFirstSeenEvidence, SeenBounds, PUBKEY_FIRST_SEEN_VERSION,
};
use crate::records::record_count;
use crate::runs::identifies_stage;

verus! {

/// What the build of a generation starts from.
pub struct SeenInputs {
    /// Runs that the build does not make itself.
    pub first: Vec<CompletedRun>,
    /// Rows that the runs are estimated by.
    pub rows: u64,
    /// Objects to scan.
    pub inputs: Vec<InputIdentity>,
    /// Locations of the objects.
    pub locations: usize,
    /// Evidence of the baseline, if any.
    pub baseline_evidence_sha256: Option<String>,
}

/// The served publishers and the daily new users of a state.
pub open spec fn summarizes_seen(
    finalized: (u64, Vec<NewUsersDaily>),
    bytes: Seq<u8>,
    bounds: SeenBounds,
) -> bool {
    &&& finalized.0 == served_count(bytes, record_count(bytes, 40), bounds)
    &&& new_users_table(finalized.1@, bytes, bounds)
}

/// What the last run of a build comes to.
pub open spec fn seen_from_run<
    R: Fn(&CompletedRun) -> Result<Vec<u8>>,
    J: Fn(&Vec<NewUsersDaily>) -> Result<Vec<u8>>,
>(
    read: R,
    encode: J,
    snapshot: ResolvedSnapshot,
    bounds: SeenBounds,
    build: FirstSeenBuild,
    progress: BatchProgress,
    merged: MergeOutcome,
    outcome: Result<PubkeyFirstSeenEvidence>,
) -> bool {
    exists|state: Result<Vec<u8>>| #[trigger]
        call_ensures(read, (&merged.final_run,), state) && match state {
            Err(error) => outcome == Err::<PubkeyFirstSeenEvidence, Error>(error),
            Ok(bytes) => if !finalizable(
                bytes@,
                merged.final_run.checkpoint.artifact.row_count as int,
                bounds,
            ) {
                outcome is Err && outcome->Err_0 is Invalid
            } else {
                exists|finalized: (u64, Vec<NewUsersDaily>), json: Result<Vec<u8>>|
                    #![trigger summarizes_seen(finalized, bytes@, bounds), call_ensures(
                        encode,
                        (&finalized.1,),
                        json,
                    )]
                    {
                        &&& summarizes_seen(finalized, bytes@, bounds)
                        &&& call_ensures(encode, (&finalized.1,), json)
                        &&& match json {
                            Err(error) => outcome == Err::<PubkeyFirstSeenEvidence, Error>(error),
                            Ok(json) => outcome is Ok && completes_first_seen(
                                outcome->Ok_0,
                                snapshot,
                                build,
                                progress,
                                merged,
                                finalized,
                                json@,
                            ),
                        }
                    }
            },
        }
}

/// What the planned batches of a build come to.
pub open spec fn seen_from_batches<
    L: Fn(&Vec<InputIdentity>, BatchLimits) -> Result<Vec<InputBatch>>,
    P: Fn(DiskBudget) -> Result<()>,
    B: Fn(&InputBatch, usize, usize) -> Result<BatchRun>,
    E: Fn() -> Result<CompletedRun>,
    M: Fn(u32, usize, &[CompletedRun]) -> Result<(CompletedRun, usize)>,
    R: Fn(&CompletedRun) -> Result<Vec<u8>>,
    J: Fn(&Vec<NewUsersDaily>) -> Result<Vec<u8>>,
>(
    steps: BuildSteps<L, P, B, E, M>,
    read: R,
    encode: J,
    snapshot: ResolvedSnapshot,
    bounds: SeenBounds,
    config: PubkeyFirstSeenConfig,
    retained: int,
    from: SeenInputs,
    batches: Vec<InputBatch>,
    outcome: Result<PubkeyFirstSeenEvidence>,
) -> bool {
    let bytes = merge_bytes(
        from.rows as int,
        40,
        run_count(batches@.len() as int, from.first@.len() as int),
        config.merge_fan_in as int,
    );
    if bytes > u64::MAX || retained > u64::MAX {
        outcome is Err && outcome->Err_0 is Invalid
    } else {
        exists|ran: Result<(BatchProgress, MergeOutcome)>| #[trigger]
            runs_outcome(
                steps,
                budget_of(bytes as u64, retained as u64, config.disk_reserve_bytes),
                from.first@,
                batches@,
                from.locations as int,
                (MergeSettings { fan_in: config.merge_fan_in, width: 40, reconcile: false, derived: false }),
                ran,
            ) && match ran {
                Err(error) => outcome == Err::<PubkeyFirstSeenEvidence, Error>(error),
                Ok((progress, merged)) => seen_from_run(
                    read,
                    encode,
                    snapshot,
                    bounds,
                    (FirstSeenBuild {
                        as_of_epoch: bounds.as_of,
                        delta_objects: from.inputs@.len() as usize,
                        baseline_evidence_sha256: from.baseline_evidence_sha256,
                        batch_count: batches@.len() as usize,
                        estimated_run_bytes: bytes as u64,
                        disk_reserve_bytes: config.disk_reserve_bytes,
                    }),
                    progress,
                    merged,
                    outcome,
                ),
            }
    }
}

/// What the inputs of a build come to.
pub open spec fn seen_from_inputs<
    L: Fn(&Vec<InputIdentity>, BatchLimits) -> Result<Vec<InputBatch>>,
    P: Fn(DiskBudget) -> Result<()>,
    B: Fn(&InputBatch, usize, usize) -> Result<BatchRun>,
    E: Fn() -> Result<CompletedRun>,
    M: Fn(u32, usize, &[CompletedRun]) -> Result<(CompletedRun, usize)>,
    R: Fn(&CompletedRun) -> Result<Vec<u8>>,
    J: Fn(&Vec<NewUsersDaily>) -> Result<Vec<u8>>,
>(
    steps: BuildSteps<L, P, B, E, M>,
    read: R,
    encode: J,
    snapshot: ResolvedSnapshot,
    bounds: SeenBounds,
    config: PubkeyFirstSeenConfig,
    retained: int,
    from: SeenInputs,
    outcome: Result<PubkeyFirstSeenEvidence>,
) -> bool {
    exists|planned: Result<Vec<InputBatch>>| #[trigger]
        plan_gives(*steps.plan, from.inputs@, config.batch_limits, planned) && match planned {
            Err(error) => outcome == Err::<PubkeyFirstSeenEvidence, Error>(error),
            Ok(batches) => seen_from_batches(
                steps,
                read,
                encode,
                snapshot,
                bounds,
                config,
                retained,
                from,
                batches,
                outcome,
            ),
        }
}

/// Read the last run of a build and complete the evidence.
fn finish_seen<
    R: Fn(&CompletedRun) -> Result<Vec<u8>>,
    J: Fn(&Vec<NewUsersDaily>) -> Result<Vec<u8>>,
>(
    read: &R,
    encode: &J,
    snapshot: &ResolvedSnapshot,
    bounds: SeenBounds,
    build: FirstSeenBuild,
    progress: BatchProgress,
    merged: MergeOutcome,
) -> (outcome: Result<PubkeyFirstSeenEvidence>)
    requires
        forall|run: &CompletedRun| #[trigger] call_requires(*read, (run,)),
        forall|rows: &Vec<NewUsersDaily>| #[trigger] call_requires(*encode, (rows,)),
    ensures
        seen_from_run(*read, *encode, *snapshot, bounds, build, progress, merged, outcome),
{
    let bytes: Vec<u8> = match read(&merged.final_run) {
        Ok(bytes) => bytes,
        Err(error) => {
            return Err(error);
        },
    };
    let finalized: (u64, Vec<NewUsersDaily>) = match finalize(
        bytes.as_slice(),
        &merged.final_run.checkpoint.artifact,
        bounds,
    ) {
        Ok(finalized) => finalized,
        Err(error) => {
            return Err(error);
        },
    };
    assert(summarizes_seen(finalized, bytes@, bounds));
    let json: Vec<u8> = match encode(&finalized.1) {
        Ok(json) => json,
        Err(error) => {
            return Err(error);
        },
    };
    Ok(complete_first_seen(snapshot, build, progress, merged, finalized, json.as_slice()))
}

/// Build first-seen state from its inputs.
fn build_from_inputs<
    L: Fn(&Vec<InputIdentity>, BatchLimits) -> Result<Vec<InputBatch>>,
    P: Fn(DiskBudget) -> Result<()>,
    B: Fn(&InputBatch, usize, usize) -> Result<BatchRun>,
    E: Fn() -> Result<CompletedRun>,
    M: Fn(u32, usize, &[CompletedRun]) -> Result<(CompletedRun, usize)>,
    R: Fn(&CompletedRun) -> Result<Vec<u8>>,
    J: Fn(&Vec<NewUsersDaily>) -> Result<Vec<u8>>,
>(
    steps: &BuildSteps<L, P, B, E, M>,
    read: &R,
    encode: &J,
    snapshot: &ResolvedSnapshot,
    bounds: SeenBounds,
    config: &PubkeyFirstSeenConfig,
    files: &Vec<WorkFile>,
    from: SeenInputs,
) -> (outcome: Result<PubkeyFirstSeenEvidence>)
    requires
        config.merge_fan_in >= 2,
        steps_callable(*steps),
        forall|run: &CompletedRun| #[trigger] call_requires(*read, (run,)),
        forall|rows: &Vec<NewUsersDaily>| #[trigger] call_requires(*encode, (rows,)),
    ensures
        seen_from_inputs(
            *steps,
            *read,
            *encode,
            *snapshot,
            bounds,
            *config,
            run_bytes(files@, false),
            from,
            outcome,
        ),
{
    let ghost given = from;
    let plan: &L = steps.plan;
    let batches: Vec<InputBatch> = match plan(&from.inputs, config.batch_limits) {
        Ok(batches) => {
            assert(plan_gives(*steps.plan, given.inputs@, config.batch_limits, Ok(batches)));
            batches
        },
        Err(error) => {
            assert(plan_gives(*steps.plan, given.inputs@, config.batch_limits, Err(error)));
            return Err(error);
        },
    };
    let runs: usize = match batches.len().checked_add(from.first.len()) {
        Some(runs) => runs,
        None => usize::MAX,
    };
    let bytes: u64 = match estimate_run_bytes(from.rows, runs, config.merge_fan_in) {
        Ok(bytes) => bytes,
        Err(error) => {
            return Err(error);
        },
    };
    let retained: u64 = match completed_run_bytes(files, false) {
        Ok(retained) => retained,
        Err(error) => {
            return Err(error);
        },
    };
    let settings: MergeSettings = MergeSettings {
        fan_in: config.merge_fan_in,
        width: 40,
        reconcile: false,
        derived: false,
    };
    let budget: DiskBudget = run_budget(bytes, retained, config.disk_reserve_bytes);
    let build: FirstSeenBuild = FirstSeenBuild {
        as_of_epoch: bounds.as_of,
        delta_objects: from.inputs.len(),
        baseline_evidence_sha256: from.baseline_evidence_sha256,
        batch_count: batches.len(),
        estimated_run_bytes: bytes,
        disk_reserve_bytes: config.disk_reserve_bytes,
    };
    let ran: Result<(BatchProgress, MergeOutcome)> = build_runs(
        steps,
        budget,
        from.first,
        &batches,
        from.locations,
        settings,
    );
    proof {
        assert(runs_outcome(
            *steps,
            budget_of(bytes, retained, config.disk_reserve_bytes),
            given.first@,
            batches@,
            given.locations as int,
            (MergeSettings { fan_in: config.merge_fan_in, width: 40, reconcile: false, derived: false }),
            ran,
        ));
    }
    let ghost stated = build;
    assert(stated == (FirstSeenBuild {
        as_of_epoch: bounds.as_of,
        delta_objects: given.inputs@.len() as usize,
        baseline_evidence_sha256: given.baseline_evidence_sha256,
        batch_count: batches@.len() as usize,
        estimated_run_bytes: bytes,
        disk_reserve_bytes: config.disk_reserve_bytes,
    }));
    let outcome: Result<PubkeyFirstSeenEvidence> = match ran {
        Err(error) => Err(error),
        Ok((progress, merged)) => {
            let ghost (held, last) = (progress, merged);
            let finished: Result<PubkeyFirstSeenEvidence> = finish_seen(
                read,
                encode,
                snapshot,
                bounds,
                build,
                progress,
                merged,
            );
            assert(ran == Ok::<(BatchProgress, MergeOutcome), Error>((held, last)));
            assert(seen_from_run(
                *read,
                *encode,
                *snapshot,
                bounds,
                stated,
                held,
                last,
                finished,
            ));
            finished
        },
    };
    let ghost exact = merge_bytes(
        given.rows as int,
        40,
        run_count(batches@.len() as int, given.first@.len() as int),
        config.merge_fan_in as int,
    );
    assert(exact == bytes);
    proof {
        let kept = run_bytes(files@, false);
        assert(exact <= u64::MAX && kept <= u64::MAX);
        assert(kept as u64 == retained && exact as u64 == bytes);
        assert(runs_outcome(
            *steps,
            budget_of(exact as u64, kept as u64, config.disk_reserve_bytes),
            given.first@,
            batches@,
            given.locations as int,
            (MergeSettings { fan_in: config.merge_fan_in, width: 40, reconcile: false, derived: false }),
            ran,
        ));
        assert(ran is Err ==> outcome == Err::<PubkeyFirstSeenEvidence, Error>(ran->Err_0));
    }
    assert(seen_from_batches(
        *steps,
        *read,
        *encode,
        *snapshot,
        bounds,
        *config,
        run_bytes(files@, false),
        given,
        batches,
        outcome,
    ));
    outcome
}

/// The whole catalog is the input of a build.
pub open spec fn scans_catalog(from: SeenInputs, snapshot: ResolvedSnapshot) -> bool {
    &&& from.first@ == Seq::<CompletedRun>::empty()
    &&& from.rows == snapshot.catalog.physical_rows
    &&& from.inputs@ == object_input_list(snapshot.catalog.objects@)
    &&& from.locations == snapshot.locations@.len()
    &&& from.baseline_evidence_sha256 is None
}

/// Build the first-seen state of a snapshot.
///
/// `read` reads the bytes of a run, `encode` writes the daily new users as JSON,
/// and `files` are the files of the work root.
pub fn build_bounded_pubkey_first_seen<
    L: Fn(&Vec<InputIdentity>, BatchLimits) -> Result<Vec<InputBatch>>,
    P: Fn(DiskBudget) -> Result<()>,
    B: Fn(&InputBatch, usize, usize) -> Result<BatchRun>,
    E: Fn() -> Result<CompletedRun>,
    M: Fn(u32, usize, &[CompletedRun]) -> Result<(CompletedRun, usize)>,
    R: Fn(&CompletedRun) -> Result<Vec<u8>>,
    J: Fn(&Vec<NewUsersDaily>) -> Result<Vec<u8>>,
>(
    snapshot: &ResolvedSnapshot,
    bounds: SeenBounds,
    config: &PubkeyFirstSeenConfig,
    api_timestamp_max: u64,
    files: &Vec<WorkFile>,
    steps: &BuildSteps<L, P, B, E, M>,
    read: &R,
    encode: &J,
) -> (outcome: Result<PubkeyFirstSeenEvidence>)
    requires
        steps_callable(*steps),
        forall|run: &CompletedRun| #[trigger] call_requires(*read, (run,)),
        forall|rows: &Vec<NewUsersDaily>| #[trigger] call_requires(*encode, (rows,)),
    ensures
        if bounds.as_of <= api_timestamp_max && config.merge_fan_in >= 2
            && snapshot.locations@.len() == snapshot.catalog.objects@.len() {
            exists|from: SeenInputs| #[trigger]
                scans_catalog(from, *snapshot) && seen_from_inputs(
                    *steps,
                    *read,
                    *encode,
                    *snapshot,
                    bounds,
                    *config,
                    run_bytes(files@, false),
                    from,
                    outcome,
                )
        } else {
            outcome == Err::<PubkeyFirstSeenEvidence, Error>(
                Error::Invalid("invalid first-seen build configuration"),
            )
        },
{
    match validate_config(snapshot, bounds.as_of, config, api_timestamp_max) {
        Ok(()) => {},
        Err(error) => {
            return Err(error);
        },
    }
    let from: SeenInputs = SeenInputs {
        first: Vec::new(),
        rows: snapshot.catalog.physical_rows,
        inputs: object_inputs(&snapshot.catalog.objects),
        locations: snapshot.locations.len(),
        baseline_evidence_sha256: None,
    };
    proof {
        assert(from.first@ =~= Seq::empty());
        assert(scans_catalog(from, *snapshot));
    }
    build_from_inputs(steps, read, encode, snapshot, bounds, config, files, from)
}

/// The run that holds the state of the baseline.
pub open spec fn holds_baseline(
    run: CompletedRun,
    baseline: BoundedPubkeyFirstSeen,
    target: ResolvedSnapshot,
    as_of_epoch: u64,
    version: CheckpointVersion,
) -> bool {
    &&& run.identity@ == "baseline-evidence:"@ + baseline.evidence_sha256@
    &&& run.path == baseline.evidence.final_artifact.path
    &&& run.checkpoint_path@ == Seq::<char>::empty()
    &&& run.checkpoint.schema_version == version.schema_version
    &&& run.checkpoint.runner_version == version.runner_version
    &&& identifies_stage(
        run.checkpoint.run,
        target.catalog.snapshot_id@,
        as_of_epoch,
        "pubkey-first-seen"@ + "-"@ + "baseline"@,
        PUBKEY_FIRST_SEEN_VERSION@,
        "pubkey-32-first-seen-u64-be-v1"@,
    )
    &&& run.checkpoint.inputs@.len() == 0
    &&& run.checkpoint.artifact == baseline.evidence.final_artifact
}

/// The baseline and the added objects of the plan are the input of a build.
pub open spec fn scans_delta(
    from: SeenInputs,
    baseline: BoundedPubkeyFirstSeen,
    target: ResolvedSnapshot,
    plan: CatalogDeltaPlan,
    delta_locations: usize,
    as_of_epoch: u64,
    version: CheckpointVersion,
) -> bool {
    &&& from.first@.len() == 1
    &&& holds_baseline(from.first@[0], baseline, target, as_of_epoch, version)
    &&& from.rows == baseline.evidence.first_seen_records + plan.added_physical_rows
    &&& from.inputs@ == object_input_list(plan.added_objects@)
    &&& from.locations == delta_locations
    &&& from.baseline_evidence_sha256 == Some(baseline.evidence_sha256)
}

/// The stored state of a baseline.
pub struct SeenState<'a> {
    /// Bytes of the final artifact.
    pub state: &'a [u8],
    /// JSON of the daily new users.
    pub metric_json: &'a [u8],
}

/// Extend the first-seen state of a baseline by the objects that a plan adds.
pub fn advance_bounded_pubkey_first_seen<
    L: Fn(&Vec<InputIdentity>, BatchLimits) -> Result<Vec<InputBatch>>,
    P: Fn(DiskBudget) -> Result<()>,
    B: Fn(&InputBatch, usize, usize) -> Result<BatchRun>,
    E: Fn() -> Result<CompletedRun>,
    M: Fn(u32, usize, &[CompletedRun]) -> Result<(CompletedRun, usize)>,
    R: Fn(&CompletedRun) -> Result<Vec<u8>>,
    J: Fn(&Vec<NewUsersDaily>) -> Result<Vec<u8>>,
>(
    baseline: &BoundedPubkeyFirstSeen,
    stored: &SeenState,
    version: CheckpointVersion,
    target: &ResolvedSnapshot,
    plan: &CatalogDeltaPlan,
    delta_locations: usize,
    bounds: SeenBounds,
    config: &PubkeyFirstSeenConfig,
    api_timestamp_max: u64,
    files: &Vec<WorkFile>,
    steps: &BuildSteps<L, P, B, E, M>,
    read: &R,
    encode: &J,
) -> (outcome: Result<PubkeyFirstSeenEvidence>)
    requires
        steps_callable(*steps),
        forall|run: &CompletedRun| #[trigger] call_requires(*read, (run,)),
        forall|rows: &Vec<NewUsersDaily>| #[trigger] call_requires(*encode, (rows,)),
    ensures
        if baseline.completed_for(
            baseline.evidence.snapshot_id@,
            baseline.evidence.as_of_epoch,
        ) && baseline.matches_state(stored.state@, stored.metric_json@, bounds.genesis)
            && bounds.as_of <= api_timestamp_max && config.merge_fan_in >= 2 && is_advance(
            *plan,
            target.catalog.snapshot_id@,
            baseline.evidence.snapshot_id@,
            delta_locations as int,
        ) && baseline.evidence.first_seen_records + plan.added_physical_rows <= u64::MAX {
            exists|from: SeenInputs| #[trigger]
                scans_delta(
                    from,
                    *baseline,
                    *target,
                    *plan,
                    delta_locations,
                    bounds.as_of,
                    version,
                ) && seen_from_inputs(
                    *steps,
                    *read,
                    *encode,
                    *target,
                    bounds,
                    *config,
                    run_bytes(files@, false),
                    from,
                    outcome,
                )
        } else {
            outcome is Err && outcome->Err_0 is Invalid
        },
{
    match baseline.validate_for_publication(
        baseline.evidence.snapshot_id.as_str(),
        baseline.evidence.as_of_epoch,
        stored.state,
        stored.metric_json,
        bounds.genesis,
    ) {
        Ok(()) => {},
        Err(error) => {
            return Err(error);
        },
    }
    match validate_advance(
        baseline,
        target,
        plan,
        delta_locations,
        bounds.as_of,
        config,
        api_timestamp_max,
    ) {
        Ok(()) => {},
        Err(error) => {
            return Err(error);
        },
    }
    let rows: u64 = match checked_add(
        baseline.evidence.first_seen_records,
        plan.added_physical_rows,
        "first-seen row estimate overflowed",
    ) {
        Ok(rows) => rows,
        Err(error) => {
            return Err(error);
        },
    };
    let run: RunIdentity = run_identity(
        target.catalog.snapshot_id.as_str(),
        bounds.as_of,
        "baseline",
    );
    let held: CompletedRun = baseline_run(
        baseline.evidence_sha256.as_str(),
        &baseline.evidence.final_artifact,
        run,
        version,
    );
    let ghost held_run = held;
    let mut first: Vec<CompletedRun> = Vec::new();
    first.push(held);
    let from: SeenInputs = SeenInputs {
        first,
        rows,
        inputs: object_inputs(&plan.added_objects),
        locations: delta_locations,
        baseline_evidence_sha256: Some(baseline.evidence_sha256.clone()),
    };
    proof {
        assert(from.first@ =~= seq![held_run]);
        assert(scans_delta(
            from,
            *baseline,
            *target,
            *plan,
            delta_locations,
            bounds.as_of,
            version,
        ));
    }
    build_from_inputs(steps, read, encode, target, bounds, config, files, from)
}

} // verus!
