//! One bounded build of serving facts, from the catalog to the product.

use vstd::prelude::*;

use crate::activity::{activity_stream, eligible};
use crate::artifact::{
    object_input_list, object_inputs, ArtifactIdentity, BatchLimits, EncodedRun, InputBatch,
    InputIdentity,
};
use crate::batches::{reconciles, BatchProgress};
use crate::build_runs::{
    build_runs, plan_gives, runs_outcome, steps_callable, BatchRun, BuildSteps, MergeSettings,
};
use crate::digest::sha256_text;
use crate::disk::{budget_of, run_budget, DiskBudget};
use crate::error::{Error, Result};
use crate::input::ResolvedSnapshot;
use crate::merge::{merge_bytes, CompletedRun, MergeOutcome};
use crate::serving_compact::{events_fit, served_events, streams_join, TimestampBounds};
use crate::serving_facts::{
    check_sources, complete_serving_facts, completes_serving, config_fits, estimate_run_bytes,
    finalize, finalizes, load_bounded_serving_facts, product_valid, servable, validate_config,
    BoundedServingFacts, FinalizedServing, ServingArtifacts, ServingFactsConfig,
    ServingFactsEvidence, ServingSource,
};
use crate::serving_records::{ServingHourlyRow, ServingKindRow};

verus! {

/// The sources of a build: products, and the bytes of their artifacts.
pub struct ServingSources<'a> {
    /// Event facts.
    pub events: &'a ServingSource,
    /// Bytes of the event facts.
    pub event_bytes: &'a [u8],
    /// Fixed-grain activity.
    pub activity: &'a ServingSource,
    /// Bytes of the activity stream.
    pub activity_bytes: &'a [u8],
}

/// The steps of a build behind its merges.
pub struct ServingSteps<'a, R, H, K, J> {
    /// Reads the bytes of a run.
    pub read: &'a R,
    /// Stores the hourly artifact.
    pub store_hourly: &'a H,
    /// Stores the kind artifact.
    pub store_kinds: &'a K,
    /// Writes evidence as JSON.
    pub encode: &'a J,
}

/// The steps may be called on everything.
pub open spec fn tail_callable<
    R: Fn(&CompletedRun) -> Result<Vec<u8>>,
    H: Fn(&EncodedRun) -> Result<ArtifactIdentity>,
    K: Fn(&EncodedRun) -> Result<ArtifactIdentity>,
    J: Fn(&ServingFactsEvidence) -> Result<Vec<u8>>,
>(tail: ServingSteps<R, H, K, J>) -> bool {
    &&& forall|run: &CompletedRun| #[trigger] call_requires(*tail.read, (run,))
    &&& forall|run: &EncodedRun| #[trigger] call_requires(*tail.store_hourly, (run,))
    &&& forall|run: &EncodedRun| #[trigger] call_requires(*tail.store_kinds, (run,))
    &&& forall|evidence: &ServingFactsEvidence| #[trigger]
        call_requires(*tail.encode, (evidence,))
}

/// What a build is about.
pub struct ServingBuild<'a> {
    /// The snapshot.
    pub snapshot: &'a ResolvedSnapshot,
    /// Fixed upper time boundary.
    pub as_of_epoch: u64,
    /// Resource settings.
    pub config: &'a ServingFactsConfig,
    /// Timestamps that are served.
    pub bounds: TimestampBounds,
}

/// The sources and the content can be finalized.
pub open spec fn finalizable(
    sources: ServingSources,
    content: Seq<u8>,
    as_of_epoch: u64,
    bounds: TimestampBounds,
) -> bool {
    let logical = sources.events.logical_events as int;
    let served = served_events(sources.event_bytes@, content, logical);
    let facts = eligible(sources.activity_bytes@, as_of_epoch as int);
    &&& streams_join(sources.event_bytes@, content, logical)
    &&& events_fit(served, as_of_epoch, bounds)
    &&& activity_stream(sources.activity_bytes@)
    &&& exists|hours: Seq<ServingHourlyRow>, kinds: Seq<ServingKindRow>| #[trigger]
        servable(hours, kinds, served, facts, as_of_epoch, bounds)
}

/// The finalized tables are those of the sources and the content.
pub open spec fn finalizes_sources(
    finalized: FinalizedServing,
    sources: ServingSources,
    content: Seq<u8>,
    as_of_epoch: u64,
    bounds: TimestampBounds,
) -> bool {
    let served = served_events(
        sources.event_bytes@,
        content,
        sources.events.logical_events as int,
    );
    let facts = eligible(sources.activity_bytes@, as_of_epoch as int);
    exists|hours: Seq<ServingHourlyRow>, kinds: Seq<ServingKindRow>| #[trigger]
        finalizes(finalized, hours, kinds, served, facts, as_of_epoch, bounds)
}

/// The bytes of all artifacts of a build.
pub open spec fn build_artifacts<'a>(
    sources: ServingSources<'a>,
    content: &'a [u8],
    hourly: &'a [u8],
    kinds: &'a [u8],
) -> ServingArtifacts<'a> {
    ServingArtifacts {
        events: sources.event_bytes,
        content,
        hourly,
        kinds,
        activity: sources.activity_bytes,
    }
}

/// What completed evidence comes to.
pub open spec fn product_from_evidence<J: Fn(&ServingFactsEvidence) -> Result<Vec<u8>>>(
    encode: J,
    evidence: ServingFactsEvidence,
    artifacts: ServingArtifacts,
    bounds: TimestampBounds,
    outcome: Result<BoundedServingFacts>,
) -> bool {
    exists|json: Result<Vec<u8>>| #[trigger]
        call_ensures(encode, (&evidence,), json) && match json {
            Err(error) => outcome == Err::<BoundedServingFacts, Error>(error),
            Ok(bytes) => {
                &&& outcome is Ok <==> product_valid(evidence, artifacts, bounds)
                &&& match outcome {
                    Ok(product) => {
                        &&& product.evidence == evidence
                        &&& product.evidence_sha256@ == sha256_text(bytes@)
                    },
                    Err(error) => error is Invalid,
                }
            },
        }
}

/// What finalized tables and their stored artifacts come to.
pub open spec fn product_from_tables<J: Fn(&ServingFactsEvidence) -> Result<Vec<u8>>>(
    encode: J,
    build: ServingBuild,
    batch_count: usize,
    estimated_run_bytes: u64,
    sources: ServingSources,
    progress: BatchProgress,
    merged: MergeOutcome,
    content: &[u8],
    finalized: FinalizedServing,
    hourly: ArtifactIdentity,
    kinds: ArtifactIdentity,
    outcome: Result<BoundedServingFacts>,
) -> bool {
    let logical = merged.final_run.checkpoint.artifact.row_count;
    if logical == sources.events.logical_events && reconciles(
        build.snapshot.catalog.physical_rows,
        logical,
        progress.duplicate_rows,
        merged.duplicate_rows,
    ) {
        exists|evidence: ServingFactsEvidence, hourly_bytes: &[u8], kind_bytes: &[u8]|
            {
                &&& completes_serving(
                    evidence,
                    *build.snapshot,
                    build.as_of_epoch,
                    *build.config,
                    batch_count,
                    estimated_run_bytes,
                    *sources.events,
                    *sources.activity,
                    progress,
                    merged,
                    finalized,
                    hourly,
                    kinds,
                )
                &&& hourly_bytes@ == finalized.hourly.bytes@
                &&& kind_bytes@ == finalized.kinds.bytes@
                &&& #[trigger] product_from_evidence(
                    encode,
                    evidence,
                    build_artifacts(sources, content, hourly_bytes, kind_bytes),
                    build.bounds,
                    outcome,
                )
            }
    } else {
        outcome is Err && outcome->Err_0 is Invalid
    }
}

/// What the content of a build comes to.
pub open spec fn product_from_content<
    R: Fn(&CompletedRun) -> Result<Vec<u8>>,
    H: Fn(&EncodedRun) -> Result<ArtifactIdentity>,
    K: Fn(&EncodedRun) -> Result<ArtifactIdentity>,
    J: Fn(&ServingFactsEvidence) -> Result<Vec<u8>>,
>(
    tail: ServingSteps<R, H, K, J>,
    build: ServingBuild,
    batch_count: usize,
    estimated_run_bytes: u64,
    sources: ServingSources,
    progress: BatchProgress,
    merged: MergeOutcome,
    content: &[u8],
    outcome: Result<BoundedServingFacts>,
) -> bool {
    if !finalizable(sources, content@, build.as_of_epoch, build.bounds) {
        outcome is Err && outcome->Err_0 is Invalid
    } else {
        exists|finalized: FinalizedServing, hourly: Result<ArtifactIdentity>|
            #![trigger call_ensures(*tail.store_hourly, (&finalized.hourly,), hourly)]
            {
                &&& finalizes_sources(
                    finalized,
                    sources,
                    content@,
                    build.as_of_epoch,
                    build.bounds,
                )
                &&& call_ensures(*tail.store_hourly, (&finalized.hourly,), hourly)
                &&& match hourly {
                    Err(error) => outcome == Err::<BoundedServingFacts, Error>(error),
                    Ok(hourly) => exists|kinds: Result<ArtifactIdentity>| #[trigger]
                        call_ensures(*tail.store_kinds, (&finalized.kinds,), kinds) && match kinds {
                            Err(error) => outcome == Err::<BoundedServingFacts, Error>(error),
                            Ok(kinds) => product_from_tables(
                                *tail.encode,
                                build,
                                batch_count,
                                estimated_run_bytes,
                                sources,
                                progress,
                                merged,
                                content,
                                finalized,
                                hourly,
                                kinds,
                                outcome,
                            ),
                        },
                }
            }
    }
}

/// What the last run of a build comes to.
pub open spec fn product_from_run<
    R: Fn(&CompletedRun) -> Result<Vec<u8>>,
    H: Fn(&EncodedRun) -> Result<ArtifactIdentity>,
    K: Fn(&EncodedRun) -> Result<ArtifactIdentity>,
    J: Fn(&ServingFactsEvidence) -> Result<Vec<u8>>,
>(
    tail: ServingSteps<R, H, K, J>,
    build: ServingBuild,
    batch_count: usize,
    estimated_run_bytes: u64,
    sources: ServingSources,
    progress: BatchProgress,
    merged: MergeOutcome,
    outcome: Result<BoundedServingFacts>,
) -> bool {
    exists|read: Result<Vec<u8>>| #[trigger]
        call_ensures(*tail.read, (&merged.final_run,), read) && match read {
            Err(error) => outcome == Err::<BoundedServingFacts, Error>(error),
            Ok(bytes) => exists|content: &[u8]|
                content@ == bytes@ && #[trigger] product_from_content(
                    tail,
                    build,
                    batch_count,
                    estimated_run_bytes,
                    sources,
                    progress,
                    merged,
                    content,
                    outcome,
                ),
        }
}

/// What the planned batches of a build come to.
pub open spec fn product_from_batches<
    L: Fn(&Vec<InputIdentity>, BatchLimits) -> Result<Vec<InputBatch>>,
    P: Fn(DiskBudget) -> Result<()>,
    B: Fn(&InputBatch, usize, usize) -> Result<BatchRun>,
    E: Fn() -> Result<CompletedRun>,
    M: Fn(u32, usize, &[CompletedRun]) -> Result<(CompletedRun, usize)>,
    R: Fn(&CompletedRun) -> Result<Vec<u8>>,
    H: Fn(&EncodedRun) -> Result<ArtifactIdentity>,
    K: Fn(&EncodedRun) -> Result<ArtifactIdentity>,
    J: Fn(&ServingFactsEvidence) -> Result<Vec<u8>>,
>(
    steps: BuildSteps<L, P, B, E, M>,
    tail: ServingSteps<R, H, K, J>,
    build: ServingBuild,
    sources: ServingSources,
    batches: Vec<InputBatch>,
    outcome: Result<BoundedServingFacts>,
) -> bool {
    let bytes = merge_bytes(
        build.snapshot.catalog.physical_rows as int,
        40,
        batches@.len() as int,
        build.config.merge_fan_in as int,
    );
    if bytes > u64::MAX {
        outcome is Err && outcome->Err_0 is Invalid
    } else {
        exists|ran: Result<(BatchProgress, MergeOutcome)>| #[trigger]
            runs_outcome(
                steps,
                budget_of(bytes as u64, 0, build.config.disk_reserve_bytes),
                Seq::empty(),
                batches@,
                build.snapshot.locations@.len() as int,
                (MergeSettings {
                    fan_in: build.config.merge_fan_in,
                    width: 40,
                    reconcile: true,
                    derived: true,
                }),
                ran,
            ) && match ran {
                Err(error) => outcome == Err::<BoundedServingFacts, Error>(error),
                Ok((progress, merged)) => product_from_run(
                    tail,
                    build,
                    batches@.len() as usize,
                    bytes as u64,
                    sources,
                    progress,
                    merged,
                    outcome,
                ),
            }
    }
}

/// The sources are of the snapshot and the boundary of the build.
pub open spec fn sources_fit(build: ServingBuild, sources: ServingSources) -> bool {
    let snapshot_id = build.snapshot.catalog.snapshot_id@;
    &&& sources.events.snapshot_id@ == snapshot_id
    &&& sources.events.as_of_epoch == build.as_of_epoch
    &&& sources.activity.snapshot_id@ == snapshot_id
    &&& sources.activity.as_of_epoch == build.as_of_epoch
}

/// What a build of serving facts comes to.
pub open spec fn builds_serving<
    L: Fn(&Vec<InputIdentity>, BatchLimits) -> Result<Vec<InputBatch>>,
    P: Fn(DiskBudget) -> Result<()>,
    B: Fn(&InputBatch, usize, usize) -> Result<BatchRun>,
    E: Fn() -> Result<CompletedRun>,
    M: Fn(u32, usize, &[CompletedRun]) -> Result<(CompletedRun, usize)>,
    R: Fn(&CompletedRun) -> Result<Vec<u8>>,
    H: Fn(&EncodedRun) -> Result<ArtifactIdentity>,
    K: Fn(&EncodedRun) -> Result<ArtifactIdentity>,
    J: Fn(&ServingFactsEvidence) -> Result<Vec<u8>>,
>(
    steps: BuildSteps<L, P, B, E, M>,
    tail: ServingSteps<R, H, K, J>,
    build: ServingBuild,
    sources: ServingSources,
    outcome: Result<BoundedServingFacts>,
) -> bool {
    if !config_fits(*build.snapshot, build.as_of_epoch, *build.config, build.bounds)
        || !sources_fit(build, sources) {
        outcome is Err && outcome->Err_0 is Invalid
    } else {
        exists|planned: Result<Vec<InputBatch>>| #[trigger]
            plan_gives(
                *steps.plan,
                object_input_list(build.snapshot.catalog.objects@),
                build.config.batch_limits,
                planned,
            ) && match planned {
                Err(error) => outcome == Err::<BoundedServingFacts, Error>(error),
                Ok(batches) => product_from_batches(
                    steps,
                    tail,
                    build,
                    sources,
                    batches,
                    outcome,
                ),
            }
    }
}

/// Copy a source.
fn copy_source(source: &ServingSource) -> (copy: ServingSource)
    ensures
        copy == *source,
{
    ServingSource {
        snapshot_id: source.snapshot_id.clone(),
        as_of_epoch: source.as_of_epoch,
        evidence_sha256: source.evidence_sha256.clone(),
        artifact: crate::artifact::copy_artifact(&source.artifact),
        logical_events: source.logical_events,
    }
}

/// Complete the evidence of finalized tables and validate the product.
fn finish_tables<J: Fn(&ServingFactsEvidence) -> Result<Vec<u8>>>(
    encode: &J,
    build: &ServingBuild,
    batch_count: usize,
    estimated_run_bytes: u64,
    sources: &ServingSources,
    progress: BatchProgress,
    merged: MergeOutcome,
    content: &[u8],
    finalized: &FinalizedServing,
    hourly: ArtifactIdentity,
    kinds: ArtifactIdentity,
) -> (outcome: Result<BoundedServingFacts>)
    requires
        forall|evidence: &ServingFactsEvidence| #[trigger] call_requires(*encode, (evidence,)),
    ensures
        product_from_tables(
            *encode,
            *build,
            batch_count,
            estimated_run_bytes,
            *sources,
            progress,
            merged,
            content,
            *finalized,
            hourly,
            kinds,
            outcome,
        ),
{
    let evidence: ServingFactsEvidence = match complete_serving_facts(
        build.snapshot,
        build.as_of_epoch,
        build.config,
        batch_count,
        estimated_run_bytes,
        copy_source(sources.events),
        copy_source(sources.activity),
        progress,
        merged,
        finalized,
        hourly,
        kinds,
    ) {
        Ok(evidence) => evidence,
        Err(error) => {
            return Err(error);
        },
    };
    let ghost stated = evidence;
    let artifacts: ServingArtifacts = ServingArtifacts {
        events: sources.event_bytes,
        content,
        hourly: finalized.hourly.bytes.as_slice(),
        kinds: finalized.kinds.bytes.as_slice(),
        activity: sources.activity_bytes,
    };
    let encoded: Result<Vec<u8>> = encode(&evidence);
    let outcome: Result<BoundedServingFacts> = match encoded {
        Ok(json) => load_bounded_serving_facts(
            evidence,
            json.as_slice(),
            &artifacts,
            build.bounds,
        ),
        Err(error) => Err(error),
    };
    proof {
        assert(call_ensures(*encode, (&stated,), encoded));
        assert(artifacts == build_artifacts(
            *sources,
            content,
            artifacts.hourly,
            artifacts.kinds,
        ));
        assert(product_from_evidence(
            *encode,
            stated,
            build_artifacts(*sources, content, artifacts.hourly, artifacts.kinds),
            build.bounds,
            outcome,
        ));
    }
    outcome
}

/// Finalize the content of a build, store the tables and complete the product.
fn finish_content<
    R: Fn(&CompletedRun) -> Result<Vec<u8>>,
    H: Fn(&EncodedRun) -> Result<ArtifactIdentity>,
    K: Fn(&EncodedRun) -> Result<ArtifactIdentity>,
    J: Fn(&ServingFactsEvidence) -> Result<Vec<u8>>,
>(
    tail: &ServingSteps<R, H, K, J>,
    build: &ServingBuild,
    batch_count: usize,
    estimated_run_bytes: u64,
    sources: &ServingSources,
    progress: BatchProgress,
    merged: MergeOutcome,
    content: &[u8],
) -> (outcome: Result<BoundedServingFacts>)
    requires
        tail_callable(*tail),
    ensures
        product_from_content(
            *tail,
            *build,
            batch_count,
            estimated_run_bytes,
            *sources,
            progress,
            merged,
            content,
            outcome,
        ),
{
    let finalized: FinalizedServing = match finalize(
        sources.event_bytes,
        sources.events.logical_events,
        content,
        sources.activity_bytes,
        build.as_of_epoch,
        build.bounds,
    ) {
        Ok(finalized) => finalized,
        Err(error) => {
            return Err(error);
        },
    };
    assert(finalizes_sources(finalized, *sources, content@, build.as_of_epoch, build.bounds));
    let store_hourly: &H = tail.store_hourly;
    let store_kinds: &K = tail.store_kinds;
    let hourly: ArtifactIdentity = match store_hourly(&finalized.hourly) {
        Ok(artifact) => artifact,
        Err(error) => {
            return Err(error);
        },
    };
    let kinds: ArtifactIdentity = match store_kinds(&finalized.kinds) {
        Ok(artifact) => artifact,
        Err(error) => {
            return Err(error);
        },
    };
    finish_tables(
        tail.encode,
        build,
        batch_count,
        estimated_run_bytes,
        sources,
        progress,
        merged,
        content,
        &finalized,
        hourly,
        kinds,
    )
}

/// Build the serving facts of a snapshot.
pub fn build_bounded_serving_facts<
    L: Fn(&Vec<InputIdentity>, BatchLimits) -> Result<Vec<InputBatch>>,
    P: Fn(DiskBudget) -> Result<()>,
    B: Fn(&InputBatch, usize, usize) -> Result<BatchRun>,
    E: Fn() -> Result<CompletedRun>,
    M: Fn(u32, usize, &[CompletedRun]) -> Result<(CompletedRun, usize)>,
    R: Fn(&CompletedRun) -> Result<Vec<u8>>,
    H: Fn(&EncodedRun) -> Result<ArtifactIdentity>,
    K: Fn(&EncodedRun) -> Result<ArtifactIdentity>,
    J: Fn(&ServingFactsEvidence) -> Result<Vec<u8>>,
>(
    build: &ServingBuild,
    sources: &ServingSources,
    steps: &BuildSteps<L, P, B, E, M>,
    tail: &ServingSteps<R, H, K, J>,
) -> (outcome: Result<BoundedServingFacts>)
    requires
        steps_callable(*steps),
        tail_callable(*tail),
    ensures
        builds_serving(*steps, *tail, *build, *sources, outcome),
{
    let snapshot: &ResolvedSnapshot = build.snapshot;
    let config: &ServingFactsConfig = build.config;
    match validate_config(snapshot, build.as_of_epoch, config, build.bounds) {
        Ok(()) => {},
        Err(error) => {
            return Err(error);
        },
    }
    match check_sources(snapshot, build.as_of_epoch, sources.events, sources.activity) {
        Ok(()) => {},
        Err(error) => {
            return Err(error);
        },
    }
    let inputs: Vec<InputIdentity> = object_inputs(&snapshot.catalog.objects);
    let plan: &L = steps.plan;
    let batches: Vec<InputBatch> = match plan(&inputs, config.batch_limits) {
        Ok(batches) => {
            assert(plan_gives(*steps.plan, inputs@, config.batch_limits, Ok(batches)));
            batches
        },
        Err(error) => {
            assert(plan_gives(*steps.plan, inputs@, config.batch_limits, Err(error)));
            return Err(error);
        },
    };
    let bytes: u64 = match estimate_run_bytes(
        snapshot.catalog.physical_rows,
        batches.len(),
        config.merge_fan_in,
    ) {
        Ok(bytes) => bytes,
        Err(error) => {
            return Err(error);
        },
    };
    let settings: MergeSettings = MergeSettings {
        fan_in: config.merge_fan_in,
        width: 40,
        reconcile: true,
        derived: true,
    };
    let first: Vec<CompletedRun> = Vec::new();
    assert(first@ =~= Seq::empty());
    let budget: DiskBudget = run_budget(bytes, 0, config.disk_reserve_bytes);
    let ran: Result<(BatchProgress, MergeOutcome)> = build_runs(
        steps,
        budget,
        first,
        &batches,
        snapshot.locations.len(),
        settings,
    );
    proof {
        assert(runs_outcome(
            *steps,
            budget_of(bytes, 0, config.disk_reserve_bytes),
            Seq::empty(),
            batches@,
            snapshot.locations@.len() as int,
            (MergeSettings {
                fan_in: config.merge_fan_in,
                width: 40,
                reconcile: true,
                derived: true,
            }),
            ran,
        ));
    }
    let (progress, merged) = match ran {
        Ok(built) => built,
        Err(error) => {
            return Err(error);
        },
    };
    let ghost (held, last) = (progress, merged);
    let read: &R = tail.read;
    let read_back: Result<Vec<u8>> = read(&merged.final_run);
    let ghost given = read_back;
    let outcome: Result<BoundedServingFacts> = match read_back {
        Ok(content) => {
            let finished: Result<BoundedServingFacts> = finish_content(
                tail,
                build,
                batches.len(),
                bytes,
                sources,
                progress,
                merged,
                content.as_slice(),
            );
            finished
        },
        Err(error) => Err(error),
    };
    assert(call_ensures(*tail.read, (&last.final_run,), given));
    assert(product_from_run(
        *tail,
        *build,
        batches@.len() as usize,
        bytes,
        *sources,
        held,
        last,
        outcome,
    ));
    outcome
}

} // verus!
