//! One bounded build of semantic facts, from the catalog to the evidence.

use vstd::prelude::*;

use crate::artifact::{object_input_list, BatchLimits, InputBatch, InputIdentity};
use crate::batches::BatchProgress;
use crate::build_runs::{
    build_runs, plan_gives, runs_outcome, steps_callable, BatchRun, BuildSteps, MergeSettings,
};
use crate::disk::{budget_of, run_budget, DiskBudget};
use crate::error::{Error, Result};
use crate::input::{CatalogSnapshot, ResolvedSnapshot};
use crate::merge::{merge_bytes, CompletedRun, MergeOutcome};
use crate::rollups::SemanticRollups;
use crate::semantic_build::{
    catalog_inputs, complete_semantic_facts, completes_facts, config_fits, counts_domains,
    estimate_run_bytes, facts_reconcile, finalize, validate_config, SemanticDomainCounts,
    SemanticFactsConfig, SemanticFactsEvidence,
};
use crate::semantic_totals::{rollups_match, totals_fit, SemanticRecord};

verus! {

/// Some object of the catalog has no rows.
pub open spec fn has_empty_object(catalog: CatalogSnapshot) -> bool {
    exists|i: int|
        0 <= i < catalog.objects@.len() && (#[trigger] catalog.objects@[i]).row_count == 0
}

/// The rollups and the domain counts of the records.
pub open spec fn summarizes_facts(
    rollups: SemanticRollups,
    counts: SemanticDomainCounts,
    records: Seq<SemanticRecord>,
) -> bool {
    rollups_match(rollups, records) && counts_domains(counts, records)
}

/// What the records of the last run come to.
pub open spec fn facts_from_records<J: Fn(&SemanticRollups) -> Result<Vec<u8>>>(
    encode: J,
    snapshot: ResolvedSnapshot,
    as_of_epoch: u64,
    config: SemanticFactsConfig,
    batch_count: usize,
    progress: BatchProgress,
    merged: MergeOutcome,
    records: Seq<SemanticRecord>,
    outcome: Result<SemanticFactsEvidence>,
) -> bool {
    if !totals_fit(records) {
        outcome is Err && outcome->Err_0 is Invalid
    } else {
        exists|rollups: SemanticRollups, counts: SemanticDomainCounts, json: Result<Vec<u8>>|
            #![trigger summarizes_facts(rollups, counts, records), call_ensures(
                encode,
                (&rollups,),
                json,
            )]
            {
                &&& summarizes_facts(rollups, counts, records)
                &&& call_ensures(encode, (&rollups,), json)
                &&& match json {
                    Err(error) => outcome == Err::<SemanticFactsEvidence, Error>(error),
                    Ok(bytes) => {
                        &&& outcome is Ok <==> facts_reconcile(progress, merged, counts)
                        &&& match outcome {
                            Ok(evidence) => completes_facts(
                                evidence,
                                snapshot,
                                as_of_epoch,
                                config,
                                batch_count,
                                progress,
                                merged,
                                rollups,
                                counts,
                                bytes@,
                            ),
                            Err(error) => error is Invalid,
                        }
                    },
                }
            }
    }
}

/// What the last run of a build comes to.
pub open spec fn facts_from_run<
    R: Fn(&CompletedRun) -> Result<Vec<SemanticRecord>>,
    J: Fn(&SemanticRollups) -> Result<Vec<u8>>,
>(
    read: R,
    encode: J,
    snapshot: ResolvedSnapshot,
    as_of_epoch: u64,
    config: SemanticFactsConfig,
    batch_count: usize,
    progress: BatchProgress,
    merged: MergeOutcome,
    outcome: Result<SemanticFactsEvidence>,
) -> bool {
    exists|records: Result<Vec<SemanticRecord>>| #[trigger]
        call_ensures(read, (&merged.final_run,), records) && match records {
            Err(error) => outcome == Err::<SemanticFactsEvidence, Error>(error),
            Ok(records) => facts_from_records(
                encode,
                snapshot,
                as_of_epoch,
                config,
                batch_count,
                progress,
                merged,
                records@,
                outcome,
            ),
        }
}

/// What the planned batches of a build come to.
pub open spec fn facts_from_batches<
    L: Fn(&Vec<InputIdentity>, BatchLimits) -> Result<Vec<InputBatch>>,
    P: Fn(DiskBudget) -> Result<()>,
    B: Fn(&InputBatch, usize, usize) -> Result<BatchRun>,
    E: Fn() -> Result<CompletedRun>,
    M: Fn(u32, usize, &[CompletedRun]) -> Result<(CompletedRun, usize)>,
    R: Fn(&CompletedRun) -> Result<Vec<SemanticRecord>>,
    J: Fn(&SemanticRollups) -> Result<Vec<u8>>,
>(
    steps: BuildSteps<L, P, B, E, M>,
    read: R,
    encode: J,
    snapshot: ResolvedSnapshot,
    as_of_epoch: u64,
    config: SemanticFactsConfig,
    batches: Vec<InputBatch>,
    outcome: Result<SemanticFactsEvidence>,
) -> bool {
    let bytes = merge_bytes(
        snapshot.catalog.physical_rows as int,
        115,
        batches@.len() as int,
        config.merge_fan_in as int,
    );
    if bytes > u64::MAX {
        outcome == Err::<SemanticFactsEvidence, Error>(
            Error::Invalid("semantic disk estimate overflowed"),
        )
    } else {
        exists|ran: Result<(BatchProgress, MergeOutcome)>| #[trigger]
            runs_outcome(
                steps,
                budget_of(bytes as u64, 0, config.disk_reserve_bytes),
                Seq::empty(),
                batches@,
                snapshot.locations@.len() as int,
                (MergeSettings { fan_in: config.merge_fan_in, width: 115, reconcile: true, derived: false }),
                ran,
            ) && match ran {
                Err(error) => outcome == Err::<SemanticFactsEvidence, Error>(error),
                Ok((progress, merged)) => facts_from_run(
                    read,
                    encode,
                    snapshot,
                    as_of_epoch,
                    config,
                    batches@.len() as usize,
                    progress,
                    merged,
                    outcome,
                ),
            }
    }
}

/// What a build of semantic facts comes to.
pub open spec fn builds_facts<
    L: Fn(&Vec<InputIdentity>, BatchLimits) -> Result<Vec<InputBatch>>,
    P: Fn(DiskBudget) -> Result<()>,
    B: Fn(&InputBatch, usize, usize) -> Result<BatchRun>,
    E: Fn() -> Result<CompletedRun>,
    M: Fn(u32, usize, &[CompletedRun]) -> Result<(CompletedRun, usize)>,
    R: Fn(&CompletedRun) -> Result<Vec<SemanticRecord>>,
    J: Fn(&SemanticRollups) -> Result<Vec<u8>>,
>(
    steps: BuildSteps<L, P, B, E, M>,
    read: R,
    encode: J,
    snapshot: ResolvedSnapshot,
    as_of_epoch: u64,
    config: SemanticFactsConfig,
    outcome: Result<SemanticFactsEvidence>,
) -> bool {
    if !config_fits(snapshot, as_of_epoch, config) || has_empty_object(snapshot.catalog) {
        outcome is Err && outcome->Err_0 is Invalid
    } else {
        exists|planned: Result<Vec<InputBatch>>| #[trigger]
            plan_gives(
                *steps.plan,
                object_input_list(snapshot.catalog.objects@),
                config.batch_limits,
                planned,
            ) && match planned {
                Err(error) => outcome == Err::<SemanticFactsEvidence, Error>(error),
                Ok(batches) => facts_from_batches(
                    steps,
                    read,
                    encode,
                    snapshot,
                    as_of_epoch,
                    config,
                    batches,
                    outcome,
                ),
            }
    }
}

/// Summarize the records of the last run and complete the evidence.
fn finish_facts<J: Fn(&SemanticRollups) -> Result<Vec<u8>>>(
    encode: &J,
    snapshot: &ResolvedSnapshot,
    as_of_epoch: u64,
    config: &SemanticFactsConfig,
    batch_count: usize,
    progress: BatchProgress,
    merged: MergeOutcome,
    records: &Vec<SemanticRecord>,
) -> (outcome: Result<SemanticFactsEvidence>)
    requires
        forall|rollups: &SemanticRollups| #[trigger] call_requires(*encode, (rollups,)),
    ensures
        facts_from_records(
            *encode,
            *snapshot,
            as_of_epoch,
            *config,
            batch_count,
            progress,
            merged,
            records@,
            outcome,
        ),
{
    let (rollups, counts) = match finalize(records) {
        Ok(summary) => summary,
        Err(error) => {
            return Err(error);
        },
    };
    assert(summarizes_facts(rollups, counts, records@));
    let json: Vec<u8> = match encode(&rollups) {
        Ok(bytes) => bytes,
        Err(error) => {
            return Err(error);
        },
    };
    complete_semantic_facts(
        snapshot,
        as_of_epoch,
        config,
        batch_count,
        progress,
        merged,
        rollups,
        counts,
        json.as_slice(),
    )
}

/// Build the semantic facts of a snapshot.
///
/// `read` reads the records of a run, and `encode` writes rollups as JSON.
pub fn build_bounded_semantic_facts<
    L: Fn(&Vec<InputIdentity>, BatchLimits) -> Result<Vec<InputBatch>>,
    P: Fn(DiskBudget) -> Result<()>,
    B: Fn(&InputBatch, usize, usize) -> Result<BatchRun>,
    E: Fn() -> Result<CompletedRun>,
    M: Fn(u32, usize, &[CompletedRun]) -> Result<(CompletedRun, usize)>,
    R: Fn(&CompletedRun) -> Result<Vec<SemanticRecord>>,
    J: Fn(&SemanticRollups) -> Result<Vec<u8>>,
>(
    snapshot: &ResolvedSnapshot,
    as_of_epoch: u64,
    config: &SemanticFactsConfig,
    steps: &BuildSteps<L, P, B, E, M>,
    read: &R,
    encode: &J,
) -> (outcome: Result<SemanticFactsEvidence>)
    requires
        steps_callable(*steps),
        forall|run: &CompletedRun| #[trigger] call_requires(*read, (run,)),
        forall|rollups: &SemanticRollups| #[trigger] call_requires(*encode, (rollups,)),
    ensures
        builds_facts(*steps, *read, *encode, *snapshot, as_of_epoch, *config, outcome),
{
    match validate_config(snapshot, as_of_epoch, config) {
        Ok(()) => {},
        Err(error) => {
            return Err(error);
        },
    }
    let inputs: Vec<InputIdentity> = match catalog_inputs(&snapshot.catalog) {
        Ok(inputs) => inputs,
        Err(error) => {
            return Err(error);
        },
    };
    assert(inputs@ =~= object_input_list(snapshot.catalog.objects@));
    let plan: &L = steps.plan;
    let batches: Vec<InputBatch> = match plan(&inputs, config.batch_limits) {
        Ok(batches) => {
            assert(plan_gives(*steps.plan, inputs@, config.batch_limits, Ok(batches)));
            batches
        },
        Err(error) => {
            assert(plan_gives(*steps.plan, inputs@, config.batch_limits, Err(error)));
            return Err(error);
        },
    };
    let bytes: u64 = match estimate_run_bytes(
        snapshot.catalog.physical_rows,
        batches.len(),
        config.merge_fan_in,
    ) {
        Ok(bytes) => bytes,
        Err(error) => {
            return Err(error);
        },
    };
    let settings: MergeSettings = MergeSettings {
        fan_in: config.merge_fan_in,
        width: 115,
        reconcile: true,
        derived: false,
    };
    let first: Vec<CompletedRun> = Vec::new();
    assert(first@ =~= Seq::empty());
    let budget: DiskBudget = run_budget(bytes, 0, config.disk_reserve_bytes);
    let ran: Result<(BatchProgress, MergeOutcome)> = build_runs(
        steps,
        budget,
        first,
        &batches,
        snapshot.locations.len(),
        settings,
    );
    assert(runs_outcome(
        *steps,
        budget_of(bytes, 0, config.disk_reserve_bytes),
        Seq::empty(),
        batches@,
        snapshot.locations@.len() as int,
        (MergeSettings { fan_in: config.merge_fan_in, width: 115, reconcile: true, derived: false }),
        ran,
    ));
    let (progress, merged) = match ran {
        Ok(built) => built,
        Err(error) => {
            return Err(error);
        },
    };
    let records: Vec<SemanticRecord> = match read(&merged.final_run) {
        Ok(records) => records,
        Err(error) => {
            assert(facts_from_run(
                *read,
                *encode,
                *snapshot,
                as_of_epoch,
                *config,
                batches@.len() as usize,
                progress,
                merged,
                Err(error),
            ));
            return Err(error);
        },
    };
    let ghost (held, last) = (progress, merged);
    let outcome: Result<SemanticFactsEvidence> = finish_facts(
        encode,
        snapshot,
        as_of_epoch,
        config,
        batches.len(),
        progress,
        merged,
        &records,
    );
    assert(facts_from_run(
        *read,
        *encode,
        *snapshot,
        as_of_epoch,
        *config,
        batches@.len() as usize,
        held,
        last,
        outcome,
    ));
    outcome
}

} // verus!
