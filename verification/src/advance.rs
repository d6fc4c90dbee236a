//! Advancing a product from a baseline by an append-only catalog delta.

use vstd::prelude::*;
use vstd::string::*;

use crate::artifact::{copy_artifact, ArtifactIdentity, InputIdentity, RunCheckpoint, RunIdentity};
use crate::error::{checked_add, Error, Result};
use crate::merge::CompletedRun;
use crate::plan::{CatalogDeltaPlan, PlannedRunKind};
use crate::text::text_equal;

verus! {

/// The plan leads from the baseline snapshot to the target by additions alone,
/// and every added object has a location.
pub open spec fn is_advance(
    plan: CatalogDeltaPlan,
    target_snapshot_id: Seq<char>,
    baseline_snapshot_id: Seq<char>,
    locations: int,
) -> bool {
    &&& plan.run_kind == PlannedRunKind::Incremental
    &&& plan.snapshot_id@ == target_snapshot_id
    &&& plan.previous_snapshot_id is Some
    &&& plan.previous_snapshot_id->0@ == baseline_snapshot_id
    &&& plan.removed_objects@.len() == 0
    &&& plan.added_objects@.len() == locations
}

/// Whether the plan leads from the baseline to the target by additions alone.
pub fn plan_advances(
    plan: &CatalogDeltaPlan,
    target_snapshot_id: &str,
    baseline_snapshot_id: &str,
    locations: usize,
) -> (advances: bool)
    ensures
        advances == is_advance(
            *plan,
            target_snapshot_id@,
            baseline_snapshot_id@,
            locations as int,
        ),
{
    let follows: bool = match &plan.previous_snapshot_id {
        None => false,
        Some(previous) => text_equal(previous.as_str(), baseline_snapshot_id),
    };
    plan.run_kind == PlannedRunKind::Incremental && text_equal(
        plan.snapshot_id.as_str(),
        target_snapshot_id,
    ) && follows && plan.removed_objects.len() == 0 && plan.added_objects.len() == locations
}

/// Schema and runner of the checkpoints of a build.
#[derive(Clone, Debug, PartialEq, Eq)]
pub struct CheckpointVersion {
    /// Schema of the checkpoint.
    pub schema_version: u32,
    /// Identity of the runner.
    pub runner_version: String,
}

/// The state of a baseline as the first run of its successor.
pub fn baseline_run(
    evidence_sha256: &str,
    artifact: &ArtifactIdentity,
    run: RunIdentity,
    version: CheckpointVersion,
) -> (completed: CompletedRun)
    ensures
        completed.identity@ == "baseline-evidence:"@ + evidence_sha256@,
        completed.path == artifact.path,
        completed.checkpoint_path@ == Seq::<char>::empty(),
        completed.checkpoint.schema_version == version.schema_version,
        completed.checkpoint.runner_version == version.runner_version,
        completed.checkpoint.run == run,
        completed.checkpoint.inputs@.len() == 0,
        completed.checkpoint.artifact == *artifact,
{
    let mut identity: String = "baseline-evidence:".to_owned();
    identity.append(evidence_sha256);
    proof {
        reveal_strlit("");
        assert(""@ =~= Seq::<char>::empty());
    }
    CompletedRun {
        identity,
        path: artifact.path.clone(),
        checkpoint_path: "".to_owned(),
        checkpoint: RunCheckpoint {
            schema_version: version.schema_version,
            runner_version: version.runner_version,
            run,
            inputs: Vec::new(),
            artifact: copy_artifact(artifact),
        },
    }
}

/// Rows of all inputs.
pub open spec fn input_rows(inputs: Seq<InputIdentity>) -> int
    decreases inputs.len(),
{
    if inputs.len() == 0 {
        0
    } else {
        input_rows(inputs.drop_last()) + inputs.last().row_count
    }
}

/// Rows never decrease with more inputs.
proof fn lemma_rows_grow(inputs: Seq<InputIdentity>, count: int)
    requires
        0 <= count <= inputs.len(),
    ensures
        0 <= input_rows(inputs.take(count)) <= input_rows(inputs),
    decreases inputs.len(),
{
    if count == inputs.len() {
        assert(inputs.take(count) =~= inputs);
        if inputs.len() > 0 {
            lemma_rows_grow(inputs.drop_last(), count - 1);
            assert(inputs.drop_last().take(count - 1) =~= inputs.drop_last());
        }
    } else {
        lemma_rows_grow(inputs.drop_last(), count);
        assert(inputs.drop_last().take(count) =~= inputs.take(count));
    }
}

/// Rows of a baseline and all inputs.
pub fn estimate_rows(baseline_rows: u64, inputs: &Vec<InputIdentity>, name: &'static str) -> (rows:
    Result<u64>)
    ensures
        ({
            let exact = baseline_rows + input_rows(inputs@);
            match rows {
                Ok(total) => total == exact,
                Err(error) => exact > u64::MAX && error == Error::Invalid(name),
            }
        }),
{
    let mut total: u64 = baseline_rows;
    let mut i: usize = 0;
    assert(inputs@.take(0) =~= Seq::empty());
    while i < inputs.len()
        invariant
            i <= inputs@.len(),
            total == baseline_rows + input_rows(inputs@.take(i as int)),
        decreases inputs.len() - i,
    {
        proof {
            assert(inputs@.take(i + 1).drop_last() =~= inputs@.take(i as int));
            lemma_rows_grow(inputs@, i + 1);
        }
        match checked_add(total, inputs[i].row_count, name) {
            Ok(sum) => {
                total = sum;
            },
            Err(error) => {
                return Err(error);
            },
        }
        i += 1;
    }
    assert(inputs@.take(inputs@.len() as int) =~= inputs@);
    Ok(total)
}

} // verus!
