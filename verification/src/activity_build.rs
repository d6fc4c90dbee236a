//! Building fixed-grain activity products.

use vstd::prelude::*;
use vstd::string::*;

use crate::activity::{eligible, FIXED_ACTIVITY_RECORD_BYTES};
use crate::activity_counts::FinalizedActivity;
use crate::advance::plan_advances;
use crate::artifact::{describes_records, ArtifactIdentity, BatchLimits, EncodedRun, RunIdentity};
use crate::batches::BatchProgress;
use crate::bytes::{be_bytes, lemma_be_bytes_round_trip, push_be, push_bytes};
use crate::digest::{sha256_hex, sha256_text};
use crate::error::{saturating_product, Error, Result};
use crate::fixed_activity::{
    finalizable, metric_digest, metric_sha256, weeks_defined, BoundedFixedActivity,
    FixedActivityEvidence, FIXED_ACTIVITY_VERSION, RUNNER_VERSION,
};
use crate::flexible_build::smaller;
use crate::input::ResolvedSnapshot;
use crate::merge::{estimate_merge_bytes, merge_bytes, MergeOutcome};
use crate::plan::CatalogDeltaPlan;
use crate::run_writer::{encode_entries, entries_increase};

verus! {

/// Resource settings for the fixed-grain activity lane.
#[derive(Clone, Debug)]
pub struct FixedActivityConfig {
    /// Dedicated immutable run root.
    pub work_root: String,
    /// Catalog byte and row ceilings for each scan.
    pub batch_limits: BatchLimits,
    /// Maximum runs opened by one streaming merge.
    pub merge_fan_in: usize,
    /// Free bytes left untouched on the work filesystem.
    pub disk_reserve_bytes: u64,
}

/// Check the settings of a build; `api_timestamp_max` is the latest boundary
/// that the serving interface takes.
pub fn validate_config(
    snapshot: &ResolvedSnapshot,
    as_of_epoch: u64,
    merge_fan_in: usize,
    api_timestamp_max: u64,
) -> (outcome: Result<()>)
    ensures
        outcome is Ok <==> as_of_epoch <= api_timestamp_max && merge_fan_in >= 2
            && snapshot.locations@.len() == snapshot.catalog.objects@.len(),
        outcome is Err ==> outcome == Err::<(), Error>(
            Error::Invalid("invalid fixed-activity build configuration"),
        ),
{
    if as_of_epoch > api_timestamp_max || merge_fan_in < 2 || snapshot.locations.len()
        != snapshot.catalog.objects.len() {
        return Err(Error::Invalid("invalid fixed-activity build configuration"));
    }
    Ok(())
}

/// Check that a plan advances a product to the target.
pub fn validate_advance(
    baseline: &BoundedFixedActivity,
    target: &ResolvedSnapshot,
    plan: &CatalogDeltaPlan,
    delta_locations: usize,
) -> (outcome: Result<()>)
    ensures
        outcome is Ok <==> crate::advance::is_advance(
            *plan,
            target.catalog.snapshot_id@,
            baseline.evidence.snapshot_id@,
            delta_locations as int,
        ),
        outcome is Err ==> outcome == Err::<(), Error>(
            Error::Invalid("invalid incremental fixed-activity plan"),
        ),
{
    if !plan_advances(
        plan,
        target.catalog.snapshot_id.as_str(),
        baseline.evidence.snapshot_id.as_str(),
        delta_locations,
    ) {
        return Err(Error::Invalid("invalid incremental fixed-activity plan"));
    }
    Ok(())
}

/// One scanned event.
#[derive(Clone, Debug, PartialEq, Eq)]
pub struct ScannedActivity {
    /// Publisher key.
    pub pubkey: Vec<u8>,
    /// Creation time in epoch seconds.
    pub created_at: u32,
    /// Event kind.
    pub kind: u16,
    /// Event ID.
    pub id: Vec<u8>,
}

/// The record of a scanned event: publisher, time, kind, ID.
pub open spec fn scanned_activity_record(row: ScannedActivity) -> Seq<u8> {
    row.pubkey@ + be_bytes(row.created_at as nat, 4) + be_bytes(row.kind as nat, 2) + row.id@
}

/// The key and the ID have 32 bytes.
pub open spec fn has_whole_ids(row: ScannedActivity) -> bool {
    row.pubkey@.len() == 32 && row.id@.len() == 32
}

/// The records of the scan strictly increase.
pub open spec fn scan_step(rows: Seq<ScannedActivity>, i: int) -> bool {
    crate::bytes::lex_less(
        scanned_activity_record(rows[i - 1]),
        scanned_activity_record(rows[i]),
    )
}

/// Every key and ID is whole, and the records strictly increase.
pub open spec fn scan_agrees(rows: Seq<ScannedActivity>) -> bool {
    &&& forall|i: int| 0 <= i < rows.len() ==> has_whole_ids(#[trigger] rows[i])
    &&& forall|i: int| 0 < i < rows.len() ==> #[trigger] scan_step(rows, i)
}

/// Encode the sorted rows of an activity scan.
pub fn scan_activity(rows: &Vec<ScannedActivity>) -> (outcome: Result<EncodedRun>)
    ensures
        outcome is Ok <==> scan_agrees(rows@),
        match outcome {
            Ok(run) => {
                &&& run.rows == rows@.len()
                &&& run.bytes@.len() == rows@.len() * 70
                &&& forall|i: int|
                    0 <= i < rows@.len() ==> #[trigger] crate::records::record(run.bytes@, 70, i)
                        == scanned_activity_record(rows@[i])
                &&& run.keys_are(
                    rows@.len() > 0,
                    scanned_activity_record(rows@[0]),
                    scanned_activity_record(rows@[rows@.len() - 1]),
                )
            },
            Err(error) => error is Invalid,
        },
{
    let mut entries: Vec<Vec<u8>> = Vec::new();
    let mut i: usize = 0;
    while i < rows.len()
        invariant
            i <= rows@.len(),
            entries@.len() == i,
            forall|j: int|
                0 <= j < i ==> (#[trigger] entries@[j])@ == scanned_activity_record(rows@[j])
                    && entries@[j]@.len() == 70,
            forall|j: int| 0 <= j < i ==> has_whole_ids(#[trigger] rows@[j]),
        decreases rows.len() - i,
    {
        let row: &ScannedActivity = &rows[i];
        if row.pubkey.len() != 32 {
            assert(!has_whole_ids(rows@[i as int]));
            return Err(Error::Invalid("Parquet pubkey does not have 32 bytes"));
        }
        if row.id.len() != 32 {
            assert(!has_whole_ids(rows@[i as int]));
            return Err(Error::Invalid("Parquet event ID does not have 32 bytes"));
        }
        let mut entry: Vec<u8> = Vec::new();
        push_bytes(&mut entry, row.pubkey.as_slice());
        push_be(&mut entry, row.created_at as u64, 4);
        push_be(&mut entry, row.kind as u64, 2);
        push_bytes(&mut entry, row.id.as_slice());
        proof {
            assert(entry@ =~= scanned_activity_record(*row));
            lemma_be_bytes_round_trip(row.created_at as nat, 4);
            lemma_be_bytes_round_trip(row.kind as nat, 2);
        }
        entries.push(entry);
        i += 1;
    }
    proof {
        assert forall|i: int| 0 < i < rows@.len() implies #[trigger] scan_step(rows@, i)
            == crate::run_writer::entry_step(entries@, 70, i) by {
            assert(entries@[i - 1]@.take(70) =~= entries@[i - 1]@);
            assert(entries@[i]@.take(70) =~= entries@[i]@);
        }
        if entries_increase(entries@, 70) {
            assert forall|i: int| 0 < i < rows@.len() implies #[trigger] scan_step(rows@, i) by {
                assert(crate::run_writer::entry_step(entries@, 70, i));
            }
        } else {
            let i = choose|i: int|
                0 < i < entries@.len() && !#[trigger] crate::run_writer::entry_step(
                    entries@,
                    70,
                    i,
                );
            assert(!scan_step(rows@, i));
        }
    }
    match encode_entries(&entries, FIXED_ACTIVITY_RECORD_BYTES, FIXED_ACTIVITY_RECORD_BYTES) {
        None => Err(Error::Invalid("fixed-activity batch is not strictly sorted")),
        Some(run) => {
            proof {
                if rows@.len() > 0 {
                    assert(entries@[0]@.take(70) =~= entries@[0]@);
                    assert(entries@[rows@.len() - 1]@.take(70) =~= entries@[rows@.len() - 1]@);
                }
            }
            Ok(run)
        },
    }
}

/// The identity of one phase of the build.
pub fn run_identity(snapshot_id: &str, as_of_epoch: u64, phase: &str) -> (run: RunIdentity)
    ensures
        crate::runs::identifies_stage(
            run,
            snapshot_id@,
            as_of_epoch,
            "fixed-activity"@ + "-"@ + phase@,
            FIXED_ACTIVITY_VERSION@,
            "pubkey-32-created-at-u32-kind-u16-event-id-32-v2"@,
        ),
{
    crate::runs::stage_identity(
        snapshot_id,
        as_of_epoch,
        "fixed-activity",
        phase,
        FIXED_ACTIVITY_VERSION,
        "pubkey-32-created-at-u32-kind-u16-event-id-32-v2",
    )
}

/// The identity of the flags of the build.
pub fn flags_identity(snapshot_id: &str, as_of_epoch: u64) -> (run: RunIdentity)
    ensures
        crate::runs::identifies_stage(
            run,
            snapshot_id@,
            as_of_epoch,
            "fixed-activity"@ + "-"@ + "flags"@,
            FIXED_ACTIVITY_VERSION@,
            "pubkey-32-flags-u8-v1"@,
        ),
{
    crate::runs::stage_identity(
        snapshot_id,
        as_of_epoch,
        "fixed-activity",
        "flags",
        FIXED_ACTIVITY_VERSION,
        "pubkey-32-flags-u8-v1",
    )
}

/// Bytes that the runs and flags of a build take at most.
pub open spec fn build_bytes(rows: int, runs: int, fan_in: int) -> int {
    merge_bytes(rows, 70, runs, fan_in) + smaller(rows * 33, u64::MAX as int)
}

/// Estimate the run bytes of a build.
pub fn estimate_run_bytes(rows: u64, runs: usize, fan_in: usize) -> (bytes: Result<u64>)
    requires
        fan_in >= 2,
    ensures
        ({
            let exact = build_bytes(rows as int, runs as int, fan_in as int);
            &&& exact <= u64::MAX ==> bytes == Ok::<u64, Error>(exact as u64)
            &&& exact > u64::MAX ==> bytes == Err::<u64, Error>(
                Error::Invalid("activity run estimate overflowed"),
            )
        }),
{
    let merged: u64 = match estimate_merge_bytes(
        rows,
        FIXED_ACTIVITY_RECORD_BYTES as u64,
        runs,
        fan_in,
        "activity run estimate overflowed",
    ) {
        Ok(bytes) => bytes,
        Err(error) => {
            return Err(error);
        },
    };
    match merged.checked_add(saturating_product(rows, 33)) {
        Some(bytes) => Ok(bytes),
        None => Err(Error::Invalid("activity run estimate overflowed")),
    }
}

/// What a build scanned and how it was planned.
pub struct ActivityBuild {
    /// Fixed upper time boundary.
    pub as_of_epoch: u64,
    /// New objects scanned for this generation.
    pub delta_objects: usize,
    /// Evidence of the baseline, if any.
    pub baseline_evidence_sha256: Option<String>,
    /// Planned batches.
    pub batch_count: usize,
    /// Conservative immutable-run estimate.
    pub estimated_run_bytes: u64,
    /// Operator-selected disk reserve.
    pub disk_reserve_bytes: u64,
}

/// The evidence reports the build.
pub open spec fn completes_activity(
    evidence: FixedActivityEvidence,
    snapshot: ResolvedSnapshot,
    build: ActivityBuild,
    progress: BatchProgress,
    merged: MergeOutcome,
    flags_artifact: ArtifactIdentity,
    finalized: FinalizedActivity,
    metric_json: Seq<u8>,
) -> bool {
    &&& evidence.schema_version == 1
    &&& evidence.runner_version@ == RUNNER_VERSION@
    &&& evidence.status@ == "completed"@
    &&& evidence.snapshot_id == snapshot.catalog.snapshot_id
    &&& evidence.as_of_epoch == build.as_of_epoch
    &&& evidence.object_count == snapshot.catalog.objects@.len()
    &&& evidence.delta_object_count == build.delta_objects
    &&& evidence.physical_rows == snapshot.catalog.physical_rows
    &&& evidence.baseline_evidence_sha256 == build.baseline_evidence_sha256
    &&& evidence.batch_count == build.batch_count
    &&& evidence.merge_count == merged.merge_count
    &&& evidence.activity_artifact == merged.final_run.checkpoint.artifact
    &&& evidence.flags_artifact == flags_artifact
    &&& evidence.metric_sha256@ == metric_digest(metric_json)
    &&& evidence.distinct_period_rows == finalized.distinct_pubkeys@.len()
    &&& evidence.active_period_rows == finalized.active_users@.len()
    &&& evidence.max_week_kinds_buffered == finalized.max_week_kinds_buffered
    &&& evidence.max_month_kinds_buffered == finalized.max_month_kinds_buffered
    &&& evidence.distinct_pubkeys@ == finalized.distinct_pubkeys@
    &&& evidence.active_users@ == finalized.active_users@
    &&& evidence.max_merge_buffered_bytes == merged.max_buffered_bytes
    &&& evidence.estimated_run_bytes == build.estimated_run_bytes
    &&& evidence.disk_reserve_bytes == build.disk_reserve_bytes
    &&& evidence.batch_checkpoints@ == progress.checkpoints@
    &&& evidence.merge_checkpoints@ == merged.checkpoints@
}

/// The evidence of a build from the state it finalized.
///
/// `metric_json` is the canonical JSON of the finalized serving rows.
pub fn complete_fixed_activity(
    snapshot: &ResolvedSnapshot,
    build: ActivityBuild,
    progress: BatchProgress,
    merged: MergeOutcome,
    flags_artifact: ArtifactIdentity,
    finalized: FinalizedActivity,
    metric_json: &[u8],
) -> (evidence: FixedActivityEvidence)
    ensures
        completes_activity(
            evidence,
            *snapshot,
            build,
            progress,
            merged,
            flags_artifact,
            finalized,
            metric_json@,
        ),
{
    let distinct_period_rows: u64 = finalized.distinct_pubkeys.len() as u64;
    let active_period_rows: u64 = finalized.active_users.len() as u64;
    FixedActivityEvidence {
        schema_version: 1,
        runner_version: RUNNER_VERSION.to_owned(),
        status: "completed".to_owned(),
        snapshot_id: snapshot.catalog.snapshot_id.clone(),
        as_of_epoch: build.as_of_epoch,
        object_count: snapshot.catalog.objects.len() as u64,
        delta_object_count: build.delta_objects as u64,
        physical_rows: snapshot.catalog.physical_rows,
        baseline_evidence_sha256: build.baseline_evidence_sha256,
        batch_count: build.batch_count as u64,
        merge_count: merged.merge_count,
        activity_artifact: merged.final_run.checkpoint.artifact,
        flags_artifact,
        metric_sha256: metric_sha256(metric_json),
        distinct_period_rows,
        active_period_rows,
        max_week_kinds_buffered: finalized.max_week_kinds_buffered,
        max_month_kinds_buffered: finalized.max_month_kinds_buffered,
        distinct_pubkeys: finalized.distinct_pubkeys,
        active_users: finalized.active_users,
        max_merge_buffered_bytes: merged.max_buffered_bytes,
        estimated_run_bytes: build.estimated_run_bytes,
        disk_reserve_bytes: build.disk_reserve_bytes,
        batch_checkpoints: progress.checkpoints,
        merge_checkpoints: merged.checkpoints,
    }
}

/// Take up decoded evidence as a product and revalidate it.
pub fn load_bounded_fixed_activity(
    evidence: FixedActivityEvidence,
    evidence_json: &[u8],
    activity: &[u8],
    flags: &[u8],
    metric_json: &[u8],
) -> (outcome: Result<BoundedFixedActivity>)
    requires
        weeks_defined(activity@, evidence.as_of_epoch as int),
    ensures
        ({
            let product = BoundedFixedActivity {
                evidence,
                evidence_sha256: (outcome->Ok_0).evidence_sha256,
            };
            &&& outcome is Ok <==> product.completed_for(
                evidence.snapshot_id@,
                evidence.as_of_epoch,
            ) && product.matches_state(activity@, flags@, metric_json@)
            &&& match outcome {
                Ok(loaded) => {
                    &&& loaded.evidence == evidence
                    &&& loaded.evidence_sha256@ == sha256_text(evidence_json@)
                },
                Err(error) => error is Invalid,
            }
        }),
{
    let product: BoundedFixedActivity = BoundedFixedActivity {
        evidence,
        evidence_sha256: sha256_hex(evidence_json),
    };
    match product.validate_for_publication(
        product.evidence.snapshot_id.as_str(),
        product.evidence.as_of_epoch,
        activity,
        flags,
        metric_json,
    ) {
        Ok(()) => Ok(product),
        Err(error) => Err(error),
    }
}

/// A completed build passes the revalidation that precedes its publication.
pub proof fn lemma_completed_activity_revalidates(
    product: BoundedFixedActivity,
    snapshot: ResolvedSnapshot,
    build: ActivityBuild,
    progress: BatchProgress,
    merged: MergeOutcome,
    flags_artifact: ArtifactIdentity,
    finalized: FinalizedActivity,
    activity: Seq<u8>,
    flags: Seq<u8>,
    metric_json: Seq<u8>,
)
    requires
        completes_activity(
            product.evidence,
            snapshot,
            build,
            progress,
            merged,
            flags_artifact,
            finalized,
            metric_json,
        ),
        describes_records(merged.final_run.checkpoint.artifact, 70, activity),
        describes_records(flags_artifact, 33, flags),
        finalizable(
            activity,
            flags,
            merged.final_run.checkpoint.artifact.row_count as int,
            flags_artifact.row_count as int,
            build.as_of_epoch as int,
        ),
        finalized.summarizes(eligible(activity, build.as_of_epoch as int), flags),
    ensures
        product.completed_for(snapshot.catalog.snapshot_id@, build.as_of_epoch),
        product.matches_state(activity, flags, metric_json),
{
}

} // verus!
