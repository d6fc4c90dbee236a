//! Building first-seen products.

use vstd::prelude::*;
use vstd::string::*;

use crate::advance::{is_advance, plan_advances};
use crate::artifact::{BatchLimits, EncodedRun, InputIdentity, RunIdentity};
use crate::batches::BatchProgress;
use crate::bytes::{be_bytes, lemma_be_bytes_round_trip, lex_less, push_be, push_bytes};
use crate::digest::{sha256_hex, sha256_text};
use crate::error::{checked_add, Error, Result};
use crate::fixed_activity::{metric_digest, metric_sha256};
use crate::input::ResolvedSnapshot;
use crate::merge::{estimate_merge_bytes, merge_bytes, MergeOutcome};
use crate::plan::CatalogDeltaPlan;
use crate::pubkey_first_seen::{
    finalizable, new_users_table, served_count, BoundedPubkeyFirstSeen, NewUsersDaily,
    PubkeyFirstSeenEvidence, SeenBounds, PUBKEY_FIRST_SEEN_BYTES, PUBKEY_FIRST_SEEN_KEY_BYTES,
    PUBKEY_FIRST_SEEN_VERSION, RUNNER_VERSION,
};
use crate::records::{record, record_count};
use crate::run_writer::{encode_entries, entries_increase, entry_step};
use crate::runs::text_bytes;
use crate::text::{strip_prefix, without_prefix};

verus! {

/// Resource settings for the bounded first-seen lane.
#[derive(Clone, Debug)]
pub struct PubkeyFirstSeenConfig {
    /// Dedicated immutable run root.
    pub work_root: String,
    /// Catalog byte and row ceilings for each scan.
    pub batch_limits: BatchLimits,
    /// Maximum runs opened by one streaming merge.
    pub merge_fan_in: usize,
    /// Free bytes left untouched on the work filesystem.
    pub disk_reserve_bytes: u64,
}

/// Check the settings of a build; `api_timestamp_max` is the latest boundary
/// that the serving interface takes.
pub fn validate_config(
    snapshot: &ResolvedSnapshot,
    as_of_epoch: u64,
    config: &PubkeyFirstSeenConfig,
    api_timestamp_max: u64,
) -> (outcome: Result<()>)
    ensures
        outcome is Ok <==> as_of_epoch <= api_timestamp_max && config.merge_fan_in >= 2
            && snapshot.locations@.len() == snapshot.catalog.objects@.len(),
        outcome is Err ==> outcome == Err::<(), Error>(
            Error::Invalid("invalid first-seen build configuration"),
        ),
{
    if as_of_epoch > api_timestamp_max || config.merge_fan_in < 2 || snapshot.locations.len()
        != snapshot.catalog.objects.len() {
        return Err(Error::Invalid("invalid first-seen build configuration"));
    }
    Ok(())
}

/// Check the settings and the plan of an incremental build.
pub fn validate_advance(
    baseline: &BoundedPubkeyFirstSeen,
    target: &ResolvedSnapshot,
    plan: &CatalogDeltaPlan,
    delta_locations: usize,
    as_of_epoch: u64,
    config: &PubkeyFirstSeenConfig,
    api_timestamp_max: u64,
) -> (outcome: Result<()>)
    ensures
        outcome is Ok <==> as_of_epoch <= api_timestamp_max && config.merge_fan_in >= 2
            && is_advance(
            *plan,
            target.catalog.snapshot_id@,
            baseline.evidence.snapshot_id@,
            delta_locations as int,
        ),
        outcome is Err ==> outcome == Err::<(), Error>(
            Error::Invalid("invalid incremental first-seen build configuration"),
        ),
{
    if as_of_epoch > api_timestamp_max || config.merge_fan_in < 2 || !plan_advances(
        plan,
        target.catalog.snapshot_id.as_str(),
        baseline.evidence.snapshot_id.as_str(),
        delta_locations,
    ) {
        return Err(Error::Invalid("invalid incremental first-seen build configuration"));
    }
    Ok(())
}

/// One scanned publisher with the second of its first eligible event.
#[derive(Clone, Debug, PartialEq, Eq)]
pub struct ScannedFirstSeen {
    /// Publisher key.
    pub pubkey: Vec<u8>,
    /// First second.
    pub first_seen: u64,
}

/// The record of a scanned publisher.
pub open spec fn scanned_seen_record(row: ScannedFirstSeen) -> Seq<u8> {
    row.pubkey@ + be_bytes(row.first_seen as nat, 8)
}

/// Publisher `i` has a larger key than the one before it.
pub open spec fn scan_step(rows: Seq<ScannedFirstSeen>, i: int) -> bool {
    lex_less(rows[i - 1].pubkey@, rows[i].pubkey@)
}

/// Every key has 32 bytes, and the keys strictly increase.
pub open spec fn scan_agrees(rows: Seq<ScannedFirstSeen>) -> bool {
    &&& forall|i: int| 0 <= i < rows.len() ==> (#[trigger] rows[i]).pubkey@.len() == 32
    &&& forall|i: int| 0 < i < rows.len() ==> #[trigger] scan_step(rows, i)
}

/// Encode the sorted rows of a first-seen scan.
pub fn scan_first_seen(rows: &Vec<ScannedFirstSeen>) -> (outcome: Result<EncodedRun>)
    ensures
        outcome is Ok <==> scan_agrees(rows@),
        match outcome {
            Ok(run) => {
                &&& run.rows == rows@.len()
                &&& run.bytes@.len() == rows@.len() * 40
                &&& forall|i: int|
                    0 <= i < rows@.len() ==> #[trigger] record(run.bytes@, 40, i)
                        == scanned_seen_record(rows@[i])
                &&& run.keys_are(
                    rows@.len() > 0,
                    rows@[0].pubkey@,
                    rows@[rows@.len() - 1].pubkey@,
                )
            },
            Err(error) => error is Invalid,
        },
{
    let mut entries: Vec<Vec<u8>> = Vec::new();
    let mut i: usize = 0;
    while i < rows.len()
        invariant
            i <= rows@.len(),
            entries@.len() == i,
            forall|j: int|
                0 <= j < i ==> (#[trigger] entries@[j])@ == scanned_seen_record(rows@[j])
                    && entries@[j]@.len() == 40,
            forall|j: int| 0 <= j < i ==> (#[trigger] rows@[j]).pubkey@.len() == 32,
        decreases rows.len() - i,
    {
        let row: &ScannedFirstSeen = &rows[i];
        if row.pubkey.len() != 32 {
            assert(rows@[i as int].pubkey@.len() != 32);
            return Err(Error::Invalid("Parquet pubkey does not have 32 bytes"));
        }
        let mut entry: Vec<u8> = Vec::new();
        push_bytes(&mut entry, row.pubkey.as_slice());
        push_be(&mut entry, row.first_seen, 8);
        proof {
            assert(entry@ =~= scanned_seen_record(*row));
            lemma_be_bytes_round_trip(row.first_seen as nat, 8);
        }
        entries.push(entry);
        i += 1;
    }
    proof {
        assert forall|i: int| 0 <= i < rows@.len() implies (#[trigger] entries@[i])@.take(32)
            == rows@[i].pubkey@ by {
            assert(entries@[i]@.take(32) =~= rows@[i].pubkey@);
        }
        assert forall|i: int| 0 < i < rows@.len() implies #[trigger] scan_step(rows@, i)
            == entry_step(entries@, 32, i) by {
            assert(entries@[i - 1]@.take(32) == rows@[i - 1].pubkey@);
            assert(entries@[i]@.take(32) == rows@[i].pubkey@);
        }
        if entries_increase(entries@, 32) {
            assert forall|i: int| 0 < i < rows@.len() implies #[trigger] scan_step(rows@, i) by {
                assert(entry_step(entries@, 32, i));
            }
        } else {
            let i = choose|i: int|
                0 < i < entries@.len() && !#[trigger] entry_step(entries@, 32, i);
            assert(!scan_step(rows@, i));
        }
    }
    match encode_entries(&entries, PUBKEY_FIRST_SEEN_BYTES, PUBKEY_FIRST_SEEN_KEY_BYTES) {
        None => Err(Error::Invalid("batch pubkeys are not strictly sorted")),
        Some(run) => {
            proof {
                if rows@.len() > 0 {
                    assert(entries@[0]@.take(32) == rows@[0].pubkey@);
                    assert(entries@[rows@.len() - 1]@.take(32) == rows@[rows@.len() - 1].pubkey@);
                }
            }
            Ok(run)
        },
    }
}

/// The identity of one phase of the build.
pub fn run_identity(snapshot_id: &str, as_of_epoch: u64, phase: &str) -> (run: RunIdentity)
    ensures
        crate::runs::identifies_stage(
            run,
            snapshot_id@,
            as_of_epoch,
            "pubkey-first-seen"@ + "-"@ + phase@,
            PUBKEY_FIRST_SEEN_VERSION@,
            "pubkey-32-first-seen-u64-be-v1"@,
        ),
{
    crate::runs::stage_identity(
        snapshot_id,
        as_of_epoch,
        "pubkey-first-seen",
        phase,
        PUBKEY_FIRST_SEEN_VERSION,
        "pubkey-32-first-seen-u64-be-v1",
    )
}

/// The input of a build without objects.
pub fn empty_input(snapshot_id: &str) -> (outcome: Result<InputIdentity>)
    ensures
        match outcome {
            Ok(input) => {
                &&& without_prefix(snapshot_id@, "sha256:"@) == Some(input.sha256@)
                &&& input.identity@ == "catalog: "@ + snapshot_id@
                &&& input.byte_size == 0
                &&& input.row_count == 0
            },
            Err(error) => {
                &&& without_prefix(snapshot_id@, "sha256:"@) is None
                &&& error == Error::Invalid("invalid snapshot ID")
            },
        },
{
    match strip_prefix(snapshot_id, "sha256:") {
        None => Err(Error::Invalid("invalid snapshot ID")),
        Some(digest) => {
            let mut identity: String = "catalog: ".to_owned();
            identity.append(snapshot_id);
            Ok(InputIdentity { identity, byte_size: 0, row_count: 0, sha256: digest.to_owned() })
        },
    }
}

/// What a merge digest covers: name and digest of every input.
pub open spec fn merge_message(inputs: Seq<InputIdentity>) -> Seq<u8>
    decreases inputs.len(),
{
    if inputs.len() == 0 {
        Seq::empty()
    } else {
        merge_message(inputs.drop_last()) + text_bytes(inputs.last().identity@) + text_bytes(
            inputs.last().sha256@,
        )
    }
}

/// The digest that names a merge by its inputs.
pub fn merge_identity(inputs: &Vec<InputIdentity>) -> (digest: String)
    ensures
        digest@ == sha256_text(merge_message(inputs@)),
        digest@.len() == 64,
{
    let mut message: Vec<u8> = Vec::new();
    let mut i: usize = 0;
    proof {
        assert(inputs@.take(0) =~= Seq::empty());
        assert(message@ =~= merge_message(inputs@.take(0)));
    }
    while i < inputs.len()
        invariant
            i <= inputs@.len(),
            message@ == merge_message(inputs@.take(i as int)),
        decreases inputs.len() - i,
    {
        push_bytes(&mut message, inputs[i].identity.as_str().as_bytes());
        push_bytes(&mut message, inputs[i].sha256.as_str().as_bytes());
        proof {
            assert(inputs@.take(i + 1).drop_last() =~= inputs@.take(i as int));
        }
        i += 1;
    }
    assert(inputs@.take(inputs@.len() as int) =~= inputs@);
    sha256_hex(message.as_slice())
}

/// Estimate the run bytes of a build over `runs` runs.
pub fn estimate_run_bytes(rows: u64, runs: usize, fan_in: usize) -> (bytes: Result<u64>)
    requires
        fan_in >= 2,
    ensures
        ({
            let exact = merge_bytes(rows as int, 40, runs as int, fan_in as int);
            &&& exact <= u64::MAX ==> bytes == Ok::<u64, Error>(exact as u64)
            &&& exact > u64::MAX ==> bytes == Err::<u64, Error>(Error::Invalid("run estimate overflowed"))
        }),
{
    estimate_merge_bytes(rows, PUBKEY_FIRST_SEEN_BYTES as u64, runs, fan_in, "run estimate overflowed")
}

/// Estimate the run bytes of an incremental build: the baseline is one more run.
pub fn estimate_advance_bytes(
    baseline: &BoundedPubkeyFirstSeen,
    plan: &CatalogDeltaPlan,
    batches: usize,
    fan_in: usize,
) -> (bytes: Result<u64>)
    requires
        fan_in >= 2,
    ensures
        ({
            let rows = baseline.evidence.first_seen_records + plan.added_physical_rows;
            let runs = if batches < usize::MAX {
                batches + 1
            } else {
                usize::MAX as int
            };
            let exact = merge_bytes(rows, 40, runs, fan_in as int);
            match bytes {
                Ok(total) => rows <= u64::MAX && total == exact,
                Err(error) => {
                    &&& error is Invalid
                    &&& rows > u64::MAX || exact > u64::MAX
                },
            }
        }),
{
    let rows: u64 = match checked_add(
        baseline.evidence.first_seen_records,
        plan.added_physical_rows,
        "first-seen row estimate overflowed",
    ) {
        Ok(rows) => rows,
        Err(error) => {
            return Err(error);
        },
    };
    let runs: usize = if batches < usize::MAX {
        batches + 1
    } else {
        usize::MAX
    };
    estimate_run_bytes(rows, runs, fan_in)
}

/// What a build scanned and how it was planned.
pub struct FirstSeenBuild {
    /// Fixed upper time boundary.
    pub as_of_epoch: u64,
    /// New objects scanned for this generation.
    pub delta_objects: usize,
    /// Evidence of the baseline, if any.
    pub baseline_evidence_sha256: Option<String>,
    /// Planned batches.
    pub batch_count: usize,
    /// Conservative immutable-run estimate.
    pub estimated_run_bytes: u64,
    /// Operator-selected disk reserve.
    pub disk_reserve_bytes: u64,
}

/// The evidence reports the build.
pub open spec fn completes_first_seen(
    evidence: PubkeyFirstSeenEvidence,
    snapshot: ResolvedSnapshot,
    build: FirstSeenBuild,
    progress: BatchProgress,
    merged: MergeOutcome,
    finalized: (u64, Vec<NewUsersDaily>),
    metric_json: Seq<u8>,
) -> bool {
    &&& evidence.schema_version == 1
    &&& evidence.runner_version@ == RUNNER_VERSION@
    &&& evidence.status@ == "completed"@
    &&& evidence.snapshot_id == snapshot.catalog.snapshot_id
    &&& evidence.as_of_epoch == build.as_of_epoch
    &&& evidence.object_count == snapshot.catalog.objects@.len()
    &&& evidence.batch_count == build.batch_count
    &&& evidence.merge_count == merged.merge_count
    &&& evidence.physical_rows == snapshot.catalog.physical_rows
    &&& evidence.baseline_evidence_sha256 == build.baseline_evidence_sha256
    &&& evidence.delta_object_count == build.delta_objects
    &&& evidence.first_seen_records == merged.final_run.checkpoint.artifact.row_count
    &&& evidence.eligible_pubkeys == finalized.0
    &&& evidence.new_users_daily == finalized.1
    &&& evidence.metric_sha256@ == metric_digest(metric_json)
    &&& evidence.final_artifact == merged.final_run.checkpoint.artifact
    &&& evidence.max_merge_buffered_bytes == merged.max_buffered_bytes
    &&& evidence.estimated_run_bytes == build.estimated_run_bytes
    &&& evidence.disk_reserve_bytes == build.disk_reserve_bytes
    &&& evidence.batch_checkpoints@ == progress.checkpoints@
    &&& evidence.merge_checkpoints@ == merged.checkpoints@
}

/// The evidence of a build from the state it finalized.
///
/// `metric_json` is the canonical JSON of the daily rows.
pub fn complete_first_seen(
    snapshot: &ResolvedSnapshot,
    build: FirstSeenBuild,
    progress: BatchProgress,
    merged: MergeOutcome,
    finalized: (u64, Vec<NewUsersDaily>),
    metric_json: &[u8],
) -> (evidence: PubkeyFirstSeenEvidence)
    ensures
        completes_first_seen(
            evidence,
            *snapshot,
            build,
            progress,
            merged,
            finalized,
            metric_json@,
        ),
{
    let first_seen_records: u64 = merged.final_run.checkpoint.artifact.row_count;
    PubkeyFirstSeenEvidence {
        schema_version: 1,
        runner_version: RUNNER_VERSION.to_owned(),
        status: "completed".to_owned(),
        snapshot_id: snapshot.catalog.snapshot_id.clone(),
        as_of_epoch: build.as_of_epoch,
        object_count: snapshot.catalog.objects.len() as u64,
        batch_count: build.batch_count as u64,
        merge_count: merged.merge_count,
        physical_rows: snapshot.catalog.physical_rows,
        baseline_evidence_sha256: build.baseline_evidence_sha256,
        delta_object_count: build.delta_objects as u64,
        first_seen_records,
        eligible_pubkeys: finalized.0,
        new_users_daily: finalized.1,
        metric_sha256: metric_sha256(metric_json),
        final_artifact: merged.final_run.checkpoint.artifact,
        max_merge_buffered_bytes: merged.max_buffered_bytes,
        estimated_run_bytes: build.estimated_run_bytes,
        disk_reserve_bytes: build.disk_reserve_bytes,
        batch_checkpoints: progress.checkpoints,
        merge_checkpoints: merged.checkpoints,
    }
}

/// A completed build passes the revalidation that precedes its publication.
pub proof fn lemma_completed_first_seen_revalidates(
    product: BoundedPubkeyFirstSeen,
    snapshot: ResolvedSnapshot,
    build: FirstSeenBuild,
    progress: BatchProgress,
    merged: MergeOutcome,
    finalized: (u64, Vec<NewUsersDaily>),
    state: Seq<u8>,
    metric_json: Seq<u8>,
    genesis: u64,
)
    requires
        completes_first_seen(
            product.evidence,
            snapshot,
            build,
            progress,
            merged,
            finalized,
            metric_json,
        ),
        merged.final_run.checkpoint.artifact.byte_size == state.len(),
        merged.final_run.checkpoint.artifact.sha256@ == sha256_text(state),
        ({
            let bounds = SeenBounds { genesis, as_of: build.as_of_epoch };
            &&& finalizable(
                state,
                merged.final_run.checkpoint.artifact.row_count as int,
                bounds,
            )
            &&& finalized.0 == served_count(state, record_count(state, 40), bounds)
            &&& new_users_table(finalized.1@, state, bounds)
        }),
    ensures
        product.completed_for(snapshot.catalog.snapshot_id@, build.as_of_epoch),
        product.matches_state(state, metric_json, genesis),
{
}

} // verus!
