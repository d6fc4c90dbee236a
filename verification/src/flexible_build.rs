//! Planning and evidence of flexible distinct builds.

use vstd::prelude::*;
use vstd::string::*;

use crate::activity::{activity_fact, created_at};
use crate::artifact::{
    copy_artifact, describes_records, ArtifactIdentity, InputIdentity, RunIdentity,
};
use crate::bytes::be_nat;
use crate::calendar::floor_hour;
use crate::digest::sha256_text;
use crate::error::{saturating_product, Error, Result};
use crate::fixed_activity::BoundedFixedActivity;
use crate::flexible_distinct::{
    completed_for, group_leaves, largest_sketch, leaves_cover, product_valid,
    FlexibleDistinctConfig, FlexibleDistinctEvidence, FlexibleRevalidation,
    FLEXIBLE_DISTINCT_VERSION, RUNNER_VERSION,
};
use crate::hour_identities::{
    cuts_groups, describes_identity, has_identity, holds_run, hour_identity, identity_at,
    lemma_group_within, lemma_groups_ordered, LeafGroup,
};
use crate::leaf_stream::{
    leaf_rank, leaf_records, leaves_ordered, lemma_leaves_round_trip, MAX_SERIALIZED_SKETCH_BYTES,
};
use crate::merge::{div_up, estimate_merge_bytes, merge_bytes, MergeOutcome};
use crate::records::{record, record_count, sorted_stream};
use crate::text::{decimal, push_decimal, text_equal};

verus! {

/// Check the settings of a build.
pub fn validate_config(config: &FlexibleDistinctConfig) -> (outcome: Result<()>)
    ensures
        outcome is Ok <==> config.source_records_per_batch > 0 && config.merge_fan_in >= 2,
        outcome is Err ==> outcome == Err::<(), Error>(
            Error::Invalid("invalid flexible distinct build configuration"),
        ),
{
    if config.source_records_per_batch == 0 || config.merge_fan_in < 2 {
        return Err(Error::Invalid("invalid flexible distinct build configuration"));
    }
    Ok(())
}

/// Consecutive records of the activity stream that one batch transforms.
#[derive(Clone, Copy, Debug, PartialEq, Eq, Structural)]
pub struct SourceChunk {
    /// Number of the first record.
    pub offset: u64,
    /// Number of records.
    pub rows: u64,
}

/// The smaller of two numbers.
pub open spec fn smaller(a: int, b: int) -> int {
    if a <= b {
        a
    } else {
        b
    }
}

/// The chunks cut `total` records into batches of `per_batch`; the last one
/// takes what is left.
pub open spec fn cuts_source(chunks: Seq<SourceChunk>, total: int, per_batch: int) -> bool {
    &&& chunks.len() == div_up(total, per_batch)
    &&& forall|i: int|
        0 <= i < chunks.len() ==> is_chunk(#[trigger] chunks[i], i, total, per_batch)
}

/// The chunk is number `index`.
pub open spec fn is_chunk(chunk: SourceChunk, index: int, total: int, per_batch: int) -> bool {
    &&& chunk.offset == index * per_batch
    &&& chunk.rows == smaller(per_batch, total - index * per_batch)
    &&& chunk.rows > 0
}

/// Plan the source batches of a build.
pub fn plan_source_chunks(total: u64, per_batch: u64) -> (outcome: Result<Vec<SourceChunk>>)
    requires
        per_batch > 0,
    ensures
        match outcome {
            Ok(chunks) => cuts_source(chunks@, total as int, per_batch as int),
            Err(error) => {
                &&& error == Error::Invalid("flexible batch count exceeds usize")
                &&& div_up(total as int, per_batch as int) > usize::MAX
            },
        },
{
    let ghost full = div_up(total as int, per_batch as int);
    let mut chunks: Vec<SourceChunk> = Vec::new();
    let mut offset: u64 = 0;
    assert(0 * per_batch == 0) by (nonlinear_arith);
    while offset < total
        invariant
            per_batch > 0,
            full == div_up(total as int, per_batch as int),
            offset <= total,
            chunks@.len() <= usize::MAX,
            offset == smaller(chunks@.len() * per_batch, total as int),
            forall|i: int|
                0 <= i < chunks@.len() ==> is_chunk(
                    #[trigger] chunks@[i],
                    i,
                    total as int,
                    per_batch as int,
                ),
            chunks@.len() > 0 ==> (chunks@.len() - 1) * per_batch < total,
        decreases total - offset,
    {
        let left: u64 = total - offset;
        let rows: u64 = if per_batch < left {
            per_batch
        } else {
            left
        };
        let ghost n = chunks@.len() as int;
        if chunks.len() == usize::MAX {
            proof {
                lemma_div_up(total as int, per_batch as int, n + 1);
                assert(full > usize::MAX);
            }
            return Err(Error::Invalid("flexible batch count exceeds usize"));
        }
        chunks.push(SourceChunk { offset, rows });
        proof {
            assert((n + 1) * per_batch == n * per_batch + per_batch) by (nonlinear_arith);
        }
        offset = offset + rows;
    }
    proof {
        let n = chunks@.len() as int;
        if n > 0 {
            lemma_div_up(total as int, per_batch as int, n);
        } else {
            assert(total == 0);
            assert(0int / per_batch as int == 0) by (nonlinear_arith)
                requires
                    per_batch > 0,
            ;
            assert(0int % per_batch as int == 0) by (nonlinear_arith)
                requires
                    per_batch > 0,
            ;
        }
        lemma_div_up_exact(total as int, per_batch as int, n);
    }
    Ok(chunks)
}

/// More than `(count - 1) * per` items take at least `count` batches.
proof fn lemma_div_up(total: int, per: int, count: int)
    requires
        per > 0,
        count > 0,
        (count - 1) * per < total,
    ensures
        div_up(total, per) >= count,
{
    vstd::arithmetic::div_mod::lemma_fundamental_div_mod(total, per);
    let q = total / per;
    let r = total % per;
    vstd::arithmetic::div_mod::lemma_mod_bound(total, per);
    if q < count - 1 {
        assert(per * q + r < (count - 1) * per) by (nonlinear_arith)
            requires
                q <= count - 2,
                r < per,
                per > 0,
        ;
    }
    if q == count - 1 && r == 0 {
        assert(per * q == (count - 1) * per) by (nonlinear_arith)
            requires
                q == count - 1,
        ;
    }
}

/// At most `count * per` items take at most `count` batches.
proof fn lemma_div_up_exact(total: int, per: int, count: int)
    requires
        per > 0,
        count >= 0,
        0 <= total <= count * per,
    ensures
        div_up(total, per) <= count,
{
    vstd::arithmetic::div_mod::lemma_fundamental_div_mod(total, per);
    vstd::arithmetic::div_mod::lemma_mod_bound(total, per);
    let q = total / per;
    let r = total % per;
    if q >= count && r > 0 || q > count {
        assert(per * q + r > count * per) by (nonlinear_arith)
            requires
                q >= count && r > 0 || q >= count + 1,
                r >= 0,
                per > 0,
        ;
    }
}

/// Identity bytes that the largest batch holds.
pub fn batch_buffered_bytes(total: u64, per_batch: u64) -> (bytes: Result<u64>)
    ensures
        ({
            let exact = smaller(per_batch as int, total as int) * 38;
            &&& exact <= u64::MAX ==> bytes == Ok::<u64, Error>(exact as u64)
            &&& exact > u64::MAX ==> bytes == Err::<u64, Error>(
                Error::Invalid("flexible batch memory evidence overflowed"),
            )
        }),
{
    let rows: u64 = if per_batch <= total {
        per_batch
    } else {
        total
    };
    match rows.checked_mul(38) {
        Some(bytes) => Ok(bytes),
        None => Err(Error::Invalid("flexible batch memory evidence overflowed")),
    }
}

/// The identities of the batches are those of the whole activity stream.
pub proof fn lemma_chunks_keep_identities(
    activity: Seq<u8>,
    chunks: Seq<SourceChunk>,
    per_batch: int,
    boundary: int,
    identity: Seq<u8>,
)
    requires
        per_batch > 0,
        activity.len() == record_count(activity, 70) * 70,
        cuts_source(chunks, record_count(activity, 70), per_batch),
    ensures
        has_identity(activity, boundary, identity) <==> exists|c: int|
            0 <= c < chunks.len() && has_identity(
                #[trigger] chunk_bytes(activity, chunks[c]),
                boundary,
                identity,
            ),
{
    let total = record_count(activity, 70);
    assert forall|c: int| 0 <= c < chunks.len() implies {
        let part = #[trigger] chunk_bytes(activity, chunks[c]);
        &&& 0 <= chunks[c].offset
        &&& chunks[c].offset + chunks[c].rows <= total
        &&& record_count(part, 70) == chunks[c].rows
        &&& forall|i: int|
            0 <= i < chunks[c].rows ==> #[trigger] activity_fact(part, i) == activity_fact(
                activity,
                chunks[c].offset + i,
            )
    } by {
        assert(is_chunk(chunks[c], c, total, per_batch));
        lemma_chunk_facts(activity, chunks[c]);
    }
    if has_identity(activity, boundary, identity) {
        let i = choose|i: int|
            0 <= i < total && created_at(#[trigger] activity_fact(activity, i)) < boundary
                && hour_identity(activity_fact(activity, i)) == identity;
        let c = i / per_batch;
        vstd::arithmetic::div_mod::lemma_fundamental_div_mod(i, per_batch);
        vstd::arithmetic::div_mod::lemma_mod_bound(i, per_batch);
        assert(c >= 0) by (nonlinear_arith)
            requires
                i >= 0,
                per_batch > 0,
                c == i / per_batch,
        ;
        assert(c * per_batch == per_batch * c) by (nonlinear_arith);
        assert((c + 1 - 1) * per_batch == c * per_batch) by (nonlinear_arith);
        lemma_div_up(total, per_batch, c + 1);
        assert(is_chunk(chunks[c], c, total, per_batch));
        let part = chunk_bytes(activity, chunks[c]);
        let at = i - c * per_batch;
        assert(activity_fact(part, at) == activity_fact(activity, chunks[c].offset + at));
        assert(has_identity(part, boundary, identity));
    }
    if exists|c: int|
        0 <= c < chunks.len() && has_identity(
            #[trigger] chunk_bytes(activity, chunks[c]),
            boundary,
            identity,
        ) {
        let c = choose|c: int|
            0 <= c < chunks.len() && has_identity(
                #[trigger] chunk_bytes(activity, chunks[c]),
                boundary,
                identity,
            );
        let part = chunk_bytes(activity, chunks[c]);
        let i = choose|i: int|
            0 <= i < record_count(part, 70) && created_at(#[trigger] activity_fact(part, i))
                < boundary && hour_identity(activity_fact(part, i)) == identity;
        assert(activity_fact(part, i) == activity_fact(activity, chunks[c].offset + i));
    }
}

/// The bytes of a chunk of the activity stream.
pub open spec fn chunk_bytes(activity: Seq<u8>, chunk: SourceChunk) -> Seq<u8> {
    activity.subrange(chunk.offset * 70, (chunk.offset + chunk.rows) * 70)
}

/// A chunk holds the records of the stream from its offset on.
proof fn lemma_chunk_facts(activity: Seq<u8>, chunk: SourceChunk)
    requires
        activity.len() == record_count(activity, 70) * 70,
        chunk.offset + chunk.rows <= record_count(activity, 70),
    ensures
        record_count(chunk_bytes(activity, chunk), 70) == chunk.rows,
        forall|i: int|
            0 <= i < chunk.rows ==> #[trigger] activity_fact(chunk_bytes(activity, chunk), i)
                == activity_fact(activity, chunk.offset + i),
{
    let part = chunk_bytes(activity, chunk);
    assert(part.len() == chunk.rows * 70);
    assert forall|i: int| 0 <= i < chunk.rows implies #[trigger] activity_fact(part, i)
        == activity_fact(activity, chunk.offset + i) by {
        assert(record(part, 70, i) =~= record(activity, 70, chunk.offset + i));
    }
}

/// The input of a batch: the activity artifact and the records taken of it.
pub fn source_chunk_input(source: &ArtifactIdentity, chunk: SourceChunk) -> (input: InputIdentity)
    ensures
        input.identity@ == "activity:"@ + source.sha256@ + ":"@ + decimal(chunk.offset as nat)
            + ":"@ + decimal(chunk.rows as nat),
        input.byte_size == source.byte_size,
        input.row_count == source.row_count,
        input.sha256 == source.sha256,
{
    let mut identity: String = "activity:".to_owned();
    identity.append(source.sha256.as_str());
    identity.append(":");
    push_decimal(&mut identity, chunk.offset);
    identity.append(":");
    push_decimal(&mut identity, chunk.rows);
    InputIdentity {
        identity,
        byte_size: source.byte_size,
        row_count: source.row_count,
        sha256: source.sha256.clone(),
    }
}

/// Key space of one phase of a build.
pub open spec fn phase_key_space(phase: Seq<char>) -> Seq<char> {
    if phase == "leaves"@ {
        "hour-u32-kind-u16-pensieve-hll-v1"@
    } else {
        "hour-u32-kind-u16-pubkey-32-v1"@
    }
}

/// The identity of one phase of the build.
pub fn run_identity(snapshot_id: &str, as_of_epoch: u64, phase: &str) -> (run: RunIdentity)
    ensures
        crate::runs::identifies_stage(
            run,
            snapshot_id@,
            as_of_epoch,
            "flexible-distinct"@ + "-"@ + phase@,
            FLEXIBLE_DISTINCT_VERSION@,
            phase_key_space(phase@),
        ),
{
    let key_space: &str = if text_equal(phase, "leaves") {
        "hour-u32-kind-u16-pensieve-hll-v1"
    } else {
        "hour-u32-kind-u16-pubkey-32-v1"
    };
    crate::runs::stage_identity(
        snapshot_id,
        as_of_epoch,
        "flexible-distinct",
        phase,
        FLEXIBLE_DISTINCT_VERSION,
        key_space,
    )
}

/// Bytes that the runs and leaves of a build take at most.
pub open spec fn build_bytes(rows: int, runs: int, fan_in: int) -> int {
    merge_bytes(rows, 38, runs, fan_in) + smaller(rows * 128, u64::MAX as int)
}

/// Estimate the run bytes of a build.
pub fn estimate_run_bytes(rows: u64, runs: usize, fan_in: usize) -> (bytes: Result<u64>)
    requires
        fan_in >= 2,
    ensures
        ({
            let exact = build_bytes(rows as int, runs as int, fan_in as int);
            &&& exact <= u64::MAX ==> bytes == Ok::<u64, Error>(exact as u64)
            &&& exact > u64::MAX ==> bytes == Err::<u64, Error>(
                Error::Invalid("flexible run estimate overflowed"),
            )
        }),
{
    let merged: u64 = match estimate_merge_bytes(
        rows,
        38,
        runs,
        fan_in,
        "flexible run estimate overflowed",
    ) {
        Ok(bytes) => bytes,
        Err(error) => {
            return Err(error);
        },
    };
    match merged.checked_add(saturating_product(rows, 128)) {
        Some(bytes) => Ok(bytes),
        None => Err(Error::Invalid("flexible run estimate overflowed")),
    }
}

/// The finished leaves of a build.
pub struct CompletedLeaves {
    /// The leaf artifact.
    pub artifact: ArtifactIdentity,
    /// Where its checkpoint stands.
    pub checkpoint_path: String,
    /// Largest serialized sketch.
    pub max_leaf_bytes: usize,
}

/// The evidence reports the build.
pub open spec fn completes_flexible(
    evidence: FlexibleDistinctEvidence,
    activity: BoundedFixedActivity,
    config: FlexibleDistinctConfig,
    batch_checkpoints: Seq<String>,
    merged: MergeOutcome,
    leaves: CompletedLeaves,
    estimated_run_bytes: u64,
) -> bool {
    let source = activity.evidence.activity_artifact;
    &&& evidence.schema_version == 1
    &&& evidence.runner_version@ == RUNNER_VERSION@
    &&& evidence.status@ == "completed"@
    &&& evidence.snapshot_id == activity.evidence.snapshot_id
    &&& evidence.as_of_epoch == activity.evidence.as_of_epoch
    &&& evidence.complete_through_epoch == activity.evidence.as_of_epoch
        - activity.evidence.as_of_epoch % 3_600
    &&& evidence.activity_evidence_sha256 == activity.evidence_sha256
    &&& evidence.activity_artifact == source
    &&& evidence.source_activity_rows == source.row_count
    &&& evidence.batch_count == batch_checkpoints.len()
    &&& evidence.merge_count == merged.merge_count
    &&& evidence.identity_artifact == merged.final_run.checkpoint.artifact
    &&& evidence.leaf_artifact == leaves.artifact
    &&& evidence.max_batch_buffered_bytes == smaller(
        config.source_records_per_batch as int,
        source.row_count as int,
    ) * 38
    &&& evidence.max_merge_buffered_bytes == merged.max_buffered_bytes
    &&& evidence.max_leaf_bytes == leaves.max_leaf_bytes
    &&& evidence.estimated_run_bytes == estimated_run_bytes
    &&& evidence.disk_reserve_bytes == config.disk_reserve_bytes
    &&& evidence.batch_checkpoints@ == batch_checkpoints
    &&& evidence.merge_checkpoints@ == merged.checkpoints@
    &&& evidence.leaf_checkpoint == leaves.checkpoint_path
}

/// The evidence of a build.
pub fn complete_flexible_distinct(
    activity: &BoundedFixedActivity,
    config: &FlexibleDistinctConfig,
    batch_checkpoints: Vec<String>,
    merged: MergeOutcome,
    leaves: CompletedLeaves,
    estimated_run_bytes: u64,
) -> (outcome: Result<FlexibleDistinctEvidence>)
    ensures
        ({
            let source = activity.evidence.activity_artifact;
            let held = smaller(
                config.source_records_per_batch as int,
                source.row_count as int,
            ) * 38;
            &&& outcome is Ok <==> held <= u64::MAX
            &&& match outcome {
                Ok(evidence) => completes_flexible(
                    evidence,
                    *activity,
                    *config,
                    batch_checkpoints@,
                    merged,
                    leaves,
                    estimated_run_bytes,
                ),
                Err(error) => error is Invalid,
            }
        }),
{
    let source: &ArtifactIdentity = &activity.evidence.activity_artifact;
    let held: u64 = match batch_buffered_bytes(source.row_count, config.source_records_per_batch) {
        Ok(bytes) => bytes,
        Err(error) => {
            return Err(error);
        },
    };
    Ok(
        FlexibleDistinctEvidence {
            schema_version: 1,
            runner_version: RUNNER_VERSION.to_owned(),
            status: "completed".to_owned(),
            snapshot_id: activity.evidence.snapshot_id.clone(),
            as_of_epoch: activity.evidence.as_of_epoch,
            complete_through_epoch: floor_hour(activity.evidence.as_of_epoch),
            activity_evidence_sha256: activity.evidence_sha256.clone(),
            activity_artifact: copy_artifact(source),
            source_activity_rows: source.row_count,
            batch_count: batch_checkpoints.len() as u64,
            merge_count: merged.merge_count,
            identity_artifact: merged.final_run.checkpoint.artifact,
            leaf_artifact: leaves.artifact,
            max_batch_buffered_bytes: held,
            max_merge_buffered_bytes: merged.max_buffered_bytes,
            max_leaf_bytes: leaves.max_leaf_bytes,
            estimated_run_bytes,
            disk_reserve_bytes: config.disk_reserve_bytes,
            batch_checkpoints,
            merge_checkpoints: merged.checkpoints,
            leaf_checkpoint: leaves.checkpoint_path,
        },
    )
}

/// A completed build passes the revalidation that precedes its publication.
///
/// `groups` are the runs of the identities that the leaves were built for.
pub proof fn lemma_completed_leaves_revalidate(
    evidence: FlexibleDistinctEvidence,
    activity: BoundedFixedActivity,
    config: FlexibleDistinctConfig,
    batch_checkpoints: Seq<String>,
    merged: MergeOutcome,
    leaves: CompletedLeaves,
    estimated_run_bytes: u64,
    read: FlexibleRevalidation,
    groups: Seq<LeafGroup>,
)
    requires
        completes_flexible(
            evidence,
            activity,
            config,
            batch_checkpoints,
            merged,
            leaves,
            estimated_run_bytes,
        ),
        activity.evidence.as_of_epoch / 3_600 <= u32::MAX,
        describes_records(activity.evidence.activity_artifact, 70, read.activity@),
        describes_records(merged.final_run.checkpoint.artifact, 38, read.identities@),
        sorted_stream(read.identities@, 38, 38),
        forall|i: int|
            0 <= i < record_count(read.identities@, 38) ==> be_nat(
                (#[trigger] identity_at(read.identities@, i)).subrange(0, 4),
            ) < activity.evidence.as_of_epoch as int / 3_600,
        cuts_groups(groups, read.identities@, record_count(read.identities@, 38)),
        read.rebuilt@.len() == groups.len(),
        forall|i: int|
            0 <= i < groups.len() ==> (#[trigger] read.rebuilt@[i])@.len()
                <= MAX_SERIALIZED_SKETCH_BYTES,
        read.leaves@ == leaf_records(group_leaves(groups, read.rebuilt@)),
        leaves.artifact.byte_size == read.leaves@.len(),
        leaves.artifact.sha256@ == sha256_text(read.leaves@),
        leaves.artifact.row_count == groups.len(),
        leaves.max_leaf_bytes == largest_sketch(group_leaves(groups, read.rebuilt@)),
    ensures
        completed_for(
            evidence,
            activity.evidence.snapshot_id@,
            activity.evidence.as_of_epoch,
        ),
        product_valid(evidence, read),
{
    let made = group_leaves(groups, read.rebuilt@);
    let total = record_count(read.identities@, 38);
    let as_of = activity.evidence.as_of_epoch as int;
    assert((as_of - as_of % 3_600) / 3_600 == as_of / 3_600) by (nonlinear_arith)
        requires
            as_of >= 0,
    ;
    lemma_leaves_round_trip(made);
    assert(leaves_ordered(made)) by {
        assert forall|i: int, j: int| 0 <= i < j < made.len() implies #[trigger] leaf_rank(made[i])
            < #[trigger] leaf_rank(made[j]) by {
            lemma_groups_ordered(groups, read.identities@, i, j);
        }
    }
    assert forall|i: int| 0 <= i < made.len() implies (#[trigger] made[i]).0 < as_of / 3_600 by {
        assert(holds_run(groups[i], read.identities@));
        lemma_group_within(groups, read.identities@, total, i);
        assert(describes_identity(
            groups[i],
            identity_at(read.identities@, groups[i].start as int),
        ));
    }
    assert(leaves_cover(evidence, read, made, groups));
}

} // verus!
