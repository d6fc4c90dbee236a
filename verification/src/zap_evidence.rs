//! Completion evidence of the zap-participant product.

use vstd::prelude::*;
use vstd::string::*;

use crate::artifact::{
    describes_records, ArtifactIdentity, InputIdentity, RunCheckpoint, RunIdentity,
};
use crate::digest::{sha256_hex, sha256_text};
use crate::error::{checked_add, Error, Result};
use crate::merge::{estimate_merge_bytes, merge_bytes, MergeOutcome};
use crate::ordered::{
    lemma_finite_keys, lemma_list_total, lemma_list_total_grows, list, list_total, map_total,
};
use crate::records::record_count;
use crate::rollups::ZapDay;
use crate::semantic_build::{BoundedSemanticFacts, SEMANTIC_FACTS_RUNNER_VERSION};
use crate::text::{push_zero_padded, text_equal, zero_padded};
use crate::text_map::TextMap;
use crate::zap_distinct::{
    build_groups, cuts_groups, error_ppm, finish_leaf, is_identity_stream, relative_error_ppm,
    SketchResult, ZapDistinctLeaf, ZapGroup, EVIDENCE_SCHEMA_VERSION, MAX_RELATIVE_ERROR_PPM,
    RUNNER_VERSION, ZAP_DISTINCT_VERSION, ZAP_IDENTITY_BYTES,
};

verus! {

/// Resource settings for one bounded zap-distinct build.
#[derive(Clone, Debug)]
pub struct ZapDistinctConfig {
    /// Dedicated immutable chunk and merge workspace.
    pub work_root: String,
    /// Maximum identities held before sorting a chunk.
    pub chunk_records: usize,
    /// Maximum chunk or merge runs opened by one streaming merge.
    pub merge_fan_in: usize,
    /// Free work-filesystem bytes left untouched.
    pub disk_reserve_bytes: u64,
}

/// Canonical completion evidence for zap participant identities.
#[derive(Clone, Debug, PartialEq, Eq)]
pub struct ZapDistinctEvidence {
    /// Evidence schema version.
    pub schema_version: u32,
    /// Runner identity.
    pub runner_version: String,
    /// Completion status.
    pub status: String,
    /// Frozen source snapshot.
    pub snapshot_id: String,
    /// Frozen analytics boundary.
    pub as_of_epoch: u64,
    /// SHA-256 of the owning semantic evidence.
    pub semantic_evidence_sha256: String,
    /// SHA-256 of the owning semantic fact artifact.
    pub semantic_artifact_sha256: String,
    /// Valid participant occurrences before distinct reduction.
    pub physical_identities: u64,
    /// Exact unique `(day, role, pubkey)` identities.
    pub logical_identities: u64,
    /// Duplicate same-day participant occurrences removed.
    pub duplicate_identities: u64,
    /// Immutable sorted chunk count.
    pub chunk_count: u64,
    /// Immutable merge count.
    pub merge_count: u64,
    /// Final sorted exact identity artifact.
    pub identity_artifact: ArtifactIdentity,
    /// Daily leaves, sorted by day and role.
    pub leaves: Vec<ZapDistinctLeaf>,
    /// Maximum encoded identities buffered while sorting.
    pub max_buffered_identity_bytes: usize,
    /// Maximum bytes in one serialized leaf.
    pub max_leaf_bytes: usize,
    /// Sketch precision used by every daily participant leaf.
    pub sketch_lg_k: u8,
    /// Maximum accepted relative error.
    pub tolerance_ppm: u64,
    /// Configured disk reserve.
    pub disk_reserve_bytes: u64,
    /// Immutable chunk checkpoint paths.
    pub chunk_checkpoints: Vec<String>,
    /// Immutable merge checkpoint paths.
    pub merge_checkpoints: Vec<String>,
}

/// Fully validated bounded zap-distinct product.
pub struct BoundedZapDistinct {
    /// Final exact identity artifact.
    pub identity_path: String,
    /// Canonical completion evidence.
    pub evidence: ZapDistinctEvidence,
    /// SHA-256 of completion evidence.
    pub evidence_sha256: String,
}

/// The leaf summarizes the group with the finished sketch.
pub open spec fn leaf_of(leaf: ZapDistinctLeaf, group: ZapGroup, finished: SketchResult) -> bool {
    &&& leaf.day_epoch == group.day_epoch
    &&& leaf.role == group.role
    &&& leaf.exact_identities == group.exact_identities
    &&& leaf.estimated_identities == finished.estimate
    &&& leaf.relative_error_ppm == error_ppm(group.exact_identities, finished.estimate)
    &&& leaf.sketch@ == finished.sketch@
}

/// Every estimate is within the tolerance.
pub open spec fn estimates_hold(groups: Seq<ZapGroup>, finished: Seq<SketchResult>) -> bool {
    forall|g: int|
        0 <= g < groups.len() ==> error_ppm(
            (#[trigger] groups[g]).exact_identities,
            finished[g].estimate,
        ) <= MAX_RELATIVE_ERROR_PPM
}

/// Finish the leaves of an identity artifact.
///
/// `finished` holds one sketch for each run of a day and role, in order.
pub fn build_leaves(groups: &Vec<ZapGroup>, finished: Vec<SketchResult>) -> (outcome: Result<
    Vec<ZapDistinctLeaf>,
>)
    ensures
        outcome is Ok <==> groups@.len() == finished@.len() && estimates_hold(groups@, finished@),
        match outcome {
            Ok(leaves) => {
                &&& leaves@.len() == groups@.len()
                &&& forall|g: int|
                    0 <= g < groups@.len() ==> leaf_of(
                        #[trigger] leaves@[g],
                        groups@[g],
                        finished@[g],
                    )
            },
            Err(error) => error is Invalid,
        },
{
    if groups.len() != finished.len() {
        return Err(Error::Invalid("zap sketches do not match the identity groups"));
    }
    let mut leaves: Vec<ZapDistinctLeaf> = Vec::new();
    let mut g: usize = 0;
    while g < groups.len()
        invariant
            g <= groups@.len(),
            groups@.len() == finished@.len(),
            leaves@.len() == g,
            forall|k: int|
                0 <= k < g ==> leaf_of(#[trigger] leaves@[k], groups@[k], finished@[k]),
            forall|k: int|
                0 <= k < g ==> error_ppm(
                    (#[trigger] groups@[k]).exact_identities,
                    finished@[k].estimate,
                ) <= MAX_RELATIVE_ERROR_PPM,
        decreases groups.len() - g,
    {
        let group: ZapGroup = groups[g];
        let sketch: SketchResult = SketchResult {
            estimate: finished[g].estimate,
            sketch: vstd::slice::slice_to_vec(finished[g].sketch.as_slice()),
        };
        match finish_leaf(group.day_epoch, group.role, group.exact_identities, sketch) {
            Ok(leaf) => {
                leaves.push(leaf);
            },
            Err(error) => {
                assert(error_ppm(groups@[g as int].exact_identities, finished@[g as int].estimate)
                    > MAX_RELATIVE_ERROR_PPM);
                return Err(error);
            },
        }
        g += 1;
    }
    Ok(leaves)
}

/// The leaves agree in every field.
pub open spec fn same_leaf(a: ZapDistinctLeaf, b: ZapDistinctLeaf) -> bool {
    &&& a.day_epoch == b.day_epoch
    &&& a.role == b.role
    &&& a.exact_identities == b.exact_identities
    &&& a.estimated_identities == b.estimated_identities
    &&& a.relative_error_ppm == b.relative_error_ppm
    &&& a.sketch@ == b.sketch@
}

/// Whether two lists of leaves agree.
fn leaves_equal(a: &Vec<ZapDistinctLeaf>, b: &Vec<ZapDistinctLeaf>) -> (same: bool)
    ensures
        same == (a@.len() == b@.len() && forall|i: int|
            0 <= i < a@.len() ==> same_leaf(#[trigger] a@[i], b@[i])),
{
    if a.len() != b.len() {
        return false;
    }
    let mut i: usize = 0;
    while i < a.len()
        invariant
            i <= a@.len(),
            a@.len() == b@.len(),
            forall|j: int| 0 <= j < i ==> same_leaf(#[trigger] a@[j], b@[j]),
        decreases a.len() - i,
    {
        let x: &ZapDistinctLeaf = &a[i];
        let y: &ZapDistinctLeaf = &b[i];
        if x.day_epoch != y.day_epoch || x.role != y.role || x.exact_identities
            != y.exact_identities || x.estimated_identities != y.estimated_identities
            || x.relative_error_ppm != y.relative_error_ppm || !crate::bytes::bytes_equal(
            x.sketch.as_slice(),
            y.sketch.as_slice(),
        ) {
            assert(!same_leaf(a@[i as int], b@[i as int]));
            return false;
        }
        i += 1;
    }
    true
}

/// The largest sketch of the leaves, zero where there are none.
pub open spec fn largest_leaf(leaves: Seq<ZapDistinctLeaf>) -> nat
    decreases leaves.len(),
{
    if leaves.len() == 0 {
        0
    } else {
        let earlier = largest_leaf(leaves.drop_last());
        if leaves.last().sketch@.len() > earlier {
            leaves.last().sketch@.len()
        } else {
            earlier
        }
    }
}

/// The largest sketch of the leaves.
pub fn max_leaf_bytes(leaves: &Vec<ZapDistinctLeaf>) -> (bytes: usize)
    ensures
        bytes == largest_leaf(leaves@),
{
    let mut largest: usize = 0;
    let mut i: usize = 0;
    assert(leaves@.take(0) =~= Seq::empty());
    while i < leaves.len()
        invariant
            i <= leaves@.len(),
            largest == largest_leaf(leaves@.take(i as int)),
        decreases leaves.len() - i,
    {
        assert(leaves@.take(i + 1).drop_last() =~= leaves@.take(i as int));
        if leaves[i].sketch.len() > largest {
            largest = leaves[i].sketch.len();
        }
        i += 1;
    }
    assert(leaves@.take(leaves@.len() as int) =~= leaves@);
    largest
}

/// Bytes of all sketches.
pub open spec fn total_sketch_bytes(leaves: Seq<ZapDistinctLeaf>) -> int
    decreases leaves.len(),
{
    if leaves.len() == 0 {
        0
    } else {
        total_sketch_bytes(leaves.drop_last()) + leaves.last().sketch@.len()
    }
}

/// Totals only grow.
proof fn lemma_sketch_bytes_grow(leaves: Seq<ZapDistinctLeaf>, count: int)
    requires
        0 <= count <= leaves.len(),
    ensures
        0 <= total_sketch_bytes(leaves.take(count)) <= total_sketch_bytes(leaves),
    decreases leaves.len(),
{
    if count == leaves.len() {
        assert(leaves.take(count) =~= leaves);
        if count > 0 {
            lemma_sketch_bytes_grow(leaves.drop_last(), count - 1);
        }
    } else {
        lemma_sketch_bytes_grow(leaves.drop_last(), count);
        assert(leaves.drop_last().take(count) =~= leaves.take(count));
    }
}

/// Bytes of all sketches, or an error where they leave the `u64` range.
pub fn sketch_bytes(leaves: &Vec<ZapDistinctLeaf>) -> (total: Result<u64>)
    ensures
        0 <= total_sketch_bytes(leaves@),
        total_sketch_bytes(leaves@) <= u64::MAX ==> total == Ok::<u64, Error>(
            total_sketch_bytes(leaves@) as u64,
        ),
        total_sketch_bytes(leaves@) > u64::MAX ==> total == Err::<u64, Error>(
            Error::Validation("zap distinct sketch bytes overflowed"),
        ),
{
    let mut total: u64 = 0;
    let mut i: usize = 0;
    proof {
        assert(leaves@.take(0) =~= Seq::empty());
        lemma_sketch_bytes_grow(leaves@, 0);
    }
    while i < leaves.len()
        invariant
            i <= leaves@.len(),
            total == total_sketch_bytes(leaves@.take(i as int)),
        decreases leaves.len() - i,
    {
        proof {
            assert(leaves@.take(i + 1).drop_last() =~= leaves@.take(i as int));
            lemma_sketch_bytes_grow(leaves@, i + 1);
        }
        match total.checked_add(leaves[i].sketch.len() as u64) {
            Some(sum) => {
                total = sum;
            },
            None => {
                return Err(Error::Validation("zap distinct sketch bytes overflowed"));
            },
        }
        i += 1;
    }
    assert(leaves@.take(leaves@.len() as int) =~= leaves@);
    Ok(total)
}

/// Valid participants of one day.
pub open spec fn day_participants() -> spec_fn(ZapDay) -> int {
    |row: ZapDay| row.validated_senders + row.validated_recipients
}

/// Valid participants of all days, or an error where they leave the `u64` range.
pub fn semantic_participants(semantic: &BoundedSemanticFacts) -> (total: Result<u64>)
    ensures
        ({
            let exact = map_total(semantic.evidence.rollups.zaps@, day_participants());
            &&& 0 <= exact
            &&& exact <= u64::MAX ==> total == Ok::<u64, Error>(exact as u64)
            &&& exact > u64::MAX ==> total == Err::<u64, Error>(
                Error::Invalid("semantic zap participants overflowed"),
            )
        }),
{
    let rows: Vec<(u64, ZapDay)> = list(&semantic.evidence.rollups.zaps);
    proof {
        lemma_finite_keys(semantic.evidence.rollups.zaps);
        lemma_list_total(rows@, semantic.evidence.rollups.zaps@, day_participants());
        lemma_list_total_grows(rows@, day_participants(), 0);
        assert(rows@.take(0) =~= Seq::empty());
    }
    let mut total: u64 = 0;
    let mut i: usize = 0;
    while i < rows.len()
        invariant
            i <= rows@.len(),
            total == list_total(rows@.take(i as int), day_participants()),
            map_total(semantic.evidence.rollups.zaps@, day_participants()) == list_total(
                rows@,
                day_participants(),
            ),
        decreases rows.len() - i,
    {
        proof {
            assert(rows@.take(i + 1).drop_last() =~= rows@.take(i as int));
            lemma_list_total_grows(rows@, day_participants(), i + 1);
        }
        let row: ZapDay = rows[i].1;
        match checked_add(total, row.validated_senders, "semantic zap participants overflowed") {
            Ok(sum) => {
                match checked_add(sum, row.validated_recipients, "semantic zap participants overflowed") {
                    Ok(both) => {
                        total = both;
                    },
                    Err(error) => {
                        return Err(error);
                    },
                }
            },
            Err(error) => {
                return Err(error);
            },
        }
        i += 1;
    }
    assert(rows@.take(rows@.len() as int) =~= rows@);
    Ok(total)
}

/// The evidence belongs to the semantic product, and its counts agree with the
/// identity artifact and with the rollups.
pub open spec fn evidence_accounts(
    evidence: ZapDistinctEvidence,
    bytes: Seq<u8>,
    semantic: BoundedSemanticFacts,
    sketch_lg_k: u8,
) -> bool {
    &&& evidence.schema_version == EVIDENCE_SCHEMA_VERSION
    &&& evidence.runner_version@ == RUNNER_VERSION@
    &&& evidence.status@ == "completed"@
    &&& evidence.snapshot_id@ == semantic.evidence.snapshot_id@
    &&& evidence.as_of_epoch == semantic.evidence.as_of_epoch
    &&& evidence.semantic_evidence_sha256@ == semantic.evidence_sha256@
    &&& evidence.semantic_artifact_sha256@ == semantic.evidence.final_artifact.sha256@
    &&& evidence.identity_artifact.byte_size == bytes.len()
    &&& evidence.identity_artifact.row_count == evidence.logical_identities
    &&& evidence.identity_artifact.sha256@ == sha256_text(bytes)
    &&& bytes.len() == evidence.logical_identities * 41
    &&& evidence.logical_identities + evidence.duplicate_identities
        == evidence.physical_identities
    &&& map_total(semantic.evidence.rollups.zaps@, day_participants())
        == evidence.physical_identities
    &&& evidence.sketch_lg_k == sketch_lg_k
    &&& evidence.tolerance_ppm == MAX_RELATIVE_ERROR_PPM
    &&& evidence.max_leaf_bytes == largest_leaf(evidence.leaves@)
}

/// Check the identity and the accounting of the evidence.
pub fn check_evidence(
    evidence: &ZapDistinctEvidence,
    bytes: &[u8],
    semantic: &BoundedSemanticFacts,
    sketch_lg_k: u8,
) -> (outcome: Result<()>)
    ensures
        outcome is Ok <==> evidence_accounts(*evidence, bytes@, *semantic, sketch_lg_k),
        outcome is Err ==> outcome->Err_0 is Invalid,
{
    let length: u64 = bytes.len() as u64;
    let expected_bytes: u64 = match evidence.logical_identities.checked_mul(
        ZAP_IDENTITY_BYTES as u64,
    ) {
        Some(total) => total,
        None => {
            return Err(Error::Invalid("zap identity byte accounting overflowed"));
        },
    };
    let reconciled: u64 = match checked_add(
        evidence.logical_identities,
        evidence.duplicate_identities,
        "zap identity count accounting overflowed",
    ) {
        Ok(total) => total,
        Err(error) => {
            return Err(error);
        },
    };
    let participants: u64 = match semantic_participants(semantic) {
        Ok(total) => total,
        Err(error) => {
            return Err(error);
        },
    };
    if evidence.schema_version != EVIDENCE_SCHEMA_VERSION || !text_equal(
        evidence.runner_version.as_str(),
        RUNNER_VERSION,
    ) || !text_equal(evidence.status.as_str(), "completed") || !text_equal(
        evidence.snapshot_id.as_str(),
        semantic.evidence.snapshot_id.as_str(),
    ) || evidence.as_of_epoch != semantic.evidence.as_of_epoch || !text_equal(
        evidence.semantic_evidence_sha256.as_str(),
        semantic.evidence_sha256.as_str(),
    ) || !text_equal(
        evidence.semantic_artifact_sha256.as_str(),
        semantic.evidence.final_artifact.sha256.as_str(),
    ) || evidence.identity_artifact.byte_size != length || evidence.identity_artifact.row_count
        != evidence.logical_identities || !text_equal(
        evidence.identity_artifact.sha256.as_str(),
        sha256_hex(bytes).as_str(),
    ) || length != expected_bytes || reconciled != evidence.physical_identities || participants
        != evidence.physical_identities || evidence.sketch_lg_k != sketch_lg_k
        || evidence.tolerance_ppm != MAX_RELATIVE_ERROR_PPM || evidence.max_leaf_bytes
        != max_leaf_bytes(&evidence.leaves) {
        return Err(Error::Invalid("zap distinct evidence identity or accounting mismatch"));
    }
    Ok(())
}

/// What a stored sketch decodes to.
#[derive(Clone, Copy, Debug, PartialEq, Eq, Structural)]
pub struct DecodedSketch {
    /// Rounded estimate.
    pub estimate: u64,
    /// Precision.
    pub lg_k: u8,
}

/// The decoded sketch confirms the leaf.
pub open spec fn sketch_confirms(
    leaf: ZapDistinctLeaf,
    decoded: DecodedSketch,
    sketch_lg_k: u8,
    tolerance_ppm: u64,
) -> bool {
    &&& decoded.estimate == leaf.estimated_identities
    &&& decoded.lg_k == sketch_lg_k
    &&& error_ppm(leaf.exact_identities, leaf.estimated_identities) == leaf.relative_error_ppm
    &&& leaf.relative_error_ppm <= tolerance_ppm
}

/// Every leaf is confirmed by its decoded sketch.
pub open spec fn sketches_confirm(
    leaves: Seq<ZapDistinctLeaf>,
    decoded: Seq<Option<DecodedSketch>>,
    sketch_lg_k: u8,
    tolerance_ppm: u64,
) -> bool {
    &&& decoded.len() == leaves.len()
    &&& forall|i: int|
        0 <= i < leaves.len() ==> (#[trigger] decoded[i]) is Some && sketch_confirms(
            leaves[i],
            decoded[i]->0,
            sketch_lg_k,
            tolerance_ppm,
        )
}

/// Check every leaf against what its stored sketch decodes to.
pub fn check_sketches(
    leaves: &Vec<ZapDistinctLeaf>,
    decoded: &Vec<Option<DecodedSketch>>,
    sketch_lg_k: u8,
    tolerance_ppm: u64,
) -> (outcome: Result<()>)
    ensures
        outcome is Ok <==> sketches_confirm(leaves@, decoded@, sketch_lg_k, tolerance_ppm),
        outcome is Err ==> outcome->Err_0 is Invalid,
{
    if decoded.len() != leaves.len() {
        return Err(Error::Invalid("decode zap distinct leaf"));
    }
    let mut i: usize = 0;
    while i < leaves.len()
        invariant
            i <= leaves@.len(),
            decoded@.len() == leaves@.len(),
            forall|j: int|
                0 <= j < i ==> (#[trigger] decoded@[j]) is Some && sketch_confirms(
                    leaves@[j],
                    decoded@[j]->0,
                    sketch_lg_k,
                    tolerance_ppm,
                ),
        decreases leaves.len() - i,
    {
        let leaf: &ZapDistinctLeaf = &leaves[i];
        match decoded[i] {
            None => {
                assert(decoded@[i as int] is None);
                return Err(Error::Invalid("decode zap distinct leaf"));
            },
            Some(sketch) => {
                if sketch.estimate != leaf.estimated_identities || sketch.lg_k != sketch_lg_k
                    || relative_error_ppm(leaf.exact_identities, leaf.estimated_identities)
                    != leaf.relative_error_ppm || leaf.relative_error_ppm > tolerance_ppm {
                    assert(!sketch_confirms(
                        leaves@[i as int],
                        decoded@[i as int]->0,
                        sketch_lg_k,
                        tolerance_ppm,
                    ));
                    return Err(Error::Invalid("zap distinct leaf estimate does not validate"));
                }
            },
        }
        i += 1;
    }
    Ok(())
}

/// No path occurs twice.
pub open spec fn paths_unique(paths: Seq<String>) -> bool {
    forall|i: int, j: int|
        0 <= i < j < paths.len() ==> (#[trigger] paths[i])@ != (#[trigger] paths[j])@
}

/// The checkpoint belongs to the product and to one of two stages.
pub open spec fn checkpoint_belongs(
    checkpoint: RunCheckpoint,
    evidence: ZapDistinctEvidence,
    stage: Seq<char>,
    other_stage: Seq<char>,
) -> bool {
    &&& checkpoint.run.snapshot_id@ == evidence.snapshot_id@
    &&& checkpoint.run.as_of == evidence.as_of_epoch
    &&& checkpoint.run.product_version@ == ZAP_DISTINCT_VERSION@
    &&& checkpoint.run.product@ == stage || checkpoint.run.product@ == other_stage
}

/// Check the checkpoints of one stage.
///
/// `checkpoints` holds what the paths lead to, in order.
pub fn validate_checkpoint_set(
    paths: &Vec<String>,
    expected_count: u64,
    evidence: &ZapDistinctEvidence,
    stage: &str,
    other_stage: &str,
    checkpoints: &Vec<RunCheckpoint>,
) -> (outcome: Result<()>)
    requires
        checkpoints@.len() == paths@.len(),
    ensures
        outcome is Ok <==> {
            &&& paths@.len() == expected_count
            &&& paths_unique(paths@)
            &&& forall|i: int|
                0 <= i < checkpoints@.len() ==> checkpoint_belongs(
                    #[trigger] checkpoints@[i],
                    *evidence,
                    stage@,
                    other_stage@,
                )
        },
        outcome is Err ==> outcome->Err_0 is Invalid,
{
    if paths.len() as u64 != expected_count {
        return Err(
            Error::Invalid("zap checkpoint count does not match completion evidence"),
        );
    }
    let mut seen: TextMap<usize> = TextMap::new();
    let mut i: usize = 0;
    while i < paths.len()
        invariant
            i <= paths@.len(),
            checkpoints@.len() == paths@.len(),
            seen.wf(),
            forall|key: Seq<char>| #[trigger]
                seen.map().contains_key(key) <==> exists|j: int|
                    0 <= j < i && (#[trigger] paths@[j])@ == key,
            forall|a: int, b: int|
                0 <= a < b < i ==> (#[trigger] paths@[a])@ != (#[trigger] paths@[b])@,
            forall|j: int|
                0 <= j < i ==> checkpoint_belongs(
                    #[trigger] checkpoints@[j],
                    *evidence,
                    stage@,
                    other_stage@,
                ),
        decreases paths.len() - i,
    {
        let found: Option<usize> = seen.find(paths[i].as_str());
        if found.is_some() {
            proof {
                assert(seen.map().contains_key(paths@[i as int]@));
                let j = choose|j: int| 0 <= j < i && (#[trigger] paths@[j])@ == paths@[i as int]@;
                assert(paths@[j]@ == paths@[i as int]@);
            }
            return Err(Error::Invalid("zap completion evidence repeats a checkpoint path"));
        }
        let ghost before = seen.map();
        seen.insert(paths[i].clone(), i);
        proof {
            let name = paths@[i as int]@;
            assert forall|key: Seq<char>| #[trigger] seen.map().contains_key(key) <==> exists|j: int|
                0 <= j < i + 1 && (#[trigger] paths@[j])@ == key by {
                if key == name {
                    assert(paths@[i as int]@ == key);
                } else {
                    assert(seen.map().contains_key(key) == before.contains_key(key));
                    if before.contains_key(key) {
                        let j = choose|j: int| 0 <= j < i && (#[trigger] paths@[j])@ == key;
                        assert(paths@[j]@ == key);
                    }
                }
            }
            assert forall|a: int, b: int| 0 <= a < b < i + 1 implies (#[trigger] paths@[a])@ != (
            #[trigger] paths@[b])@ by {
                if b == i && paths@[a]@ == paths@[b]@ {
                    assert(before.contains_key(name));
                }
            }
        }
        let run: &RunIdentity = &checkpoints[i].run;
        if !text_equal(run.snapshot_id.as_str(), evidence.snapshot_id.as_str()) || run.as_of
            != evidence.as_of_epoch || !text_equal(
            run.product_version.as_str(),
            ZAP_DISTINCT_VERSION,
        ) || !(text_equal(run.product.as_str(), stage) || text_equal(
            run.product.as_str(),
            other_stage,
        )) {
            assert(!checkpoint_belongs(checkpoints@[i as int], *evidence, stage@, other_stage@));
            return Err(
                Error::Invalid("zap checkpoint run identity differs from completion evidence"),
            );
        }
        i += 1;
    }
    Ok(())
}

/// What was read and rebuilt outside to revalidate a product.
pub struct ZapRevalidation<'a> {
    /// Bytes of the identity artifact.
    pub identities: &'a [u8],
    /// Sketches rebuilt from the artifact, one for each run of a day and role.
    pub rebuilt: Vec<SketchResult>,
    /// What the stored sketches decode to.
    pub decoded: Vec<Option<DecodedSketch>>,
    /// Checkpoints at the chunk paths.
    pub chunk_checkpoints: Vec<RunCheckpoint>,
    /// Checkpoints at the merge paths.
    pub merge_checkpoints: Vec<RunCheckpoint>,
}

/// The stored leaves are those of the artifact and the rebuilt sketches.
pub open spec fn leaves_match(
    leaves: Seq<ZapDistinctLeaf>,
    groups: Seq<ZapGroup>,
    rebuilt: Seq<SketchResult>,
) -> bool {
    &&& groups.len() == rebuilt.len()
    &&& leaves.len() == groups.len()
    &&& estimates_hold(groups, rebuilt)
    &&& forall|i: int|
        0 <= i < leaves.len() ==> leaf_of(#[trigger] leaves[i], groups[i], rebuilt[i])
}

/// The product follows from its identity artifact and its source.
pub open spec fn zap_product_valid(
    evidence: ZapDistinctEvidence,
    semantic: BoundedSemanticFacts,
    read: ZapRevalidation,
    sketch_lg_k: u8,
) -> bool {
    &&& evidence_accounts(evidence, read.identities@, semantic, sketch_lg_k)
    &&& is_identity_stream(read.identities@)
    &&& exists|groups: Seq<ZapGroup>| #[trigger]
        cuts_groups(groups, read.identities@, record_count(read.identities@, 41))
            && leaves_match(evidence.leaves@, groups, read.rebuilt@)
    &&& sketches_confirm(
        evidence.leaves@,
        read.decoded@,
        evidence.sketch_lg_k,
        evidence.tolerance_ppm,
    )
    &&& evidence.chunk_checkpoints@.len() == evidence.chunk_count
    &&& paths_unique(evidence.chunk_checkpoints@)
    &&& forall|i: int|
        0 <= i < read.chunk_checkpoints@.len() ==> checkpoint_belongs(
            #[trigger] read.chunk_checkpoints@[i],
            evidence,
            "zap-distinct-chunk"@,
            "zap-distinct-empty"@,
        )
    &&& evidence.merge_checkpoints@.len() == evidence.merge_count
    &&& paths_unique(evidence.merge_checkpoints@)
    &&& forall|i: int|
        0 <= i < read.merge_checkpoints@.len() ==> checkpoint_belongs(
            #[trigger] read.merge_checkpoints@[i],
            evidence,
            "zap-distinct-merge"@,
            "zap-distinct-merge"@,
        )
}

impl BoundedZapDistinct {
    /// Revalidate immutable identities and checkpoints before publication.
    ///
    /// `sketch_lg_k` is the sketch precision in use.
    pub fn validate_for_publication(
        &self,
        semantic: &BoundedSemanticFacts,
        read: ZapRevalidation,
        sketch_lg_k: u8,
    ) -> (outcome: Result<()>)
        requires
            read.chunk_checkpoints@.len() == self.evidence.chunk_checkpoints@.len(),
            read.merge_checkpoints@.len() == self.evidence.merge_checkpoints@.len(),
        ensures
            outcome is Ok <==> zap_product_valid(self.evidence, *semantic, read, sketch_lg_k),
            outcome is Err ==> outcome->Err_0 is Invalid,
    {
        let evidence: &ZapDistinctEvidence = &self.evidence;
        match check_evidence(evidence, read.identities, semantic, sketch_lg_k) {
            Ok(()) => {},
            Err(error) => {
                return Err(error);
            },
        }
        let groups: Vec<ZapGroup> = match build_groups(read.identities) {
            Ok(groups) => groups,
            Err(error) => {
                return Err(error);
            },
        };
        let ghost total = record_count(read.identities@, 41);
        let ghost rebuilt = read.rebuilt@;
        proof {
            assert forall|other: Seq<ZapGroup>| #[trigger]
                cuts_groups(other, read.identities@, total) implies other == groups@ by {
                crate::zap_distinct::lemma_groups_unique(
                    other,
                    groups@,
                    read.identities@,
                    total,
                );
            }
        }
        let leaves: Vec<ZapDistinctLeaf> = match build_leaves(&groups, read.rebuilt) {
            Ok(leaves) => leaves,
            Err(error) => {
                return Err(error);
            },
        };
        let same: bool = leaves_equal(&leaves, &evidence.leaves);
        proof {
            if same {
                assert forall|i: int| 0 <= i < evidence.leaves@.len() implies leaf_of(
                    #[trigger] evidence.leaves@[i],
                    groups@[i],
                    rebuilt[i],
                ) by {
                    assert(same_leaf(leaves@[i], evidence.leaves@[i]));
                    assert(leaf_of(leaves@[i], groups@[i], rebuilt[i]));
                }
                assert(leaves_match(evidence.leaves@, groups@, rebuilt));
            } else if leaves_match(evidence.leaves@, groups@, rebuilt) {
                assert forall|i: int| 0 <= i < leaves@.len() implies same_leaf(
                    #[trigger] leaves@[i],
                    evidence.leaves@[i],
                ) by {
                    assert(leaf_of(leaves@[i], groups@[i], rebuilt[i]));
                    assert(leaf_of(evidence.leaves@[i], groups@[i], rebuilt[i]));
                }
            }
        }
        if !same {
            return Err(
                Error::Invalid("zap distinct leaves do not match exact identity artifact"),
            );
        }
        match check_sketches(
            &evidence.leaves,
            &read.decoded,
            evidence.sketch_lg_k,
            evidence.tolerance_ppm,
        ) {
            Ok(()) => {},
            Err(error) => {
                return Err(error);
            },
        }
        match validate_checkpoint_set(
            &evidence.chunk_checkpoints,
            evidence.chunk_count,
            evidence,
            "zap-distinct-chunk",
            "zap-distinct-empty",
            &read.chunk_checkpoints,
        ) {
            Ok(()) => {},
            Err(error) => {
                return Err(error);
            },
        }
        validate_checkpoint_set(
            &evidence.merge_checkpoints,
            evidence.merge_count,
            evidence,
            "zap-distinct-merge",
            "zap-distinct-merge",
            &read.merge_checkpoints,
        )
    }
}

/// The source is complete and every limit is usable.
pub open spec fn config_fits(semantic: BoundedSemanticFacts, config: ZapDistinctConfig) -> bool {
    &&& semantic.evidence.status@ == "completed"@
    &&& semantic.evidence.runner_version@ == SEMANTIC_FACTS_RUNNER_VERSION@
    &&& config.chunk_records > 0
    &&& config.merge_fan_in >= 2
}

/// Check the source and the settings of a build.
pub fn validate_config(semantic: &BoundedSemanticFacts, config: &ZapDistinctConfig) -> (outcome:
    Result<()>)
    ensures
        outcome is Ok <==> config_fits(*semantic, *config),
        outcome is Err ==> outcome == Err::<(), Error>(
            Error::Invalid("zap distinct source or bounded limits are invalid"),
        ),
{
    if !text_equal(semantic.evidence.status.as_str(), "completed") || !text_equal(
        semantic.evidence.runner_version.as_str(),
        SEMANTIC_FACTS_RUNNER_VERSION,
    ) || config.chunk_records == 0 || config.merge_fan_in < 2 {
        return Err(Error::Invalid("zap distinct source or bounded limits are invalid"));
    }
    Ok(())
}

/// Number of chunks that hold `identities` identities, at least one.
pub open spec fn chunk_count(identities: int, chunk_records: int) -> int {
    crate::merge::larger(crate::merge::div_up(identities, chunk_records), 1)
}

/// Bytes that a build of `accepted` zaps takes at most: two identities for each
/// zap, in every generation of the runs.
pub open spec fn worst_case_bytes(accepted: int, chunk_records: int, fan_in: int) -> int {
    merge_bytes(2 * accepted, 41, chunk_count(2 * accepted, chunk_records), fan_in)
}

/// Estimate the run bytes of a build.
pub fn estimate_run_bytes(
    semantic: &BoundedSemanticFacts,
    config: &ZapDistinctConfig,
) -> (bytes: Result<u64>)
    requires
        config.chunk_records > 0,
        config.merge_fan_in >= 2,
    ensures
        ({
            let accepted = semantic.evidence.domain_counts.accepted_zaps as int;
            let exact = worst_case_bytes(
                accepted,
                config.chunk_records as int,
                config.merge_fan_in as int,
            );
            match bytes {
                Ok(total) => {
                    &&& 2 * accepted <= u64::MAX
                    &&& chunk_count(2 * accepted, config.chunk_records as int) <= usize::MAX
                    &&& total == exact
                },
                Err(error) => {
                    &&& error is Invalid
                    &&& 2 * accepted > u64::MAX || exact > u64::MAX || chunk_count(
                        2 * accepted,
                        config.chunk_records as int,
                    ) > usize::MAX
                },
            }
        }),
{
    let identities: u64 = match semantic.evidence.domain_counts.accepted_zaps.checked_mul(2) {
        Some(total) => total,
        None => {
            return Err(Error::Invalid("zap identity estimate overflowed"));
        },
    };
    let records: u64 = config.chunk_records as u64;
    proof {
        let x = identities as int;
        let y = records as int;
        assert(0 <= x / y <= x) by (nonlinear_arith)
            requires
                0 <= x,
                0 < y,
        ;
        if x % y != 0 {
            assert(x / y < x) by (nonlinear_arith)
                requires
                    0 <= x,
                    0 < y,
                    x % y != 0,
            ;
        }
    }
    let mut chunks: u64 = identities / records;
    if identities % records != 0 {
        chunks = chunks + 1;
    }
    if chunks < 1 {
        chunks = 1;
    }
    if chunks > usize::MAX as u64 {
        return Err(Error::Invalid("zap identity run count overflowed"));
    }
    estimate_merge_bytes(
        identities,
        ZAP_IDENTITY_BYTES as u64,
        chunks as usize,
        config.merge_fan_in,
        "zap identity run estimate overflowed",
    )
}

/// The semantic artifact as an input.
pub fn semantic_input(semantic: &BoundedSemanticFacts) -> (input: InputIdentity)
    ensures
        input.identity@ == "sha256:"@ + semantic.evidence.final_artifact.sha256@,
        input.byte_size == semantic.evidence.final_artifact.byte_size,
        input.row_count == semantic.evidence.final_artifact.row_count,
        input.sha256 == semantic.evidence.final_artifact.sha256,
{
    let mut identity: String = "sha256:".to_owned();
    identity.append(semantic.evidence.final_artifact.sha256.as_str());
    InputIdentity {
        identity,
        byte_size: semantic.evidence.final_artifact.byte_size,
        row_count: semantic.evidence.final_artifact.row_count,
        sha256: semantic.evidence.final_artifact.sha256.clone(),
    }
}

/// The input of a chunk: the semantic artifact and the number of the chunk.
pub fn chunk_input(source: &InputIdentity, index: usize) -> (input: InputIdentity)
    ensures
        input.identity@ == source.identity@ + "#chunk-"@ + zero_padded(index as nat, 8),
        input.byte_size == source.byte_size,
        input.row_count == source.row_count,
        input.sha256 == source.sha256,
{
    let mut identity: String = source.identity.clone();
    identity.append("#chunk-");
    push_zero_padded(&mut identity, index as u64, 8);
    InputIdentity {
        identity,
        byte_size: source.byte_size,
        row_count: source.row_count,
        sha256: source.sha256.clone(),
    }
}

/// The identity of one stage of the build.
pub fn run_identity(semantic: &BoundedSemanticFacts, stage: &str) -> (run: RunIdentity)
    ensures
        crate::runs::identifies_stage(
            run,
            semantic.evidence.snapshot_id@,
            semantic.evidence.as_of_epoch,
            "zap-distinct"@ + "-"@ + stage@,
            ZAP_DISTINCT_VERSION@,
            "day-u64-role-u8-pubkey-32-be-v1"@,
        ),
{
    crate::runs::stage_identity(
        semantic.evidence.snapshot_id.as_str(),
        semantic.evidence.as_of_epoch,
        "zap-distinct",
        stage,
        ZAP_DISTINCT_VERSION,
        "day-u64-role-u8-pubkey-32-be-v1",
    )
}

/// The evidence reports the build.
pub open spec fn completes_zap(
    evidence: ZapDistinctEvidence,
    semantic: BoundedSemanticFacts,
    config: ZapDistinctConfig,
    physical_identities: u64,
    max_buffered_identity_bytes: usize,
    chunk_checkpoints: Seq<String>,
    merged: MergeOutcome,
    leaves: Seq<ZapDistinctLeaf>,
    sketch_lg_k: u8,
) -> bool {
    let logical = merged.final_run.checkpoint.artifact.row_count;
    &&& evidence.schema_version == EVIDENCE_SCHEMA_VERSION
    &&& evidence.runner_version@ == RUNNER_VERSION@
    &&& evidence.status@ == "completed"@
    &&& evidence.snapshot_id == semantic.evidence.snapshot_id
    &&& evidence.as_of_epoch == semantic.evidence.as_of_epoch
    &&& evidence.semantic_evidence_sha256 == semantic.evidence_sha256
    &&& evidence.semantic_artifact_sha256
        == semantic.evidence.final_artifact.sha256
    &&& evidence.physical_identities == physical_identities
    &&& evidence.logical_identities == logical
    &&& evidence.duplicate_identities == physical_identities - logical
    &&& evidence.chunk_count == chunk_checkpoints.len()
    &&& evidence.merge_count == merged.merge_count
    &&& evidence.identity_artifact == merged.final_run.checkpoint.artifact
    &&& evidence.leaves@ == leaves
    &&& evidence.max_buffered_identity_bytes == max_buffered_identity_bytes
    &&& evidence.max_leaf_bytes == largest_leaf(leaves)
    &&& evidence.sketch_lg_k == sketch_lg_k
    &&& evidence.tolerance_ppm == MAX_RELATIVE_ERROR_PPM
    &&& evidence.disk_reserve_bytes == config.disk_reserve_bytes
    &&& evidence.chunk_checkpoints@ == chunk_checkpoints
    &&& evidence.merge_checkpoints@ == merged.checkpoints@
}

/// The evidence of a build whose chunks and merges reconcile.
pub fn complete_zap_distinct(
    semantic: &BoundedSemanticFacts,
    config: &ZapDistinctConfig,
    physical_identities: u64,
    max_buffered_identity_bytes: usize,
    chunk_duplicate_rows: u64,
    chunk_checkpoints: Vec<String>,
    merged: MergeOutcome,
    leaves: Vec<ZapDistinctLeaf>,
    sketch_lg_k: u8,
) -> (outcome: Result<ZapDistinctEvidence>)
    ensures
        ({
            let logical = merged.final_run.checkpoint.artifact.row_count;
            &&& outcome is Ok <==> crate::batches::reconciles(
                physical_identities,
                logical,
                chunk_duplicate_rows,
                merged.duplicate_rows,
            )
            &&& match outcome {
                Ok(evidence) => completes_zap(
                    evidence,
                    *semantic,
                    *config,
                    physical_identities,
                    max_buffered_identity_bytes,
                    chunk_checkpoints@,
                    merged,
                    leaves@,
                    sketch_lg_k,
                ),
                Err(error) => error is Invalid,
            }
        }),
{
    let logical: u64 = merged.final_run.checkpoint.artifact.row_count;
    let duplicates: u64 = match crate::batches::reconcile_duplicates(
        physical_identities,
        logical,
        chunk_duplicate_rows,
        merged.duplicate_rows,
    ) {
        Ok(rows) => rows,
        Err(error) => {
            return Err(error);
        },
    };
    let largest: usize = max_leaf_bytes(&leaves);
    Ok(
        ZapDistinctEvidence {
            schema_version: EVIDENCE_SCHEMA_VERSION,
            runner_version: RUNNER_VERSION.to_owned(),
            status: "completed".to_owned(),
            snapshot_id: semantic.evidence.snapshot_id.clone(),
            as_of_epoch: semantic.evidence.as_of_epoch,
            semantic_evidence_sha256: semantic.evidence_sha256.clone(),
            semantic_artifact_sha256: semantic.evidence.final_artifact.sha256.clone(),
            physical_identities,
            logical_identities: logical,
            duplicate_identities: duplicates,
            chunk_count: chunk_checkpoints.len() as u64,
            merge_count: merged.merge_count,
            identity_artifact: merged.final_run.checkpoint.artifact,
            leaves,
            max_buffered_identity_bytes,
            max_leaf_bytes: largest,
            sketch_lg_k,
            tolerance_ppm: MAX_RELATIVE_ERROR_PPM,
            disk_reserve_bytes: config.disk_reserve_bytes,
            chunk_checkpoints,
            merge_checkpoints: merged.checkpoints,
        },
    )
}

/// Take up decoded evidence as a product and revalidate it.
pub fn load_bounded_zap_distinct(
    evidence: ZapDistinctEvidence,
    evidence_json: &[u8],
    identity_path: String,
    semantic: &BoundedSemanticFacts,
    read: ZapRevalidation,
    sketch_lg_k: u8,
) -> (outcome: Result<BoundedZapDistinct>)
    requires
        read.chunk_checkpoints@.len() == evidence.chunk_checkpoints@.len(),
        read.merge_checkpoints@.len() == evidence.merge_checkpoints@.len(),
    ensures
        outcome is Ok <==> zap_product_valid(evidence, *semantic, read, sketch_lg_k),
        match outcome {
            Ok(loaded) => {
                &&& loaded.evidence == evidence
                &&& loaded.identity_path == identity_path
                &&& loaded.evidence_sha256@ == sha256_text(evidence_json@)
            },
            Err(error) => error is Invalid,
        },
{
    let product: BoundedZapDistinct = BoundedZapDistinct {
        identity_path,
        evidence,
        evidence_sha256: sha256_hex(evidence_json),
    };
    match product.validate_for_publication(semantic, read, sketch_lg_k) {
        Ok(()) => Ok(product),
        Err(error) => Err(error),
    }
}

/// A completed build passes the revalidation that precedes its publication.
pub proof fn lemma_completed_zap_revalidates(
    evidence: ZapDistinctEvidence,
    semantic: BoundedSemanticFacts,
    config: ZapDistinctConfig,
    physical_identities: u64,
    max_buffered_identity_bytes: usize,
    chunk_checkpoints: Seq<String>,
    merged: MergeOutcome,
    sketch_lg_k: u8,
    read: ZapRevalidation,
    groups: Seq<ZapGroup>,
)
    requires
        completes_zap(
            evidence,
            semantic,
            config,
            physical_identities,
            max_buffered_identity_bytes,
            chunk_checkpoints,
            merged,
            evidence.leaves@,
            sketch_lg_k,
        ),
        merged.final_run.checkpoint.artifact.row_count <= physical_identities,
        map_total(semantic.evidence.rollups.zaps@, day_participants()) == physical_identities,
        describes_records(merged.final_run.checkpoint.artifact, 41, read.identities@),
        is_identity_stream(read.identities@),
        cuts_groups(groups, read.identities@, record_count(read.identities@, 41)),
        leaves_match(evidence.leaves@, groups, read.rebuilt@),
        sketches_confirm(
            evidence.leaves@,
            read.decoded@,
            sketch_lg_k,
            MAX_RELATIVE_ERROR_PPM,
        ),
        paths_unique(chunk_checkpoints),
        forall|i: int|
            0 <= i < read.chunk_checkpoints@.len() ==> checkpoint_belongs(
                #[trigger] read.chunk_checkpoints@[i],
                evidence,
                "zap-distinct-chunk"@,
                "zap-distinct-empty"@,
            ),
        merged.checkpoints@.len() == merged.merge_count,
        paths_unique(merged.checkpoints@),
        forall|i: int|
            0 <= i < read.merge_checkpoints@.len() ==> checkpoint_belongs(
                #[trigger] read.merge_checkpoints@[i],
                evidence,
                "zap-distinct-merge"@,
                "zap-distinct-merge"@,
            ),
    ensures
        zap_product_valid(evidence, semantic, read, sketch_lg_k),
{
}

} // verus!
