//! Flexible-window distinct-author sketches.
//!
//! Chunks of the sorted activity stream become sorted `(hour, kind, pubkey)`
//! identities; merged, they give one leaf for each hour and kind. Windows of
//! complete hours compose from the leaves. The sketch of a leaf is made outside
//! and comes in as bytes.

use vstd::prelude::*;
use vstd::string::*;

use crate::activity::FIXED_ACTIVITY_RECORD_BYTES;
use crate::artifact::{artifact_describes, describes_records, ArtifactIdentity, EncodedRun};
use crate::bytes::{be_bytes, push_be};
use crate::calendar::floor_hour;
use crate::digest::{encode_hex, sha256_hex, sha256_text};
use crate::error::{Error, Result};
use crate::hour_identities::{
    cuts_groups, leaf_groups, lemma_groups_unique, LeafGroup, FLEXIBLE_DISTINCT_IDENTITY_BYTES,
};
use crate::leaf_stream::{
    holds_leaves, leaf_records, leaf_views, read_leaves, write_leaf, FlexibleLeaf,
};
use crate::records::{record_count, sorted_stream};
use crate::text::text_equal;

verus! {

/// Semantic version of the flexible distinct product.
pub const FLEXIBLE_DISTINCT_VERSION: &'static str = "flexible-distinct-v1";

/// Runner identity.
pub const RUNNER_VERSION: &'static str = "pensieve-analytics-flexible-distinct-v1";

/// Resource settings for the flexible distinct lane.
#[derive(Clone, Debug)]
pub struct FlexibleDistinctConfig {
    /// Dedicated immutable run root.
    pub work_root: String,
    /// Exact activity records transformed by one in-memory sort.
    pub source_records_per_batch: u64,
    /// Maximum fixed runs opened by one external merge.
    pub merge_fan_in: usize,
    /// Free bytes left untouched on the work filesystem.
    pub disk_reserve_bytes: u64,
}

/// Immutable completion evidence for one flexible distinct build.
#[derive(Clone, Debug, PartialEq, Eq)]
pub struct FlexibleDistinctEvidence {
    /// Evidence schema version.
    pub schema_version: u32,
    /// Runner implementation identity.
    pub runner_version: String,
    /// Completion status.
    pub status: String,
    /// Frozen catalog identity inherited from the activity product.
    pub snapshot_id: String,
    /// Analytics boundary of the activity product.
    pub as_of_epoch: u64,
    /// Exclusive boundary after the last complete UTC hour represented.
    pub complete_through_epoch: u64,
    /// SHA-256 of the validated activity evidence.
    pub activity_evidence_sha256: String,
    /// Exact activity artifact consumed.
    pub activity_artifact: ArtifactIdentity,
    /// Activity records considered, including the incomplete trailing hour.
    pub source_activity_rows: u64,
    /// Immutable source batches.
    pub batch_count: u64,
    /// Immutable fixed-run merges.
    pub merge_count: u64,
    /// Exact unique `(hour, kind, pubkey)` state.
    pub identity_artifact: ArtifactIdentity,
    /// Versioned leaves sorted by `(hour, kind)`.
    pub leaf_artifact: ArtifactIdentity,
    /// Maximum encoded identity bytes retained by one batch sort.
    pub max_batch_buffered_bytes: u64,
    /// Maximum encoded merge bytes retained simultaneously.
    pub max_merge_buffered_bytes: usize,
    /// Largest serialized sketch observed.
    pub max_leaf_bytes: usize,
    /// Conservative immutable-run disk estimate.
    pub estimated_run_bytes: u64,
    /// Operator-selected disk reserve.
    pub disk_reserve_bytes: u64,
    /// Immutable batch checkpoint paths.
    pub batch_checkpoints: Vec<String>,
    /// Immutable merge checkpoint paths.
    pub merge_checkpoints: Vec<String>,
    /// Immutable leaf checkpoint path.
    pub leaf_checkpoint: String,
}

/// Completed and validated flexible distinct product.
#[derive(Clone, Debug)]
pub struct BoundedFlexibleDistinct {
    /// Canonical completion evidence.
    pub evidence: FlexibleDistinctEvidence,
    /// SHA-256 of canonical evidence JSON.
    pub evidence_sha256: String,
}

/// One complete-hour-aligned distinct-author query over immutable leaves.
#[derive(Clone, Copy, Debug, PartialEq, Eq, Structural)]
pub struct FlexibleDistinctWindow {
    /// Inclusive UTC epoch-second boundary, aligned to an hour.
    pub since_epoch: u64,
    /// Exclusive UTC epoch-second boundary, aligned to an hour.
    pub until_epoch: u64,
    /// Optional event-kind restriction; `None` unions all kinds.
    pub kind: Option<u16>,
}

/// The largest sketch of the leaves, zero where there are none.
pub open spec fn largest_sketch(leaves: Seq<(u32, u16, Seq<u8>)>) -> nat
    decreases leaves.len(),
{
    if leaves.len() == 0 {
        0
    } else {
        let earlier = largest_sketch(leaves.drop_last());
        if leaves.last().2.len() > earlier {
            leaves.last().2.len()
        } else {
            earlier
        }
    }
}

/// The largest sketch of the leaves.
fn max_sketch(leaves: &Vec<FlexibleLeaf>) -> (bytes: usize)
    ensures
        bytes == largest_sketch(leaf_views(leaves@)),
{
    let ghost views = leaf_views(leaves@);
    let mut largest: usize = 0;
    let mut i: usize = 0;
    assert(views.take(0) =~= Seq::empty());
    while i < leaves.len()
        invariant
            i <= leaves@.len(),
            views == leaf_views(leaves@),
            largest == largest_sketch(views.take(i as int)),
        decreases leaves.len() - i,
    {
        assert(views.take(i + 1).drop_last() =~= views.take(i as int));
        assert(views.take(i + 1).last() == leaves@[i as int]@);
        if leaves[i].sketch.len() > largest {
            largest = leaves[i].sketch.len();
        }
        i += 1;
    }
    assert(views.take(views.len() as int) =~= views);
    largest
}

/// Every leaf lies before the boundary hour.
pub open spec fn leaves_complete(leaves: Seq<(u32, u16, Seq<u8>)>, boundary: int) -> bool {
    forall|i: int| 0 <= i < leaves.len() ==> (#[trigger] leaves[i]).0 < boundary
}

/// The stream holds `rows` leaves of complete hours.
pub open spec fn is_leaf_stream(
    bytes: Seq<u8>,
    leaves: Seq<(u32, u16, Seq<u8>)>,
    rows: int,
    complete_through: int,
) -> bool {
    &&& holds_leaves(bytes, leaves)
    &&& leaves.len() == rows
    &&& leaves_complete(leaves, complete_through / 3_600)
}

/// Read a leaf artifact of complete hours.
pub fn validate_leaf_stream(
    bytes: &[u8],
    expected_rows: u64,
    complete_through_epoch: u64,
) -> (outcome: Result<Vec<FlexibleLeaf>>)
    ensures
        outcome is Ok <==> complete_through_epoch / 3_600 <= u32::MAX && exists|
            leaves: Seq<(u32, u16, Seq<u8>)>,
        | #[trigger]
            is_leaf_stream(
                bytes@,
                leaves,
                expected_rows as int,
                complete_through_epoch as int,
            ),
        match outcome {
            Ok(leaves) => is_leaf_stream(
                bytes@,
                leaf_views(leaves@),
                expected_rows as int,
                complete_through_epoch as int,
            ),
            Err(error) => error is Invalid,
        },
{
    if complete_through_epoch / 3_600 > u32::MAX as u64 {
        return Err(Error::Invalid("complete hour exceeds u32"));
    }
    let complete_hour: u32 = (complete_through_epoch / 3_600) as u32;
    let leaves: Vec<FlexibleLeaf> = match read_leaves(bytes) {
        Ok(leaves) => leaves,
        Err(error) => {
            assert forall|other: Seq<(u32, u16, Seq<u8>)>| !#[trigger] is_leaf_stream(
                bytes@,
                other,
                expected_rows as int,
                complete_through_epoch as int,
            ) by {
                assert(!holds_leaves(bytes@, other));
            }
            return Err(error);
        },
    };
    let ghost views = leaf_views(leaves@);
    proof {
        assert forall|other: Seq<(u32, u16, Seq<u8>)>| #[trigger] is_leaf_stream(
            bytes@,
            other,
            expected_rows as int,
            complete_through_epoch as int,
        ) implies other == views by {}
    }
    let mut i: usize = 0;
    while i < leaves.len()
        invariant
            i <= leaves@.len(),
            views == leaf_views(leaves@),
            complete_hour == complete_through_epoch as int / 3_600,
            forall|j: int| 0 <= j < i ==> (#[trigger] views[j]).0 < complete_hour,
            forall|other: Seq<(u32, u16, Seq<u8>)>| #[trigger]
                is_leaf_stream(
                    bytes@,
                    other,
                    expected_rows as int,
                    complete_through_epoch as int,
                ) ==> other == views,
        decreases leaves.len() - i,
    {
        if leaves[i].hour >= complete_hour {
            assert(views[i as int].0 >= complete_hour);
            return Err(Error::Invalid("flexible leaf includes an incomplete UTC hour"));
        }
        i += 1;
    }
    if leaves.len() as u64 != expected_rows {
        return Err(Error::Invalid("flexible leaf row count mismatch"));
    }
    assert(is_leaf_stream(
        bytes@,
        views,
        expected_rows as int,
        complete_through_epoch as int,
    ));
    Ok(leaves)
}

/// The leaves are those of the groups with the given sketches, one for one.
pub open spec fn leaves_of_groups(
    leaves: Seq<(u32, u16, Seq<u8>)>,
    groups: Seq<LeafGroup>,
    sketches: Seq<Vec<u8>>,
) -> bool {
    &&& leaves.len() == groups.len()
    &&& sketches.len() == groups.len()
    &&& forall|i: int|
        0 <= i < leaves.len() ==> (#[trigger] leaves[i]) == (
            groups[i].hour,
            groups[i].kind,
            sketches[i]@,
        )
}

/// Encode the leaves of the groups of an identity artifact.
///
/// `sketches` holds one finished sketch for each group, in order. The first and
/// the last key are those of the first and the last leaf.
pub fn build_leaves(groups: &Vec<LeafGroup>, sketches: &Vec<Vec<u8>>) -> (outcome: Result<
    (EncodedRun, usize),
>)
    requires
        groups@.len() == sketches@.len(),
    ensures
        match outcome {
            Ok((run, max_leaf_bytes)) => {
                let leaves = group_leaves(groups@, sketches@);
                &&& run.bytes@ == leaf_records(leaves)
                &&& run.rows == groups@.len()
                &&& max_leaf_bytes == largest_sketch(leaves)
                &&& run.keys_are(
                    groups@.len() > 0,
                    leaf_key(groups@[0]),
                    leaf_key(groups@[groups@.len() - 1]),
                )
            },
            Err(error) => {
                &&& error == Error::Invalid("serialized flexible leaf exceeds u32")
                &&& exists|i: int|
                    0 <= i < sketches@.len() && (#[trigger] sketches@[i])@.len() > u32::MAX
            },
        },
        outcome is Err <==> exists|i: int|
            0 <= i < sketches@.len() && (#[trigger] sketches@[i])@.len() > u32::MAX,
{
    let mut bytes: Vec<u8> = Vec::new();
    let mut largest: usize = 0;
    let ghost leaves = group_leaves(groups@, sketches@);
    let mut i: usize = 0;
    proof {
        assert(leaves.take(0) =~= Seq::empty());
        assert(leaf_records(leaves.take(0)) =~= Seq::<u8>::empty());
    }
    while i < groups.len()
        invariant
            i <= groups@.len(),
            groups@.len() == sketches@.len(),
            leaves == group_leaves(groups@, sketches@),
            bytes@ == leaf_records(leaves.take(i as int)),
            largest == largest_sketch(leaves.take(i as int)),
            forall|j: int| 0 <= j < i ==> (#[trigger] sketches@[j])@.len() <= u32::MAX,
        decreases groups.len() - i,
    {
        let leaf: FlexibleLeaf = FlexibleLeaf {
            hour: groups[i].hour,
            kind: groups[i].kind,
            sketch: vstd::slice::slice_to_vec(sketches[i].as_slice()),
        };
        proof {
            assert(leaf@ == leaves[i as int]);
            assert(leaves.take(i + 1) =~= leaves.take(i as int).push(leaf@));
            lemma_leaf_records_push(leaves.take(i as int), leaf@);
            assert(leaves.take(i + 1).drop_last() =~= leaves.take(i as int));
        }
        match write_leaf(&mut bytes, &leaf) {
            Ok(()) => {},
            Err(error) => {
                assert(sketches@[i as int]@.len() > u32::MAX);
                return Err(error);
            },
        }
        if leaf.sketch.len() > largest {
            largest = leaf.sketch.len();
        }
        i += 1;
    }
    assert(leaves.take(leaves.len() as int) =~= leaves);
    let mut min_key: Option<String> = None;
    let mut max_key: Option<String> = None;
    if groups.len() > 0 {
        min_key = Some(encode_hex(encode_leaf_key(&groups[0]).as_slice()));
        max_key = Some(encode_hex(encode_leaf_key(&groups[groups.len() - 1]).as_slice()));
    }
    let rows: u64 = groups.len() as u64;
    Ok((EncodedRun { bytes, rows, min_key, max_key }, largest))
}

/// The leaves of groups with the given sketches.
pub open spec fn group_leaves(
    groups: Seq<LeafGroup>,
    sketches: Seq<Vec<u8>>,
) -> Seq<(u32, u16, Seq<u8>)> {
    Seq::new(groups.len(), |i: int| (groups[i].hour, groups[i].kind, sketches[i]@))
}

/// The key of the leaf of a group.
pub open spec fn leaf_key(group: LeafGroup) -> Seq<u8> {
    be_bytes(group.hour as nat, 4) + be_bytes(group.kind as nat, 2)
}

fn encode_leaf_key(group: &LeafGroup) -> (key: Vec<u8>)
    ensures
        key@ == leaf_key(*group),
{
    let mut key: Vec<u8> = Vec::new();
    push_be(&mut key, group.hour as u64, 4);
    push_be(&mut key, group.kind as u64, 2);
    assert(key@ =~= leaf_key(*group));
    key
}

/// One more leaf comes last.
proof fn lemma_leaf_records_push(
    leaves: Seq<(u32, u16, Seq<u8>)>,
    leaf: (u32, u16, Seq<u8>),
)
    ensures
        leaf_records(leaves.push(leaf)) == leaf_records(leaves) + crate::leaf_stream::leaf_record(
            leaf,
        ),
    decreases leaves.len(),
{
    let more = leaves.push(leaf);
    if leaves.len() == 0 {
        assert(more.skip(1) =~= leaves);
        assert(more[0] == leaf);
        assert(leaf_records(leaves) =~= Seq::<u8>::empty());
        assert(leaf_records(more) =~= crate::leaf_stream::leaf_record(leaf));
        assert(leaf_records(leaves) + crate::leaf_stream::leaf_record(leaf)
            =~= crate::leaf_stream::leaf_record(leaf));
    } else {
        assert(more.skip(1) =~= leaves.skip(1).push(leaf));
        lemma_leaf_records_push(leaves.skip(1), leaf);
        assert(leaf_records(more) =~= leaf_records(leaves) + crate::leaf_stream::leaf_record(leaf));
    }
}

/// The product is complete for the snapshot and the boundary.
pub open spec fn completed_for(
    evidence: FlexibleDistinctEvidence,
    snapshot_id: Seq<char>,
    as_of_epoch: u64,
) -> bool {
    &&& evidence.schema_version == 1
    &&& evidence.runner_version@ == RUNNER_VERSION@
    &&& evidence.status@ == "completed"@
    &&& evidence.snapshot_id@ == snapshot_id
    &&& evidence.as_of_epoch == as_of_epoch
    &&& evidence.complete_through_epoch == as_of_epoch - as_of_epoch % 3_600
}

/// What was read and rebuilt outside to revalidate a product.
pub struct FlexibleRevalidation<'a> {
    /// Bytes of the activity artifact.
    pub activity: &'a [u8],
    /// Bytes of the identity artifact.
    pub identities: &'a [u8],
    /// Bytes of the leaf artifact.
    pub leaves: &'a [u8],
    /// Sketches rebuilt from the identities, one for each hour and kind.
    pub rebuilt: &'a Vec<Vec<u8>>,
}

/// The leaf artifact has its recorded size and digest, and holds exactly the
/// leaves of the identity groups.
pub open spec fn leaves_cover(
    evidence: FlexibleDistinctEvidence,
    read: FlexibleRevalidation,
    leaves: Seq<(u32, u16, Seq<u8>)>,
    groups: Seq<LeafGroup>,
) -> bool {
    &&& is_leaf_stream(
        read.leaves@,
        leaves,
        evidence.leaf_artifact.row_count as int,
        evidence.complete_through_epoch as int,
    )
    &&& evidence.max_leaf_bytes == largest_sketch(leaves)
    &&& cuts_groups(groups, read.identities@, record_count(read.identities@, 38))
    &&& leaves_of_groups(leaves, groups, read.rebuilt@)
}

/// The product follows from its artifacts.
pub open spec fn product_valid(
    evidence: FlexibleDistinctEvidence,
    read: FlexibleRevalidation,
) -> bool {
    &&& describes_records(evidence.activity_artifact, 70, read.activity@)
    &&& describes_records(evidence.identity_artifact, 38, read.identities@)
    &&& evidence.leaf_artifact.byte_size == read.leaves@.len()
    &&& evidence.leaf_artifact.sha256@ == sha256_text(read.leaves@)
    &&& evidence.complete_through_epoch / 3_600 <= u32::MAX
    &&& sorted_stream(read.identities@, 38, 38)
    &&& exists|leaves: Seq<(u32, u16, Seq<u8>)>, groups: Seq<LeafGroup>| #[trigger]
        leaves_cover(evidence, read, leaves, groups)
}

/// Whether the leaves are those of the groups, one for one.
fn leaves_match(
    leaves: &Vec<FlexibleLeaf>,
    groups: &Vec<LeafGroup>,
    sketches: &Vec<Vec<u8>>,
) -> (same: bool)
    ensures
        same == leaves_of_groups(leaf_views(leaves@), groups@, sketches@),
{
    let ghost views = leaf_views(leaves@);
    if leaves.len() != groups.len() || sketches.len() != groups.len() {
        return false;
    }
    let mut i: usize = 0;
    while i < leaves.len()
        invariant
            i <= leaves@.len(),
            views == leaf_views(leaves@),
            leaves@.len() == groups@.len(),
            sketches@.len() == groups@.len(),
            forall|j: int|
                0 <= j < i ==> (#[trigger] views[j]) == (
                    groups@[j].hour,
                    groups@[j].kind,
                    sketches@[j]@,
                ),
        decreases leaves.len() - i,
    {
        if leaves[i].hour != groups[i].hour || leaves[i].kind != groups[i].kind
            || !crate::bytes::bytes_equal(leaves[i].sketch.as_slice(), sketches[i].as_slice()) {
            assert(views[i as int] != (
                groups@[i as int].hour,
                groups@[i as int].kind,
                sketches@[i as int]@,
            ));
            return false;
        }
        i += 1;
    }
    true
}

impl BoundedFlexibleDistinct {
    /// Revalidate all immutable input, identity, leaf, and evidence invariants.
    pub fn validate_for_publication(
        &self,
        snapshot_id: &str,
        as_of_epoch: u64,
        read: &FlexibleRevalidation,
    ) -> (outcome: Result<()>)
        ensures
            outcome is Ok <==> completed_for(self.evidence, snapshot_id@, as_of_epoch)
                && product_valid(self.evidence, *read),
            outcome is Err ==> outcome->Err_0 is Invalid,
    {
        let evidence: &FlexibleDistinctEvidence = &self.evidence;
        if evidence.schema_version != 1 || !text_equal(
            evidence.runner_version.as_str(),
            RUNNER_VERSION,
        ) || !text_equal(evidence.status.as_str(), "completed") || !text_equal(
            evidence.snapshot_id.as_str(),
            snapshot_id,
        ) || evidence.as_of_epoch != as_of_epoch || evidence.complete_through_epoch != floor_hour(
            as_of_epoch,
        ) {
            return Err(
                Error::Invalid("flexible-distinct evidence is not a completed matching product"),
            );
        }
        if !artifact_describes(
            &evidence.activity_artifact,
            FIXED_ACTIVITY_RECORD_BYTES,
            read.activity,
        ) || !artifact_describes(
            &evidence.identity_artifact,
            FLEXIBLE_DISTINCT_IDENTITY_BYTES,
            read.identities,
        ) {
            return Err(Error::Invalid("flexible distinct fixed artifact identity mismatch"));
        }
        if evidence.leaf_artifact.byte_size != read.leaves.len() as u64 || !text_equal(
            evidence.leaf_artifact.sha256.as_str(),
            sha256_hex(read.leaves).as_str(),
        ) {
            return Err(Error::Invalid("flexible leaf artifact identity mismatch"));
        }
        let leaves: Vec<FlexibleLeaf> = match validate_leaf_stream(
            read.leaves,
            evidence.leaf_artifact.row_count,
            evidence.complete_through_epoch,
        ) {
            Ok(leaves) => leaves,
            Err(error) => {
                proof {
                    if product_valid(*evidence, *read) {
                        let (other, groups) = choose|
                            other: Seq<(u32, u16, Seq<u8>)>,
                            groups: Seq<LeafGroup>,
                        | #[trigger] leaves_cover(*evidence, *read, other, groups);
                        assert(is_leaf_stream(
                            read.leaves@,
                            other,
                            evidence.leaf_artifact.row_count as int,
                            evidence.complete_through_epoch as int,
                        ));
                    }
                }
                return Err(error);
            },
        };
        let ghost views = leaf_views(leaves@);
        if max_sketch(&leaves) != evidence.max_leaf_bytes {
            return Err(Error::Invalid("flexible leaf maximum-size evidence mismatch"));
        }
        let groups: Vec<LeafGroup> = match leaf_groups(read.identities) {
            Ok(groups) => groups,
            Err(error) => {
                return Err(error);
            },
        };
        proof {
            let total = record_count(read.identities@, 38);
            assert forall|other: Seq<(u32, u16, Seq<u8>)>, cut: Seq<LeafGroup>| #[trigger]
                leaves_cover(*evidence, *read, other, cut) implies other == views && cut
                == groups@ by {
                lemma_groups_unique(cut, groups@, read.identities@, total);
            }
        }
        if !leaves_match(&leaves, &groups, read.rebuilt) {
            return Err(Error::Invalid("flexible leaf does not match exact identity group"));
        }
        assert(leaves_cover(*evidence, *read, views, groups@));
        Ok(())
    }
}

} // verus!
