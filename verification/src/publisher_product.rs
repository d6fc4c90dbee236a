//! Exact publisher rankings for predefined rolling windows.

use vstd::prelude::*;
use vstd::string::*;

use crate::activity::activity_stream;
use crate::artifact::{ArtifactIdentity, EncodedRun};
use crate::digest::{sha256_hex, sha256_text};
use crate::error::{Error, Result};
use crate::fixed_activity::{weeks_defined, BoundedFixedActivity};
use crate::flexible_validation::ActivityState;
use crate::publisher_artifact::{
    encode_rankings, encodes_rows, extreme_key, holds_ranking, metrics_valid, ranking_artifact,
};
use crate::publisher_ledger::{
    facts_between, lemma_ledger_metrics, lemma_stream_grouped, lists_ledger, PublisherRankingRow,
};
use crate::publisher_rank::{is_top, rank_ledger, ranking_groups, ranks_apart};
use crate::publisher_scan::largest_kinds;
use crate::records::record_count;
use crate::text::{optional_text, optional_text_equal, text_equal};

verus! {

/// Stable exact predefined-window ranking semantics.
pub const PUBLISHER_RANKING_VERSION: &'static str = "publisher-ranking-v1";

/// Schema of the completion evidence.
pub const EVIDENCE_SCHEMA_VERSION: u32 = 1;

/// Runner identity.
pub const RUNNER_VERSION: &'static str = "pensieve-analytics-publisher-ranking-v1";

/// Bounded disk and query settings for exact publisher rankings.
#[derive(Clone, Debug)]
pub struct PublisherRankingConfig {
    /// Durable resumable ledger.
    pub state_database: String,
    /// Canonical fixed-width ranking artifact.
    pub artifact_path: String,
    /// Exact supported rolling windows.
    pub windows_days: Vec<u32>,
    /// Maximum served publishers of each window and filter.
    pub top_limit: usize,
    /// Publishers committed in one transaction.
    pub publisher_batch_size: usize,
    /// Hard ledger file ceiling.
    pub max_state_bytes: u64,
    /// Fixed page cache.
    pub sqlite_cache_bytes: u64,
    /// Free work-filesystem bytes left untouched.
    pub disk_reserve_bytes: u64,
}

/// Immutable evidence for one exact bounded ranking product.
#[derive(Clone, Debug, PartialEq, Eq)]
pub struct PublisherRankingEvidence {
    /// Evidence schema version.
    pub schema_version: u32,
    /// Runner identity.
    pub runner_version: String,
    /// Completion status.
    pub status: String,
    /// Stable product semantics.
    pub product_version: String,
    /// Frozen source snapshot.
    pub snapshot_id: String,
    /// Fixed analytics boundary.
    pub as_of_epoch: u64,
    /// Fully validated predecessor evidence used to enable the recurring lane.
    pub baseline_evidence_sha256: Option<String>,
    /// Validated fixed-activity evidence SHA-256.
    pub activity_evidence_sha256: String,
    /// Exact source activity artifact SHA-256.
    pub activity_artifact_sha256: String,
    /// Exact source records scanned.
    pub source_records: u64,
    /// Supported exact windows.
    pub windows_days: Vec<u32>,
    /// Maximum served rows of each group.
    pub top_limit: usize,
    /// Exact ledger rows including all-kind rows.
    pub ledger_rows: u64,
    /// Distinct windows and kinds represented by the ledger.
    pub ranking_groups: u64,
    /// Canonical published row artifact.
    pub ranking_artifact: ArtifactIdentity,
    /// Maximum kinds buffered for one publisher.
    pub max_publisher_kinds_buffered: usize,
    /// Maximum configured ledger bytes.
    pub max_state_bytes: u64,
    /// Maximum configured cache bytes.
    pub sqlite_cache_bytes: u64,
    /// Free-space reserve.
    pub disk_reserve_bytes: u64,
}

/// Fully validated exact publisher ranking product.
#[derive(Clone, Debug, PartialEq, Eq)]
pub struct BoundedPublisherRanking {
    /// Canonical evidence.
    pub evidence: PublisherRankingEvidence,
    /// Evidence SHA-256.
    pub evidence_sha256: String,
}

/// The numbers strictly increase.
pub open spec fn increases(windows: Seq<u32>) -> bool {
    forall|i: int, j: int| 0 <= i < j < windows.len() ==> windows[i] < windows[j]
}

/// Whether the numbers strictly increase.
pub fn strictly_increase(windows: &Vec<u32>) -> (yes: bool)
    ensures
        yes == increases(windows@),
{
    let mut i: usize = 1;
    while i < windows.len()
        invariant
            1 <= i,
            forall|j: int, k: int| 0 <= j < k < i && k < windows@.len() ==> windows@[j] < windows@[k],
        decreases windows.len() - i,
    {
        if windows[i - 1] >= windows[i] {
            assert(!(windows@[i - 1] < windows@[i as int]));
            return false;
        }
        i += 1;
    }
    true
}

/// Every setting is usable.
pub open spec fn config_fits(config: PublisherRankingConfig) -> bool {
    &&& config.windows_days@.len() > 0
    &&& increases(config.windows_days@)
    &&& forall|i: int|
        0 <= i < config.windows_days@.len() ==> (#[trigger] config.windows_days@[i]) > 0
    &&& 0 < config.top_limit <= 1_000
    &&& config.publisher_batch_size > 0
    &&& config.max_state_bytes > 0
    &&& config.sqlite_cache_bytes > 0
}

/// The activity product is complete and follows from its state.
pub open spec fn source_valid(activity: BoundedFixedActivity, state: ActivityState) -> bool {
    &&& activity.completed_for(activity.evidence.snapshot_id@, activity.evidence.as_of_epoch)
    &&& activity.matches_state(state.activity@, state.flags@, state.metric_json@)
}

/// Check the source and the settings of a build.
pub fn validate_config(
    activity: &BoundedFixedActivity,
    state: &ActivityState,
    config: &PublisherRankingConfig,
) -> (outcome: Result<()>)
    requires
        weeks_defined(state.activity@, activity.evidence.as_of_epoch as int),
    ensures
        outcome is Ok <==> source_valid(*activity, *state) && config_fits(*config),
        outcome is Err ==> outcome->Err_0 is Invalid,
{
    match activity.validate_for_publication(
        activity.evidence.snapshot_id.as_str(),
        activity.evidence.as_of_epoch,
        state.activity,
        state.flags,
        state.metric_json,
    ) {
        Ok(()) => {},
        Err(error) => {
            return Err(error);
        },
    }
    if config.windows_days.len() == 0 || !strictly_increase(&config.windows_days)
        || config.windows_days[0] == 0 || config.top_limit == 0 || config.top_limit > 1_000
        || config.publisher_batch_size == 0 || config.max_state_bytes == 0
        || config.sqlite_cache_bytes == 0 {
        return Err(Error::Invalid("publisher ranking bounded configuration is invalid"));
    }
    proof {
        assert forall|i: int| 0 <= i < config.windows_days@.len() implies (
        #[trigger] config.windows_days@[i]) > 0 by {
            if i > 0 {
                assert(config.windows_days@[0] < config.windows_days@[i]);
            }
        }
    }
    Ok(())
}

/// A finished build: its evidence and the ranking artifact.
pub struct RankingBuild {
    /// Completion evidence.
    pub evidence: PublisherRankingEvidence,
    /// Bytes of the ranking artifact.
    pub artifact: Vec<u8>,
}

/// The evidence describes the source and the settings.
pub open spec fn evidence_names(
    evidence: PublisherRankingEvidence,
    activity: BoundedFixedActivity,
    config: PublisherRankingConfig,
    baseline: Option<String>,
) -> bool {
    &&& evidence.schema_version == EVIDENCE_SCHEMA_VERSION
    &&& evidence.runner_version@ == RUNNER_VERSION@
    &&& evidence.status@ == "completed"@
    &&& evidence.product_version@ == PUBLISHER_RANKING_VERSION@
    &&& evidence.snapshot_id == activity.evidence.snapshot_id
    &&& evidence.as_of_epoch == activity.evidence.as_of_epoch
    &&& evidence.baseline_evidence_sha256 == baseline
    &&& evidence.activity_evidence_sha256 == activity.evidence_sha256
    &&& evidence.activity_artifact_sha256 == activity.evidence.activity_artifact.sha256
    &&& evidence.source_records == activity.evidence.activity_artifact.row_count
    &&& evidence.windows_days@ == config.windows_days@
    &&& evidence.top_limit == config.top_limit
    &&& evidence.max_state_bytes == config.max_state_bytes
    &&& evidence.sqlite_cache_bytes == config.sqlite_cache_bytes
    &&& evidence.disk_reserve_bytes == config.disk_reserve_bytes
}

/// The artifact holds the ranking of the ledger, and the evidence counts both.
pub open spec fn ranks(
    build: RankingBuild,
    ledger: Seq<PublisherRankingRow>,
    rows: Seq<PublisherRankingRow>,
    path: Seq<char>,
) -> bool {
    let evidence = build.evidence;
    let artifact = evidence.ranking_artifact;
    &&& is_top(rows, ledger, evidence.top_limit as int)
    &&& encodes_rows(build.artifact@, rows)
    &&& evidence.ledger_rows == ledger.len()
    &&& evidence.ranking_groups == ranking_groups(ledger).len()
    &&& artifact.path@ == path
    &&& artifact.byte_size == build.artifact@.len()
    &&& artifact.row_count == rows.len()
    &&& extreme_key(artifact.min_key, rows, false)
    &&& extreme_key(artifact.max_key, rows, true)
    &&& artifact.sha256@ == sha256_text(build.artifact@)
}

/// A copy of the windows.
pub(crate) fn copy_windows(windows: &Vec<u32>) -> (copy: Vec<u32>)
    ensures
        copy@ == windows@,
{
    let mut copy: Vec<u32> = Vec::new();
    let mut i: usize = 0;
    while i < windows.len()
        invariant
            i <= windows@.len(),
            copy@ =~= windows@.take(i as int),
        decreases windows.len() - i,
    {
        copy.push(windows[i]);
        i += 1;
    }
    copy
}

/// What ranking a ledger comes to.
pub open spec fn finishes(
    activity: BoundedFixedActivity,
    config: PublisherRankingConfig,
    ledger: Seq<PublisherRankingRow>,
    source_records: int,
    max_publisher_kinds: usize,
    baseline: Option<String>,
    outcome: Result<RankingBuild>,
) -> bool {
    &&& outcome is Ok <==> source_records == activity.evidence.activity_artifact.row_count
        && ranks_apart(ledger)
    &&& match outcome {
        Ok(build) => {
            &&& evidence_names(build.evidence, activity, config, baseline)
            &&& build.evidence.max_publisher_kinds_buffered == max_publisher_kinds
            &&& exists|rows: Seq<PublisherRankingRow>| #[trigger]
                ranks(build, ledger, rows, config.artifact_path@)
        },
        Err(error) => error is Invalid,
    }
}

/// Rank a complete ledger and describe it.
pub fn finish_ranking(
    activity: &BoundedFixedActivity,
    config: &PublisherRankingConfig,
    ledger: Vec<PublisherRankingRow>,
    source_records: u64,
    max_publisher_kinds: usize,
    baseline_evidence_sha256: Option<String>,
) -> (outcome: Result<RankingBuild>)
    ensures
        finishes(
            *activity,
            *config,
            ledger@,
            source_records as int,
            max_publisher_kinds,
            baseline_evidence_sha256,
            outcome,
        ),
{
    if source_records != activity.evidence.activity_artifact.row_count {
        return Err(Error::Invalid("publisher ranking did not scan the exact activity artifact"));
    }
    let ledger_rows: u64 = ledger.len() as u64;
    let ghost all = ledger@;
    let (rows, groups) = match rank_ledger(ledger, config.top_limit) {
        Ok(ranked) => ranked,
        Err(error) => {
            return Err(error);
        },
    };
    let run: EncodedRun = encode_rankings(&rows);
    let byte_size: u64 = run.bytes.len() as u64;
    let sha256: String = sha256_hex(run.bytes.as_slice());
    let evidence: PublisherRankingEvidence = PublisherRankingEvidence {
        schema_version: EVIDENCE_SCHEMA_VERSION,
        runner_version: RUNNER_VERSION.to_owned(),
        status: "completed".to_owned(),
        product_version: PUBLISHER_RANKING_VERSION.to_owned(),
        snapshot_id: activity.evidence.snapshot_id.clone(),
        as_of_epoch: activity.evidence.as_of_epoch,
        baseline_evidence_sha256,
        activity_evidence_sha256: activity.evidence_sha256.clone(),
        activity_artifact_sha256: activity.evidence.activity_artifact.sha256.clone(),
        source_records,
        windows_days: copy_windows(&config.windows_days),
        top_limit: config.top_limit,
        ledger_rows,
        ranking_groups: groups,
        ranking_artifact: ArtifactIdentity {
            path: config.artifact_path.clone(),
            byte_size,
            row_count: run.rows,
            min_key: run.min_key,
            max_key: run.max_key,
            sha256,
        },
        max_publisher_kinds_buffered: max_publisher_kinds,
        max_state_bytes: config.max_state_bytes,
        sqlite_cache_bytes: config.sqlite_cache_bytes,
        disk_reserve_bytes: config.disk_reserve_bytes,
    };
    let build: RankingBuild = RankingBuild { evidence, artifact: run.bytes };
    assert(ranks(build, all, rows@, config.artifact_path@));
    Ok(build)
}

/// The build ranks the ledger of the whole activity stream.
pub open spec fn ranks_activity(
    build: RankingBuild,
    ledger: Seq<PublisherRankingRow>,
    rows: Seq<PublisherRankingRow>,
    activity: Seq<u8>,
    path: Seq<char>,
) -> bool {
    &&& lists_ledger(
        ledger,
        facts_between(activity, 0, record_count(activity, 70)),
        build.evidence.windows_days@,
        build.evidence.as_of_epoch as int,
    )
    &&& build.evidence.max_publisher_kinds_buffered == largest_kinds(ledger)
    &&& ranks(build, ledger, rows, path)
    &&& holds_ranking(build.artifact@, rows)
}

/// Rows of a ledger have few enough kinds for a counter.
pub(crate) proof fn lemma_kinds_small(
    ledger: Seq<PublisherRankingRow>,
    activity: Seq<u8>,
    from: int,
    to: int,
    windows: Seq<u32>,
    as_of: int,
)
    requires
        activity_stream(activity),
        0 <= from <= to <= record_count(activity, 70),
        lists_ledger(ledger, facts_between(activity, from, to), windows, as_of),
    ensures
        largest_kinds(ledger) <= 65_536,
        forall|i: int| 0 <= i < ledger.len() ==> metrics_valid(#[trigger] ledger[i]),
{
    let facts = facts_between(activity, from, to);
    lemma_stream_grouped(activity, from, to);
    assert forall|i: int| 0 <= i < ledger.len() implies metrics_valid(#[trigger] ledger[i])
        && ledger[i].kinds_count <= 65_536 by {
        lemma_ledger_metrics(ledger[i], facts, as_of);
    }
    lemma_largest_bound(ledger);
}

proof fn lemma_largest_bound(rows: Seq<PublisherRankingRow>)
    requires
        forall|i: int| 0 <= i < rows.len() ==> (#[trigger] rows[i]).kinds_count <= 65_536,
    ensures
        largest_kinds(rows) <= 65_536,
    decreases rows.len(),
{
    if rows.len() > 0 {
        assert(rows[rows.len() - 1].kinds_count <= 65_536);
        assert forall|i: int| 0 <= i < rows.drop_last().len() implies (
        #[trigger] rows.drop_last()[i]).kinds_count <= 65_536 by {
            assert(rows[i].kinds_count <= 65_536);
        }
        lemma_largest_bound(rows.drop_last());
    }
}

/// The successor keeps the windows and the limit of its predecessor and does
/// not go back in time.
pub open spec fn keeps_contract(
    baseline: BoundedPublisherRanking,
    activity: BoundedFixedActivity,
    config: PublisherRankingConfig,
) -> bool {
    &&& activity.evidence.as_of_epoch >= baseline.evidence.as_of_epoch
    &&& config.windows_days@ == baseline.evidence.windows_days@
    &&& config.top_limit == baseline.evidence.top_limit
}

/// Whether the windows are the same.
fn windows_equal(a: &Vec<u32>, b: &Vec<u32>) -> (same: bool)
    ensures
        same == (a@ == b@),
{
    if a.len() != b.len() {
        return false;
    }
    let mut i: usize = 0;
    while i < a.len()
        invariant
            i <= a@.len(),
            a@.len() == b@.len(),
            forall|j: int| 0 <= j < i ==> a@[j] == b@[j],
        decreases a.len() - i,
    {
        if a[i] != b[i] {
            return false;
        }
        i += 1;
    }
    assert(a@ =~= b@);
    true
}

/// Check that a successor keeps the windows and the limit of its predecessor.
pub fn check_successor(
    baseline: &BoundedPublisherRanking,
    activity: &BoundedFixedActivity,
    config: &PublisherRankingConfig,
) -> (outcome: Result<()>)
    ensures
        outcome is Ok <==> keeps_contract(*baseline, *activity, *config),
        outcome is Err ==> outcome == Err::<(), Error>(
            Error::Invalid("publisher successor changes its predecessor window contract"),
        ),
{
    if activity.evidence.as_of_epoch < baseline.evidence.as_of_epoch || !windows_equal(
        &config.windows_days,
        &baseline.evidence.windows_days,
    ) || config.top_limit != baseline.evidence.top_limit {
        return Err(Error::Invalid("publisher successor changes its predecessor window contract"));
    }
    Ok(())
}

/// Check that a retried build writes the artifact that an earlier attempt left.
pub fn check_retry(existing_sha256: &Option<String>, build: &RankingBuild) -> (outcome: Result<()>)
    ensures
        outcome is Ok <==> existing_sha256 is None || existing_sha256->0@
            == build.evidence.ranking_artifact.sha256@,
        outcome is Err ==> outcome == Err::<(), Error>(
            Error::Invalid("publisher completed artifact conflicts with retry output"),
        ),
{
    match existing_sha256 {
        None => Ok(()),
        Some(existing) => {
            if !text_equal(existing.as_str(), build.evidence.ranking_artifact.sha256.as_str()) {
                return Err(
                    Error::Invalid("publisher completed artifact conflicts with retry output"),
                );
            }
            Ok(())
        },
    }
}

/// Check that completed evidence has the predecessor that a build names.
pub fn check_lineage(
    completed: &BoundedPublisherRanking,
    baseline_evidence_sha256: &Option<String>,
) -> (outcome: Result<()>)
    ensures
        outcome is Ok <==> optional_text(completed.evidence.baseline_evidence_sha256)
            == optional_text(*baseline_evidence_sha256),
        outcome is Err ==> outcome == Err::<(), Error>(
            Error::Invalid("publisher completed evidence has different predecessor lineage"),
        ),
{
    if !optional_text_equal(
        &completed.evidence.baseline_evidence_sha256,
        baseline_evidence_sha256,
    ) {
        return Err(
            Error::Invalid("publisher completed evidence has different predecessor lineage"),
        );
    }
    Ok(())
}

} // verus!
