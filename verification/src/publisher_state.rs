//! The durable publisher ledger and the validation of rankings against it.

use vstd::prelude::*;
use vstd::string::*;

use crate::bytes::read_32;
use crate::digest::{sha256_hex, sha256_text};
use crate::error::{from_i64, saturating_product, to_i64, Error, Result};
use crate::fixed_activity::BoundedFixedActivity;
use crate::merge::div_up;
use crate::publisher_artifact::{
    held_ranking, holds_ranking, lemma_ranking_round_trip, ranking_artifact, read_ranking_artifact,
    rows_equal, same_row, visit_ranking_artifact,
};
use crate::publisher_ledger::PublisherRankingRow;
use crate::publisher_product::{
    config_fits, evidence_names, increases, ranks_activity, strictly_increase,
    BoundedPublisherRanking, PublisherRankingConfig, PublisherRankingEvidence, RankingBuild,
    EVIDENCE_SCHEMA_VERSION, PUBLISHER_RANKING_VERSION, RUNNER_VERSION,
};
use crate::publisher_rank::{
    is_top, lemma_ledger_ranks_apart, lemma_top_bounded, lemma_top_unique, rank_ledger,
    ranking_groups, ranks_apart,
};
use crate::publisher_scan::largest_kinds;
use crate::text::{parse_unsigned, text_equal, unsigned_value};
use crate::visits::{visit_of, visits_rows};

verus! {

/// The JSON array that names an immutable run, if it can be written.
pub uninterp spec fn run_json(
    version: Seq<char>,
    snapshot_id: Seq<char>,
    as_of_epoch: u64,
    evidence_sha256: Seq<char>,
    artifact_sha256: Seq<char>,
    windows_days: Seq<u32>,
    top_limit: usize,
) -> Option<Seq<char>>;

/// `serde_json::to_string` on the seven values that name an immutable run.
///
/// Taken without proof: the text depends on the values alone, and `run_json`
/// names it.
#[verifier::external_body]
fn write_run_json(
    version: &str,
    snapshot_id: &str,
    as_of_epoch: u64,
    evidence_sha256: &str,
    artifact_sha256: &str,
    windows_days: &Vec<u32>,
    top_limit: usize,
) -> (text: Option<String>)
    ensures
        match text {
            None => run_json(
                version@,
                snapshot_id@,
                as_of_epoch,
                evidence_sha256@,
                artifact_sha256@,
                windows_days@,
                top_limit,
            ) is None,
            Some(written) => run_json(
                version@,
                snapshot_id@,
                as_of_epoch,
                evidence_sha256@,
                artifact_sha256@,
                windows_days@,
                top_limit,
            ) == Some(written@),
        },
{
    serde_json::to_string(
        &(
            version,
            snapshot_id,
            as_of_epoch,
            evidence_sha256,
            artifact_sha256,
            windows_days,
            top_limit,
        ),
    ).ok()
}

/// The identity that a ledger of the activity product and settings carries.
pub open spec fn state_identity_text(
    activity: BoundedFixedActivity,
    config: PublisherRankingConfig,
) -> Option<Seq<char>> {
    run_json(
        PUBLISHER_RANKING_VERSION@,
        activity.evidence.snapshot_id@,
        activity.evidence.as_of_epoch,
        activity.evidence_sha256@,
        activity.evidence.activity_artifact.sha256@,
        config.windows_days@,
        config.top_limit,
    )
}

/// What to do with the identity of a ledger.
#[derive(Clone, Debug, PartialEq, Eq)]
pub enum StateIdentity {
    /// The ledger is new: store this identity and start at the first record.
    Store(String),
    /// The ledger belongs to the build.
    Known,
}

/// Decide whether a ledger with the stored identity, if any, belongs to a build.
pub fn initialize_identity(
    activity: &BoundedFixedActivity,
    config: &PublisherRankingConfig,
    stored: &Option<String>,
) -> (outcome: Result<StateIdentity>)
    ensures
        ({
            let identity = state_identity_text(*activity, *config);
            match outcome {
                Ok(StateIdentity::Store(text)) => stored is None && identity == Some(text@),
                Ok(StateIdentity::Known) => stored is Some && identity == Some(stored->0@),
                Err(error) => {
                    &&& error is Invalid
                    &&& identity is None || (stored is Some && identity != Some(stored->0@))
                },
            }
        }),
{
    decide_identity(
        write_run_json(
            PUBLISHER_RANKING_VERSION,
            activity.evidence.snapshot_id.as_str(),
            activity.evidence.as_of_epoch,
            activity.evidence_sha256.as_str(),
            activity.evidence.activity_artifact.sha256.as_str(),
            &config.windows_days,
            config.top_limit,
        ),
        stored,
    )
}

/// Decide by the written identity of a build whether a ledger belongs to it.
pub fn decide_identity(written: Option<String>, stored: &Option<String>) -> (outcome: Result<
    StateIdentity,
>)
    ensures
        match outcome {
            Ok(StateIdentity::Store(text)) => stored is None && written == Some(text),
            Ok(StateIdentity::Known) => {
                &&& stored is Some
                &&& written is Some
                &&& written->0@ == stored->0@
            },
            Err(error) => {
                ||| written is None && error == Error::Invalid("publisher identity cannot be written")
                ||| {
                    &&& written is Some
                    &&& stored is Some
                    &&& written->0@ != stored->0@
                    &&& error == Error::Invalid(
                        "publisher state belongs to a different immutable run",
                    )
                }
            },
        },
{
    match written {
        None => Err(Error::Invalid("publisher identity cannot be written")),
        Some(identity) => match stored {
            None => Ok(StateIdentity::Store(identity)),
            Some(existing) => {
                if text_equal(existing.as_str(), identity.as_str()) {
                    Ok(StateIdentity::Known)
                } else {
                    Err(Error::Invalid("publisher state belongs to a different immutable run"))
                }
            },
        },
    }
}

/// Read the progress that a ledger records.
pub fn state_progress(records: &str, kinds: &str) -> (outcome: Result<(u64, usize)>)
    ensures
        match outcome {
            Ok((source_records, max_kinds)) => {
                &&& unsigned_value(records@) == Some(source_records)
                &&& unsigned_value(kinds@) is Some
                &&& unsigned_value(kinds@)->0 == max_kinds
            },
            Err(error) => {
                ||| {
                    &&& unsigned_value(records@) is None
                    &&& error == Error::Invalid("publisher source progress is invalid")
                }
                ||| {
                    &&& unsigned_value(records@) is Some
                    &&& unsigned_value(kinds@) is None || unsigned_value(kinds@)->0 > usize::MAX
                    &&& error == Error::Invalid("publisher kind progress is invalid")
                }
            },
        },
{
    let source_records: u64 = match parse_unsigned(records) {
        Some(value) => value,
        None => {
            return Err(Error::Invalid("publisher source progress is invalid"));
        },
    };
    match parse_unsigned(kinds) {
        Some(value) => {
            if value > usize::MAX as u64 {
                return Err(Error::Invalid("publisher kind progress is invalid"));
            }
            Ok((source_records, value as usize))
        },
        None => Err(Error::Invalid("publisher kind progress is invalid")),
    }
}

/// What to do with the ranking index before a scan goes on.
#[derive(Clone, Copy, Debug, PartialEq, Eq, Structural)]
pub enum RankIndex {
    /// Records are left: rows are cheaper to insert without the index.
    Drop,
    /// Every record is in: the ranking needs the index.
    Ensure,
}

/// Decide whether the ranking index may exist: only once the source is complete.
pub fn prepare_rank_index_for_build(
    source_records: u64,
    expected_source_records: u64,
) -> (outcome: Result<RankIndex>)
    ensures
        source_records < expected_source_records ==> outcome == Ok::<RankIndex, Error>(
            RankIndex::Drop,
        ),
        source_records == expected_source_records ==> outcome == Ok::<RankIndex, Error>(
            RankIndex::Ensure,
        ),
        source_records > expected_source_records ==> outcome == Err::<RankIndex, Error>(
            Error::Invalid("publisher source progress exceeds its immutable activity artifact"),
        ),
{
    if source_records > expected_source_records {
        return Err(
            Error::Invalid("publisher source progress exceeds its immutable activity artifact"),
        );
    }
    if source_records < expected_source_records {
        Ok(RankIndex::Drop)
    } else {
        Ok(RankIndex::Ensure)
    }
}

/// The page limit and the cache size, in negative KiB; none where not one page
/// fits.
pub fn page_limits(max_state_bytes: u64, cache_bytes: u64, page_size: u64) -> (limits: Option<
    (u64, i64),
>)
    requires
        page_size > 0,
    ensures
        match limits {
            Some((pages, cache)) => {
                &&& pages == max_state_bytes as int / page_size as int
                &&& pages > 0
                &&& cache == -div_up(cache_bytes as int, 1_024)
            },
            None => max_state_bytes < page_size,
        },
{
    let pages: u64 = max_state_bytes / page_size;
    if pages == 0 {
        proof {
            let m = max_state_bytes as int;
            let p = page_size as int;
            assert(m < p) by (nonlinear_arith)
                requires
                    m / p == 0,
                    m >= 0,
                    p > 0,
            ;
        }
        return None;
    }
    let mut cache: u64 = cache_bytes / 1_024;
    if cache_bytes % 1_024 != 0 {
        cache = cache + 1;
    }
    Some((pages, -(cache as i64)))
}

/// The page limit and the cache size, in negative KiB, of a ledger.
pub fn state_limits(config: &PublisherRankingConfig, page_size: u64) -> (outcome: Result<
    (u64, i64),
>)
    requires
        page_size > 0,
    ensures
        match outcome {
            Ok((pages, cache)) => {
                &&& pages == config.max_state_bytes as int / page_size as int
                &&& pages > 0
                &&& cache == -div_up(config.sqlite_cache_bytes as int, 1_024)
            },
            Err(error) => {
                &&& error == Error::Invalid("publisher max state is below one SQLite page")
                &&& config.max_state_bytes < page_size
            },
        },
{
    match page_limits(config.max_state_bytes, config.sqlite_cache_bytes, page_size) {
        Some(limits) => Ok(limits),
        None => Err(Error::Invalid("publisher max state is below one SQLite page")),
    }
}

/// Check that a ledger keeps to its ceiling.
pub fn enforce_state_size(pages: u64, page_size: u64, maximum: u64) -> (outcome: Result<()>)
    ensures
        outcome is Ok <==> pages * page_size <= maximum || maximum == u64::MAX,
        outcome is Err ==> outcome == Err::<(), Error>(
            Error::Invalid("publisher SQLite state exceeded its configured ceiling"),
        ),
{
    if saturating_product(pages, page_size) > maximum {
        return Err(Error::Invalid("publisher SQLite state exceeded its configured ceiling"));
    }
    Ok(())
}

/// A ledger row as the columns hold it.
#[derive(Clone, Debug, PartialEq, Eq)]
pub struct LedgerColumns {
    /// Window in days.
    pub days: i64,
    /// Kind, or -1 for all kinds.
    pub kind: i64,
    /// Publisher key.
    pub pubkey: Vec<u8>,
    /// Event count.
    pub event_count: i64,
    /// Distinct kinds.
    pub kinds_count: i64,
    /// Earliest second.
    pub first_event: i64,
    /// Latest second.
    pub last_event: i64,
}

/// The columns hold the row.
pub open spec fn columns_hold(columns: LedgerColumns, row: PublisherRankingRow) -> bool {
    &&& columns.days == row.days
    &&& columns.kind == crate::flexible_samples::kind_rank(row.kind)
    &&& columns.pubkey@ == row.pubkey@
    &&& columns.event_count == row.event_count
    &&& columns.kinds_count == row.kinds_count
    &&& columns.first_event == row.first_event
    &&& columns.last_event == row.last_event
}

/// The columns can be read as a row.
pub open spec fn columns_readable(columns: LedgerColumns) -> bool {
    &&& 0 <= columns.days <= u32::MAX
    &&& -1 <= columns.kind <= u16::MAX
    &&& columns.pubkey@.len() == 32
    &&& columns.event_count >= 0
    &&& columns.kinds_count >= 0
    &&& 0 <= columns.first_event <= u32::MAX
    &&& 0 <= columns.last_event <= u32::MAX
}

/// The columns of a row.
pub fn ledger_columns(row: &PublisherRankingRow) -> (outcome: Result<LedgerColumns>)
    ensures
        outcome is Ok <==> row.event_count <= i64::MAX && row.kinds_count <= i64::MAX,
        match outcome {
            Ok(columns) => columns_hold(columns, *row),
            Err(error) => error is NumericOverflow,
        },
{
    let event_count: i64 = match to_i64("publisher count", row.event_count) {
        Ok(value) => value,
        Err(error) => {
            return Err(error);
        },
    };
    let kinds_count: i64 = match to_i64("publisher kinds", row.kinds_count) {
        Ok(value) => value,
        Err(error) => {
            return Err(error);
        },
    };
    let kind: i64 = match row.kind {
        None => -1,
        Some(kind) => kind as i64,
    };
    Ok(
        LedgerColumns {
            days: row.days as i64,
            kind,
            pubkey: vstd::slice::slice_to_vec(row.pubkey.as_slice()),
            event_count,
            kinds_count,
            first_event: row.first_event as i64,
            last_event: row.last_event as i64,
        },
    )
}

/// Why the columns of a ledger row cannot be read, if so.
pub open spec fn row_fault(columns: LedgerColumns) -> Option<Error> {
    if !(0 <= columns.days <= u32::MAX) {
        Some(Error::Invalid("publisher days are invalid"))
    } else if !(-1 <= columns.kind <= u16::MAX) {
        Some(Error::Invalid("publisher kind is invalid"))
    } else if columns.pubkey@.len() != 32 {
        Some(Error::Invalid("publisher pubkey does not have 32 bytes"))
    } else if columns.event_count < 0 {
        Some(
            Error::NegativeLedgerValue {
                field: "publisher event count",
                value: columns.event_count,
            },
        )
    } else if columns.kinds_count < 0 {
        Some(
            Error::NegativeLedgerValue {
                field: "publisher kind count",
                value: columns.kinds_count,
            },
        )
    } else if !(0 <= columns.first_event <= u32::MAX) {
        Some(Error::Invalid("publisher first event is invalid"))
    } else if !(0 <= columns.last_event <= u32::MAX) {
        Some(Error::Invalid("publisher last event is invalid"))
    } else {
        None
    }
}

/// Read the columns of a ledger row.
pub fn ledger_row(columns: &LedgerColumns) -> (outcome: Result<PublisherRankingRow>)
    ensures
        outcome is Ok <==> columns_readable(*columns),
        match row_fault(*columns) {
            Some(error) => outcome == Err::<PublisherRankingRow, Error>(error),
            None => outcome is Ok && columns_hold(*columns, outcome->Ok_0),
        },
{
    if columns.days < 0 || columns.days > u32::MAX as i64 {
        return Err(Error::Invalid("publisher days are invalid"));
    }
    if columns.kind < -1 || columns.kind > u16::MAX as i64 {
        return Err(Error::Invalid("publisher kind is invalid"));
    }
    let kind: Option<u16> = if columns.kind == -1 {
        None
    } else {
        Some(columns.kind as u16)
    };
    if columns.pubkey.len() != 32 {
        return Err(Error::Invalid("publisher pubkey does not have 32 bytes"));
    }
    let event_count: u64 = match from_i64("publisher event count", columns.event_count) {
        Ok(value) => value,
        Err(error) => {
            return Err(error);
        },
    };
    let kinds_count: u64 = match from_i64("publisher kind count", columns.kinds_count) {
        Ok(value) => value,
        Err(error) => {
            return Err(error);
        },
    };
    if columns.first_event < 0 || columns.first_event > u32::MAX as i64 {
        return Err(Error::Invalid("publisher first event is invalid"));
    }
    if columns.last_event < 0 || columns.last_event > u32::MAX as i64 {
        return Err(Error::Invalid("publisher last event is invalid"));
    }
    let pubkey: [u8; 32] = read_32(columns.pubkey.as_slice(), 0);
    assert(columns.pubkey@.subrange(0, 32) =~= columns.pubkey@);
    Ok(
        PublisherRankingRow {
            days: columns.days as u32,
            kind,
            pubkey,
            event_count,
            kinds_count,
            first_event: columns.first_event as u32,
            last_event: columns.last_event as u32,
        },
    )
}

/// A complete ledger as it was read back.
pub struct PublisherState {
    /// Stored identity.
    pub identity: String,
    /// Records scanned.
    pub source_records: u64,
    /// Largest number of kinds of one publisher.
    pub max_kinds: usize,
    /// Number of ranking indexes.
    pub rank_indexes: u64,
    /// Rows of the ledger.
    pub ledger: Vec<PublisherRankingRow>,
}

/// The identity that the evidence expects of its ledger.
pub open spec fn evidence_identity_text(evidence: PublisherRankingEvidence) -> Option<Seq<char>> {
    run_json(
        PUBLISHER_RANKING_VERSION@,
        evidence.snapshot_id@,
        evidence.as_of_epoch,
        evidence.activity_evidence_sha256@,
        evidence.activity_artifact_sha256@,
        evidence.windows_days@,
        evidence.top_limit,
    )
}

/// The evidence agrees with itself, the ledger and the size and digest of the
/// artifact.
pub open spec fn evidence_agrees(
    evidence: PublisherRankingEvidence,
    state: PublisherState,
    artifact: Seq<u8>,
) -> bool {
    let groups = ranking_groups(state.ledger@).len();
    &&& evidence.schema_version == EVIDENCE_SCHEMA_VERSION
    &&& evidence.runner_version@ == RUNNER_VERSION@
    &&& evidence.status@ == "completed"@
    &&& evidence.product_version@ == PUBLISHER_RANKING_VERSION@
    &&& evidence.windows_days@.len() > 0
    &&& increases(evidence.windows_days@)
    &&& 0 < evidence.top_limit <= 1_000
    &&& evidence.source_records == state.source_records
    &&& evidence.max_publisher_kinds_buffered == state.max_kinds
    &&& state.rank_indexes == 1
    &&& evidence.ledger_rows == state.ledger@.len()
    &&& evidence.ranking_groups == groups
    &&& evidence.ranking_artifact.row_count <= groups * evidence.top_limit
    &&& evidence.ranking_artifact.byte_size == evidence.ranking_artifact.row_count * 64
    &&& evidence.ranking_artifact.byte_size == artifact.len()
    &&& evidence.ranking_artifact.sha256@ == sha256_text(artifact)
}

/// The artifact holds exactly the ranking of the ledger.
pub open spec fn artifact_ranks(
    evidence: PublisherRankingEvidence,
    ledger: Seq<PublisherRankingRow>,
    artifact: Seq<u8>,
    rows: Seq<PublisherRankingRow>,
    top: Seq<PublisherRankingRow>,
) -> bool {
    &&& holds_ranking(artifact, rows)
    &&& rows.len() == evidence.ranking_artifact.row_count
    &&& is_top(top, ledger, evidence.top_limit as int)
    &&& top.len() == rows.len()
    &&& forall|i: int| 0 <= i < rows.len() ==> same_row(#[trigger] rows[i], top[i])
}

/// The evidence reconciles with the ledger and the artifact.
pub open spec fn reconciles(
    evidence: PublisherRankingEvidence,
    state: PublisherState,
    artifact: Seq<u8>,
) -> bool {
    &&& ranks_apart(state.ledger@)
    &&& evidence_agrees(evidence, state, artifact)
    &&& exists|rows: Seq<PublisherRankingRow>, top: Seq<PublisherRankingRow>| #[trigger]
        artifact_ranks(evidence, state.ledger@, artifact, rows, top)
}

/// A copy of the rows.
fn copy_rows(rows: &Vec<PublisherRankingRow>) -> (copy: Vec<PublisherRankingRow>)
    ensures
        copy@ == rows@,
{
    let mut copy: Vec<PublisherRankingRow> = Vec::new();
    let mut i: usize = 0;
    while i < rows.len()
        invariant
            i <= rows@.len(),
            copy@ =~= rows@.take(i as int),
        decreases rows.len() - i,
    {
        copy.push(rows[i]);
        i += 1;
    }
    copy
}

/// Whether the rows agree pairwise.
fn rows_match(a: &Vec<PublisherRankingRow>, b: &Vec<PublisherRankingRow>) -> (same: bool)
    ensures
        same == (a@.len() == b@.len() && forall|i: int|
            0 <= i < a@.len() ==> same_row(#[trigger] a@[i], b@[i])),
{
    if a.len() != b.len() {
        return false;
    }
    let mut i: usize = 0;
    while i < a.len()
        invariant
            i <= a@.len(),
            a@.len() == b@.len(),
            forall|j: int| 0 <= j < i ==> same_row(#[trigger] a@[j], b@[j]),
        decreases a.len() - i,
    {
        if !rows_equal(&a[i], &b[i]) {
            assert(!same_row(a@[i as int], b@[i as int]));
            return false;
        }
        i += 1;
    }
    true
}

/// Check evidence against its ledger and artifact; the identity apart.
pub fn reconcile_evidence(
    evidence: &PublisherRankingEvidence,
    state: &PublisherState,
    artifact: &[u8],
) -> (outcome: Result<()>)
    ensures
        outcome is Ok <==> reconciles(*evidence, *state, artifact@),
        outcome is Err ==> outcome->Err_0 is Invalid,
{
    let (top, groups) = match rank_ledger(copy_rows(&state.ledger), evidence.top_limit) {
        Ok(ranked) => ranked,
        Err(error) => {
            return Err(error);
        },
    };
    let largest: u64 = saturating_product(groups, evidence.top_limit as u64);
    let sized: bool = match evidence.ranking_artifact.row_count.checked_mul(64) {
        None => false,
        Some(bytes) => bytes == evidence.ranking_artifact.byte_size,
    };
    if evidence.schema_version != EVIDENCE_SCHEMA_VERSION || !text_equal(
        evidence.runner_version.as_str(),
        RUNNER_VERSION,
    ) || !text_equal(evidence.status.as_str(), "completed") || !text_equal(
        evidence.product_version.as_str(),
        PUBLISHER_RANKING_VERSION,
    ) || evidence.windows_days.len() == 0 || !strictly_increase(&evidence.windows_days)
        || evidence.top_limit == 0 || evidence.top_limit > 1_000 || evidence.source_records
        != state.source_records || evidence.max_publisher_kinds_buffered != state.max_kinds
        || state.rank_indexes != 1 || evidence.ledger_rows != state.ledger.len() as u64
        || evidence.ranking_groups != groups || evidence.ranking_artifact.row_count > largest
        || !sized || evidence.ranking_artifact.byte_size != artifact.len() as u64 || !text_equal(
        evidence.ranking_artifact.sha256.as_str(),
        sha256_hex(artifact).as_str(),
    ) {
        return Err(Error::Invalid("publisher ranking evidence does not reconcile"));
    }
    let rows: Vec<PublisherRankingRow> = match read_ranking_artifact(
        artifact,
        evidence.ranking_artifact.row_count,
    ) {
        Ok(rows) => rows,
        Err(error) => {
            proof {
                assert forall|other: Seq<PublisherRankingRow>, best: Seq<PublisherRankingRow>|
                    !#[trigger] artifact_ranks(
                    *evidence,
                    state.ledger@,
                    artifact@,
                    other,
                    best,
                ) by {
                    if artifact_ranks(*evidence, state.ledger@, artifact@, other, best) {
                        assert(holds_ranking(artifact@, other));
                    }
                }
            }
            return Err(error);
        },
    };
    if !rows_match(&rows, &top) {
        proof {
            assert forall|other: Seq<PublisherRankingRow>, best: Seq<PublisherRankingRow>|
                !#[trigger] artifact_ranks(
                *evidence,
                state.ledger@,
                artifact@,
                other,
                best,
            ) by {
                if artifact_ranks(*evidence, state.ledger@, artifact@, other, best) {
                    lemma_top_unique(best, top@, state.ledger@, evidence.top_limit as int);
                    lemma_ranking_round_trip(artifact@, rows@, other);
                    assert forall|i: int| 0 <= i < rows@.len() implies same_row(
                        #[trigger] rows@[i],
                        top@[i],
                    ) by {
                        assert(same_row(rows@[i], other[i]));
                        assert(same_row(other[i], best[i]));
                    }
                }
            }
        }
        return Err(Error::Invalid("publisher ranking artifact differs from exact ledger query"));
    }
    assert(artifact_ranks(*evidence, state.ledger@, artifact@, rows@, top@));
    Ok(())
}

/// Validate evidence against its ledger, the ledger's identity, and its
/// artifact.
pub fn validate_evidence(
    evidence: &PublisherRankingEvidence,
    state: &PublisherState,
    artifact: &[u8],
) -> (outcome: Result<()>)
    ensures
        outcome is Ok <==> evidence_identity_text(*evidence) == Some(state.identity@)
            && reconciles(*evidence, *state, artifact@),
        outcome is Err ==> outcome->Err_0 is Invalid,
{
    let expected: String = match write_run_json(
        PUBLISHER_RANKING_VERSION,
        evidence.snapshot_id.as_str(),
        evidence.as_of_epoch,
        evidence.activity_evidence_sha256.as_str(),
        evidence.activity_artifact_sha256.as_str(),
        &evidence.windows_days,
        evidence.top_limit,
    ) {
        Some(expected) => expected,
        None => {
            return Err(Error::Invalid("publisher identity cannot be written"));
        },
    };
    if !text_equal(expected.as_str(), state.identity.as_str()) {
        return Err(Error::Invalid("publisher ranking evidence does not reconcile"));
    }
    reconcile_evidence(evidence, state, artifact)
}

/// Take up decoded evidence as a product and validate it.
pub fn load_bounded_publisher_ranking(
    evidence: PublisherRankingEvidence,
    evidence_json: &[u8],
    state: &PublisherState,
    artifact: &[u8],
) -> (outcome: Result<BoundedPublisherRanking>)
    ensures
        outcome is Ok <==> evidence_identity_text(evidence) == Some(state.identity@)
            && reconciles(evidence, *state, artifact@),
        match outcome {
            Ok(product) => {
                &&& product.evidence == evidence
                &&& product.evidence_sha256@ == sha256_text(evidence_json@)
            },
            Err(error) => error is Invalid,
        },
{
    match validate_evidence(&evidence, state, artifact) {
        Ok(()) => Ok(
            BoundedPublisherRanking { evidence, evidence_sha256: sha256_hex(evidence_json) },
        ),
        Err(error) => Err(error),
    }
}

/// Read the canonical ranking rows of a product.
pub fn read_publisher_ranking_rows(
    product: &BoundedPublisherRanking,
    artifact: &[u8],
) -> (outcome: Result<Vec<PublisherRankingRow>>)
    ensures
        outcome is Ok <==> ranking_artifact(
            artifact@,
            product.evidence.ranking_artifact.row_count as int,
        ),
        match outcome {
            Ok(rows) => holds_ranking(artifact@, rows@) && rows@.len()
                == product.evidence.ranking_artifact.row_count,
            Err(error) => error is Invalid,
        },
{
    read_ranking_artifact(artifact, product.evidence.ranking_artifact.row_count)
}

/// Visit the canonical ranking rows of a product, up to the first error of the
/// visitor.
pub fn visit_publisher_ranking_rows<X, V: Fn(X, PublisherRankingRow) -> (X, Result<()>)>(
    product: &BoundedPublisherRanking,
    artifact: &[u8],
    x: X,
    visitor: &V,
) -> (made: (X, Result<()>))
    requires
        forall|x: X, row: PublisherRankingRow| #[trigger] call_requires(*visitor, (x, row)),
    ensures
        exists|rows: Seq<PublisherRankingRow>, states: Seq<X>|
            visits_rows(
                visit_of(*visitor),
                x,
                held_ranking(artifact@, product.evidence.ranking_artifact.row_count as int),
                rows,
                states,
                made,
            ),
{
    visit_ranking_artifact(artifact, product.evidence.ranking_artifact.row_count, x, visitor)
}

/// A completed ranking reconciles with the ledger and the artifact that it was
/// made from.
pub proof fn lemma_completed_ranking_reconciles(
    build: RankingBuild,
    activity: BoundedFixedActivity,
    config: PublisherRankingConfig,
    baseline: Option<String>,
    state: PublisherState,
    rows: Seq<PublisherRankingRow>,
    records: Seq<u8>,
)
    requires
        config_fits(config),
        evidence_names(build.evidence, activity, config, baseline),
        ranks_activity(build, state.ledger@, rows, records, config.artifact_path@),
        state.source_records == activity.evidence.activity_artifact.row_count,
        state.max_kinds == largest_kinds(state.ledger@),
        state.rank_indexes == 1,
    ensures
        reconciles(build.evidence, state, build.artifact@),
{
    lemma_ledger_ranks_apart(state.ledger@);
    lemma_top_bounded(rows, state.ledger@, build.evidence.top_limit as int);
    assert(artifact_ranks(build.evidence, state.ledger@, build.artifact@, rows, rows));
}

} // verus!
