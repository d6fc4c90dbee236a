//! Publication rules of publisher rankings.

use vstd::prelude::*;
use vstd::string::*;

use crate::bytes::read_32;
use crate::digest::{encode_hex, hex_text, sha256_hex, sha256_text};
use crate::error::{from_i64, to_i64, Error, Result};
use crate::flexible_samples::kind_rank;
use crate::publication::{
    all_agree, all_fit, columns_error, expect_copied, field_agrees, fields_outcome,
    reconcile_fields, to_columns, FieldCheck, NamedCount,
};
use crate::publisher_artifact::{ranking_artifact, rows_equal, same_row};
use crate::publisher_ledger::PublisherRankingRow;
use crate::publisher_product::{
    BoundedPublisherRanking, PublisherRankingEvidence, EVIDENCE_SCHEMA_VERSION,
    PUBLISHER_RANKING_VERSION, RUNNER_VERSION,
};
use crate::publisher_state::{columns_hold, read_publisher_ranking_rows, LedgerColumns};
use crate::runs::{product_identity, product_message};
use crate::text::{decimal, push_decimal, text_equal};

verus! {

/// Result of publishing one versioned exact publisher product.
#[derive(Clone, Debug, PartialEq, Eq)]
pub enum PublisherRankingPublishOutcome {
    /// A new product committed.
    Published {
        /// Identity of the product.
        product_id: String,
    },
    /// The identical product was already committed and reconciled.
    AlreadyPublished {
        /// Identity of the product.
        product_id: String,
    },
}

/// Check that the product is a completed ranking with its recorded artifact.
pub fn validate_publisher_ranking_publication(
    product: &BoundedPublisherRanking,
    artifact: &[u8],
) -> (outcome: Result<()>)
    ensures
        outcome is Ok <==> {
            &&& product.evidence.schema_version == EVIDENCE_SCHEMA_VERSION
            &&& product.evidence.runner_version@ == RUNNER_VERSION@
            &&& product.evidence.status@ == "completed"@
            &&& product.evidence.product_version@ == PUBLISHER_RANKING_VERSION@
            &&& product.evidence.ranking_artifact.sha256@ == sha256_text(artifact@)
            &&& ranking_artifact(
                artifact@,
                product.evidence.ranking_artifact.row_count as int,
            )
        },
        outcome is Err ==> if product.evidence.schema_version == EVIDENCE_SCHEMA_VERSION
            && product.evidence.runner_version@ == RUNNER_VERSION@ && product.evidence.status@
            == "completed"@ && product.evidence.product_version@ == PUBLISHER_RANKING_VERSION@
            && product.evidence.ranking_artifact.sha256@ == sha256_text(artifact@) {
            outcome->Err_0 is Invalid
        } else {
            outcome->Err_0 is Validation
        },
{
    if product.evidence.schema_version != EVIDENCE_SCHEMA_VERSION || !text_equal(
        product.evidence.runner_version.as_str(),
        RUNNER_VERSION,
    ) || !text_equal(product.evidence.status.as_str(), "completed") || !text_equal(
        product.evidence.product_version.as_str(),
        PUBLISHER_RANKING_VERSION,
    ) || !text_equal(
        sha256_hex(artifact).as_str(),
        product.evidence.ranking_artifact.sha256.as_str(),
    ) {
        return Err(Error::Validation("publisher ranking failed immutable publication validation"));
    }
    match read_publisher_ranking_rows(product, artifact) {
        Ok(_) => Ok(()),
        Err(error) => Err(error),
    }
}

/// The current run as a ranking baseline.
#[derive(Clone, Debug, PartialEq, Eq)]
pub struct CurrentRankingRun {
    /// Identifier of the run.
    pub run_id: String,
    /// Snapshot of the run.
    pub snapshot_id: String,
    /// Boundary of the run, as stored.
    pub as_of_epoch: i64,
    /// Activity evidence of the run, if any.
    pub activity_evidence_sha256: Option<String>,
}

/// The current run against the baseline of a product, field by field.
pub open spec fn baseline_fields(
    current: CurrentRankingRun,
    baseline_run_id: Seq<char>,
    evidence: PublisherRankingEvidence,
) -> Seq<FieldCheck> {
    seq![
        FieldCheck::Same(current.run_id@ == baseline_run_id),
        FieldCheck::Same(current.snapshot_id@ == evidence.snapshot_id@),
        FieldCheck::Count {
            field: "publisher current as-of",
            stored: current.as_of_epoch,
            owed: evidence.as_of_epoch,
        },
        FieldCheck::Same(
            current.activity_evidence_sha256 is Some
                && current.activity_evidence_sha256->0@ == evidence.activity_evidence_sha256@,
        ),
    ]
}

/// Check that the current run is the baseline of the product.
pub fn check_publisher_baseline(
    current: &CurrentRankingRun,
    baseline_run_id: &str,
    evidence: &PublisherRankingEvidence,
) -> (outcome: Result<()>)
    ensures
        outcome is Ok <==> {
            &&& current.run_id@ == baseline_run_id@
            &&& current.snapshot_id@ == evidence.snapshot_id@
            &&& current.as_of_epoch == evidence.as_of_epoch
            &&& current.activity_evidence_sha256 is Some
            &&& current.activity_evidence_sha256->0@ == evidence.activity_evidence_sha256@
        },
        outcome == fields_outcome(
            baseline_fields(*current, baseline_run_id@, *evidence),
            "current Postgres run is not the exact ranking baseline",
        ),
{
    let same_activity: bool = match &current.activity_evidence_sha256 {
        None => false,
        Some(sha256) => text_equal(sha256.as_str(), evidence.activity_evidence_sha256.as_str()),
    };
    let checks: [FieldCheck; 4] = [
        FieldCheck::Same(text_equal(current.run_id.as_str(), baseline_run_id)),
        FieldCheck::Same(text_equal(current.snapshot_id.as_str(), evidence.snapshot_id.as_str())),
        FieldCheck::Count {
            field: "publisher current as-of",
            stored: current.as_of_epoch,
            owed: evidence.as_of_epoch,
        },
        FieldCheck::Same(same_activity),
    ];
    proof {
        let s = checks@;
        assert(s =~= baseline_fields(*current, baseline_run_id@, *evidence));
        assert(all_agree(s) ==>
            field_agrees(s[0]) && field_agrees(s[1]) && field_agrees(s[2]) && field_agrees(s[3]));
    }
    reconcile_fields(checks.as_slice(), "current Postgres run is not the exact ranking baseline")
}

/// The identity of a published product.
pub fn publisher_product_id(run_id: &str, product: &BoundedPublisherRanking) -> (product_id: String)
    ensures
        product_id@ == sha256_text(
            product_message(
                "pensieve-publisher-ranking-product-v1"@,
                seq![run_id@, product.evidence_sha256@],
            ),
        ),
        product_id@.len() == 64,
{
    product_identity(
        "pensieve-publisher-ranking-product-v1",
        run_id,
        product.evidence_sha256.as_str(),
    )
}

/// The numeric columns of a published product.
#[derive(Clone, Debug, PartialEq, Eq)]
pub struct PublisherProductRow {
    /// Analytics boundary.
    pub as_of_epoch: i64,
    /// Supported windows.
    pub windows_days: Vec<i32>,
    /// Maximum served rows of each group.
    pub top_limit: i32,
    /// Source records.
    pub source_records: i64,
    /// Ledger rows.
    pub ledger_rows: i64,
    /// Windows and kinds.
    pub ranking_groups: i64,
    /// Ranking rows.
    pub ranking_rows: i64,
}

/// Every number of the product fits its column.
pub open spec fn columns_fit(evidence: PublisherRankingEvidence) -> bool {
    &&& forall|i: int|
        0 <= i < evidence.windows_days@.len() ==> (#[trigger] evidence.windows_days@[i]) <= i32::MAX
    &&& evidence.as_of_epoch <= i64::MAX
    &&& evidence.top_limit <= i32::MAX
    &&& evidence.source_records <= i64::MAX
    &&& evidence.ledger_rows <= i64::MAX
    &&& evidence.ranking_groups <= i64::MAX
    &&& evidence.ranking_artifact.row_count <= i64::MAX
}

/// The windows as columns.
fn window_columns(windows: &Vec<u32>) -> (outcome: Result<Vec<i32>>)
    ensures
        outcome is Ok <==> forall|i: int|
            0 <= i < windows@.len() ==> (#[trigger] windows@[i]) <= i32::MAX,
        match outcome {
            Ok(columns) => {
                &&& columns@.len() == windows@.len()
                &&& forall|i: int|
                    0 <= i < windows@.len() ==> (#[trigger] columns@[i]) == windows@[i]
            },
            Err(error) => error == Error::Validation("publisher window exceeds i32"),
        },
{
    let mut columns: Vec<i32> = Vec::new();
    let mut i: usize = 0;
    while i < windows.len()
        invariant
            i <= windows@.len(),
            columns@.len() == i,
            forall|j: int|
                0 <= j < i ==> (#[trigger] windows@[j]) <= i32::MAX,
            forall|j: int|
                0 <= j < i ==> (#[trigger] columns@[j]) == windows@[j],
        decreases windows.len() - i,
    {
        if windows[i] > i32::MAX as u32 {
            assert(windows@[i as int] > i32::MAX);
            return Err(Error::Validation("publisher window exceeds i32"));
        }
        columns.push(windows[i] as i32);
        i += 1;
    }
    Ok(columns)
}

/// The counts of a product, by column.
pub open spec fn product_counts(evidence: PublisherRankingEvidence) -> Seq<NamedCount> {
    seq![
        NamedCount { field: "publisher source records", value: evidence.source_records },
        NamedCount { field: "publisher ledger rows", value: evidence.ledger_rows },
        NamedCount { field: "publisher groups", value: evidence.ranking_groups },
        NamedCount { field: "publisher ranking rows", value: evidence.ranking_artifact.row_count },
    ]
}

/// What is reported of a product whose numbers do not all fit.
pub open spec fn product_row_error(evidence: PublisherRankingEvidence) -> Error {
    if exists|i: int|
        0 <= i < evidence.windows_days@.len() && (#[trigger] evidence.windows_days@[i]) > i32::MAX {
        Error::Validation("publisher window exceeds i32")
    } else if evidence.as_of_epoch > i64::MAX {
        Error::NumericOverflow { field: "publisher as-of", value: evidence.as_of_epoch }
    } else if evidence.top_limit > i32::MAX {
        Error::Validation("publisher top limit exceeds i32")
    } else {
        columns_error(product_counts(evidence))
    }
}

/// The columns hold the numbers of the product.
pub open spec fn is_product_row(
    row: PublisherProductRow,
    evidence: PublisherRankingEvidence,
) -> bool {
    &&& row.as_of_epoch == evidence.as_of_epoch
    &&& row.windows_days@.len() == evidence.windows_days@.len()
    &&& forall|i: int|
        0 <= i < row.windows_days@.len() ==> (#[trigger] row.windows_days@[i])
            == evidence.windows_days@[i]
    &&& row.top_limit == evidence.top_limit
    &&& row.source_records == evidence.source_records
    &&& row.ledger_rows == evidence.ledger_rows
    &&& row.ranking_groups == evidence.ranking_groups
    &&& row.ranking_rows == evidence.ranking_artifact.row_count
}

/// The numeric columns of a product.
pub fn publisher_product_row(evidence: &PublisherRankingEvidence) -> (outcome: Result<
    PublisherProductRow,
>)
    ensures
        outcome is Ok <==> columns_fit(*evidence),
        match outcome {
            Ok(row) => is_product_row(row, *evidence),
            Err(error) => error == product_row_error(*evidence),
        },
{
    let windows_days: Vec<i32> = match window_columns(&evidence.windows_days) {
        Ok(windows) => windows,
        Err(error) => {
            return Err(error);
        },
    };
    let as_of_epoch: i64 = match to_i64("publisher as-of", evidence.as_of_epoch) {
        Ok(value) => value,
        Err(error) => {
            return Err(error);
        },
    };
    if evidence.top_limit > i32::MAX as usize {
        return Err(Error::Validation("publisher top limit exceeds i32"));
    }
    let top_limit: i32 = evidence.top_limit as i32;
    let counts: [NamedCount; 4] = [
        NamedCount { field: "publisher source records", value: evidence.source_records },
        NamedCount { field: "publisher ledger rows", value: evidence.ledger_rows },
        NamedCount { field: "publisher groups", value: evidence.ranking_groups },
        NamedCount { field: "publisher ranking rows", value: evidence.ranking_artifact.row_count },
    ];
    proof {
        let s = counts@;
        assert(s =~= product_counts(*evidence));
        assert(all_fit(s) ==>
            s[0].value <= i64::MAX && s[1].value <= i64::MAX && s[2].value <= i64::MAX
            && s[3].value <= i64::MAX);
    }
    match to_columns(counts.as_slice()) {
        Ok(columns) => Ok(
            PublisherProductRow {
                as_of_epoch,
                windows_days,
                top_limit,
                source_records: columns[0],
                ledger_rows: columns[1],
                ranking_groups: columns[2],
                ranking_rows: columns[3],
            },
        ),
        Err(error) => Err(error),
    }
}

/// Text of a kind column: -1 for all kinds.
pub open spec fn kind_column_text(kind: Option<u16>) -> Seq<char> {
    match kind {
        None => "-1"@,
        Some(kind) => decimal(kind as nat),
    }
}

/// Append a kind column: -1 for all kinds.
pub fn push_kind(out: &mut String, kind: Option<u16>)
    ensures
        final(out)@ == old(out)@ + kind_column_text(kind),
{
    match kind {
        None => out.append("-1"),
        Some(kind) => push_decimal(out, kind as u64),
    }
}

/// The `COPY` line of a ranking row.
pub fn ranking_line(product_id: &str, row: &PublisherRankingRow) -> (line: String)
    ensures
        line@ == product_id@ + ","@ + decimal(row.days as nat) + ","@ + kind_column_text(row.kind)
            + ",\\x"@ + hex_text(row.pubkey@) + ","@ + decimal(row.event_count as nat) + ","@
            + decimal(row.kinds_count as nat) + ","@ + decimal(row.first_event as nat) + ","@
            + decimal(row.last_event as nat) + "\n"@,
{
    let mut line: String = product_id.to_owned();
    line.append(",");
    push_decimal(&mut line, row.days as u64);
    line.append(",");
    push_kind(&mut line, row.kind);
    line.append(",\\x");
    line.append(encode_hex(row.pubkey.as_slice()).as_str());
    line.append(",");
    push_decimal(&mut line, row.event_count);
    line.append(",");
    push_decimal(&mut line, row.kinds_count);
    line.append(",");
    push_decimal(&mut line, row.first_event as u64);
    line.append(",");
    push_decimal(&mut line, row.last_event as u64);
    line.append("\n");
    line
}

/// A published ranking as the ledger holds it.
#[derive(Clone, Debug, PartialEq, Eq)]
pub struct PublishedRanking {
    /// Frozen source snapshot.
    pub snapshot_id: String,
    /// Analytics boundary.
    pub as_of_epoch: i64,
    /// Version of the product.
    pub product_version: String,
    /// Digest of the product evidence.
    pub evidence_sha256: String,
    /// Digest of the activity evidence.
    pub activity_evidence_sha256: String,
    /// Digest of the activity artifact.
    pub activity_artifact_sha256: String,
    /// Digest of the ranking artifact.
    pub ranking_artifact_sha256: String,
    /// Maximum served rows of each group.
    pub top_limit: i32,
    /// Source records.
    pub source_records: i64,
    /// Ledger rows.
    pub ledger_rows: i64,
    /// Windows and kinds.
    pub ranking_groups: i64,
    /// Ranking rows.
    pub ranking_rows: i64,
}

/// The published metadata is that of the product.
pub open spec fn metadata_matches(
    published: PublishedRanking,
    product: BoundedPublisherRanking,
) -> bool {
    let evidence = product.evidence;
    &&& published.snapshot_id@ == evidence.snapshot_id@
    &&& published.as_of_epoch == evidence.as_of_epoch
    &&& published.product_version@ == PUBLISHER_RANKING_VERSION@
    &&& published.evidence_sha256@ == product.evidence_sha256@
    &&& published.activity_evidence_sha256@ == evidence.activity_evidence_sha256@
    &&& published.activity_artifact_sha256@ == evidence.activity_artifact_sha256@
    &&& published.ranking_artifact_sha256@ == evidence.ranking_artifact.sha256@
    &&& published.top_limit == evidence.top_limit
    &&& published.source_records == evidence.source_records
    &&& published.ledger_rows == evidence.ledger_rows
    &&& published.ranking_groups == evidence.ranking_groups
    &&& published.ranking_rows == evidence.ranking_artifact.row_count
}

/// The published metadata, field by field.
pub open spec fn metadata_fields(
    published: PublishedRanking,
    product: BoundedPublisherRanking,
) -> Seq<FieldCheck> {
    let evidence = product.evidence;
    seq![
        FieldCheck::Same(published.snapshot_id@ == evidence.snapshot_id@),
        FieldCheck::Count {
            field: "published publisher as-of",
            stored: published.as_of_epoch,
            owed: evidence.as_of_epoch,
        },
        FieldCheck::Same(published.product_version@ == PUBLISHER_RANKING_VERSION@),
        FieldCheck::Same(published.evidence_sha256@ == product.evidence_sha256@),
        FieldCheck::Same(published.activity_evidence_sha256@ == evidence.activity_evidence_sha256@),
        FieldCheck::Same(published.activity_artifact_sha256@ == evidence.activity_artifact_sha256@),
        FieldCheck::Same(published.ranking_artifact_sha256@ == evidence.ranking_artifact.sha256@),
        FieldCheck::Same(published.top_limit == evidence.top_limit),
        FieldCheck::Count {
            field: "published publisher source rows",
            stored: published.source_records,
            owed: evidence.source_records,
        },
        FieldCheck::Count {
            field: "published publisher ledger rows",
            stored: published.ledger_rows,
            owed: evidence.ledger_rows,
        },
        FieldCheck::Count {
            field: "published publisher groups",
            stored: published.ranking_groups,
            owed: evidence.ranking_groups,
        },
        FieldCheck::Count {
            field: "published publisher rows",
            stored: published.ranking_rows,
            owed: evidence.ranking_artifact.row_count,
        },
    ]
}

/// Check the published metadata of a product.
pub fn reconcile_metadata(published: &PublishedRanking, product: &BoundedPublisherRanking) -> (
    outcome: Result<()>)
    ensures
        outcome is Ok <==> metadata_matches(*published, *product),
        outcome == fields_outcome(
            metadata_fields(*published, *product),
            "published publisher metadata does not reconcile",
        ),
{
    let evidence: &PublisherRankingEvidence = &product.evidence;
    let checks: [FieldCheck; 12] = [
        FieldCheck::Same(text_equal(published.snapshot_id.as_str(), evidence.snapshot_id.as_str())),
        FieldCheck::Count {
            field: "published publisher as-of",
            stored: published.as_of_epoch,
            owed: evidence.as_of_epoch,
        },
        FieldCheck::Same(text_equal(published.product_version.as_str(), PUBLISHER_RANKING_VERSION)),
        FieldCheck::Same(
            text_equal(
                published.evidence_sha256.as_str(),
                product.evidence_sha256.as_str(),
            ),
        ),
        FieldCheck::Same(
            text_equal(
                published.activity_evidence_sha256.as_str(),
                evidence.activity_evidence_sha256.as_str(),
            ),
        ),
        FieldCheck::Same(
            text_equal(
                published.activity_artifact_sha256.as_str(),
                evidence.activity_artifact_sha256.as_str(),
            ),
        ),
        FieldCheck::Same(
            text_equal(
                published.ranking_artifact_sha256.as_str(),
                evidence.ranking_artifact.sha256.as_str(),
            ),
        ),
        FieldCheck::Same(
            published.top_limit >= 0
                && published.top_limit as u64 == evidence.top_limit as u64,
        ),
        FieldCheck::Count {
            field: "published publisher source rows",
            stored: published.source_records,
            owed: evidence.source_records,
        },
        FieldCheck::Count {
            field: "published publisher ledger rows",
            stored: published.ledger_rows,
            owed: evidence.ledger_rows,
        },
        FieldCheck::Count {
            field: "published publisher groups",
            stored: published.ranking_groups,
            owed: evidence.ranking_groups,
        },
        FieldCheck::Count {
            field: "published publisher rows",
            stored: published.ranking_rows,
            owed: evidence.ranking_artifact.row_count,
        },
    ];
    proof {
        let s = checks@;
        assert(s =~= metadata_fields(*published, *product));
        assert(all_agree(s) ==>
            field_agrees(s[0]) && field_agrees(s[1]) && field_agrees(s[2]) && field_agrees(s[3])
            && field_agrees(s[4]) && field_agrees(s[5]) && field_agrees(s[6])
            && field_agrees(s[7]) && field_agrees(s[8]) && field_agrees(s[9])
            && field_agrees(s[10]) && field_agrees(s[11]));
    }
    reconcile_fields(checks.as_slice(), "published publisher metadata does not reconcile")
}

/// Why the columns of a published row cannot be read, if so.
pub open spec fn published_fault(columns: LedgerColumns) -> Option<Error> {
    if !(0 <= columns.days <= u32::MAX) {
        Some(Error::Validation("published publisher days are invalid"))
    } else if !(-1 <= columns.kind <= u16::MAX) {
        Some(Error::Validation("published publisher kind is invalid"))
    } else if columns.pubkey@.len() != 32 {
        Some(Error::Validation("published publisher pubkey does not have 32 bytes"))
    } else if columns.event_count < 0 {
        Some(
            Error::NegativeLedgerValue {
                field: "published publisher count",
                value: columns.event_count,
            },
        )
    } else if columns.kinds_count < 0 {
        Some(
            Error::NegativeLedgerValue {
                field: "published publisher kinds",
                value: columns.kinds_count,
            },
        )
    } else if !(0 <= columns.first_event <= u32::MAX) {
        Some(Error::Validation("published publisher first event is invalid"))
    } else if !(0 <= columns.last_event <= u32::MAX) {
        Some(Error::Validation("published publisher last event is invalid"))
    } else {
        None
    }
}

/// Read the columns of a published row.
pub fn published_row(columns: &LedgerColumns) -> (outcome: Result<PublisherRankingRow>)
    ensures
        match published_fault(*columns) {
            Some(error) => outcome == Err::<PublisherRankingRow, Error>(error),
            None => outcome is Ok && columns_hold(*columns, outcome->Ok_0),
        },
{
    if columns.days < 0 || columns.days > u32::MAX as i64 {
        return Err(Error::Validation("published publisher days are invalid"));
    }
    if columns.kind < -1 || columns.kind > u16::MAX as i64 {
        return Err(Error::Validation("published publisher kind is invalid"));
    }
    let kind: Option<u16> = if columns.kind == -1 {
        None
    } else {
        Some(columns.kind as u16)
    };
    if columns.pubkey.len() != 32 {
        return Err(Error::Validation("published publisher pubkey does not have 32 bytes"));
    }
    let event_count: u64 = match from_i64("published publisher count", columns.event_count) {
        Ok(value) => value,
        Err(error) => {
            return Err(error);
        },
    };
    let kinds_count: u64 = match from_i64("published publisher kinds", columns.kinds_count) {
        Ok(value) => value,
        Err(error) => {
            return Err(error);
        },
    };
    if columns.first_event < 0 || columns.first_event > u32::MAX as i64 {
        return Err(Error::Validation("published publisher first event is invalid"));
    }
    if columns.last_event < 0 || columns.last_event > u32::MAX as i64 {
        return Err(Error::Validation("published publisher last event is invalid"));
    }
    let pubkey: [u8; 32] = read_32(columns.pubkey.as_slice(), 0);
    assert(columns.pubkey@.subrange(0, 32) =~= columns.pubkey@);
    Ok(
        PublisherRankingRow {
            days: columns.days as u32,
            kind,
            pubkey,
            event_count,
            kinds_count,
            first_event: columns.first_event as u32,
            last_event: columns.last_event as u32,
        },
    )
}

/// The outcome of reading the published rows from `from` on against those of the
/// artifact.
pub open spec fn rows_outcome(
    published: Seq<LedgerColumns>,
    expected: Seq<PublisherRankingRow>,
    from: int,
) -> Result<()>
    decreases expected.len() - from,
{
    if from >= expected.len() {
        if published.len() > expected.len() {
            Err(Error::Validation("published publisher relation has extra rows"))
        } else {
            Ok(())
        }
    } else if from >= published.len() {
        Err(Error::Validation("published publisher rows ended early"))
    } else {
        match published_fault(published[from]) {
            Some(error) => Err(error),
            None => if columns_hold(published[from], expected[from]) {
                rows_outcome(published, expected, from + 1)
            } else {
                Err(Error::Validation("published publisher row differs from canonical artifact"))
            },
        }
    }
}

/// Check that the published rows are exactly those of the artifact, in order.
pub fn reconcile_rows(published: &Vec<LedgerColumns>, expected: &Vec<PublisherRankingRow>) -> (
    outcome: Result<()>)
    ensures
        outcome is Ok <==> {
            &&& published@.len() == expected@.len()
            &&& forall|i: int|
                0 <= i < expected@.len() ==> #[trigger] columns_hold(published@[i], expected@[i])
        },
        outcome == rows_outcome(published@, expected@, 0),
{
    let mut i: usize = 0;
    while i < expected.len()
        invariant
            i <= expected@.len(),
            i <= published@.len(),
            forall|j: int|
                0 <= j < i ==> #[trigger] columns_hold(published@[j], expected@[j]),
            rows_outcome(published@, expected@, 0) == rows_outcome(
                published@,
                expected@,
                i as int,
            ),
        decreases expected.len() - i,
    {
        if i >= published.len() {
            return Err(Error::Validation("published publisher rows ended early"));
        }
        let actual: PublisherRankingRow = match published_row(&published[i]) {
            Ok(row) => row,
            Err(error) => {
                assert(!columns_hold(published@[i as int], expected@[i as int])) by {
                    assert(expected@[i as int].pubkey@.len() == 32);
                }
                return Err(error);
            },
        };
        if !rows_equal(&actual, &expected[i]) {
            proof {
                if columns_hold(published@[i as int], expected@[i as int]) {
                    assert(same_row(actual, expected@[i as int]));
                }
            }
            return Err(
                Error::Validation("published publisher row differs from canonical artifact"),
            );
        }
        assert(columns_hold(published@[i as int], expected@[i as int]));
        i += 1;
    }
    if published.len() > expected.len() {
        return Err(Error::Validation("published publisher relation has extra rows"));
    }
    Ok(())
}

/// The columns of one row of a ranking page.
#[derive(Clone, Debug, PartialEq, Eq)]
pub struct PageColumns {
    /// Publisher key.
    pub pubkey: Vec<u8>,
    /// Event count.
    pub event_count: i64,
    /// Distinct kinds.
    pub kinds_count: i64,
    /// Earliest second.
    pub first_event: i64,
    /// Latest second.
    pub last_event: i64,
}

/// Why the columns of a page row cannot be read, if so.
pub open spec fn page_fault(columns: PageColumns) -> Option<Error> {
    if columns.pubkey@.len() != 32 {
        Some(Error::Validation("publisher pubkey does not have 32 bytes"))
    } else if columns.event_count < 0 {
        Some(
            Error::NegativeLedgerValue {
                field: "publisher event count",
                value: columns.event_count,
            },
        )
    } else if columns.kinds_count < 0 {
        Some(
            Error::NegativeLedgerValue {
                field: "publisher kinds count",
                value: columns.kinds_count,
            },
        )
    } else if !(0 <= columns.first_event <= u32::MAX) {
        Some(Error::Validation("publisher first event is invalid"))
    } else if !(0 <= columns.last_event <= u32::MAX) {
        Some(Error::Validation("publisher last event is invalid"))
    } else {
        None
    }
}

/// Read one row of the page of a window and kind.
pub fn decode_page_row(days: u32, kind: Option<u16>, columns: &PageColumns) -> (outcome: Result<
    PublisherRankingRow,
>)
    ensures
        match page_fault(*columns) {
            Some(error) => outcome == Err::<PublisherRankingRow, Error>(error),
            None => {
                &&& outcome is Ok
                &&& outcome->Ok_0.days == days
                &&& outcome->Ok_0.kind == kind
                &&& outcome->Ok_0.pubkey@ == columns.pubkey@
                &&& outcome->Ok_0.event_count == columns.event_count
                &&& outcome->Ok_0.kinds_count == columns.kinds_count
                &&& outcome->Ok_0.first_event == columns.first_event
                &&& outcome->Ok_0.last_event == columns.last_event
            },
        },
{
    if columns.pubkey.len() != 32 {
        return Err(Error::Validation("publisher pubkey does not have 32 bytes"));
    }
    let event_count: u64 = match from_i64("publisher event count", columns.event_count) {
        Ok(value) => value,
        Err(error) => {
            return Err(error);
        },
    };
    let kinds_count: u64 = match from_i64("publisher kinds count", columns.kinds_count) {
        Ok(value) => value,
        Err(error) => {
            return Err(error);
        },
    };
    if columns.first_event < 0 || columns.first_event > u32::MAX as i64 {
        return Err(Error::Validation("publisher first event is invalid"));
    }
    if columns.last_event < 0 || columns.last_event > u32::MAX as i64 {
        return Err(Error::Validation("publisher last event is invalid"));
    }
    let pubkey: [u8; 32] = read_32(columns.pubkey.as_slice(), 0);
    assert(columns.pubkey@.subrange(0, 32) =~= columns.pubkey@);
    Ok(
        PublisherRankingRow {
            days,
            kind,
            pubkey,
            event_count,
            kinds_count,
            first_event: columns.first_event as u32,
            last_event: columns.last_event as u32,
        },
    )
}

/// Check that every ranking row was copied.
pub fn check_copied_rows(evidence: &PublisherRankingEvidence, inserted: u64) -> (outcome: Result<
    (),
>)
    ensures
        outcome is Ok <==> inserted == evidence.ranking_artifact.row_count,
        outcome is Err ==> outcome->Err_0 is CopyCount,
{
    expect_copied("publisher rows", inserted, evidence.ranking_artifact.row_count)
}

/// The columns that select one ranking page.
#[derive(Clone, Copy, Debug, PartialEq, Eq, Structural)]
pub struct RankingQuery {
    /// Window in days.
    pub days: i32,
    /// Kind, or -1 for all kinds.
    pub kind: i32,
    /// Rows at most.
    pub limit: i64,
}

/// Check the limits of a ranking query and turn it into columns.
pub fn ranking_query(days: u32, kind: Option<u16>, limit: u64) -> (outcome: Result<RankingQuery>)
    ensures
        outcome is Ok <==> 1 <= limit <= 1_000 && days <= i32::MAX,
        match outcome {
            Ok(query) => {
                &&& query.days == days
                &&& query.kind == kind_rank(kind)
                &&& query.limit == limit
            },
            Err(error) => error == if 1 <= limit <= 1_000 {
                Error::Validation("publisher days exceed i32")
            } else {
                Error::Validation("publisher ranking limit must be between 1 and 1000")
            },
        },
{
    if limit == 0 || limit > 1_000 {
        return Err(Error::Validation("publisher ranking limit must be between 1 and 1000"));
    }
    if days > i32::MAX as u32 {
        return Err(Error::Validation("publisher days exceed i32"));
    }
    let kind: i32 = match kind {
        None => -1,
        Some(kind) => kind as i32,
    };
    Ok(RankingQuery { days: days as i32, kind, limit: limit as i64 })
}

} // verus!
