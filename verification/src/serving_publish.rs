//! Publication rules of serving facts.

use vstd::prelude::*;
use vstd::string::*;

use crate::digest::sha256_text;
use crate::error::{from_i64, Error, Result};
use crate::flexible_samples::kind_rank;
use crate::publication::{
    all_agree, all_fit, columns_error, expect_copied, field_agrees, fields_outcome,
    reconcile_fields, to_columns, FieldCheck, NamedCount,
};
use crate::publisher_publish::{kind_column_text, push_kind};
use crate::runs::{product_identity, product_message};
use crate::serving_facts::{BoundedServingFacts, ServingFactsEvidence, SERVING_FACTS_VERSION};
use crate::serving_records::{ServingHourlyRow, ServingKindRow};
use crate::text::{decimal, push_decimal, text_equal};

verus! {

/// Result of publishing one versioned serving-facts product.
#[derive(Clone, Debug, PartialEq, Eq)]
pub enum ServingFactsPublishOutcome {
    /// A new immutable product committed.
    Published {
        /// Identity of the product.
        product_id: String,
    },
    /// The identical committed product reconciled successfully.
    AlreadyPublished {
        /// Identity of the product.
        product_id: String,
    },
}

/// The identity of a published product.
pub fn serving_product_id(run_id: &str, product: &BoundedServingFacts) -> (product_id: String)
    ensures
        product_id@ == sha256_text(
            product_message(
                "pensieve-serving-facts-product-v1"@,
                seq![run_id@, product.evidence_sha256@],
            ),
        ),
        product_id@.len() == 64,
{
    product_identity(
        "pensieve-serving-facts-product-v1",
        run_id,
        product.evidence_sha256.as_str(),
    )
}

/// The current run as a serving baseline.
#[derive(Clone, Debug, PartialEq, Eq)]
pub struct CurrentServingRun {
    /// Identifier of the run.
    pub run_id: String,
    /// Snapshot of the run.
    pub snapshot_id: String,
    /// Boundary of the run, as stored.
    pub as_of_epoch: i64,
    /// Activity evidence of the run, if any.
    pub activity_evidence_sha256: Option<String>,
}

/// The current run against the baseline of a product, field by field.
pub open spec fn baseline_fields(
    current: CurrentServingRun,
    baseline_run_id: Seq<char>,
    evidence: ServingFactsEvidence,
) -> Seq<FieldCheck> {
    seq![
        FieldCheck::Same(current.run_id@ == baseline_run_id),
        FieldCheck::Same(current.snapshot_id@ == evidence.snapshot_id@),
        FieldCheck::Count {
            field: "serving current as-of",
            stored: current.as_of_epoch,
            owed: evidence.as_of_epoch,
        },
        FieldCheck::Same(
            current.activity_evidence_sha256 is Some
                && current.activity_evidence_sha256->0@ == evidence.activity_evidence_sha256@,
        ),
    ]
}

/// Check that the current run is the baseline of the product.
pub fn check_serving_baseline(
    current: &CurrentServingRun,
    baseline_run_id: &str,
    evidence: &ServingFactsEvidence,
) -> (outcome: Result<()>)
    ensures
        outcome is Ok <==> {
            &&& current.run_id@ == baseline_run_id@
            &&& current.snapshot_id@ == evidence.snapshot_id@
            &&& current.as_of_epoch == evidence.as_of_epoch
            &&& current.activity_evidence_sha256 is Some
            &&& current.activity_evidence_sha256->0@ == evidence.activity_evidence_sha256@
        },
        outcome == fields_outcome(
            baseline_fields(*current, baseline_run_id@, *evidence),
            "current Postgres run is not the exact serving baseline",
        ),
{
    let same_activity: bool = match &current.activity_evidence_sha256 {
        None => false,
        Some(sha256) => text_equal(sha256.as_str(), evidence.activity_evidence_sha256.as_str()),
    };
    let checks: [FieldCheck; 4] = [
        FieldCheck::Same(text_equal(current.run_id.as_str(), baseline_run_id)),
        FieldCheck::Same(text_equal(current.snapshot_id.as_str(), evidence.snapshot_id.as_str())),
        FieldCheck::Count {
            field: "serving current as-of",
            stored: current.as_of_epoch,
            owed: evidence.as_of_epoch,
        },
        FieldCheck::Same(same_activity),
    ];
    proof {
        let s = checks@;
        assert(s =~= baseline_fields(*current, baseline_run_id@, *evidence));
        assert(all_agree(s) ==>
            field_agrees(s[0]) && field_agrees(s[1]) && field_agrees(s[2]) && field_agrees(s[3]));
    }
    reconcile_fields(checks.as_slice(), "current Postgres run is not the exact serving baseline")
}

/// The numeric columns of a published product.
#[derive(Clone, Copy, Debug, PartialEq, Eq, Structural)]
pub struct ServingProductRow {
    /// Analytics boundary.
    pub as_of_epoch: i64,
    /// Exclusive complete-hour boundary.
    pub complete_through_epoch: i64,
    /// Unique canonical events.
    pub logical_events: i64,
    /// Hourly rows.
    pub hourly_rows: i64,
    /// Kind rows.
    pub kind_rows: i64,
    /// Events of complete hours.
    pub complete_hour_events: i64,
    /// Events of the kind rows.
    pub eligible_kind_events: i64,
    /// Content bytes of the kind rows.
    pub eligible_content_bytes: i64,
}

/// The columns hold the numbers of the product.
pub open spec fn row_holds(row: ServingProductRow, evidence: ServingFactsEvidence) -> bool {
    &&& row.as_of_epoch == evidence.as_of_epoch
    &&& row.complete_through_epoch == evidence.complete_through_epoch
    &&& row.logical_events == evidence.logical_events
    &&& row.hourly_rows == evidence.hourly_artifact.row_count
    &&& row.kind_rows == evidence.kind_artifact.row_count
    &&& row.complete_hour_events == evidence.complete_hour_events
    &&& row.eligible_kind_events == evidence.eligible_kind_events
    &&& row.eligible_content_bytes == evidence.eligible_content_bytes
}

/// Every number of the product fits a signed column.
pub open spec fn columns_fit(evidence: ServingFactsEvidence) -> bool {
    &&& evidence.as_of_epoch <= i64::MAX
    &&& evidence.complete_through_epoch <= i64::MAX
    &&& evidence.logical_events <= i64::MAX
    &&& evidence.hourly_artifact.row_count <= i64::MAX
    &&& evidence.kind_artifact.row_count <= i64::MAX
    &&& evidence.complete_hour_events <= i64::MAX
    &&& evidence.eligible_kind_events <= i64::MAX
    &&& evidence.eligible_content_bytes <= i64::MAX
}

/// The counts of a product, by column.
pub open spec fn product_counts(evidence: ServingFactsEvidence) -> Seq<NamedCount> {
    seq![
        NamedCount { field: "serving as-of", value: evidence.as_of_epoch },
        NamedCount { field: "serving complete through", value: evidence.complete_through_epoch },
        NamedCount { field: "serving logical events", value: evidence.logical_events },
        NamedCount { field: "serving hourly rows", value: evidence.hourly_artifact.row_count },
        NamedCount { field: "serving kind rows", value: evidence.kind_artifact.row_count },
        NamedCount { field: "serving complete-hour events", value: evidence.complete_hour_events },
        NamedCount { field: "serving eligible kind events", value: evidence.eligible_kind_events },
        NamedCount { field: "serving eligible content bytes", value: evidence.eligible_content_bytes },
    ]
}

/// The numeric columns of a product.
pub fn serving_product_row(evidence: &ServingFactsEvidence) -> (outcome: Result<ServingProductRow>)
    ensures
        outcome is Ok <==> columns_fit(*evidence),
        match outcome {
            Ok(row) => row_holds(row, *evidence),
            Err(error) => error == columns_error(product_counts(*evidence)),
        },
{
    let counts: [NamedCount; 8] = [
        NamedCount { field: "serving as-of", value: evidence.as_of_epoch },
        NamedCount {
            field: "serving complete through",
            value: evidence.complete_through_epoch,
        },
        NamedCount { field: "serving logical events", value: evidence.logical_events },
        NamedCount {
            field: "serving hourly rows",
            value: evidence.hourly_artifact.row_count,
        },
        NamedCount { field: "serving kind rows", value: evidence.kind_artifact.row_count },
        NamedCount {
            field: "serving complete-hour events",
            value: evidence.complete_hour_events,
        },
        NamedCount {
            field: "serving eligible kind events",
            value: evidence.eligible_kind_events,
        },
        NamedCount {
            field: "serving eligible content bytes",
            value: evidence.eligible_content_bytes,
        },
    ];
    proof {
        let s = counts@;
        assert(s =~= product_counts(*evidence));
        assert(all_fit(s) ==> s[0].value <= i64::MAX && s[1].value <= i64::MAX && s[2].value
            <= i64::MAX && s[3].value <= i64::MAX && s[4].value <= i64::MAX && s[5].value
            <= i64::MAX && s[6].value <= i64::MAX && s[7].value <= i64::MAX);
    }
    match to_columns(counts.as_slice()) {
        Ok(columns) => Ok(
            ServingProductRow {
                as_of_epoch: columns[0],
                complete_through_epoch: columns[1],
                logical_events: columns[2],
                hourly_rows: columns[3],
                kind_rows: columns[4],
                complete_hour_events: columns[5],
                eligible_kind_events: columns[6],
                eligible_content_bytes: columns[7],
            },
        ),
        Err(error) => Err(error),
    }
}

/// The `COPY` line of an hourly row.
pub fn hourly_line(product_id: &str, row: &ServingHourlyRow) -> (line: String)
    ensures
        line@ == product_id@ + ","@ + decimal(row.hour_epoch as nat) + ","@ + kind_column_text(
            row.kind,
        ) + ","@ + decimal(row.event_count as nat) + "\n"@,
{
    let mut line: String = product_id.to_owned();
    line.append(",");
    push_decimal(&mut line, row.hour_epoch as u64);
    line.append(",");
    push_kind(&mut line, row.kind);
    line.append(",");
    push_decimal(&mut line, row.event_count);
    line.append("\n");
    line
}

/// The `COPY` line of a kind row.
pub fn kind_line(product_id: &str, row: &ServingKindRow) -> (line: String)
    ensures
        line@ == product_id@ + ","@ + decimal(row.kind as nat) + ","@ + decimal(
            row.event_count as nat,
        ) + ","@ + decimal(row.unique_pubkeys as nat) + ","@ + decimal(row.first_seen as nat)
            + ","@ + decimal(row.last_seen as nat) + ","@ + decimal(row.content_bytes as nat)
            + ","@ + decimal(row.content_rows as nat) + "\n"@,
{
    let mut line: String = product_id.to_owned();
    line.append(",");
    push_decimal(&mut line, row.kind as u64);
    line.append(",");
    push_decimal(&mut line, row.event_count);
    line.append(",");
    push_decimal(&mut line, row.unique_pubkeys);
    line.append(",");
    push_decimal(&mut line, row.first_seen as u64);
    line.append(",");
    push_decimal(&mut line, row.last_seen as u64);
    line.append(",");
    push_decimal(&mut line, row.content_bytes);
    line.append(",");
    push_decimal(&mut line, row.content_rows);
    line.append("\n");
    line
}

/// Check that every row of both relations was copied.
pub fn check_copied_rows(evidence: &ServingFactsEvidence, hourly: u64, kinds: u64) -> (outcome:
    Result<()>)
    ensures
        outcome is Ok <==> hourly == evidence.hourly_artifact.row_count && kinds
            == evidence.kind_artifact.row_count,
        outcome is Err ==> outcome->Err_0 is CopyCount,
{
    match expect_copied("serving hourly rows", hourly, evidence.hourly_artifact.row_count) {
        Ok(()) => expect_copied("serving kind rows", kinds, evidence.kind_artifact.row_count),
        Err(error) => Err(error),
    }
}

/// An hourly row as the columns hold it.
#[derive(Clone, Copy, Debug, PartialEq, Eq, Structural)]
pub struct HourlyColumns {
    /// UTC hour number.
    pub hour_epoch: i64,
    /// Kind, or -1 for all kinds.
    pub kind: i32,
    /// Event count.
    pub event_count: i64,
}

/// The columns hold the row.
pub open spec fn hourly_columns_hold(columns: HourlyColumns, row: ServingHourlyRow) -> bool {
    &&& columns.hour_epoch == row.hour_epoch
    &&& columns.kind == kind_rank(row.kind)
    &&& columns.event_count == row.event_count
}

/// Read a kind column: -1 stands for all kinds.
pub fn decode_kind(value: i32) -> (outcome: Result<Option<u16>>)
    ensures
        outcome is Ok <==> -1 <= value <= u16::MAX,
        match outcome {
            Ok(kind) => kind_rank(kind) == value,
            Err(error) => error == Error::Validation("published serving kind is invalid"),
        },
{
    if value == -1 {
        return Ok(None);
    }
    if value < 0 || value > u16::MAX as i32 {
        return Err(Error::Validation("published serving kind is invalid"));
    }
    Ok(Some(value as u16))
}

/// Why the columns of an hourly row cannot be read, if so.
pub open spec fn hourly_fault(columns: HourlyColumns) -> Option<Error> {
    if !(0 <= columns.hour_epoch <= u32::MAX) {
        Some(Error::Validation("published hour is invalid"))
    } else if !(-1 <= columns.kind <= u16::MAX) {
        Some(Error::Validation("published serving kind is invalid"))
    } else if columns.event_count < 0 {
        Some(
            Error::NegativeLedgerValue {
                field: "published hourly event count",
                value: columns.event_count,
            },
        )
    } else {
        None
    }
}

/// Read the columns of an hourly row.
pub fn decode_hourly_row(columns: HourlyColumns) -> (outcome: Result<ServingHourlyRow>)
    ensures
        match hourly_fault(columns) {
            Some(error) => outcome == Err::<ServingHourlyRow, Error>(error),
            None => outcome is Ok && hourly_columns_hold(columns, outcome->Ok_0),
        },
{
    if columns.hour_epoch < 0 || columns.hour_epoch > u32::MAX as i64 {
        return Err(Error::Validation("published hour is invalid"));
    }
    let kind: Option<u16> = match decode_kind(columns.kind) {
        Ok(kind) => kind,
        Err(error) => {
            return Err(error);
        },
    };
    match from_i64("published hourly event count", columns.event_count) {
        Ok(event_count) => Ok(
            ServingHourlyRow { hour_epoch: columns.hour_epoch as u32, kind, event_count },
        ),
        Err(error) => Err(error),
    }
}

/// A kind row as the columns hold it.
#[derive(Clone, Copy, Debug, PartialEq, Eq, Structural)]
pub struct KindColumns {
    /// Kind.
    pub kind: i32,
    /// Event count.
    pub event_count: i64,
    /// Distinct publishers.
    pub unique_pubkeys: i64,
    /// Earliest second.
    pub first_seen: i64,
    /// Latest second.
    pub last_seen: i64,
    /// Content bytes.
    pub content_bytes: i64,
    /// Rows of the content bytes.
    pub content_rows: i64,
}

/// The columns hold the row.
pub open spec fn kind_columns_hold(columns: KindColumns, row: ServingKindRow) -> bool {
    &&& columns.kind == row.kind
    &&& columns.event_count == row.event_count
    &&& columns.unique_pubkeys == row.unique_pubkeys
    &&& columns.first_seen == row.first_seen
    &&& columns.last_seen == row.last_seen
    &&& columns.content_bytes == row.content_bytes
    &&& columns.content_rows == row.content_rows
}

/// Why the columns of a kind row cannot be read, if so.
pub open spec fn kind_fault(columns: KindColumns) -> Option<Error> {
    if !(0 <= columns.kind <= u16::MAX) {
        Some(Error::Validation("published kind is invalid"))
    } else if columns.event_count < 0 {
        Some(
            Error::NegativeLedgerValue {
                field: "published kind events",
                value: columns.event_count,
            },
        )
    } else if columns.unique_pubkeys < 0 {
        Some(
            Error::NegativeLedgerValue {
                field: "published kind pubkeys",
                value: columns.unique_pubkeys,
            },
        )
    } else if !(0 <= columns.first_seen <= u32::MAX) {
        Some(Error::Validation("published first seen is invalid"))
    } else if !(0 <= columns.last_seen <= u32::MAX) {
        Some(Error::Validation("published last seen is invalid"))
    } else if columns.content_bytes < 0 {
        Some(
            Error::NegativeLedgerValue {
                field: "published content bytes",
                value: columns.content_bytes,
            },
        )
    } else if columns.content_rows < 0 {
        Some(
            Error::NegativeLedgerValue {
                field: "published content rows",
                value: columns.content_rows,
            },
        )
    } else {
        None
    }
}

/// Read the columns of a kind row.
pub fn decode_kind_row(columns: KindColumns) -> (outcome: Result<ServingKindRow>)
    ensures
        match kind_fault(columns) {
            Some(error) => outcome == Err::<ServingKindRow, Error>(error),
            None => outcome is Ok && kind_columns_hold(columns, outcome->Ok_0),
        },
{
    if columns.kind < 0 || columns.kind > u16::MAX as i32 {
        return Err(Error::Validation("published kind is invalid"));
    }
    let event_count: u64 = match from_i64("published kind events", columns.event_count) {
        Ok(value) => value,
        Err(error) => {
            return Err(error);
        },
    };
    let unique_pubkeys: u64 = match from_i64("published kind pubkeys", columns.unique_pubkeys) {
        Ok(value) => value,
        Err(error) => {
            return Err(error);
        },
    };
    if columns.first_seen < 0 || columns.first_seen > u32::MAX as i64 {
        return Err(Error::Validation("published first seen is invalid"));
    }
    if columns.last_seen < 0 || columns.last_seen > u32::MAX as i64 {
        return Err(Error::Validation("published last seen is invalid"));
    }
    let content_bytes: u64 = match from_i64("published content bytes", columns.content_bytes) {
        Ok(value) => value,
        Err(error) => {
            return Err(error);
        },
    };
    let content_rows: u64 = match from_i64("published content rows", columns.content_rows) {
        Ok(value) => value,
        Err(error) => {
            return Err(error);
        },
    };
    Ok(
        ServingKindRow {
            kind: columns.kind as u16,
            event_count,
            unique_pubkeys,
            first_seen: columns.first_seen as u32,
            last_seen: columns.last_seen as u32,
            content_bytes,
            content_rows,
        },
    )
}

/// The outcome of reading the published hourly rows from `from` on against those of
/// the artifact.
pub open spec fn hourly_outcome(
    published: Seq<HourlyColumns>,
    expected: Seq<ServingHourlyRow>,
    from: int,
) -> Result<()>
    decreases expected.len() - from,
{
    if from >= expected.len() {
        if published.len() > expected.len() {
            Err(Error::Validation("published hourly relation has extra rows"))
        } else {
            Ok(())
        }
    } else if from >= published.len() {
        Err(Error::Validation("published hourly rows ended early"))
    } else {
        match hourly_fault(published[from]) {
            Some(error) => Err(error),
            None => if hourly_columns_hold(published[from], expected[from]) {
                hourly_outcome(published, expected, from + 1)
            } else {
                Err(Error::Validation("published hourly row differs from canonical artifact"))
            },
        }
    }
}

/// Check that the published hourly rows are those of the artifact, in order.
pub fn reconcile_hourly(published: &Vec<HourlyColumns>, expected: &Vec<ServingHourlyRow>) -> (outcome:
    Result<()>)
    ensures
        outcome is Ok <==> {
            &&& published@.len() == expected@.len()
            &&& forall|i: int|
                0 <= i < expected@.len() ==> #[trigger] hourly_columns_hold(published@[i], expected@[i])
        },
        outcome == hourly_outcome(published@, expected@, 0),
{
    let mut i: usize = 0;
    while i < expected.len()
        invariant
            i <= expected@.len(),
            i <= published@.len(),
            forall|j: int|
                0 <= j < i ==> #[trigger] hourly_columns_hold(published@[j], expected@[j]),
            hourly_outcome(published@, expected@, 0) == hourly_outcome(
                published@,
                expected@,
                i as int,
            ),
        decreases expected.len() - i,
    {
        if i >= published.len() {
            return Err(Error::Validation("published hourly rows ended early"));
        }
        match decode_hourly_row(published[i]) {
            Ok(actual) => {
                if actual != expected[i] {
                    proof {
                        if hourly_columns_hold(published@[i as int], expected@[i as int]) {
                            assert(kind_rank(actual.kind) == kind_rank(expected@[i as int].kind));
                            assert(actual.kind == expected@[i as int].kind);
                        }
                    }
                    assert(!hourly_columns_hold(published@[i as int], expected@[i as int]));
                    return Err(
                        Error::Validation("published hourly row differs from canonical artifact"),
                    );
                }
                assert(hourly_columns_hold(published@[i as int], expected@[i as int]));
            },
            Err(error) => {
                assert(!hourly_columns_hold(published@[i as int], expected@[i as int]));
                return Err(error);
            },
        }
        i += 1;
    }
    if published.len() > expected.len() {
        return Err(Error::Validation("published hourly relation has extra rows"));
    }
    Ok(())
}

/// The outcome of reading the published kind rows from `from` on against those of
/// the artifact.
pub open spec fn kind_outcome(
    published: Seq<KindColumns>,
    expected: Seq<ServingKindRow>,
    from: int,
) -> Result<()>
    decreases expected.len() - from,
{
    if from >= expected.len() {
        if published.len() > expected.len() {
            Err(Error::Validation("published kind relation has extra rows"))
        } else {
            Ok(())
        }
    } else if from >= published.len() {
        Err(Error::Validation("published kind rows ended early"))
    } else {
        match kind_fault(published[from]) {
            Some(error) => Err(error),
            None => if kind_columns_hold(published[from], expected[from]) {
                kind_outcome(published, expected, from + 1)
            } else {
                Err(Error::Validation("published kind row differs from canonical artifact"))
            },
        }
    }
}

/// Check that the published kind rows are those of the artifact, in order.
pub fn reconcile_kinds(published: &Vec<KindColumns>, expected: &Vec<ServingKindRow>) -> (outcome:
    Result<()>)
    ensures
        outcome is Ok <==> {
            &&& published@.len() == expected@.len()
            &&& forall|i: int|
                0 <= i < expected@.len() ==> #[trigger] kind_columns_hold(published@[i], expected@[i])
        },
        outcome == kind_outcome(published@, expected@, 0),
{
    let mut i: usize = 0;
    while i < expected.len()
        invariant
            i <= expected@.len(),
            i <= published@.len(),
            forall|j: int|
                0 <= j < i ==> #[trigger] kind_columns_hold(published@[j], expected@[j]),
            kind_outcome(published@, expected@, 0) == kind_outcome(
                published@,
                expected@,
                i as int,
            ),
        decreases expected.len() - i,
    {
        if i >= published.len() {
            return Err(Error::Validation("published kind rows ended early"));
        }
        match decode_kind_row(published[i]) {
            Ok(actual) => {
                if actual != expected[i] {
                    assert(!kind_columns_hold(published@[i as int], expected@[i as int]));
                    return Err(
                        Error::Validation("published kind row differs from canonical artifact"),
                    );
                }
                assert(kind_columns_hold(published@[i as int], expected@[i as int]));
            },
            Err(error) => {
                assert(!kind_columns_hold(published@[i as int], expected@[i as int]));
                return Err(error);
            },
        }
        i += 1;
    }
    if published.len() > expected.len() {
        return Err(Error::Validation("published kind relation has extra rows"));
    }
    Ok(())
}

/// A published product as the ledger holds it.
#[derive(Clone, Debug, PartialEq, Eq)]
pub struct PublishedServing {
    /// Frozen catalog snapshot.
    pub snapshot_id: String,
    /// Version of the product.
    pub product_version: String,
    /// Digest of the product evidence.
    pub evidence_sha256: String,
    /// Digest of the activity evidence.
    pub activity_evidence_sha256: String,
    /// Digest of the content artifact.
    pub content_artifact_sha256: String,
    /// Digest of the hourly artifact.
    pub hourly_artifact_sha256: String,
    /// Digest of the kind artifact.
    pub kind_artifact_sha256: String,
    /// Numeric columns.
    pub row: ServingProductRow,
}

/// The published metadata is that of the product.
pub open spec fn metadata_matches(
    published: PublishedServing,
    product: BoundedServingFacts,
) -> bool {
    let evidence = product.evidence;
    &&& published.snapshot_id@ == evidence.snapshot_id@
    &&& published.product_version@ == SERVING_FACTS_VERSION@
    &&& published.evidence_sha256@ == product.evidence_sha256@
    &&& published.activity_evidence_sha256@ == evidence.activity_evidence_sha256@
    &&& published.content_artifact_sha256@ == evidence.content_artifact.sha256@
    &&& published.hourly_artifact_sha256@ == evidence.hourly_artifact.sha256@
    &&& published.kind_artifact_sha256@ == evidence.kind_artifact.sha256@
    &&& row_holds(published.row, evidence)
}

/// The published metadata, field by field.
pub open spec fn metadata_fields(
    published: PublishedServing,
    product: BoundedServingFacts,
) -> Seq<FieldCheck> {
    let evidence = product.evidence;
    seq![
        FieldCheck::Same(published.snapshot_id@ == evidence.snapshot_id@),
        FieldCheck::Count {
            field: "published serving as-of",
            stored: published.row.as_of_epoch,
            owed: evidence.as_of_epoch,
        },
        FieldCheck::Count {
            field: "published serving boundary",
            stored: published.row.complete_through_epoch,
            owed: evidence.complete_through_epoch,
        },
        FieldCheck::Same(published.product_version@ == SERVING_FACTS_VERSION@),
        FieldCheck::Same(published.evidence_sha256@ == product.evidence_sha256@),
        FieldCheck::Same(published.activity_evidence_sha256@ == evidence.activity_evidence_sha256@),
        FieldCheck::Same(published.content_artifact_sha256@ == evidence.content_artifact.sha256@),
        FieldCheck::Same(published.hourly_artifact_sha256@ == evidence.hourly_artifact.sha256@),
        FieldCheck::Same(published.kind_artifact_sha256@ == evidence.kind_artifact.sha256@),
        FieldCheck::Count {
            field: "published serving logical",
            stored: published.row.logical_events,
            owed: evidence.logical_events,
        },
        FieldCheck::Count {
            field: "published serving hourly rows",
            stored: published.row.hourly_rows,
            owed: evidence.hourly_artifact.row_count,
        },
        FieldCheck::Count {
            field: "published serving kind rows",
            stored: published.row.kind_rows,
            owed: evidence.kind_artifact.row_count,
        },
        FieldCheck::Count {
            field: "published complete-hour events",
            stored: published.row.complete_hour_events,
            owed: evidence.complete_hour_events,
        },
        FieldCheck::Count {
            field: "published eligible kind events",
            stored: published.row.eligible_kind_events,
            owed: evidence.eligible_kind_events,
        },
        FieldCheck::Count {
            field: "published content bytes",
            stored: published.row.eligible_content_bytes,
            owed: evidence.eligible_content_bytes,
        },
    ]
}

/// Check the published metadata of a product.
pub fn reconcile_metadata(published: &PublishedServing, product: &BoundedServingFacts) -> (outcome:
    Result<()>)
    ensures
        outcome is Ok <==> metadata_matches(*published, *product),
        outcome == fields_outcome(
            metadata_fields(*published, *product),
            "published serving product metadata does not reconcile",
        ),
{
    let evidence: &ServingFactsEvidence = &product.evidence;
    let checks: [FieldCheck; 15] = [
        FieldCheck::Same(text_equal(published.snapshot_id.as_str(), evidence.snapshot_id.as_str())),
        FieldCheck::Count {
            field: "published serving as-of",
            stored: published.row.as_of_epoch,
            owed: evidence.as_of_epoch,
        },
        FieldCheck::Count {
            field: "published serving boundary",
            stored: published.row.complete_through_epoch,
            owed: evidence.complete_through_epoch,
        },
        FieldCheck::Same(text_equal(published.product_version.as_str(), SERVING_FACTS_VERSION)),
        FieldCheck::Same(
            text_equal(
                published.evidence_sha256.as_str(),
                product.evidence_sha256.as_str(),
            ),
        ),
        FieldCheck::Same(
            text_equal(
                published.activity_evidence_sha256.as_str(),
                evidence.activity_evidence_sha256.as_str(),
            ),
        ),
        FieldCheck::Same(
            text_equal(
                published.content_artifact_sha256.as_str(),
                evidence.content_artifact.sha256.as_str(),
            ),
        ),
        FieldCheck::Same(
            text_equal(
                published.hourly_artifact_sha256.as_str(),
                evidence.hourly_artifact.sha256.as_str(),
            ),
        ),
        FieldCheck::Same(
            text_equal(
                published.kind_artifact_sha256.as_str(),
                evidence.kind_artifact.sha256.as_str(),
            ),
        ),
        FieldCheck::Count {
            field: "published serving logical",
            stored: published.row.logical_events,
            owed: evidence.logical_events,
        },
        FieldCheck::Count {
            field: "published serving hourly rows",
            stored: published.row.hourly_rows,
            owed: evidence.hourly_artifact.row_count,
        },
        FieldCheck::Count {
            field: "published serving kind rows",
            stored: published.row.kind_rows,
            owed: evidence.kind_artifact.row_count,
        },
        FieldCheck::Count {
            field: "published complete-hour events",
            stored: published.row.complete_hour_events,
            owed: evidence.complete_hour_events,
        },
        FieldCheck::Count {
            field: "published eligible kind events",
            stored: published.row.eligible_kind_events,
            owed: evidence.eligible_kind_events,
        },
        FieldCheck::Count {
            field: "published content bytes",
            stored: published.row.eligible_content_bytes,
            owed: evidence.eligible_content_bytes,
        },
    ];
    proof {
        let s = checks@;
        assert(s =~= metadata_fields(*published, *product));
        assert(all_agree(s) ==>
            field_agrees(s[0]) && field_agrees(s[1]) && field_agrees(s[2]) && field_agrees(s[3])
            && field_agrees(s[4]) && field_agrees(s[5]) && field_agrees(s[6])
            && field_agrees(s[7]) && field_agrees(s[8]) && field_agrees(s[9])
            && field_agrees(s[10]) && field_agrees(s[11]) && field_agrees(s[12])
            && field_agrees(s[13]) && field_agrees(s[14]));
    }
    reconcile_fields(
        checks.as_slice(),
        "published serving product metadata does not reconcile",
    )
}

/// The columns that select a range of hourly counts.
#[derive(Clone, Copy, Debug, PartialEq, Eq, Structural)]
pub struct HourlyQuery {
    /// Kind, or -1 for all kinds.
    pub kind: i32,
    /// Inclusive first hour.
    pub start_hour: i64,
    /// Exclusive last hour.
    pub end_hour: i64,
}

/// Check the range of an hourly query and turn it into columns.
pub fn hourly_query(start_hour: u32, end_hour: u32, kind: Option<u16>) -> (outcome: Result<
    HourlyQuery,
>)
    ensures
        outcome is Ok <==> 1 <= end_hour - start_hour <= 8_784,
        match outcome {
            Ok(query) => {
                &&& query.kind == kind_rank(kind)
                &&& query.start_hour == start_hour
                &&& query.end_hour == end_hour
            },
            Err(error) => error == Error::Validation(
                "serving hourly query must cover 1 through 8784 hours",
            ),
        },
{
    if start_hour >= end_hour || end_hour - start_hour > 8_784 {
        return Err(Error::Validation("serving hourly query must cover 1 through 8784 hours"));
    }
    let kind: i32 = match kind {
        None => -1,
        Some(kind) => kind as i32,
    };
    Ok(HourlyQuery { kind, start_hour: start_hour as i64, end_hour: end_hour as i64 })
}

/// Why the columns of a queried hour cannot be read, if so.
pub open spec fn hour_fault(hour_epoch: i64, event_count: i64) -> Option<Error> {
    if !(0 <= hour_epoch <= u32::MAX) {
        Some(Error::Validation("published serving hour is invalid"))
    } else if event_count < 0 {
        Some(
            Error::NegativeLedgerValue {
                field: "published serving hourly count",
                value: event_count,
            },
        )
    } else {
        None
    }
}

/// Read one queried hour of a kind.
pub fn decode_hour(kind: Option<u16>, hour_epoch: i64, event_count: i64) -> (outcome: Result<
    ServingHourlyRow,
>)
    ensures
        match hour_fault(hour_epoch, event_count) {
            Some(error) => outcome == Err::<ServingHourlyRow, Error>(error),
            None => outcome is Ok && outcome->Ok_0.hour_epoch == hour_epoch && outcome->Ok_0.kind
                == kind && outcome->Ok_0.event_count == event_count,
        },
{
    if hour_epoch < 0 || hour_epoch > u32::MAX as i64 {
        return Err(Error::Validation("published serving hour is invalid"));
    }
    match from_i64("published serving hourly count", event_count) {
        Ok(event_count) => Ok(
            ServingHourlyRow { hour_epoch: hour_epoch as u32, kind, event_count },
        ),
        Err(error) => Err(error),
    }
}

} // verus!
