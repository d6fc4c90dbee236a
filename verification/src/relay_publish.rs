//! Publication rules of relay distributions.

use vstd::prelude::*;
use vstd::string::*;

use crate::digest::{sha256_hex, sha256_text};
use crate::error::{from_i64, to_i64, Error, Result};
use crate::publication::{
    all_agree, check_run, expect_copied, field_agrees, fields_outcome, is_baseline,
    reconcile_fields, run_fields, CurrentRun, FieldCheck,
};
use crate::relay_build::{row_bounds_hold, BoundedRelayDistribution, RelayDistributionEvidence};
use crate::relay_distribution::{RelayDistributionRow, RELAY_DISTRIBUTION_VERSION};
use crate::relay_rows::{relays_equal, same_relay};
use crate::runs::{product_identity, product_message};
use crate::text::{chars_of, decimal, push_decimal, text_equal};

verus! {

/// Result of publishing one product.
#[derive(Clone, Debug, PartialEq, Eq)]
pub enum RelayDistributionPublishOutcome {
    /// A new versioned product and all rows committed.
    Published {
        /// Identity of the product.
        product_id: String,
    },
    /// An identical committed product reconciled successfully.
    AlreadyPublished {
        /// Identity of the product.
        product_id: String,
    },
}

/// The product can be published.
pub open spec fn publishable(evidence: RelayDistributionEvidence, rows_json: Seq<u8>) -> bool {
    &&& evidence.status@ == "completed"@
    &&& evidence.product_version@ == RELAY_DISTRIBUTION_VERSION@
    &&& evidence.rows_sha256@ == sha256_text(rows_json)
    &&& forall|i: int|
        0 <= i < evidence.rows@.len() ==> row_bounds_hold(
            #[trigger] evidence.rows@[i],
            evidence.minimum_users,
        )
}

/// Check that a product can be published; `rows_json` is the JSON of its rows.
pub fn validate_relay_distribution_publication(
    product: &BoundedRelayDistribution,
    rows_json: &[u8],
) -> (outcome: Result<()>)
    ensures
        outcome is Ok <==> publishable(product.evidence, rows_json@),
        outcome is Err ==> outcome == Err::<(), Error>(
            Error::Validation("relay distribution failed immutable publication validation"),
        ),
{
    let evidence: &RelayDistributionEvidence = &product.evidence;
    let mut i: usize = 0;
    while i < evidence.rows.len()
        invariant
            i <= evidence.rows@.len(),
            evidence == &product.evidence,
            forall|j: int|
                0 <= j < i ==> row_bounds_hold(
                    #[trigger] evidence.rows@[j],
                    evidence.minimum_users,
                ),
        decreases evidence.rows.len() - i,
    {
        let row: &RelayDistributionRow = &evidence.rows[i];
        if row.user_count < evidence.minimum_users || row.read_count > row.user_count
            || row.write_count > row.user_count {
            assert(!row_bounds_hold(evidence.rows@[i as int], evidence.minimum_users));
            return Err(
                Error::Validation("relay distribution failed immutable publication validation"),
            );
        }
        i += 1;
    }
    if !text_equal(evidence.status.as_str(), "completed") || !text_equal(
        evidence.product_version.as_str(),
        RELAY_DISTRIBUTION_VERSION,
    ) || !text_equal(evidence.rows_sha256.as_str(), sha256_hex(rows_json).as_str()) {
        return Err(
            Error::Validation("relay distribution failed immutable publication validation"),
        );
    }
    Ok(())
}

/// Check that the current run is the baseline of the product; `query_version`
/// is the version that carries cohorts.
pub fn check_relay_baseline(
    current: &CurrentRun,
    baseline_run_id: &str,
    product: &BoundedRelayDistribution,
    query_version: &str,
) -> (outcome: Result<()>)
    ensures
        outcome is Ok <==> is_baseline(
            *current,
            baseline_run_id@,
            product.evidence.snapshot_id@,
            query_version@,
            product.evidence.as_of_epoch,
        ),
        outcome == fields_outcome(
            run_fields(
                *current,
                baseline_run_id@,
                product.evidence.snapshot_id@,
                query_version@,
                product.evidence.as_of_epoch,
                "relay current as-of",
            ),
            "current Postgres run is not the exact relay baseline",
        ),
{
    check_run(
        current,
        baseline_run_id,
        product.evidence.snapshot_id.as_str(),
        query_version,
        product.evidence.as_of_epoch,
        "relay current as-of",
        "current Postgres run is not the exact relay baseline",
    )
}

/// The identity of a published product.
pub fn relay_product_id(baseline_run_id: &str, product: &BoundedRelayDistribution) -> (product_id:
    String)
    ensures
        product_id@ == sha256_text(
            product_message(
                "pensieve-relay-distribution-product-v1"@,
                seq![baseline_run_id@, product.evidence_sha256@],
            ),
        ),
        product_id@.len() == 64,
{
    product_identity(
        "pensieve-relay-distribution-product-v1",
        baseline_run_id,
        product.evidence_sha256.as_str(),
    )
}

/// The numeric columns of a published product.
#[derive(Clone, Copy, Debug, PartialEq, Eq, Structural)]
pub struct RelayProductRow {
    /// Analytics boundary.
    pub as_of_epoch: i64,
    /// Candidate events.
    pub candidate_events: i64,
    /// Publishers with a winning list.
    pub winning_pubkeys: i64,
    /// Minimum users of a row.
    pub minimum_users: i64,
    /// Rows.
    pub relay_rows: i64,
}

/// Every number of the product fits a signed column.
pub open spec fn columns_fit(evidence: RelayDistributionEvidence) -> bool {
    &&& evidence.as_of_epoch <= i64::MAX
    &&& evidence.candidate_events <= i64::MAX
    &&& evidence.winning_pubkeys <= i64::MAX
    &&& evidence.minimum_users <= i64::MAX
    &&& evidence.rows@.len() <= i64::MAX
}

/// The columns hold the numbers of the product.
pub open spec fn is_product_row(row: RelayProductRow, evidence: RelayDistributionEvidence) -> bool {
    &&& row.as_of_epoch == evidence.as_of_epoch
    &&& row.candidate_events == evidence.candidate_events
    &&& row.winning_pubkeys == evidence.winning_pubkeys
    &&& row.minimum_users == evidence.minimum_users
    &&& row.relay_rows == evidence.rows@.len()
}

/// The numeric columns of a product.
pub fn relay_product_row(evidence: &RelayDistributionEvidence) -> (outcome: Result<
    RelayProductRow,
>)
    ensures
        outcome is Ok <==> columns_fit(*evidence),
        match outcome {
            Ok(row) => is_product_row(row, *evidence),
            Err(error) => error is NumericOverflow,
        },
{
    let as_of_epoch: i64 = match to_i64("relay as-of", evidence.as_of_epoch) {
        Ok(value) => value,
        Err(error) => {
            return Err(error);
        },
    };
    let candidate_events: i64 = match to_i64("relay candidate events", evidence.candidate_events) {
        Ok(value) => value,
        Err(error) => {
            return Err(error);
        },
    };
    let winning_pubkeys: i64 = match to_i64("relay winning pubkeys", evidence.winning_pubkeys) {
        Ok(value) => value,
        Err(error) => {
            return Err(error);
        },
    };
    let minimum_users: i64 = match to_i64("relay minimum users", evidence.minimum_users) {
        Ok(value) => value,
        Err(error) => {
            return Err(error);
        },
    };
    let relay_rows: i64 = match to_i64("relay row count", evidence.rows.len() as u64) {
        Ok(value) => value,
        Err(error) => {
            return Err(error);
        },
    };
    Ok(RelayProductRow { as_of_epoch, candidate_events, winning_pubkeys, minimum_users, relay_rows })
}

/// The text with every quotation mark doubled.
pub open spec fn doubled_quotes(text: Seq<char>) -> Seq<char>
    decreases text.len(),
{
    if text.len() == 0 {
        Seq::empty()
    } else {
        let earlier = doubled_quotes(text.drop_last());
        if text.last() == '"' {
            earlier.push('"').push('"')
        } else {
            earlier.push(text.last())
        }
    }
}

/// A text as a quoted CSV field.
pub fn csv_field(value: &str) -> (field: String)
    ensures
        field@ == "\""@ + doubled_quotes(value@) + "\""@,
{
    let chars: Vec<char> = chars_of(value);
    let mut field: String = "\"".to_owned();
    let ghost open = field@;
    let mut i: usize = 0;
    proof {
        assert(value@.take(0) =~= Seq::empty());
        assert(field@ =~= open + doubled_quotes(value@.take(0)));
        reveal_strlit("\"");
        assert("\""@ =~= seq!['"']);
    }
    while i < chars.len()
        invariant
            i <= chars@.len(),
            chars@ == value@,
            "\""@ == seq!['"'],
            field@ == open + doubled_quotes(value@.take(i as int)),
        decreases chars.len() - i,
    {
        let one: &str = value.substring_char(i, i + 1);
        field.append(one);
        if chars[i] == '"' {
            field.append("\"");
        }
        proof {
            assert(one@ =~= seq![value@[i as int]]);
            assert(value@.take(i + 1).drop_last() =~= value@.take(i as int));
            assert(field@ =~= open + doubled_quotes(value@.take(i + 1)));
        }
        i += 1;
    }
    assert(value@.take(value@.len() as int) =~= value@);
    field.append("\"");
    field
}

/// The `COPY` line of a row.
pub fn relay_line(product_id: &str, row: &RelayDistributionRow) -> (line: String)
    ensures
        line@ == product_id@ + ","@ + ("\""@ + doubled_quotes(row.relay_url@) + "\""@) + ","@
            + decimal(row.user_count as nat) + ","@ + decimal(row.read_count as nat) + ","@
            + decimal(row.write_count as nat) + "\n"@,
{
    let mut line: String = product_id.to_owned();
    line.append(",");
    line.append(csv_field(row.relay_url.as_str()).as_str());
    line.append(",");
    push_decimal(&mut line, row.user_count);
    line.append(",");
    push_decimal(&mut line, row.read_count);
    line.append(",");
    push_decimal(&mut line, row.write_count);
    line.append("\n");
    line
}

/// Check that every row was copied.
pub fn check_copied_rows(evidence: &RelayDistributionEvidence, inserted: u64) -> (outcome: Result<
    (),
>)
    ensures
        outcome is Ok <==> inserted == evidence.rows@.len(),
        outcome is Err ==> outcome->Err_0 is CopyCount,
{
    expect_copied("relay rows", inserted, evidence.rows.len() as u64)
}

/// A row as the columns hold it.
#[derive(Clone, Debug, PartialEq, Eq)]
pub struct RelayColumns {
    /// Canonical relay URL.
    pub relay_url: String,
    /// Users.
    pub user_count: i64,
    /// Readers.
    pub read_count: i64,
    /// Writers.
    pub write_count: i64,
}

/// The columns hold the row.
pub open spec fn columns_hold(columns: RelayColumns, row: RelayDistributionRow) -> bool {
    &&& columns.relay_url@ == row.relay_url@
    &&& columns.user_count == row.user_count
    &&& columns.read_count == row.read_count
    &&& columns.write_count == row.write_count
}

/// Why the columns of a row cannot be read, if so.
pub open spec fn row_fault(columns: RelayColumns) -> Option<Error> {
    if columns.user_count < 0 {
        Some(
            Error::NegativeLedgerValue {
                field: "relay users",
                value: columns.user_count,
            },
        )
    } else if columns.read_count < 0 {
        Some(
            Error::NegativeLedgerValue {
                field: "relay reads",
                value: columns.read_count,
            },
        )
    } else if columns.write_count < 0 {
        Some(
            Error::NegativeLedgerValue {
                field: "relay writes",
                value: columns.write_count,
            },
        )
    } else {
        None
    }
}

/// Read the columns of a row.
pub fn relay_row(columns: &RelayColumns) -> (outcome: Result<RelayDistributionRow>)
    ensures
        match row_fault(*columns) {
            Some(error) => outcome == Err::<RelayDistributionRow, Error>(error),
            None => outcome is Ok && columns_hold(*columns, outcome->Ok_0),
        },
{
    let user_count: u64 = match from_i64("relay users", columns.user_count) {
        Ok(value) => value,
        Err(error) => {
            return Err(error);
        },
    };
    let read_count: u64 = match from_i64("relay reads", columns.read_count) {
        Ok(value) => value,
        Err(error) => {
            return Err(error);
        },
    };
    let write_count: u64 = match from_i64("relay writes", columns.write_count) {
        Ok(value) => value,
        Err(error) => {
            return Err(error);
        },
    };
    Ok(
        RelayDistributionRow {
            relay_url: columns.relay_url.clone(),
            user_count,
            read_count,
            write_count,
        },
    )
}

/// The published rows are those of the evidence, in order.
pub open spec fn published_rows_are(
    published: Seq<RelayColumns>,
    rows: Seq<RelayDistributionRow>,
) -> bool {
    &&& published.len() == rows.len()
    &&& forall|i: int| 0 <= i < rows.len() ==> #[trigger] columns_hold(published[i], rows[i])
}

/// The first published row from `from` on that cannot be read, as an error.
pub open spec fn rows_fault(published: Seq<RelayColumns>, from: int) -> Option<Error>
    decreases published.len() - from,
{
    if from >= published.len() {
        None
    } else {
        match row_fault(published[from]) {
            Some(error) => Some(error),
            None => rows_fault(published, from + 1),
        }
    }
}

/// Read all published rows.
fn read_rows(published: &Vec<RelayColumns>) -> (outcome: Result<Vec<RelayDistributionRow>>)
    ensures
        match rows_fault(published@, 0) {
            Some(error) => outcome == Err::<Vec<RelayDistributionRow>, Error>(error),
            None => outcome is Ok,
        },
        outcome is Ok ==> outcome->Ok_0@.len() == published@.len() && forall|i: int|
            0 <= i < published@.len() ==> #[trigger] columns_hold(
                published@[i],
                outcome->Ok_0@[i],
            ),
        outcome is Err ==> exists|i: int|
            0 <= i < published@.len() && (#[trigger] row_fault(published@[i])) is Some,
{
    let mut rows: Vec<RelayDistributionRow> = Vec::new();
    let mut i: usize = 0;
    while i < published.len()
        invariant
            i <= published@.len(),
            rows@.len() == i,
            rows_fault(published@, 0) == rows_fault(published@, i as int),
            forall|j: int| 0 <= j < i ==> #[trigger] columns_hold(published@[j], rows@[j]),
        decreases published.len() - i,
    {
        match relay_row(&published[i]) {
            Ok(row) => {
                rows.push(row);
            },
            Err(error) => {
                assert(row_fault(published@[i as int]) is Some);
                return Err(error);
            },
        }
        i += 1;
    }
    Ok(rows)
}

/// What holding the stored rows against those of the evidence comes to.
pub open spec fn rows_outcome(
    published: Seq<RelayColumns>,
    rows: Seq<RelayDistributionRow>,
) -> Result<()> {
    if published_rows_are(published, rows) {
        Ok(())
    } else {
        match rows_fault(published, 0) {
            Some(error) => Err(error),
            None => Err(
                Error::Validation("published relay rows differ from canonical evidence"),
            ),
        }
    }
}

/// Check that the published rows are those of the evidence.
pub fn reconcile_rows(published: &Vec<RelayColumns>, rows: &Vec<RelayDistributionRow>) -> (outcome:
    Result<()>)
    ensures
        outcome is Ok <==> published_rows_are(published@, rows@),
        outcome == rows_outcome(published@, rows@),
{
    let found: Vec<RelayDistributionRow> = match read_rows(published) {
        Ok(found) => found,
        Err(error) => {
            proof {
                let i = choose|i: int|
                    0 <= i < published@.len() && (#[trigger] row_fault(published@[i])) is Some;
                if published_rows_are(published@, rows@) {
                    assert(columns_hold(published@[i], rows@[i]));
                }
            }
            return Err(error);
        },
    };
    if relays_equal(&found, rows) {
        assert(forall|i: int|
            0 <= i < rows@.len() ==> #[trigger] columns_hold(published@[i], rows@[i])) by {
            assert forall|i: int| 0 <= i < rows@.len() implies #[trigger] columns_hold(
                published@[i],
                rows@[i],
            ) by {
                assert(columns_hold(published@[i], found@[i]));
                assert(same_relay(found@[i], rows@[i]));
            }
        }
        return Ok(());
    }
    proof {
        if published_rows_are(published@, rows@) {
            assert forall|i: int| 0 <= i < rows@.len() implies #[trigger] same_relay(
                found@[i],
                rows@[i],
            ) by {
                assert(columns_hold(published@[i], found@[i]));
                assert(columns_hold(published@[i], rows@[i]));
            }
        }
    }
    Err(Error::Validation("published relay rows differ from canonical evidence"))
}

/// A published product as the ledger holds it.
#[derive(Clone, Debug, PartialEq, Eq)]
pub struct PublishedRelay {
    /// Frozen catalog snapshot.
    pub snapshot_id: String,
    /// Version of the product.
    pub product_version: String,
    /// Digest of the product evidence.
    pub evidence_sha256: String,
    /// Digest of the rows.
    pub rows_sha256: String,
    /// Numeric columns.
    pub row: RelayProductRow,
}

/// The published metadata is that of the product.
pub open spec fn metadata_matches(
    published: PublishedRelay,
    product: BoundedRelayDistribution,
) -> bool {
    let evidence = product.evidence;
    &&& published.snapshot_id@ == evidence.snapshot_id@
    &&& published.product_version@ == RELAY_DISTRIBUTION_VERSION@
    &&& published.evidence_sha256@ == product.evidence_sha256@
    &&& published.rows_sha256@ == evidence.rows_sha256@
    &&& published.row.as_of_epoch == evidence.as_of_epoch
    &&& published.row.candidate_events == evidence.candidate_events
    &&& published.row.winning_pubkeys == evidence.winning_pubkeys
    &&& published.row.minimum_users == evidence.minimum_users
    &&& published.row.relay_rows == evidence.rows@.len()
}

/// The published metadata, field by field.
pub open spec fn metadata_fields(
    published: PublishedRelay,
    product: BoundedRelayDistribution,
) -> Seq<FieldCheck> {
    let evidence = product.evidence;
    seq![
        FieldCheck::Same(published.snapshot_id@ == evidence.snapshot_id@),
        FieldCheck::Count {
            field: "published relay as-of",
            stored: published.row.as_of_epoch,
            owed: evidence.as_of_epoch,
        },
        FieldCheck::Same(published.product_version@ == RELAY_DISTRIBUTION_VERSION@),
        FieldCheck::Same(published.evidence_sha256@ == product.evidence_sha256@),
        FieldCheck::Same(published.rows_sha256@ == evidence.rows_sha256@),
        FieldCheck::Count {
            field: "published relay candidates",
            stored: published.row.candidate_events,
            owed: evidence.candidate_events,
        },
        FieldCheck::Count {
            field: "published relay winners",
            stored: published.row.winning_pubkeys,
            owed: evidence.winning_pubkeys,
        },
        FieldCheck::Count {
            field: "published relay minimum",
            stored: published.row.minimum_users,
            owed: evidence.minimum_users,
        },
        FieldCheck::Count {
            field: "published relay row metadata",
            stored: published.row.relay_rows,
            owed: evidence.rows@.len() as u64,
        },
    ]
}

/// Check the published metadata of a product.
pub fn reconcile_metadata(published: &PublishedRelay, product: &BoundedRelayDistribution) -> (
    outcome: Result<()>)
    ensures
        outcome is Ok <==> metadata_matches(*published, *product),
        outcome == fields_outcome(
            metadata_fields(*published, *product),
            "published relay product metadata does not reconcile",
        ),
{
    let evidence: &RelayDistributionEvidence = &product.evidence;
    let checks: [FieldCheck; 9] = [
        FieldCheck::Same(text_equal(published.snapshot_id.as_str(), evidence.snapshot_id.as_str())),
        FieldCheck::Count {
            field: "published relay as-of",
            stored: published.row.as_of_epoch,
            owed: evidence.as_of_epoch,
        },
        FieldCheck::Same(
            text_equal(
                published.product_version.as_str(),
                RELAY_DISTRIBUTION_VERSION,
            ),
        ),
        FieldCheck::Same(
            text_equal(
                published.evidence_sha256.as_str(),
                product.evidence_sha256.as_str(),
            ),
        ),
        FieldCheck::Same(text_equal(published.rows_sha256.as_str(), evidence.rows_sha256.as_str())),
        FieldCheck::Count {
            field: "published relay candidates",
            stored: published.row.candidate_events,
            owed: evidence.candidate_events,
        },
        FieldCheck::Count {
            field: "published relay winners",
            stored: published.row.winning_pubkeys,
            owed: evidence.winning_pubkeys,
        },
        FieldCheck::Count {
            field: "published relay minimum",
            stored: published.row.minimum_users,
            owed: evidence.minimum_users,
        },
        FieldCheck::Count {
            field: "published relay row metadata",
            stored: published.row.relay_rows,
            owed: evidence.rows.len() as u64,
        },
    ];
    proof {
        let s = checks@;
        assert(s =~= metadata_fields(*published, *product));
        assert(all_agree(s) ==>
            field_agrees(s[0]) && field_agrees(s[1]) && field_agrees(s[2]) && field_agrees(s[3])
            && field_agrees(s[4]) && field_agrees(s[5]) && field_agrees(s[6])
            && field_agrees(s[7]) && field_agrees(s[8]));
    }
    reconcile_fields(
        checks.as_slice(),
        "published relay product metadata does not reconcile",
    )
}

/// Check the limit of a query.
pub fn query_limit(limit: u64) -> (outcome: Result<i64>)
    ensures
        1 <= limit <= 1_000 ==> outcome == Ok::<i64, Error>(limit as i64),
        !(1 <= limit <= 1_000) ==> outcome == Err::<i64, Error>(
            Error::Validation("relay distribution limit must be between 1 and 1000"),
        ),
{
    if limit == 0 || limit > 1_000 {
        return Err(Error::Validation("relay distribution limit must be between 1 and 1000"));
    }
    Ok(limit as i64)
}

} // verus!
