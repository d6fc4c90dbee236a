//! Publication rules of flexible distinct leaves.
//!
//! A published product is bound to the exact current run and never moves it.

use vstd::prelude::*;
use vstd::string::*;

use crate::digest::{encode_hex, hex_text, is_sha256, is_sha256_text, sha256_hex, sha256_text};
use crate::error::{saturating_product, to_i64, Error, Result};
use crate::flexible_build::smaller;
use crate::flexible_distinct::{
    completed_for, product_valid, BoundedFlexibleDistinct, FlexibleDistinctEvidence,
    FlexibleRevalidation, FLEXIBLE_DISTINCT_VERSION,
};
use crate::flexible_validation::{
    all_accepted, largest_relative, summarize_samples, FlexibleDistinctValidationEvidence,
    FlexibleDistinctValidationSample, FLEXIBLE_DISTINCT_TOLERANCE_PPM,
    FLEXIBLE_DISTINCT_VALIDATION_RUNNER,
};
use crate::leaf_stream::FlexibleLeaf;
use crate::publication::{
    all_agree, baseline_error, check_baseline, field_agrees, is_baseline, reconcile_totals,
    totals_outcome, CurrentRun, FieldCheck,
};
use crate::runs::{digest_parts, product_message, text_views};
use crate::text::{decimal, push_decimal, text_equal};

verus! {

/// Result of publishing one product.
#[derive(Clone, Debug, PartialEq, Eq)]
pub enum FlexibleDistinctPublishOutcome {
    /// A new versioned product and all of its leaves committed.
    Published {
        /// Identity of the product.
        product_id: String,
    },
    /// An identical previously committed product reconciled successfully.
    AlreadyPublished {
        /// Identity of the product.
        product_id: String,
    },
}

/// Fully checked tolerance evidence ready for one publication.
pub struct ValidatedFlexibleDistinctPublication {
    /// Digest of the tolerance evidence.
    pub validation_sha256: String,
}

/// The samples agree with the totals of the evidence, and all are accepted.
pub open spec fn samples_match(validation: FlexibleDistinctValidationEvidence) -> bool {
    &&& validation.sample_count == validation.samples@.len()
    &&& all_accepted(validation.samples@)
    &&& forall|i: int|
        0 <= i < validation.samples@.len() ==> (
        #[trigger] validation.samples@[i]).relative_error_ppm <= validation.tolerance_ppm
    &&& validation.max_relative_error_ppm == largest_relative(validation.samples@)
}

/// The tolerance evidence is a passed gate of the product.
pub open spec fn passes_gate(
    product: BoundedFlexibleDistinct,
    validation: FlexibleDistinctValidationEvidence,
) -> bool {
    &&& validation.schema_version == 1
    &&& validation.runner_version@ == FLEXIBLE_DISTINCT_VALIDATION_RUNNER@
    &&& validation.status@ == "passed"@
    &&& validation.snapshot_id@ == product.evidence.snapshot_id@
    &&& validation.as_of_epoch == product.evidence.as_of_epoch
    &&& validation.complete_through_epoch == product.evidence.complete_through_epoch
    &&& is_sha256_text(validation.activity_evidence_sha256@)
    &&& validation.flexible_evidence_sha256@ == product.evidence_sha256@
    &&& validation.tolerance_ppm <= FLEXIBLE_DISTINCT_TOLERANCE_PPM
    &&& validation.max_relative_error_ppm <= validation.tolerance_ppm
    &&& samples_match(validation)
}

/// No sample exceeds the largest relative error.
proof fn lemma_largest_covers(samples: Seq<FlexibleDistinctValidationSample>, i: int)
    requires
        0 <= i < samples.len(),
    ensures
        samples[i].relative_error_ppm <= largest_relative(samples),
    decreases samples.len(),
{
    if i < samples.len() - 1 {
        lemma_largest_covers(samples.drop_last(), i);
    }
}

/// Check that the tolerance evidence is a passed gate of the product.
pub fn validate_tolerance_evidence(
    product: &BoundedFlexibleDistinct,
    validation: &FlexibleDistinctValidationEvidence,
) -> (outcome: Result<()>)
    ensures
        outcome is Ok <==> passes_gate(*product, *validation),
        outcome is Err ==> outcome == Err::<(), Error>(
            Error::Validation("flexible-distinct tolerance evidence is not a matching passed gate"),
        ),
{
    let summary: (u64, u64, bool) = summarize_samples(&validation.samples);
    proof {
        assert forall|i: int| 0 <= i < validation.samples@.len() implies (
        #[trigger] validation.samples@[i]).relative_error_ppm <= summary.0 by {
            lemma_largest_covers(validation.samples@, i);
        }
    }
    if validation.schema_version != 1 || !text_equal(
        validation.runner_version.as_str(),
        FLEXIBLE_DISTINCT_VALIDATION_RUNNER,
    ) || !text_equal(validation.status.as_str(), "passed") || !text_equal(
        validation.snapshot_id.as_str(),
        product.evidence.snapshot_id.as_str(),
    ) || validation.as_of_epoch != product.evidence.as_of_epoch
        || validation.complete_through_epoch != product.evidence.complete_through_epoch
        || !is_sha256(validation.activity_evidence_sha256.as_str()) || !text_equal(
        validation.flexible_evidence_sha256.as_str(),
        product.evidence_sha256.as_str(),
    ) || validation.tolerance_ppm > FLEXIBLE_DISTINCT_TOLERANCE_PPM
        || validation.max_relative_error_ppm > validation.tolerance_ppm
        || validation.sample_count != validation.samples.len() as u64 || !summary.2
        || validation.max_relative_error_ppm != summary.0 {
        return Err(
            Error::Validation("flexible-distinct tolerance evidence is not a matching passed gate"),
        );
    }
    Ok(())
}

/// Revalidate a product and its authorized tolerance evidence for publication.
///
/// `validation_json` holds the bytes that `validation` was decoded from.
pub fn validate_flexible_distinct_publication(
    product: &BoundedFlexibleDistinct,
    read: &FlexibleRevalidation,
    validation: &FlexibleDistinctValidationEvidence,
    validation_json: &[u8],
    expected_validation_sha256: &str,
) -> (outcome: Result<ValidatedFlexibleDistinctPublication>)
    ensures
        outcome is Ok <==> {
            &&& completed_for(
                product.evidence,
                product.evidence.snapshot_id@,
                product.evidence.as_of_epoch,
            )
            &&& product_valid(product.evidence, *read)
            &&& sha256_text(validation_json@) == expected_validation_sha256@
            &&& passes_gate(*product, *validation)
        },
        match outcome {
            Ok(validated) => validated.validation_sha256@ == expected_validation_sha256@,
            Err(error) => if completed_for(
                product.evidence,
                product.evidence.snapshot_id@,
                product.evidence.as_of_epoch,
            ) && product_valid(product.evidence, *read) {
                error is Validation
            } else {
                error is Invalid
            },
        },
{
    match product.validate_for_publication(
        product.evidence.snapshot_id.as_str(),
        product.evidence.as_of_epoch,
        read,
    ) {
        Ok(()) => {},
        Err(error) => {
            return Err(error);
        },
    }
    let validation_sha256: String = sha256_hex(validation_json);
    if !text_equal(validation_sha256.as_str(), expected_validation_sha256) {
        return Err(
            Error::Validation(
                "flexible-distinct validation evidence SHA-256 differs from the authorized gate",
            ),
        );
    }
    match validate_tolerance_evidence(product, validation) {
        Ok(()) => Ok(ValidatedFlexibleDistinctPublication { validation_sha256 }),
        Err(error) => Err(error),
    }
}

/// Check that the current run is the baseline of the product; `query_version`
/// is the version that carries cohorts.
pub fn check_flexible_baseline(
    current: &CurrentRun,
    baseline_run_id: &str,
    product: &BoundedFlexibleDistinct,
    query_version: &str,
) -> (outcome: Result<()>)
    ensures
        outcome is Ok <==> is_baseline(
            *current,
            baseline_run_id@,
            product.evidence.snapshot_id@,
            query_version@,
            product.evidence.as_of_epoch,
        ),
        outcome is Err ==> outcome->Err_0 == baseline_error(
            *current,
            baseline_run_id@,
            product.evidence.snapshot_id@,
            query_version@,
            product.evidence.as_of_epoch,
            "flexible as_of_epoch",
            "current Postgres run is not the exact baseline of the flexible product",
        ),
{
    check_baseline(
        current,
        baseline_run_id,
        product.evidence.snapshot_id.as_str(),
        query_version,
        product.evidence.as_of_epoch,
        "flexible as_of_epoch",
        "current Postgres run is not the exact baseline of the flexible product",
    )
}

/// The identity of a published product.
pub fn flexible_product_id(
    baseline_run_id: &str,
    product: &BoundedFlexibleDistinct,
    validation_sha256: &str,
) -> (product_id: String)
    ensures
        product_id@ == sha256_text(
            product_message(
                baseline_run_id@,
                seq![
                    FLEXIBLE_DISTINCT_VERSION@,
                    product.evidence_sha256@,
                    validation_sha256@,
                ],
            ),
        ),
        product_id@.len() == 64,
{
    let parts: [&str; 3] = [
        FLEXIBLE_DISTINCT_VERSION,
        product.evidence_sha256.as_str(),
        validation_sha256,
    ];
    proof {
        assert(text_views(parts@) =~= seq![
            FLEXIBLE_DISTINCT_VERSION@,
            product.evidence_sha256@,
            validation_sha256@,
        ]);
    }
    digest_parts(baseline_run_id, parts.as_slice())
}

/// Sketch bytes of a leaf artifact: its size without the heads of the leaves.
pub open spec fn sketch_total(evidence: FlexibleDistinctEvidence) -> int {
    evidence.leaf_artifact.byte_size - smaller(
        evidence.leaf_artifact.row_count * 10,
        u64::MAX as int,
    )
}

/// Sketch bytes of a leaf artifact.
pub fn sketch_bytes(evidence: &FlexibleDistinctEvidence) -> (bytes: Result<u64>)
    ensures
        sketch_total(*evidence) >= 0 ==> bytes == Ok::<u64, Error>(sketch_total(*evidence) as u64),
        sketch_total(*evidence) < 0 ==> bytes == Err::<u64, Error>(
            Error::Validation("flexible leaf byte accounting underflow"),
        ),
{
    let heads: u64 = saturating_product(evidence.leaf_artifact.row_count, 10);
    if evidence.leaf_artifact.byte_size < heads {
        return Err(Error::Validation("flexible leaf byte accounting underflow"));
    }
    Ok(evidence.leaf_artifact.byte_size - heads)
}

/// The metadata row of a published product.
#[derive(Clone, Debug, PartialEq, Eq)]
pub struct FlexibleProductRow {
    /// Identity of the product.
    pub product_id: String,
    /// Run that the product belongs to.
    pub run_id: String,
    /// Frozen catalog identity.
    pub snapshot_id: String,
    /// Analytics boundary.
    pub as_of_epoch: i64,
    /// Exclusive complete-hour boundary.
    pub complete_through_epoch: i64,
    /// Version of the product.
    pub product_version: String,
    /// Digest of the product evidence.
    pub evidence_sha256: String,
    /// Digest of the tolerance evidence.
    pub validation_evidence_sha256: String,
    /// Digest of the leaf artifact.
    pub leaf_artifact_sha256: String,
    /// Number of leaves.
    pub leaf_rows: i64,
    /// Sketch bytes of all leaves.
    pub sketch_bytes: i64,
    /// Largest sketch.
    pub max_leaf_bytes: i64,
}

/// Every count of the product fits a signed column.
pub open spec fn columns_fit(evidence: FlexibleDistinctEvidence) -> bool {
    &&& sketch_total(evidence) >= 0
    &&& evidence.as_of_epoch <= i64::MAX
    &&& evidence.complete_through_epoch <= i64::MAX
    &&& evidence.leaf_artifact.row_count <= i64::MAX
    &&& sketch_total(evidence) <= i64::MAX
    &&& evidence.max_leaf_bytes <= i64::MAX
}

/// The columns hold the product of the run.
pub open spec fn is_product_row(
    row: FlexibleProductRow,
    run_id: Seq<char>,
    product: BoundedFlexibleDistinct,
    validation_sha256: Seq<char>,
) -> bool {
    &&& row.product_id@ == sha256_text(
        product_message(
            run_id,
            seq![
                FLEXIBLE_DISTINCT_VERSION@,
                product.evidence_sha256@,
                validation_sha256,
            ],
        ),
    )
    &&& row.run_id@ == run_id
    &&& row.snapshot_id == product.evidence.snapshot_id
    &&& row.as_of_epoch == product.evidence.as_of_epoch
    &&& row.complete_through_epoch == product.evidence.complete_through_epoch
    &&& row.product_version@ == FLEXIBLE_DISTINCT_VERSION@
    &&& row.evidence_sha256 == product.evidence_sha256
    &&& row.validation_evidence_sha256@ == validation_sha256
    &&& row.leaf_artifact_sha256 == product.evidence.leaf_artifact.sha256
    &&& row.leaf_rows == product.evidence.leaf_artifact.row_count
    &&& row.sketch_bytes == sketch_total(product.evidence)
    &&& row.max_leaf_bytes == product.evidence.max_leaf_bytes
}

/// The metadata row of a product.
pub fn flexible_product_row(
    baseline_run_id: &str,
    product: &BoundedFlexibleDistinct,
    validated: &ValidatedFlexibleDistinctPublication,
) -> (outcome: Result<FlexibleProductRow>)
    ensures
        outcome is Ok <==> columns_fit(product.evidence),
        match outcome {
            Ok(row) => is_product_row(
                row,
                baseline_run_id@,
                *product,
                validated.validation_sha256@,
            ),
            Err(error) => if sketch_total(product.evidence) < 0 {
                error == Error::Validation("flexible leaf byte accounting underflow")
            } else {
                error is NumericOverflow
            },
        },
{
    let total: u64 = match sketch_bytes(&product.evidence) {
        Ok(total) => total,
        Err(error) => {
            return Err(error);
        },
    };
    let as_of_epoch: i64 = match to_i64("flexible as_of_epoch", product.evidence.as_of_epoch) {
        Ok(value) => value,
        Err(error) => {
            return Err(error);
        },
    };
    let complete_through_epoch: i64 = match to_i64(
        "flexible complete_through_epoch",
        product.evidence.complete_through_epoch,
    ) {
        Ok(value) => value,
        Err(error) => {
            return Err(error);
        },
    };
    let leaf_rows: i64 = match to_i64(
        "flexible leaf rows",
        product.evidence.leaf_artifact.row_count,
    ) {
        Ok(value) => value,
        Err(error) => {
            return Err(error);
        },
    };
    let sketch_bytes: i64 = match to_i64("flexible sketch bytes", total) {
        Ok(value) => value,
        Err(error) => {
            return Err(error);
        },
    };
    let max_leaf_bytes: i64 = match to_i64(
        "flexible max leaf bytes",
        product.evidence.max_leaf_bytes as u64,
    ) {
        Ok(value) => value,
        Err(error) => {
            return Err(error);
        },
    };
    Ok(
        FlexibleProductRow {
            product_id: flexible_product_id(
                baseline_run_id,
                product,
                validated.validation_sha256.as_str(),
            ),
            run_id: baseline_run_id.to_owned(),
            snapshot_id: product.evidence.snapshot_id.clone(),
            as_of_epoch,
            complete_through_epoch,
            product_version: FLEXIBLE_DISTINCT_VERSION.to_owned(),
            evidence_sha256: product.evidence_sha256.clone(),
            validation_evidence_sha256: validated.validation_sha256.clone(),
            leaf_artifact_sha256: product.evidence.leaf_artifact.sha256.clone(),
            leaf_rows,
            sketch_bytes,
            max_leaf_bytes,
        },
    )
}

/// The `COPY` line of a leaf: its hour in epoch seconds, its kind, and its
/// sketch in hexadecimal.
pub fn leaf_line(product_id: &str, leaf: &FlexibleLeaf) -> (line: String)
    ensures
        line@ == product_id@ + ","@ + decimal((leaf.hour * 3_600) as nat) + ","@ + decimal(
            leaf.kind as nat,
        ) + ",\\x"@ + hex_text(leaf.sketch@) + "\n"@,
{
    let mut line: String = product_id.to_owned();
    line.append(",");
    push_decimal(&mut line, leaf.hour as u64 * 3_600);
    line.append(",");
    push_decimal(&mut line, leaf.kind as u64);
    line.append(",\\x");
    line.append(encode_hex(leaf.sketch.as_slice()).as_str());
    line.append("\n");
    line
}

/// A published product as the ledger holds it.
#[derive(Clone, Debug, PartialEq, Eq)]
pub struct PublishedFlexible {
    /// Frozen catalog identity.
    pub snapshot_id: String,
    /// Analytics boundary.
    pub as_of_epoch: i64,
    /// Exclusive complete-hour boundary.
    pub complete_through_epoch: i64,
    /// Version of the product.
    pub product_version: String,
    /// Digest of the product evidence.
    pub evidence_sha256: String,
    /// Digest of the leaf artifact.
    pub leaf_artifact_sha256: String,
    /// Leaves of the metadata.
    pub leaf_rows: i64,
    /// Sketch bytes of the metadata.
    pub sketch_bytes: i64,
    /// Largest sketch of the metadata.
    pub max_leaf_bytes: i64,
    /// Leaves in the table.
    pub table_rows: i64,
    /// Sketch bytes in the table.
    pub table_bytes: i64,
    /// Largest sketch in the table.
    pub table_max_leaf: i64,
}

/// The published product is the given one.
pub open spec fn published_matches(
    published: PublishedFlexible,
    product: BoundedFlexibleDistinct,
) -> bool {
    &&& sketch_total(product.evidence) >= 0
    &&& published.snapshot_id@ == product.evidence.snapshot_id@
    &&& published.as_of_epoch == product.evidence.as_of_epoch
    &&& published.complete_through_epoch == product.evidence.complete_through_epoch
    &&& published.product_version@ == FLEXIBLE_DISTINCT_VERSION@
    &&& published.evidence_sha256@ == product.evidence_sha256@
    &&& published.leaf_artifact_sha256@ == product.evidence.leaf_artifact.sha256@
    &&& published.leaf_rows == product.evidence.leaf_artifact.row_count
    &&& published.sketch_bytes == sketch_total(product.evidence)
    &&& published.max_leaf_bytes == product.evidence.max_leaf_bytes
    &&& published.table_rows == product.evidence.leaf_artifact.row_count
    &&& published.table_bytes == sketch_total(product.evidence)
    &&& published.table_max_leaf == product.evidence.max_leaf_bytes
}

/// The stored counts of a product and those that are owed, in order.
pub open spec fn product_fields(
    published: PublishedFlexible,
    product: BoundedFlexibleDistinct,
) -> Seq<FieldCheck> {
    seq![
        FieldCheck::Count {
            field: "published flexible as-of",
            stored: published.as_of_epoch,
            owed: product.evidence.as_of_epoch,
        },
        FieldCheck::Count {
            field: "published flexible complete-through",
            stored: published.complete_through_epoch,
            owed: product.evidence.complete_through_epoch,
        },
        FieldCheck::Count {
            field: "published flexible metadata rows",
            stored: published.leaf_rows,
            owed: product.evidence.leaf_artifact.row_count,
        },
        FieldCheck::Count {
            field: "published flexible metadata bytes",
            stored: published.sketch_bytes,
            owed: sketch_total(product.evidence) as u64,
        },
        FieldCheck::Count {
            field: "published flexible metadata max leaf",
            stored: published.max_leaf_bytes,
            owed: product.evidence.max_leaf_bytes as u64,
        },
        FieldCheck::Count {
            field: "published flexible leaf rows",
            stored: published.table_rows,
            owed: product.evidence.leaf_artifact.row_count,
        },
        FieldCheck::Count {
            field: "published flexible leaf bytes",
            stored: published.table_bytes,
            owed: sketch_total(product.evidence) as u64,
        },
        FieldCheck::Count {
            field: "published flexible max leaf",
            stored: published.table_max_leaf,
            owed: product.evidence.max_leaf_bytes as u64,
        },
    ]
}

/// What holding the published product against the given one comes to.
pub open spec fn reconcile_outcome(
    published: PublishedFlexible,
    product: BoundedFlexibleDistinct,
) -> Result<()> {
    let message = "published flexible-distinct product does not reconcile to immutable evidence";
    if sketch_total(product.evidence) < 0 {
        Err(Error::Validation("flexible leaf byte accounting underflow"))
    } else if published.snapshot_id@ != product.evidence.snapshot_id@
        || published.product_version@ != FLEXIBLE_DISTINCT_VERSION@ || published.evidence_sha256@
        != product.evidence_sha256@ || published.leaf_artifact_sha256@
        != product.evidence.leaf_artifact.sha256@ {
        Err(Error::Validation(message))
    } else {
        totals_outcome(product_fields(published, product), message)
    }
}

/// Check that the published product is the given one.
pub fn reconcile_flexible_product(
    published: &PublishedFlexible,
    product: &BoundedFlexibleDistinct,
) -> (outcome: Result<()>)
    ensures
        outcome is Ok <==> published_matches(*published, *product),
        outcome == reconcile_outcome(*published, *product),
{
    let total: u64 = match sketch_bytes(&product.evidence) {
        Ok(total) => total,
        Err(error) => {
            return Err(error);
        },
    };
    let message: &'static str =
        "published flexible-distinct product does not reconcile to immutable evidence";
    if !text_equal(published.snapshot_id.as_str(), product.evidence.snapshot_id.as_str())
        || !text_equal(published.product_version.as_str(), FLEXIBLE_DISTINCT_VERSION)
        || !text_equal(published.evidence_sha256.as_str(), product.evidence_sha256.as_str())
        || !text_equal(
        published.leaf_artifact_sha256.as_str(),
        product.evidence.leaf_artifact.sha256.as_str(),
    ) {
        return Err(Error::Validation(message));
    }
    let rows: u64 = product.evidence.leaf_artifact.row_count;
    let largest: u64 = product.evidence.max_leaf_bytes as u64;
    let counts: [FieldCheck; 8] = [
        FieldCheck::Count {
            field: "published flexible as-of",
            stored: published.as_of_epoch,
            owed: product.evidence.as_of_epoch,
        },
        FieldCheck::Count {
            field: "published flexible complete-through",
            stored: published.complete_through_epoch,
            owed: product.evidence.complete_through_epoch,
        },
        FieldCheck::Count {
            field: "published flexible metadata rows",
            stored: published.leaf_rows,
            owed: rows,
        },
        FieldCheck::Count {
            field: "published flexible metadata bytes",
            stored: published.sketch_bytes,
            owed: total,
        },
        FieldCheck::Count {
            field: "published flexible metadata max leaf",
            stored: published.max_leaf_bytes,
            owed: largest,
        },
        FieldCheck::Count {
            field: "published flexible leaf rows",
            stored: published.table_rows,
            owed: rows,
        },
        FieldCheck::Count {
            field: "published flexible leaf bytes",
            stored: published.table_bytes,
            owed: total,
        },
        FieldCheck::Count {
            field: "published flexible max leaf",
            stored: published.table_max_leaf,
            owed: largest,
        },
    ];
    proof {
        assert(counts@ =~= product_fields(*published, *product));
        let s = counts@;
        assert(all_agree(s) ==> {
            &&& field_agrees(s[0])
            &&& field_agrees(s[1])
            &&& field_agrees(s[2])
            &&& field_agrees(s[3])
            &&& field_agrees(s[4])
            &&& field_agrees(s[5])
            &&& field_agrees(s[6])
            &&& field_agrees(s[7])
        });
    }
    reconcile_totals(counts.as_slice(), message)
}

/// The window covers complete hours of the published product.
pub open spec fn published_window_fits(since: int, until: int, complete_through: int) -> bool {
    &&& since % 3_600 == 0
    &&& until % 3_600 == 0
    &&& since <= until <= complete_through
}

/// Check a window of a published product.
pub fn validate_window(since: u64, until: u64, complete_through: u64) -> (outcome: Result<()>)
    ensures
        outcome is Ok <==> published_window_fits(
            since as int,
            until as int,
            complete_through as int,
        ),
        outcome is Err ==> outcome == Err::<(), Error>(
            Error::Validation(
                "published flexible distinct window is not a valid complete-hour interval",
            ),
        ),
{
    if since % 3_600 != 0 || until % 3_600 != 0 || since > until || until > complete_through {
        return Err(
            Error::Validation(
                "published flexible distinct window is not a valid complete-hour interval",
            ),
        );
    }
    Ok(())
}

/// The bounds and the kind that select the leaves of a published window.
#[derive(Clone, Copy, Debug, PartialEq, Eq, Structural)]
pub struct PublishedWindow {
    /// Inclusive start.
    pub since_epoch: i64,
    /// Exclusive end.
    pub until_epoch: i64,
    /// Kind restriction.
    pub kind: Option<i32>,
}

/// Check a window against the stored boundary and turn it into columns.
pub fn published_window(
    complete_through_epoch: i64,
    since_epoch: u64,
    until_epoch: u64,
    kind: Option<u16>,
) -> (outcome: Result<PublishedWindow>)
    ensures
        outcome is Ok <==> complete_through_epoch >= 0 && published_window_fits(
            since_epoch as int,
            until_epoch as int,
            complete_through_epoch as int,
        ),
        match outcome {
            Ok(window) => {
                &&& window.since_epoch == since_epoch
                &&& window.until_epoch == until_epoch
                &&& match kind {
                    None => window.kind is None,
                    Some(kind) => window.kind == Some(kind as i32),
                }
            },
            Err(error) => error is Validation,
        },
{
    if complete_through_epoch < 0 {
        return Err(Error::Validation("published complete-through is negative"));
    }
    match validate_window(since_epoch, until_epoch, complete_through_epoch as u64) {
        Ok(()) => {},
        Err(error) => {
            return Err(error);
        },
    }
    let kind: Option<i32> = match kind {
        None => None,
        Some(kind) => Some(kind as i32),
    };
    Ok(PublishedWindow { since_epoch: since_epoch as i64, until_epoch: until_epoch as i64, kind })
}

} // verus!
