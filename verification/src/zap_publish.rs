//! Publication rules of zap participant sketches.

use vstd::prelude::*;
use vstd::string::*;

use crate::calendar::floor_day;
use crate::digest::{encode_hex, hex_text, sha256_text};
use crate::error::{from_i64, Error, Result};
use crate::publication::{
    all_agree, all_fit, columns_error, field_agrees, fields_outcome, reconcile_fields, to_columns,
    FieldCheck, NamedCount,
};
use crate::runs::{product_identity, product_message};
use crate::semantic_build::BoundedSemanticFacts;
use crate::text::{decimal, push_decimal, text_equal};
use crate::zap_distinct::{ZapDistinctLeaf, ZapParticipantRole, ZAP_DISTINCT_VERSION};
use crate::zap_evidence::{
    sketch_bytes, total_sketch_bytes, zap_product_valid, BoundedZapDistinct, ZapDistinctEvidence,
    ZapRevalidation,
};

verus! {

/// Result of publishing one product.
#[derive(Clone, Debug, PartialEq, Eq)]
pub enum ZapDistinctPublishOutcome {
    /// A new versioned product and all daily leaves committed.
    Published {
        /// Identity of the product.
        product_id: String,
    },
    /// An identical committed product reconciled successfully.
    AlreadyPublished {
        /// Identity of the product.
        product_id: String,
    },
}

/// The product is that of the semantic source.
pub open spec fn belongs_to(
    evidence: ZapDistinctEvidence,
    semantic: BoundedSemanticFacts,
) -> bool {
    &&& evidence.status@ == "completed"@
    &&& evidence.snapshot_id@ == semantic.evidence.snapshot_id@
    &&& evidence.as_of_epoch == semantic.evidence.as_of_epoch
    &&& evidence.semantic_evidence_sha256@ == semantic.evidence_sha256@
    &&& evidence.semantic_artifact_sha256@ == semantic.evidence.final_artifact.sha256@
}

/// Revalidate a product against its semantic source for publication.
pub fn validate_zap_distinct_publication(
    semantic: &BoundedSemanticFacts,
    product: &BoundedZapDistinct,
    read: ZapRevalidation,
    sketch_lg_k: u8,
) -> (outcome: Result<()>)
    requires
        read.chunk_checkpoints@.len() == product.evidence.chunk_checkpoints@.len(),
        read.merge_checkpoints@.len() == product.evidence.merge_checkpoints@.len(),
    ensures
        outcome is Ok <==> zap_product_valid(product.evidence, *semantic, read, sketch_lg_k)
            && belongs_to(product.evidence, *semantic),
        outcome is Err ==> if zap_product_valid(product.evidence, *semantic, read, sketch_lg_k) {
            outcome->Err_0 is Validation
        } else {
            outcome->Err_0 is Invalid
        },
{
    match product.validate_for_publication(semantic, read, sketch_lg_k) {
        Ok(()) => {},
        Err(error) => {
            return Err(error);
        },
    }
    let evidence: &ZapDistinctEvidence = &product.evidence;
    if !text_equal(evidence.status.as_str(), "completed") || !text_equal(
        evidence.snapshot_id.as_str(),
        semantic.evidence.snapshot_id.as_str(),
    ) || evidence.as_of_epoch != semantic.evidence.as_of_epoch || !text_equal(
        evidence.semantic_evidence_sha256.as_str(),
        semantic.evidence_sha256.as_str(),
    ) || !text_equal(
        evidence.semantic_artifact_sha256.as_str(),
        semantic.evidence.final_artifact.sha256.as_str(),
    ) {
        return Err(Error::Validation("zap distinct product does not belong to semantic source"));
    }
    Ok(())
}

/// The identity of a published product.
pub fn zap_distinct_product_id(semantic_product_id: &str, product: &BoundedZapDistinct) -> (
    product_id: String)
    ensures
        product_id@ == sha256_text(
            product_message(
                "pensieve-zap-distinct-product-v1"@,
                seq![semantic_product_id@, product.evidence_sha256@],
            ),
        ),
        product_id@.len() == 64,
{
    product_identity(
        "pensieve-zap-distinct-product-v1",
        semantic_product_id,
        product.evidence_sha256.as_str(),
    )
}

/// The semantic product that the sketches are published under.
#[derive(Clone, Debug, PartialEq, Eq)]
pub struct SemanticBaseline {
    /// Run of the semantic product.
    pub run_id: String,
    /// Snapshot of the semantic product.
    pub snapshot_id: String,
    /// Boundary of the semantic product, as stored.
    pub as_of_epoch: i64,
    /// Evidence of the semantic product.
    pub evidence_sha256: String,
    /// Query version of its run.
    pub query_version: String,
}

/// The semantic product against the baseline of the sketches, field by field.
pub open spec fn baseline_fields(
    baseline: SemanticBaseline,
    current_run_id: Seq<char>,
    evidence: ZapDistinctEvidence,
    query_version: Seq<char>,
) -> Seq<FieldCheck> {
    seq![
        FieldCheck::Same(baseline.run_id@ == current_run_id),
        FieldCheck::Same(baseline.snapshot_id@ == evidence.snapshot_id@),
        FieldCheck::Count {
            field: "zap distinct baseline as-of",
            stored: baseline.as_of_epoch,
            owed: evidence.as_of_epoch,
        },
        FieldCheck::Same(baseline.evidence_sha256@ == evidence.semantic_evidence_sha256@),
        FieldCheck::Same(baseline.query_version@ == query_version),
    ]
}

/// Check that the semantic product is the current baseline of the sketches;
/// `query_version` is the version that carries cohorts.
pub fn check_zap_baseline(
    baseline: &SemanticBaseline,
    current_run_id: &str,
    evidence: &ZapDistinctEvidence,
    query_version: &str,
) -> (outcome: Result<()>)
    ensures
        outcome is Ok <==> {
            &&& baseline.run_id@ == current_run_id@
            &&& baseline.snapshot_id@ == evidence.snapshot_id@
            &&& baseline.as_of_epoch == evidence.as_of_epoch
            &&& baseline.evidence_sha256@ == evidence.semantic_evidence_sha256@
            &&& baseline.query_version@ == query_version@
        },
        outcome == fields_outcome(
            baseline_fields(*baseline, current_run_id@, *evidence, query_version@),
            "semantic product is not the exact current baseline",
        ),
{
    let checks: [FieldCheck; 5] = [
        FieldCheck::Same(text_equal(baseline.run_id.as_str(), current_run_id)),
        FieldCheck::Same(text_equal(baseline.snapshot_id.as_str(), evidence.snapshot_id.as_str())),
        FieldCheck::Count {
            field: "zap distinct baseline as-of",
            stored: baseline.as_of_epoch,
            owed: evidence.as_of_epoch,
        },
        FieldCheck::Same(
            text_equal(
                baseline.evidence_sha256.as_str(),
                evidence.semantic_evidence_sha256.as_str(),
            ),
        ),
        FieldCheck::Same(text_equal(baseline.query_version.as_str(), query_version)),
    ];
    proof {
        let s = checks@;
        assert(s =~= baseline_fields(*baseline, current_run_id@, *evidence, query_version@));
        assert(all_agree(s) ==>
            field_agrees(s[0]) && field_agrees(s[1]) && field_agrees(s[2]) && field_agrees(s[3])
            && field_agrees(s[4]));
    }
    reconcile_fields(checks.as_slice(), "semantic product is not the exact current baseline")
}

/// The numeric columns of a published product.
#[derive(Clone, Copy, Debug, PartialEq, Eq, Structural)]
pub struct ZapProductRow {
    /// Exclusive complete-day boundary.
    pub complete_through_epoch: i64,
    /// Participant occurrences.
    pub physical_identities: i64,
    /// Unique identities.
    pub logical_identities: i64,
    /// Duplicates removed.
    pub duplicate_identities: i64,
    /// Leaves.
    pub leaf_rows: i64,
    /// Sketch bytes.
    pub sketch_bytes: i64,
    /// Largest sketch.
    pub max_leaf_bytes: i64,
}

/// Every number of the product fits a signed column.
pub open spec fn columns_fit(evidence: ZapDistinctEvidence) -> bool {
    &&& evidence.as_of_epoch - evidence.as_of_epoch % 86_400 <= i64::MAX
    &&& evidence.physical_identities <= i64::MAX
    &&& evidence.logical_identities <= i64::MAX
    &&& evidence.duplicate_identities <= i64::MAX
    &&& evidence.leaves@.len() <= i64::MAX
    &&& total_sketch_bytes(evidence.leaves@) <= i64::MAX
    &&& evidence.max_leaf_bytes <= i64::MAX
}

/// The counts of a product, by column.
pub open spec fn product_counts(evidence: ZapDistinctEvidence) -> Seq<NamedCount> {
    seq![
        NamedCount { field: "zap distinct complete-through", value: (evidence.as_of_epoch - evidence.as_of_epoch % 86_400) as u64 },
        NamedCount { field: "zap distinct physical identities", value: evidence.physical_identities },
        NamedCount { field: "zap distinct logical identities", value: evidence.logical_identities },
        NamedCount { field: "zap distinct duplicate identities", value: evidence.duplicate_identities },
        NamedCount { field: "zap distinct leaf rows", value: evidence.leaves@.len() as u64 },
        NamedCount { field: "zap distinct sketch bytes", value: total_sketch_bytes(evidence.leaves@) as u64 },
        NamedCount { field: "zap distinct max leaf bytes", value: evidence.max_leaf_bytes as u64 },
    ]
}

/// The columns hold the numbers of the product.
pub open spec fn is_product_row(row: ZapProductRow, evidence: ZapDistinctEvidence) -> bool {
    &&& row.complete_through_epoch == evidence.as_of_epoch - evidence.as_of_epoch
        % 86_400
    &&& row.physical_identities == evidence.physical_identities
    &&& row.logical_identities == evidence.logical_identities
    &&& row.duplicate_identities == evidence.duplicate_identities
    &&& row.leaf_rows == evidence.leaves@.len()
    &&& row.sketch_bytes == total_sketch_bytes(evidence.leaves@)
    &&& row.max_leaf_bytes == evidence.max_leaf_bytes
}

/// The numeric columns of a product.
pub fn zap_product_row(evidence: &ZapDistinctEvidence) -> (outcome: Result<ZapProductRow>)
    ensures
        outcome is Ok <==> columns_fit(*evidence),
        match outcome {
            Ok(row) => is_product_row(row, *evidence),
            Err(error) => error == if total_sketch_bytes(evidence.leaves@) > u64::MAX {
                Error::Validation("zap distinct sketch bytes overflowed")
            } else {
                columns_error(product_counts(*evidence))
            },
        },
{
    let total: u64 = match sketch_bytes(&evidence.leaves) {
        Ok(total) => total,
        Err(error) => {
            return Err(error);
        },
    };
    let counts: [NamedCount; 7] = [
        NamedCount {
            field: "zap distinct complete-through",
            value: floor_day(evidence.as_of_epoch),
        },
        NamedCount {
            field: "zap distinct physical identities",
            value: evidence.physical_identities,
        },
        NamedCount {
            field: "zap distinct logical identities",
            value: evidence.logical_identities,
        },
        NamedCount {
            field: "zap distinct duplicate identities",
            value: evidence.duplicate_identities,
        },
        NamedCount { field: "zap distinct leaf rows", value: evidence.leaves.len() as u64 },
        NamedCount { field: "zap distinct sketch bytes", value: total },
        NamedCount {
            field: "zap distinct max leaf bytes",
            value: evidence.max_leaf_bytes as u64,
        },
    ];
    proof {
        let s = counts@;
        assert(s =~= product_counts(*evidence));
        assert(all_fit(s) ==> s[0].value <= i64::MAX && s[1].value <= i64::MAX && s[2].value
            <= i64::MAX && s[3].value <= i64::MAX && s[4].value <= i64::MAX && s[5].value
            <= i64::MAX && s[6].value <= i64::MAX);
    }
    match to_columns(counts.as_slice()) {
        Ok(columns) => Ok(
            ZapProductRow {
                complete_through_epoch: columns[0],
                physical_identities: columns[1],
                logical_identities: columns[2],
                duplicate_identities: columns[3],
                leaf_rows: columns[4],
                sketch_bytes: columns[5],
                max_leaf_bytes: columns[6],
            },
        ),
        Err(error) => Err(error),
    }
}

/// The column of a role.
pub open spec fn role_column(role: ZapParticipantRole) -> int {
    match role {
        ZapParticipantRole::Sender => 0,
        ZapParticipantRole::Recipient => 1,
    }
}

/// The column of a role.
pub fn role_code(role: ZapParticipantRole) -> (code: i16)
    ensures
        code == role_column(role),
{
    match role {
        ZapParticipantRole::Sender => 0,
        ZapParticipantRole::Recipient => 1,
    }
}

/// The `COPY` line of a leaf.
pub fn zap_leaf_line(product_id: &str, leaf: &ZapDistinctLeaf) -> (line: String)
    ensures
        line@ == product_id@ + ","@ + decimal(leaf.day_epoch as nat) + ","@ + decimal(
            role_column(leaf.role) as nat,
        ) + ","@ + decimal(leaf.exact_identities as nat) + ","@ + decimal(
            leaf.estimated_identities as nat,
        ) + ","@ + decimal(leaf.relative_error_ppm as nat) + ",\\x"@ + hex_text(leaf.sketch@)
            + "\n"@,
{
    let role: u64 = match leaf.role {
        ZapParticipantRole::Sender => 0,
        ZapParticipantRole::Recipient => 1,
    };
    let mut line: String = product_id.to_owned();
    line.append(",");
    push_decimal(&mut line, leaf.day_epoch);
    line.append(",");
    push_decimal(&mut line, role);
    line.append(",");
    push_decimal(&mut line, leaf.exact_identities);
    line.append(",");
    push_decimal(&mut line, leaf.estimated_identities);
    line.append(",");
    push_decimal(&mut line, leaf.relative_error_ppm);
    line.append(",\\x");
    line.append(encode_hex(leaf.sketch.as_slice()).as_str());
    line.append("\n");
    line
}

/// A published product as the ledger holds it.
#[derive(Clone, Debug, PartialEq, Eq)]
pub struct PublishedZapDistinct {
    /// Version of the product.
    pub product_version: String,
    /// Digest of the product evidence.
    pub evidence_sha256: String,
    /// Digest of the identity artifact.
    pub identity_artifact_sha256: String,
    /// Participant occurrences.
    pub physical_identities: i64,
    /// Unique identities.
    pub logical_identities: i64,
    /// Duplicates removed.
    pub duplicate_identities: i64,
    /// Leaves of the metadata.
    pub leaf_rows: i64,
    /// Sketch bytes of the metadata.
    pub sketch_bytes: i64,
    /// Largest sketch of the metadata.
    pub max_leaf_bytes: i64,
    /// Leaves in the table.
    pub table_rows: i64,
    /// Sketch bytes in the table.
    pub table_bytes: i64,
    /// Largest sketch in the table.
    pub table_max_leaf: i64,
    /// Exact identities in the table.
    pub table_identities: i64,
}

/// The published product is the given one.
pub open spec fn published_matches(
    published: PublishedZapDistinct,
    product: BoundedZapDistinct,
) -> bool {
    let evidence = product.evidence;
    let total = total_sketch_bytes(evidence.leaves@);
    &&& published.product_version@ == ZAP_DISTINCT_VERSION@
    &&& published.evidence_sha256@ == product.evidence_sha256@
    &&& published.identity_artifact_sha256@ == evidence.identity_artifact.sha256@
    &&& published.physical_identities == evidence.physical_identities
    &&& published.logical_identities == evidence.logical_identities
    &&& published.duplicate_identities == evidence.duplicate_identities
    &&& published.leaf_rows == evidence.leaves@.len()
    &&& published.sketch_bytes == total
    &&& published.max_leaf_bytes == evidence.max_leaf_bytes
    &&& published.table_rows == evidence.leaves@.len()
    &&& published.table_bytes == total
    &&& published.table_max_leaf == evidence.max_leaf_bytes
    &&& published.table_identities == evidence.logical_identities
}

/// The published product, field by field.
pub open spec fn product_fields(
    published: PublishedZapDistinct,
    product: BoundedZapDistinct,
) -> Seq<FieldCheck> {
    let evidence = product.evidence;
    seq![
        FieldCheck::Same(published.product_version@ == ZAP_DISTINCT_VERSION@),
        FieldCheck::Same(published.evidence_sha256@ == product.evidence_sha256@),
        FieldCheck::Same(published.identity_artifact_sha256@ == evidence.identity_artifact.sha256@),
        FieldCheck::Count {
            field: "published zap physical",
            stored: published.physical_identities,
            owed: evidence.physical_identities,
        },
        FieldCheck::Count {
            field: "published zap logical",
            stored: published.logical_identities,
            owed: evidence.logical_identities,
        },
        FieldCheck::Count {
            field: "published zap duplicates",
            stored: published.duplicate_identities,
            owed: evidence.duplicate_identities,
        },
        FieldCheck::Count {
            field: "published zap leaf metadata",
            stored: published.leaf_rows,
            owed: evidence.leaves@.len() as u64,
        },
        FieldCheck::Count {
            field: "published zap sketch metadata",
            stored: published.sketch_bytes,
            owed: total_sketch_bytes(evidence.leaves@) as u64,
        },
        FieldCheck::Count {
            field: "published zap max metadata",
            stored: published.max_leaf_bytes,
            owed: evidence.max_leaf_bytes as u64,
        },
        FieldCheck::Count {
            field: "published zap leaf rows",
            stored: published.table_rows,
            owed: evidence.leaves@.len() as u64,
        },
        FieldCheck::Count {
            field: "published zap sketch bytes",
            stored: published.table_bytes,
            owed: total_sketch_bytes(evidence.leaves@) as u64,
        },
        FieldCheck::Count {
            field: "published zap max bytes",
            stored: published.table_max_leaf,
            owed: evidence.max_leaf_bytes as u64,
        },
        FieldCheck::Count {
            field: "published zap exact identities",
            stored: published.table_identities,
            owed: evidence.logical_identities,
        },
    ]
}

/// What holding the published product against the given one comes to.
pub open spec fn reconcile_outcome(
    published: PublishedZapDistinct,
    product: BoundedZapDistinct,
) -> Result<()> {
    if total_sketch_bytes(product.evidence.leaves@) > u64::MAX {
        Err(Error::Validation("zap distinct sketch bytes overflowed"))
    } else {
        fields_outcome(
            product_fields(published, product),
            "published zap distinct product does not reconcile",
        )
    }
}

/// Check that the published product is the given one.
pub fn reconcile_zap_product(published: &PublishedZapDistinct, product: &BoundedZapDistinct) -> (
    outcome: Result<()>)
    ensures
        outcome is Ok <==> published_matches(*published, *product),
        outcome == reconcile_outcome(*published, *product),
{
    let evidence: &ZapDistinctEvidence = &product.evidence;
    let total: u64 = match sketch_bytes(&evidence.leaves) {
        Ok(total) => total,
        Err(error) => {
            return Err(error);
        },
    };
    let leaves: u64 = evidence.leaves.len() as u64;
    let largest: u64 = evidence.max_leaf_bytes as u64;
    let checks: [FieldCheck; 13] = [
        FieldCheck::Same(text_equal(published.product_version.as_str(), ZAP_DISTINCT_VERSION)),
        FieldCheck::Same(
            text_equal(
                published.evidence_sha256.as_str(),
                product.evidence_sha256.as_str(),
            ),
        ),
        FieldCheck::Same(
            text_equal(
                published.identity_artifact_sha256.as_str(),
                evidence.identity_artifact.sha256.as_str(),
            ),
        ),
        FieldCheck::Count {
            field: "published zap physical",
            stored: published.physical_identities,
            owed: evidence.physical_identities,
        },
        FieldCheck::Count {
            field: "published zap logical",
            stored: published.logical_identities,
            owed: evidence.logical_identities,
        },
        FieldCheck::Count {
            field: "published zap duplicates",
            stored: published.duplicate_identities,
            owed: evidence.duplicate_identities,
        },
        FieldCheck::Count {
            field: "published zap leaf metadata",
            stored: published.leaf_rows,
            owed: leaves,
        },
        FieldCheck::Count {
            field: "published zap sketch metadata",
            stored: published.sketch_bytes,
            owed: total,
        },
        FieldCheck::Count {
            field: "published zap max metadata",
            stored: published.max_leaf_bytes,
            owed: largest,
        },
        FieldCheck::Count {
            field: "published zap leaf rows",
            stored: published.table_rows,
            owed: leaves,
        },
        FieldCheck::Count {
            field: "published zap sketch bytes",
            stored: published.table_bytes,
            owed: total,
        },
        FieldCheck::Count {
            field: "published zap max bytes",
            stored: published.table_max_leaf,
            owed: largest,
        },
        FieldCheck::Count {
            field: "published zap exact identities",
            stored: published.table_identities,
            owed: evidence.logical_identities,
        },
    ];
    proof {
        let s = checks@;
        assert(s =~= product_fields(*published, *product));
        assert(all_agree(s) ==>
            field_agrees(s[0]) && field_agrees(s[1]) && field_agrees(s[2]) && field_agrees(s[3])
            && field_agrees(s[4]) && field_agrees(s[5]) && field_agrees(s[6])
            && field_agrees(s[7]) && field_agrees(s[8]) && field_agrees(s[9])
            && field_agrees(s[10]) && field_agrees(s[11]) && field_agrees(s[12]));
    }
    reconcile_fields(
        checks.as_slice(),
        "published zap distinct product does not reconcile",
    )
}

/// The window covers complete days of the published product.
pub open spec fn published_window_fits(since: int, until: int, complete_through: int) -> bool {
    &&& since % 86_400 == 0
    &&& until % 86_400 == 0
    &&& since < until <= complete_through
}

/// Check a window of a published product.
pub fn validate_window(since: u64, until: u64, complete_through: u64) -> (outcome: Result<()>)
    ensures
        outcome is Ok <==> published_window_fits(
            since as int,
            until as int,
            complete_through as int,
        ),
        outcome is Err ==> outcome == Err::<(), Error>(
            Error::Validation(
                "zap distinct window must be non-empty, complete, and UTC-day aligned",
            ),
        ),
{
    if since % 86_400 != 0 || until % 86_400 != 0 || since >= until || until > complete_through {
        return Err(
            Error::Validation(
                "zap distinct window must be non-empty, complete, and UTC-day aligned",
            ),
        );
    }
    Ok(())
}

/// The columns that select the leaves of a published window.
#[derive(Clone, Copy, Debug, PartialEq, Eq, Structural)]
pub struct PublishedZapWindow {
    /// Inclusive start.
    pub since_epoch: i64,
    /// Exclusive end.
    pub until_epoch: i64,
    /// Role.
    pub role: i16,
}

/// Check a window against the stored boundary and turn it into columns.
pub fn published_zap_window(
    complete_through_epoch: i64,
    since_epoch: u64,
    until_epoch: u64,
    role: ZapParticipantRole,
) -> (outcome: Result<PublishedZapWindow>)
    ensures
        outcome is Ok <==> complete_through_epoch >= 0 && published_window_fits(
            since_epoch as int,
            until_epoch as int,
            complete_through_epoch as int,
        ),
        match outcome {
            Ok(window) => {
                &&& window.since_epoch == since_epoch
                &&& window.until_epoch == until_epoch
                &&& window.role == role_column(role)
            },
            Err(error) => error == if complete_through_epoch < 0 {
                Error::NegativeLedgerValue {
                    field: "zap distinct complete-through",
                    value: complete_through_epoch,
                }
            } else {
                Error::Validation(
                    "zap distinct window must be non-empty, complete, and UTC-day aligned",
                )
            },
        },
{
    let complete_through: u64 = match from_i64(
        "zap distinct complete-through",
        complete_through_epoch,
    ) {
        Ok(value) => value,
        Err(error) => {
            return Err(error);
        },
    };
    match validate_window(since_epoch, until_epoch, complete_through) {
        Ok(()) => Ok(
            PublishedZapWindow {
                since_epoch: since_epoch as i64,
                until_epoch: until_epoch as i64,
                role: role_code(role),
            },
        ),
        Err(error) => Err(error),
    }
}

} // verus!
