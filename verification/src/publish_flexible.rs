//! The publication of flexible distinct leaves beside the current run.

use vstd::prelude::*;
use vstd::string::*;

use crate::digest::{hex_text, sha256_text};
use crate::error::Result;
use crate::flexible_distinct::{
    completed_for, product_valid, BoundedFlexibleDistinct, FlexibleRevalidation,
    FLEXIBLE_DISTINCT_VERSION,
};
use crate::flexible_publish::{
    leaf_line, passes_gate, validate_flexible_distinct_publication, FlexibleDistinctPublishOutcome,
    ValidatedFlexibleDistinctPublication,
};
use crate::flexible_validation::FlexibleDistinctValidationEvidence;
use crate::flexible_windows::read_flexible_distinct_leaves;
use crate::leaf_stream::{holds_leaves, leaf_views, FlexibleLeaf};
use crate::ledger::{ledger_callable, Ledger, LedgerReply, LedgerRequest};
use crate::publish_side::{publish_alone, publishes_alone, ProductOutcome, SideItem, SideRun};
use crate::publish_tables::texts;
use crate::runs::product_message;
use crate::text::decimal;

verus! {

/// The line of a leaf.
pub open spec fn leaf_text(product_id: Seq<char>, row: FlexibleLeaf) -> Seq<char> {
    product_id + ","@ + decimal((row.hour * 3_600) as nat) + ","@ + decimal(row.kind as nat)
        + ",\\x"@ + hex_text(row.sketch@) + "\n"@
}

/// The lines of the table.
pub open spec fn leaf_texts(product_id: Seq<char>, rows: Seq<FlexibleLeaf>) -> Seq<Seq<char>> {
    Seq::new(rows.len(), |i: int| leaf_text(product_id, rows[i]))
}

/// The lines of the table.
pub(crate) fn leaf_lines(product_id: &str, rows: &Vec<FlexibleLeaf>) -> (lines: Vec<String>)
    ensures
        texts(lines@) == leaf_texts(product_id@, rows@),
{
    let mut lines: Vec<String> = Vec::new();
    let mut i: usize = 0;
    while i < rows.len()
        invariant
            i <= rows@.len(),
            lines@.len() == i,
            forall|j: int|
                0 <= j < i ==> (#[trigger] lines@[j])@ == leaf_text(product_id@, rows@[j]),
        decreases rows.len() - i,
    {
        lines.push(leaf_line(product_id, &rows[i]));
        i += 1;
    }
    assert(texts(lines@) =~= leaf_texts(product_id@, rows@));
    lines
}

/// The outcome as that of any product.
pub open spec fn as_product(
    outcome: Result<FlexibleDistinctPublishOutcome>,
) -> Result<ProductOutcome> {
    match outcome {
        Ok(FlexibleDistinctPublishOutcome::Published { product_id }) => Ok(
            ProductOutcome::Published { product_id },
        ),
        Ok(FlexibleDistinctPublishOutcome::AlreadyPublished { product_id }) => Ok(
            ProductOutcome::AlreadyPublished { product_id },
        ),
        Err(error) => Err(error),
    }
}

/// The outcome of any product as this one's.
fn own_outcome(outcome: Result<ProductOutcome>) -> (own: Result<FlexibleDistinctPublishOutcome>)
    ensures
        as_product(own) == outcome,
{
    match outcome {
        Ok(ProductOutcome::Published { product_id }) => Ok(
            FlexibleDistinctPublishOutcome::Published { product_id },
        ),
        Ok(ProductOutcome::AlreadyPublished { product_id }) => Ok(
            FlexibleDistinctPublishOutcome::AlreadyPublished { product_id },
        ),
        Err(error) => Err(error),
    }
}

/// The identity of the product of a run.
pub open spec fn product_of(
    run_id: Seq<char>,
    product: BoundedFlexibleDistinct,
    validation_sha256: Seq<char>,
) -> Seq<char> {
    sha256_text(
        product_message(
            run_id,
            seq![FLEXIBLE_DISTINCT_VERSION@, product.evidence_sha256@, validation_sha256],
        ),
    )
}

/// The product is valid, and its tolerance evidence is a matching passed gate.
pub open spec fn publishable(
    product: BoundedFlexibleDistinct,
    read: FlexibleRevalidation,
    validation: FlexibleDistinctValidationEvidence,
    validation_json: Seq<u8>,
    expected_validation_sha256: Seq<char>,
) -> bool {
    &&& completed_for(
        product.evidence,
        product.evidence.snapshot_id@,
        product.evidence.as_of_epoch,
    )
    &&& product_valid(product.evidence, read)
    &&& sha256_text(validation_json) == expected_validation_sha256
    &&& passes_gate(product, validation)
}

/// The leaf stream holds as many leaves as the product names.
pub open spec fn leaves_readable(product: BoundedFlexibleDistinct, leaf_bytes: Seq<u8>) -> bool {
    exists|leaves: Seq<(u32, u16, Seq<u8>)>| #[trigger]
        holds_leaves(leaf_bytes, leaves) && leaves.len()
            == product.evidence.leaf_artifact.row_count
}

/// Publish flexible distinct leaves beside the current run.
pub fn publish_flexible_distinct_leaves<
    X,
    B: FnOnce() -> Result<X>,
    F: Fn(X, &LedgerRequest) -> (X, Result<LedgerReply>),
    K: Fn(X) -> Result<()>,
    R: Fn(X),
>(
    run_id: &str,
    product: &BoundedFlexibleDistinct,
    read: &FlexibleRevalidation,
    validation: &FlexibleDistinctValidationEvidence,
    validation_json: &[u8],
    expected_validation_sha256: &str,
    query_version: &str,
    begin: B,
    ledger: &Ledger<F, K, R>,
) -> (outcome: Result<FlexibleDistinctPublishOutcome>)
    requires
        call_requires(begin, ()),
        ledger_callable::<X, F, K, R>(*ledger),
    ensures
        if publishable(
            *product,
            *read,
            *validation,
            validation_json@,
            expected_validation_sha256@,
        ) && leaves_readable(*product, read.leaves@) {
            exists|
                leaves: Vec<FlexibleLeaf>,
                validated: ValidatedFlexibleDistinctPublication,
                run: SideRun<X>,
            | #[trigger]
                publishes_alone(
                    begin,
                    *ledger,
                    SideItem::Flexible(product, &leaves, &validated),
                    run_id@,
                    query_version@,
                    run,
                    as_product(outcome),
                ) && holds_leaves(read.leaves@, leaf_views(leaves@)) && validated.validation_sha256@
                    == expected_validation_sha256@
        } else {
            outcome is Err && (outcome->Err_0 is Validation || outcome->Err_0 is Invalid)
        },
{
    let validated: ValidatedFlexibleDistinctPublication =
        match validate_flexible_distinct_publication(
        product,
        read,
        validation,
        validation_json,
        expected_validation_sha256,
    ) {
        Ok(validated) => validated,
        Err(error) => {
            return Err(error);
        },
    };
    let leaves: Vec<FlexibleLeaf> = match read_flexible_distinct_leaves(product, read.leaves) {
        Ok(leaves) => leaves,
        Err(error) => {
            return Err(error);
        },
    };
    assert(leaf_views(leaves@).len() == leaves@.len());
    assert(leaves_readable(*product, read.leaves@));
    let (outcome, Ghost(run)) = publish_alone(
        begin,
        ledger,
        &SideItem::Flexible(product, &leaves, &validated),
        run_id,
        query_version,
    );
    let own: Result<FlexibleDistinctPublishOutcome> = own_outcome(outcome);
    assert(publishes_alone(
        begin,
        *ledger,
        SideItem::Flexible(product, &leaves, &validated),
        run_id@,
        query_version@,
        run,
        as_product(own),
    ));
    own
}

} // verus!
