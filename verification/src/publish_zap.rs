//! The publication of zap participants beside their semantic product.

use vstd::prelude::*;
use vstd::string::*;

use crate::digest::{hex_text, sha256_text};
use crate::error::Result;
use crate::ledger::{ledger_callable, Ledger, LedgerReply, LedgerRequest};
use crate::publish_side::{publish_alone, publishes_alone, ProductOutcome, SideItem, SideRun};
use crate::publish_tables::texts;
use crate::runs::product_message;
use crate::semantic_build::BoundedSemanticFacts;
use crate::text::decimal;
use crate::zap_distinct::ZapDistinctLeaf;
use crate::zap_evidence::{zap_product_valid, BoundedZapDistinct, ZapRevalidation};
use crate::zap_publish::{
    belongs_to, role_column, validate_zap_distinct_publication, zap_leaf_line, SemanticBaseline,
    ZapDistinctPublishOutcome,
};

verus! {

/// The line of a leaf.
pub open spec fn leaf_text(product_id: Seq<char>, row: ZapDistinctLeaf) -> Seq<char> {
    product_id + ","@ + decimal(row.day_epoch as nat) + ","@ + decimal(
        role_column(row.role) as nat,
    ) + ","@ + decimal(row.exact_identities as nat) + ","@ + decimal(row.estimated_identities as nat)
        + ","@ + decimal(row.relative_error_ppm as nat) + ",\\x"@ + hex_text(row.sketch@) + "\n"@
}

/// The lines of the table.
pub open spec fn leaf_texts(product_id: Seq<char>, rows: Seq<ZapDistinctLeaf>) -> Seq<Seq<char>> {
    Seq::new(rows.len(), |i: int| leaf_text(product_id, rows[i]))
}

/// The lines of the table.
pub(crate) fn leaf_lines(product_id: &str, rows: &Vec<ZapDistinctLeaf>) -> (lines: Vec<String>)
    ensures
        texts(lines@) == leaf_texts(product_id@, rows@),
{
    let mut lines: Vec<String> = Vec::new();
    let mut i: usize = 0;
    while i < rows.len()
        invariant
            i <= rows@.len(),
            lines@.len() == i,
            forall|j: int|
                0 <= j < i ==> (#[trigger] lines@[j])@ == leaf_text(product_id@, rows@[j]),
        decreases rows.len() - i,
    {
        lines.push(zap_leaf_line(product_id, &rows[i]));
        i += 1;
    }
    assert(texts(lines@) =~= leaf_texts(product_id@, rows@));
    lines
}

/// The outcome as that of any product.
pub open spec fn as_product(outcome: Result<ZapDistinctPublishOutcome>) -> Result<ProductOutcome> {
    match outcome {
        Ok(ZapDistinctPublishOutcome::Published { product_id }) => Ok(
            ProductOutcome::Published { product_id },
        ),
        Ok(ZapDistinctPublishOutcome::AlreadyPublished { product_id }) => Ok(
            ProductOutcome::AlreadyPublished { product_id },
        ),
        Err(error) => Err(error),
    }
}

/// The outcome of any product as this one's.
fn own_outcome(outcome: Result<ProductOutcome>) -> (own: Result<ZapDistinctPublishOutcome>)
    ensures
        as_product(own) == outcome,
{
    match outcome {
        Ok(ProductOutcome::Published { product_id }) => Ok(
            ZapDistinctPublishOutcome::Published { product_id },
        ),
        Ok(ProductOutcome::AlreadyPublished { product_id }) => Ok(
            ZapDistinctPublishOutcome::AlreadyPublished { product_id },
        ),
        Err(error) => Err(error),
    }
}

/// The identity of the participants of a semantic product.
pub open spec fn product_of(
    semantic_product_id: Seq<char>,
    product: BoundedZapDistinct,
) -> Seq<char> {
    sha256_text(
        product_message(
            "pensieve-zap-distinct-product-v1"@,
            seq![semantic_product_id, product.evidence_sha256@],
        ),
    )
}

/// The semantic product is the exact current baseline.
pub open spec fn is_current(
    baseline: SemanticBaseline,
    current_run_id: Seq<char>,
    product: BoundedZapDistinct,
    query_version: Seq<char>,
) -> bool {
    &&& baseline.run_id@ == current_run_id
    &&& baseline.snapshot_id@ == product.evidence.snapshot_id@
    &&& baseline.as_of_epoch == product.evidence.as_of_epoch
    &&& baseline.evidence_sha256@ == product.evidence.semantic_evidence_sha256@
    &&& baseline.query_version@ == query_version
}

/// Publish the participants of a semantic product.
pub fn publish_zap_distinct<
    X,
    B: FnOnce() -> Result<X>,
    F: Fn(X, &LedgerRequest) -> (X, Result<LedgerReply>),
    K: Fn(X) -> Result<()>,
    R: Fn(X),
>(
    semantic_product_id: &str,
    semantic: &BoundedSemanticFacts,
    product: &BoundedZapDistinct,
    read: ZapRevalidation,
    sketch_lg_k: u8,
    query_version: &str,
    begin: B,
    ledger: &Ledger<F, K, R>,
) -> (outcome: Result<ZapDistinctPublishOutcome>)
    requires
        read.chunk_checkpoints@.len() == product.evidence.chunk_checkpoints@.len(),
        read.merge_checkpoints@.len() == product.evidence.merge_checkpoints@.len(),
        call_requires(begin, ()),
        ledger_callable::<X, F, K, R>(*ledger),
    ensures
        if zap_product_valid(product.evidence, *semantic, read, sketch_lg_k) && belongs_to(
            product.evidence,
            *semantic,
        ) {
            exists|run: SideRun<X>| #[trigger]
                publishes_alone(
                    begin,
                    *ledger,
                    SideItem::Zap(product),
                    semantic_product_id@,
                    query_version@,
                    run,
                    as_product(outcome),
                )
        } else {
            outcome is Err && (outcome->Err_0 is Validation || outcome->Err_0 is Invalid)
        },
{
    match validate_zap_distinct_publication(semantic, product, read, sketch_lg_k) {
        Ok(()) => {},
        Err(error) => {
            return Err(error);
        },
    }
    let (outcome, Ghost(run)) = publish_alone(
        begin,
        ledger,
        &SideItem::Zap(product),
        semantic_product_id,
        query_version,
    );
    let own: Result<ZapDistinctPublishOutcome> = own_outcome(outcome);
    assert(publishes_alone(
        begin,
        *ledger,
        SideItem::Zap(product),
        semantic_product_id@,
        query_version@,
        run,
        as_product(own),
    ));
    own
}

} // verus!
