//! The publication of a publisher ranking beside the current run.

use vstd::prelude::*;
use vstd::string::*;

use crate::digest::{hex_text, sha256_text};
use crate::error::Result;
use crate::ledger::{ledger_callable, Ledger, LedgerReply, LedgerRequest};
use crate::publish_side::{publish_alone, publishes_alone, ProductOutcome, SideItem, SideRun};
use crate::publish_tables::texts;
use crate::publisher_artifact::{holds_ranking, ranking_artifact};
use crate::publisher_ledger::PublisherRankingRow;
use crate::publisher_product::{
    BoundedPublisherRanking, EVIDENCE_SCHEMA_VERSION, PUBLISHER_RANKING_VERSION, RUNNER_VERSION,
};
use crate::publisher_publish::{
    kind_column_text, ranking_line, validate_publisher_ranking_publication, CurrentRankingRun,
    PublishedRanking, PublisherRankingPublishOutcome,
};
use crate::publisher_state::{columns_hold, read_publisher_ranking_rows, LedgerColumns};
use crate::runs::product_message;
use crate::text::decimal;

verus! {

/// The line of a ranked publisher.
pub open spec fn ranking_text(product_id: Seq<char>, row: PublisherRankingRow) -> Seq<char> {
    product_id + ","@ + decimal(row.days as nat) + ","@ + kind_column_text(row.kind) + ",\\x"@
        + hex_text(row.pubkey@) + ","@ + decimal(row.event_count as nat) + ","@ + decimal(
        row.kinds_count as nat,
    ) + ","@ + decimal(row.first_event as nat) + ","@ + decimal(row.last_event as nat) + "\n"@
}

/// The lines of the table.
pub open spec fn ranking_texts(
    product_id: Seq<char>,
    rows: Seq<PublisherRankingRow>,
) -> Seq<Seq<char>> {
    Seq::new(rows.len(), |i: int| ranking_text(product_id, rows[i]))
}

/// The lines of the table.
pub(crate) fn ranking_lines(
    product_id: &str,
    rows: &Vec<PublisherRankingRow>,
) -> (lines: Vec<String>)
    ensures
        texts(lines@) == ranking_texts(product_id@, rows@),
{
    let mut lines: Vec<String> = Vec::new();
    let mut i: usize = 0;
    while i < rows.len()
        invariant
            i <= rows@.len(),
            lines@.len() == i,
            forall|j: int|
                0 <= j < i ==> (#[trigger] lines@[j])@ == ranking_text(product_id@, rows@[j]),
        decreases rows.len() - i,
    {
        lines.push(ranking_line(product_id, &rows[i]));
        i += 1;
    }
    assert(texts(lines@) =~= ranking_texts(product_id@, rows@));
    lines
}

/// What is stored of a ranking.
pub struct StoredRanking {
    /// The product.
    pub metadata: PublishedRanking,
    /// Its rows.
    pub rows: Vec<LedgerColumns>,
}

/// The columns hold the rows.
pub open spec fn rows_hold(columns: Seq<LedgerColumns>, rows: Seq<PublisherRankingRow>) -> bool {
    &&& columns.len() == rows.len()
    &&& forall|i: int| 0 <= i < rows.len() ==> #[trigger] columns_hold(columns[i], rows[i])
}

/// The outcome as that of any product.
pub open spec fn as_product(
    outcome: Result<PublisherRankingPublishOutcome>,
) -> Result<ProductOutcome> {
    match outcome {
        Ok(PublisherRankingPublishOutcome::Published { product_id }) => Ok(
            ProductOutcome::Published { product_id },
        ),
        Ok(PublisherRankingPublishOutcome::AlreadyPublished { product_id }) => Ok(
            ProductOutcome::AlreadyPublished { product_id },
        ),
        Err(error) => Err(error),
    }
}

/// The outcome of any product as this one's.
fn own_outcome(outcome: Result<ProductOutcome>) -> (own: Result<PublisherRankingPublishOutcome>)
    ensures
        as_product(own) == outcome,
{
    match outcome {
        Ok(ProductOutcome::Published { product_id }) => Ok(
            PublisherRankingPublishOutcome::Published { product_id },
        ),
        Ok(ProductOutcome::AlreadyPublished { product_id }) => Ok(
            PublisherRankingPublishOutcome::AlreadyPublished { product_id },
        ),
        Err(error) => Err(error),
    }
}

/// The identity of the product of a run.
pub open spec fn product_of(run_id: Seq<char>, product: BoundedPublisherRanking) -> Seq<char> {
    sha256_text(
        product_message(
            "pensieve-publisher-ranking-product-v1"@,
            seq![run_id, product.evidence_sha256@],
        ),
    )
}

/// The ranking is complete, and the artifact is the one that it names.
pub open spec fn publishable(product: BoundedPublisherRanking, artifact: Seq<u8>) -> bool {
    &&& product.evidence.schema_version == EVIDENCE_SCHEMA_VERSION
    &&& product.evidence.runner_version@ == RUNNER_VERSION@
    &&& product.evidence.status@ == "completed"@
    &&& product.evidence.product_version@ == PUBLISHER_RANKING_VERSION@
    &&& product.evidence.ranking_artifact.sha256@ == sha256_text(artifact)
    &&& ranking_artifact(artifact, product.evidence.ranking_artifact.row_count as int)
}

/// The current run is the ranking's exact baseline.
pub open spec fn is_current(
    current: CurrentRankingRun,
    run_id: Seq<char>,
    product: BoundedPublisherRanking,
) -> bool {
    &&& current.run_id@ == run_id
    &&& current.snapshot_id@ == product.evidence.snapshot_id@
    &&& current.as_of_epoch == product.evidence.as_of_epoch
    &&& current.activity_evidence_sha256 is Some
    &&& current.activity_evidence_sha256->0@ == product.evidence.activity_evidence_sha256@
}

/// Publish a ranking beside the current run.
pub fn publish_publisher_ranking<
    X,
    B: FnOnce() -> Result<X>,
    F: Fn(X, &LedgerRequest) -> (X, Result<LedgerReply>),
    K: Fn(X) -> Result<()>,
    R: Fn(X),
>(
    run_id: &str,
    product: &BoundedPublisherRanking,
    artifact: &[u8],
    begin: B,
    ledger: &Ledger<F, K, R>,
) -> (outcome: Result<PublisherRankingPublishOutcome>)
    requires
        call_requires(begin, ()),
        ledger_callable::<X, F, K, R>(*ledger),
    ensures
        if publishable(*product, artifact@) {
            exists|rows: Vec<PublisherRankingRow>, run: SideRun<X>| #[trigger]
                publishes_alone(
                    begin,
                    *ledger,
                    SideItem::Ranking(product, &rows),
                    run_id@,
                    ""@,
                    run,
                    as_product(outcome),
                ) && holds_ranking(artifact@, rows@)
        } else {
            outcome is Err && (outcome->Err_0 is Validation || outcome->Err_0 is Invalid)
        },
{
    match validate_publisher_ranking_publication(product, artifact) {
        Ok(()) => {},
        Err(error) => {
            return Err(error);
        },
    }
    let rows: Vec<PublisherRankingRow> = match read_publisher_ranking_rows(product, artifact) {
        Ok(rows) => rows,
        Err(error) => {
            return Err(error);
        },
    };
    let (outcome, Ghost(run)) = publish_alone(
        begin,
        ledger,
        &SideItem::Ranking(product, &rows),
        run_id,
        "",
    );
    let own: Result<PublisherRankingPublishOutcome> = own_outcome(outcome);
    assert(publishes_alone(
        begin,
        *ledger,
        SideItem::Ranking(product, &rows),
        run_id@,
        ""@,
        run,
        as_product(own),
    ));
    own
}

} // verus!
