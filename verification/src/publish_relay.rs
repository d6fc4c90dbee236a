//! The publication of a relay distribution beside the current run.

use vstd::prelude::*;
use vstd::string::*;

use crate::digest::sha256_text;
use crate::error::Result;
use crate::ledger::{ledger_callable, Ledger, LedgerReply, LedgerRequest};
use crate::publish_side::{publish_alone, publishes_alone, ProductOutcome, SideItem, SideRun};
use crate::publish_tables::texts;
use crate::relay_build::BoundedRelayDistribution;
use crate::relay_distribution::RelayDistributionRow;
use crate::relay_publish::{
    doubled_quotes, publishable, relay_line, validate_relay_distribution_publication,
    PublishedRelay, RelayColumns, RelayDistributionPublishOutcome,
};
use crate::runs::product_message;
use crate::text::decimal;

verus! {

/// The line of a relay.
pub open spec fn relay_text(product_id: Seq<char>, row: RelayDistributionRow) -> Seq<char> {
    product_id + ","@ + ("\""@ + doubled_quotes(row.relay_url@) + "\""@) + ","@ + decimal(
        row.user_count as nat,
    ) + ","@ + decimal(row.read_count as nat) + ","@ + decimal(row.write_count as nat) + "\n"@
}

/// The lines of the table.
pub open spec fn relay_texts(
    product_id: Seq<char>,
    rows: Seq<RelayDistributionRow>,
) -> Seq<Seq<char>> {
    Seq::new(rows.len(), |i: int| relay_text(product_id, rows[i]))
}

/// The lines of the table.
pub(crate) fn relay_lines(
    product_id: &str,
    rows: &Vec<RelayDistributionRow>,
) -> (lines: Vec<String>)
    ensures
        texts(lines@) == relay_texts(product_id@, rows@),
{
    let mut lines: Vec<String> = Vec::new();
    let mut i: usize = 0;
    while i < rows.len()
        invariant
            i <= rows@.len(),
            lines@.len() == i,
            forall|j: int|
                0 <= j < i ==> (#[trigger] lines@[j])@ == relay_text(product_id@, rows@[j]),
        decreases rows.len() - i,
    {
        lines.push(relay_line(product_id, &rows[i]));
        i += 1;
    }
    assert(texts(lines@) =~= relay_texts(product_id@, rows@));
    lines
}

/// What is stored of a relay distribution.
pub struct StoredRelays {
    /// The product.
    pub metadata: PublishedRelay,
    /// Its rows.
    pub rows: Vec<RelayColumns>,
}

/// The outcome as that of any product.
pub open spec fn as_product(
    outcome: Result<RelayDistributionPublishOutcome>,
) -> Result<ProductOutcome> {
    match outcome {
        Ok(RelayDistributionPublishOutcome::Published { product_id }) => Ok(
            ProductOutcome::Published { product_id },
        ),
        Ok(RelayDistributionPublishOutcome::AlreadyPublished { product_id }) => Ok(
            ProductOutcome::AlreadyPublished { product_id },
        ),
        Err(error) => Err(error),
    }
}

/// The outcome of any product as this one's.
fn own_outcome(outcome: Result<ProductOutcome>) -> (own: Result<RelayDistributionPublishOutcome>)
    ensures
        as_product(own) == outcome,
{
    match outcome {
        Ok(ProductOutcome::Published { product_id }) => Ok(
            RelayDistributionPublishOutcome::Published { product_id },
        ),
        Ok(ProductOutcome::AlreadyPublished { product_id }) => Ok(
            RelayDistributionPublishOutcome::AlreadyPublished { product_id },
        ),
        Err(error) => Err(error),
    }
}

/// The identity of the product of a run.
pub open spec fn product_of(run_id: Seq<char>, product: BoundedRelayDistribution) -> Seq<char> {
    sha256_text(
        product_message(
            "pensieve-relay-distribution-product-v1"@,
            seq![run_id, product.evidence_sha256@],
        ),
    )
}

/// Publish a relay distribution beside the current run.
pub fn publish_relay_distribution<
    X,
    B: FnOnce() -> Result<X>,
    F: Fn(X, &LedgerRequest) -> (X, Result<LedgerReply>),
    K: Fn(X) -> Result<()>,
    R: Fn(X),
>(
    run_id: &str,
    product: &BoundedRelayDistribution,
    rows_json: &[u8],
    query_version: &str,
    begin: B,
    ledger: &Ledger<F, K, R>,
) -> (outcome: Result<RelayDistributionPublishOutcome>)
    requires
        call_requires(begin, ()),
        ledger_callable::<X, F, K, R>(*ledger),
    ensures
        if publishable(product.evidence, rows_json@) {
            exists|run: SideRun<X>| #[trigger]
                publishes_alone(
                    begin,
                    *ledger,
                    SideItem::Relay(product),
                    run_id@,
                    query_version@,
                    run,
                    as_product(outcome),
                )
        } else {
            outcome is Err && outcome->Err_0 is Validation
        },
{
    match validate_relay_distribution_publication(product, rows_json) {
        Ok(()) => {},
        Err(error) => {
            return Err(error);
        },
    }
    let (outcome, Ghost(run)) = publish_alone(
        begin,
        ledger,
        &SideItem::Relay(product),
        run_id,
        query_version,
    );
    let own: Result<RelayDistributionPublishOutcome> = own_outcome(outcome);
    assert(publishes_alone(
        begin,
        *ledger,
        SideItem::Relay(product),
        run_id@,
        query_version@,
        run,
        as_product(own),
    ));
    own
}

} // verus!
