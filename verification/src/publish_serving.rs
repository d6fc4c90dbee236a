//! The publication of serving facts beside the current run.

use vstd::prelude::*;
use vstd::string::*;

use crate::digest::sha256_text;
use crate::error::Result;
use crate::ledger::{ledger_callable, Ledger, LedgerReply, LedgerRequest};
use crate::publish_side::{publish_alone, publishes_alone, ProductOutcome, SideItem, SideRun};
use crate::publish_tables::texts;
use crate::publisher_publish::kind_column_text;
use crate::runs::product_message;
use crate::serving_compact::TimestampBounds;
use crate::serving_facts::{
    product_valid, read_serving_hourly_rows, read_serving_kind_rows, BoundedServingFacts,
    ServingArtifacts,
};
use crate::serving_publish::{
    hourly_columns_hold, hourly_line, kind_columns_hold, kind_line, CurrentServingRun,
    HourlyColumns, KindColumns, PublishedServing, ServingFactsPublishOutcome,
};
use crate::serving_records::{ServingHourlyRow, ServingKindRow};
use crate::serving_tables::{encodes_hourly, hourly_artifact, reads_kinds};
use crate::text::decimal;

verus! {

/// The line of an hour.
pub open spec fn hour_text(product_id: Seq<char>, row: ServingHourlyRow) -> Seq<char> {
    product_id + ","@ + decimal(row.hour_epoch as nat) + ","@ + kind_column_text(row.kind) + ","@
        + decimal(row.event_count as nat) + "\n"@
}

/// The lines of the table.
pub open spec fn hour_texts(product_id: Seq<char>, rows: Seq<ServingHourlyRow>) -> Seq<Seq<char>> {
    Seq::new(rows.len(), |i: int| hour_text(product_id, rows[i]))
}

/// The lines of the table.
pub(crate) fn hour_lines(product_id: &str, rows: &Vec<ServingHourlyRow>) -> (lines: Vec<String>)
    ensures
        texts(lines@) == hour_texts(product_id@, rows@),
{
    let mut lines: Vec<String> = Vec::new();
    let mut i: usize = 0;
    while i < rows.len()
        invariant
            i <= rows@.len(),
            lines@.len() == i,
            forall|j: int|
                0 <= j < i ==> (#[trigger] lines@[j])@ == hour_text(product_id@, rows@[j]),
        decreases rows.len() - i,
    {
        lines.push(hourly_line(product_id, &rows[i]));
        i += 1;
    }
    assert(texts(lines@) =~= hour_texts(product_id@, rows@));
    lines
}

/// The line of a kind.
pub open spec fn kind_text(product_id: Seq<char>, row: ServingKindRow) -> Seq<char> {
    product_id + ","@ + decimal(row.kind as nat) + ","@ + decimal(row.event_count as nat) + ","@
        + decimal(row.unique_pubkeys as nat) + ","@ + decimal(row.first_seen as nat) + ","@ + decimal(
        row.last_seen as nat,
    ) + ","@ + decimal(row.content_bytes as nat) + ","@ + decimal(row.content_rows as nat) + "\n"@
}

/// The lines of the table.
pub open spec fn kind_texts(product_id: Seq<char>, rows: Seq<ServingKindRow>) -> Seq<Seq<char>> {
    Seq::new(rows.len(), |i: int| kind_text(product_id, rows[i]))
}

/// The lines of the table.
pub(crate) fn kind_lines(product_id: &str, rows: &Vec<ServingKindRow>) -> (lines: Vec<String>)
    ensures
        texts(lines@) == kind_texts(product_id@, rows@),
{
    let mut lines: Vec<String> = Vec::new();
    let mut i: usize = 0;
    while i < rows.len()
        invariant
            i <= rows@.len(),
            lines@.len() == i,
            forall|j: int|
                0 <= j < i ==> (#[trigger] lines@[j])@ == kind_text(product_id@, rows@[j]),
        decreases rows.len() - i,
    {
        lines.push(kind_line(product_id, &rows[i]));
        i += 1;
    }
    assert(texts(lines@) =~= kind_texts(product_id@, rows@));
    lines
}

/// What is stored of serving facts.
pub struct StoredServing {
    /// The product.
    pub metadata: PublishedServing,
    /// Its hours.
    pub hours: Vec<HourlyColumns>,
    /// Its kinds.
    pub kinds: Vec<KindColumns>,
}

/// The columns hold the hours.
pub open spec fn hours_hold(columns: Seq<HourlyColumns>, rows: Seq<ServingHourlyRow>) -> bool {
    &&& columns.len() == rows.len()
    &&& forall|i: int| 0 <= i < rows.len() ==> #[trigger] hourly_columns_hold(columns[i], rows[i])
}

/// The columns hold the kinds.
pub open spec fn kinds_hold(columns: Seq<KindColumns>, rows: Seq<ServingKindRow>) -> bool {
    &&& columns.len() == rows.len()
    &&& forall|i: int| 0 <= i < rows.len() ==> #[trigger] kind_columns_hold(columns[i], rows[i])
}

/// The outcome as that of any product.
pub open spec fn as_product(outcome: Result<ServingFactsPublishOutcome>) -> Result<ProductOutcome> {
    match outcome {
        Ok(ServingFactsPublishOutcome::Published { product_id }) => Ok(
            ProductOutcome::Published { product_id },
        ),
        Ok(ServingFactsPublishOutcome::AlreadyPublished { product_id }) => Ok(
            ProductOutcome::AlreadyPublished { product_id },
        ),
        Err(error) => Err(error),
    }
}

/// The outcome of any product as this one's.
fn own_outcome(outcome: Result<ProductOutcome>) -> (own: Result<ServingFactsPublishOutcome>)
    ensures
        as_product(own) == outcome,
{
    match outcome {
        Ok(ProductOutcome::Published { product_id }) => Ok(
            ServingFactsPublishOutcome::Published { product_id },
        ),
        Ok(ProductOutcome::AlreadyPublished { product_id }) => Ok(
            ServingFactsPublishOutcome::AlreadyPublished { product_id },
        ),
        Err(error) => Err(error),
    }
}

/// The identity of the product of a run.
pub open spec fn product_of(run_id: Seq<char>, product: BoundedServingFacts) -> Seq<char> {
    sha256_text(
        product_message(
            "pensieve-serving-facts-product-v1"@,
            seq![run_id, product.evidence_sha256@],
        ),
    )
}

/// The current run is the product's exact baseline.
pub open spec fn is_current(
    current: CurrentServingRun,
    run_id: Seq<char>,
    product: BoundedServingFacts,
) -> bool {
    &&& current.run_id@ == run_id
    &&& current.snapshot_id@ == product.evidence.snapshot_id@
    &&& current.as_of_epoch == product.evidence.as_of_epoch
    &&& current.activity_evidence_sha256 is Some
    &&& current.activity_evidence_sha256->0@ == product.evidence.activity_evidence_sha256@
}

/// The artifacts hold as many hours and kinds as the product names.
pub open spec fn rows_readable(product: BoundedServingFacts, artifacts: ServingArtifacts) -> bool {
    &&& hourly_artifact(
        artifacts.hourly@,
        product.evidence.hourly_artifact.row_count as int,
    )
    &&& exists|rows: Seq<ServingKindRow>| #[trigger]
        reads_kinds(artifacts.kinds@, rows) && rows.len()
            == product.evidence.kind_artifact.row_count
}

/// The artifacts hold the hours and the kinds.
pub open spec fn artifacts_hold(
    artifacts: ServingArtifacts,
    hours: Seq<ServingHourlyRow>,
    kinds: Seq<ServingKindRow>,
) -> bool {
    encodes_hourly(artifacts.hourly@, hours) && reads_kinds(artifacts.kinds@, kinds)
}

/// Publish serving facts beside the current run.
pub fn publish_serving_facts<
    X,
    B: FnOnce() -> Result<X>,
    F: Fn(X, &LedgerRequest) -> (X, Result<LedgerReply>),
    K: Fn(X) -> Result<()>,
    R: Fn(X),
>(
    run_id: &str,
    product: &BoundedServingFacts,
    artifacts: &ServingArtifacts,
    bounds: TimestampBounds,
    begin: B,
    ledger: &Ledger<F, K, R>,
) -> (outcome: Result<ServingFactsPublishOutcome>)
    requires
        call_requires(begin, ()),
        ledger_callable::<X, F, K, R>(*ledger),
    ensures
        if product_valid(product.evidence, *artifacts, bounds) && rows_readable(
            *product,
            *artifacts,
        ) {
            exists|
                hours: Vec<ServingHourlyRow>,
                kinds: Vec<ServingKindRow>,
                run: SideRun<X>,
            | #[trigger]
                publishes_alone(
                    begin,
                    *ledger,
                    SideItem::Serving(product, &hours, &kinds),
                    run_id@,
                    ""@,
                    run,
                    as_product(outcome),
                ) && artifacts_hold(*artifacts, hours@, kinds@)
        } else {
            outcome is Err && outcome->Err_0 is Invalid
        },
{
    match product.validate_for_publication(
        product.evidence.snapshot_id.as_str(),
        product.evidence.as_of_epoch,
        product.evidence.activity_evidence_sha256.as_str(),
        artifacts,
        bounds,
    ) {
        Ok(()) => {},
        Err(error) => {
            return Err(error);
        },
    }
    let hours: Vec<ServingHourlyRow> = match read_serving_hourly_rows(product, artifacts.hourly) {
        Ok(rows) => rows,
        Err(error) => {
            return Err(error);
        },
    };
    let kinds: Vec<ServingKindRow> = match read_serving_kind_rows(product, artifacts.kinds) {
        Ok(rows) => rows,
        Err(error) => {
            return Err(error);
        },
    };
    assert(artifacts_hold(*artifacts, hours@, kinds@));
    assert(rows_readable(*product, *artifacts));
    let (outcome, Ghost(run)) = publish_alone(
        begin,
        ledger,
        &SideItem::Serving(product, &hours, &kinds),
        run_id,
        "",
    );
    let own: Result<ServingFactsPublishOutcome> = own_outcome(outcome);
    assert(publishes_alone(
        begin,
        *ledger,
        SideItem::Serving(product, &hours, &kinds),
        run_id@,
        ""@,
        run,
        as_product(own),
    ));
    own
}

} // verus!
