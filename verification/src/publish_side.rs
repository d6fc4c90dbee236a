//! The publication of one product inside of a transaction.
//!
//! A product that is stored already is held against what is stored; any other
//! is written in full and then held against what was written.

use vstd::prelude::*;
use vstd::string::*;

use crate::error::{Error, Result};
use crate::flexible_distinct::BoundedFlexibleDistinct;
use crate::flexible_publish::{
    check_flexible_baseline, flexible_product_id, flexible_product_row, reconcile_flexible_product,
    ValidatedFlexibleDistinctPublication,
};
use crate::leaf_stream::FlexibleLeaf;
use crate::ledger::{
    answered, answers, ask_one, asked, asks, begins, changes, drop_changes, ends, is_owed,
    ledger_callable, lemma_begins, lemma_join, make_changes, Ask, Change, Ended, Exchange, Ledger,
    LedgerReply, LedgerRequest, LedgerRun, Owed, SideProduct, SideRow, SideStored, SideTable,
};
use crate::publication::{
    baseline_error, columns_error, fields_outcome, is_baseline, run_fields, CurrentRun,
};
use crate::publish_ranking::rows_hold;
use crate::publish_semantic::{lists_days, SemanticDays};
use crate::publish_serving::{hours_hold, kinds_hold};
use crate::publish_tables::texts;
use crate::publisher_ledger::PublisherRankingRow;
use crate::publisher_product::BoundedPublisherRanking;
use crate::publisher_publish::{
    check_publisher_baseline, publisher_product_id, publisher_product_row, CurrentRankingRun,
};
use crate::relay_build::BoundedRelayDistribution;
use crate::relay_publish::{check_relay_baseline, relay_product_id, relay_product_row};
use crate::semantic_build::BoundedSemanticFacts;
use crate::semantic_publish::{
    check_semantic_baseline, reconcile_semantic_product, semantic_product_id, semantic_product_row,
};
use crate::serving_facts::BoundedServingFacts;
use crate::serving_publish::{
    check_serving_baseline, reconcile_hourly, reconcile_kinds, serving_product_id,
    serving_product_row, CurrentServingRun,
};
use crate::serving_records::{ServingHourlyRow, ServingKindRow};
use crate::steps::leads;
use crate::zap_evidence::{total_sketch_bytes, BoundedZapDistinct};
use crate::zap_publish::{
    check_zap_baseline, reconcile_zap_product, zap_distinct_product_id, zap_product_row,
};

verus! {

/// Result of publishing a product.
#[derive(Clone, Debug, PartialEq, Eq)]
pub enum ProductOutcome {
    /// A new product and all of its rows committed.
    Published {
        /// Identity of the product.
        product_id: String,
    },
    /// An identical committed product reconciled.
    AlreadyPublished {
        /// Identity of the product.
        product_id: String,
    },
}

/// A validated product with the rows that are published of it.
pub enum SideItem<'a> {
    /// Flexible distinct leaves.
    Flexible(
        &'a BoundedFlexibleDistinct,
        &'a Vec<FlexibleLeaf>,
        &'a ValidatedFlexibleDistinctPublication,
    ),
    /// Semantic rollups.
    Semantic(&'a BoundedSemanticFacts, &'a SemanticDays),
    /// Participants of the semantic zaps.
    Zap(&'a BoundedZapDistinct),
    /// The relay distribution.
    Relay(&'a BoundedRelayDistribution),
    /// The publisher ranking.
    Ranking(&'a BoundedPublisherRanking, &'a Vec<PublisherRankingRow>),
    /// Serving facts.
    Serving(&'a BoundedServingFacts, &'a Vec<ServingHourlyRow>, &'a Vec<ServingKindRow>),
}

/// Which product the item is.
pub open spec fn side_of(item: SideItem) -> SideProduct {
    match item {
        SideItem::Flexible(_, _, _) => SideProduct::Flexible,
        SideItem::Semantic(_, _) => SideProduct::Semantic,
        SideItem::Zap(_) => SideProduct::Zap,
        SideItem::Relay(_) => SideProduct::Relay,
        SideItem::Ranking(_, _) => SideProduct::Ranking,
        SideItem::Serving(_, _, _) => SideProduct::Serving,
    }
}

/// The identity of the product that belongs to `parent`.
pub open spec fn id_of(item: SideItem, parent: Seq<char>) -> Seq<char> {
    match item {
        SideItem::Flexible(product, _, validated) => crate::publish_flexible::product_of(
            parent,
            *product,
            validated.validation_sha256@,
        ),
        SideItem::Semantic(product, _) => crate::publish_semantic::product_of(parent, *product),
        SideItem::Zap(product) => crate::publish_zap::product_of(parent, *product),
        SideItem::Relay(product) => crate::publish_relay::product_of(parent, *product),
        SideItem::Ranking(product, _) => crate::publish_ranking::product_of(parent, *product),
        SideItem::Serving(product, _, _) => crate::publish_serving::product_of(parent, *product),
    }
}

/// `row` holds the numbers of the product.
pub open spec fn row_is(item: SideItem, parent: Seq<char>, row: SideRow) -> bool {
    match item {
        SideItem::Flexible(product, _, validated) => row matches SideRow::Flexible(row)
            && crate::flexible_publish::is_product_row(
            row,
            parent,
            *product,
            validated.validation_sha256@,
        ),
        SideItem::Semantic(product, _) => row matches SideRow::Semantic(row)
            && crate::semantic_publish::is_product_row(row, product.evidence),
        SideItem::Zap(product) => row matches SideRow::Zap(row)
            && crate::zap_publish::is_product_row(row, product.evidence),
        SideItem::Relay(product) => row matches SideRow::Relay(row)
            && crate::relay_publish::is_product_row(row, product.evidence),
        SideItem::Ranking(product, _) => row matches SideRow::Ranking(row)
            && crate::publisher_publish::is_product_row(row, product.evidence),
        SideItem::Serving(product, _, _) => row matches SideRow::Serving(row)
            && crate::serving_publish::row_holds(row, product.evidence),
    }
}

/// The numbers of the product fit their columns.
pub open spec fn fits(item: SideItem) -> bool {
    match item {
        SideItem::Flexible(product, _, _) => crate::flexible_publish::columns_fit(product.evidence),
        SideItem::Semantic(product, _) => crate::semantic_publish::columns_fit(product.evidence),
        SideItem::Zap(product) => crate::zap_publish::columns_fit(product.evidence),
        SideItem::Relay(product) => crate::relay_publish::columns_fit(product.evidence),
        SideItem::Ranking(product, _) => crate::publisher_publish::columns_fit(product.evidence),
        SideItem::Serving(product, _, _) => crate::serving_publish::columns_fit(product.evidence),
    }
}

/// How a product with a number that does not fit its column is refused.
#[verifier::opaque]
pub open spec fn is_row_error(item: SideItem, error: Error) -> bool {
    match item {
        SideItem::Flexible(product, _, _) => if crate::flexible_publish::sketch_total(
            product.evidence,
        ) < 0 {
            error == Error::Validation("flexible leaf byte accounting underflow")
        } else {
            error is NumericOverflow
        },
        SideItem::Semantic(product, _) => error == columns_error(
            crate::semantic_publish::product_counts(product.evidence),
        ),
        SideItem::Zap(product) => error == if total_sketch_bytes(
            product.evidence.leaves@,
        ) > u64::MAX {
            Error::Validation("zap distinct sketch bytes overflowed")
        } else {
            columns_error(crate::zap_publish::product_counts(product.evidence))
        },
        SideItem::Relay(_) => error is NumericOverflow,
        SideItem::Ranking(product, _) => error == crate::publisher_publish::product_row_error(
            product.evidence,
        ),
        SideItem::Serving(product, _, _) => error == columns_error(
            crate::serving_publish::product_counts(product.evidence),
        ),
    }
}

/// The lines of one table of a product, and the rows that they owe.
pub struct SideLines {
    /// The table.
    pub table: SideTable,
    /// The lines.
    pub lines: Seq<Seq<char>>,
    /// The rows.
    pub owed: int,
}

/// The tables of the product.
pub open spec fn tables_of(item: SideItem, id: Seq<char>) -> Seq<SideLines> {
    match item {
        SideItem::Flexible(product, leaves, _) => seq![
            SideLines {
                table: SideTable::FlexibleLeaves,
                lines: crate::publish_flexible::leaf_texts(id, leaves@),
                owed: product.evidence.leaf_artifact.row_count as int,
            },
        ],
        SideItem::Semantic(_, days) => seq![
            SideLines {
                table: SideTable::Engagement,
                lines: crate::publish_semantic::engagement_texts(id, days.engagement@),
                owed: days.engagement@.len() as int,
            },
            SideLines {
                table: SideTable::Longform,
                lines: crate::publish_semantic::longform_texts(id, days.longform@),
                owed: days.longform@.len() as int,
            },
            SideLines {
                table: SideTable::Zaps,
                lines: crate::publish_semantic::zap_texts(id, days.zaps@),
                owed: days.zaps@.len() as int,
            },
            SideLines {
                table: SideTable::Histogram,
                lines: crate::publish_semantic::histogram_texts(id, days.zaps@),
                owed: days.zaps@.len() as int * 17,
            },
            SideLines {
                table: SideTable::Rejections,
                lines: crate::publish_semantic::rejection_texts(id, days.zaps@),
                owed: days.zaps@.len() as int * 6,
            },
        ],
        SideItem::Zap(product) => seq![
            SideLines {
                table: SideTable::ZapLeaves,
                lines: crate::publish_zap::leaf_texts(id, product.evidence.leaves@),
                owed: product.evidence.leaves@.len() as int,
            },
        ],
        SideItem::Relay(product) => seq![
            SideLines {
                table: SideTable::Relays,
                lines: crate::publish_relay::relay_texts(id, product.evidence.rows@),
                owed: product.evidence.rows@.len() as int,
            },
        ],
        SideItem::Ranking(product, rows) => seq![
            SideLines {
                table: SideTable::Rankings,
                lines: crate::publish_ranking::ranking_texts(id, rows@),
                owed: product.evidence.ranking_artifact.row_count as int,
            },
        ],
        SideItem::Serving(product, hours, kinds) => seq![
            SideLines {
                table: SideTable::Hours,
                lines: crate::publish_serving::hour_texts(id, hours@),
                owed: product.evidence.hourly_artifact.row_count as int,
            },
            SideLines {
                table: SideTable::Kinds,
                lines: crate::publish_serving::kind_texts(id, kinds@),
                owed: product.evidence.kind_artifact.row_count as int,
            },
        ],
    }
}

/// What is stored is the product.
#[verifier::opaque]
pub open spec fn stored_is(item: SideItem, stored: SideStored) -> bool {
    match item {
        SideItem::Flexible(product, _, _) => stored matches SideStored::Flexible(published)
            && crate::flexible_publish::published_matches(published, *product),
        SideItem::Semantic(product, _) => stored matches SideStored::Semantic(published)
            && crate::semantic_publish::metadata_matches(published, *product)
            && crate::semantic_publish::totals_match(published, product.evidence),
        SideItem::Zap(product) => stored matches SideStored::Zap(published)
            && crate::zap_publish::published_matches(published, *product),
        SideItem::Relay(product) => stored matches SideStored::Relay(published)
            && crate::relay_publish::metadata_matches(published.metadata, *product)
            && crate::relay_publish::published_rows_are(published.rows@, product.evidence.rows@),
        SideItem::Ranking(product, rows) => stored matches SideStored::Ranking(published)
            && crate::publisher_publish::metadata_matches(published.metadata, *product)
            && rows_hold(published.rows@, rows@),
        SideItem::Serving(product, hours, kinds) => stored matches SideStored::Serving(published)
            && crate::serving_publish::metadata_matches(published.metadata, *product)
            && hours_hold(published.hours@, hours@) && kinds_hold(published.kinds@, kinds@),
    }
}

/// The rows of the item are those of the product.
pub open spec fn item_holds(item: SideItem) -> bool {
    match item {
        SideItem::Semantic(product, days) => lists_days(*days, product.evidence.rollups),
        _ => true,
    }
}

/// Which product the item is.
fn side(item: &SideItem) -> (side: SideProduct)
    ensures
        side == side_of(*item),
{
    match item {
        SideItem::Flexible(_, _, _) => SideProduct::Flexible,
        SideItem::Semantic(_, _) => SideProduct::Semantic,
        SideItem::Zap(_) => SideProduct::Zap,
        SideItem::Relay(_) => SideProduct::Relay,
        SideItem::Ranking(_, _) => SideProduct::Ranking,
        SideItem::Serving(_, _, _) => SideProduct::Serving,
    }
}

/// The identity of the product that belongs to `parent`.
fn side_id(item: &SideItem, parent: &str) -> (id: String)
    ensures
        id@ == id_of(*item, parent@),
{
    match item {
        SideItem::Flexible(product, _, validated) => flexible_product_id(
            parent,
            product,
            validated.validation_sha256.as_str(),
        ),
        SideItem::Semantic(product, _) => semantic_product_id(parent, product),
        SideItem::Zap(product) => zap_distinct_product_id(parent, product),
        SideItem::Relay(product) => relay_product_id(parent, product),
        SideItem::Ranking(product, _) => publisher_product_id(parent, product),
        SideItem::Serving(product, _, _) => serving_product_id(parent, product),
    }
}

/// The row of the product.
fn side_row(item: &SideItem, parent: &str) -> (outcome: Result<SideRow>)
    ensures
        outcome is Ok <==> fits(*item),
        outcome is Err ==> is_row_error(*item, outcome->Err_0),
        outcome is Ok ==> row_is(*item, parent@, outcome->Ok_0),
{
    proof {
        reveal(is_row_error);
    }
    match item {
        SideItem::Flexible(product, _, validated) => match flexible_product_row(
            parent,
            product,
            validated,
        ) {
            Ok(row) => Ok(SideRow::Flexible(row)),
            Err(error) => Err(error),
        },
        SideItem::Semantic(product, _) => match semantic_product_row(&product.evidence) {
            Ok(row) => Ok(SideRow::Semantic(row)),
            Err(error) => Err(error),
        },
        SideItem::Zap(product) => match zap_product_row(&product.evidence) {
            Ok(row) => Ok(SideRow::Zap(row)),
            Err(error) => Err(error),
        },
        SideItem::Relay(product) => match relay_product_row(&product.evidence) {
            Ok(row) => Ok(SideRow::Relay(row)),
            Err(error) => Err(error),
        },
        SideItem::Ranking(product, _) => match publisher_product_row(&product.evidence) {
            Ok(row) => Ok(SideRow::Ranking(row)),
            Err(error) => Err(error),
        },
        SideItem::Serving(product, _, _) => match serving_product_row(&product.evidence) {
            Ok(row) => Ok(SideRow::Serving(row)),
            Err(error) => Err(error),
        },
    }
}

/// The questions that write the product.
pub open spec fn write_asks(item: SideItem, parent: Seq<char>, row: SideRow) -> Seq<Ask> {
    let tables = tables_of(item, id_of(item, parent));
    seq![Ask::InsertProduct(parent, id_of(item, parent), row)] + Seq::new(
        tables.len(),
        |i: int| Ask::CopyProduct(tables[i].table, tables[i].lines),
    )
}

/// A copy of lines into a table.
fn copy_change(table: SideTable, lines: Vec<String>, owed: u64, name: &'static str) -> (change:
    Change)
    ensures
        asked(change.request) == Ask::CopyProduct(table, texts(lines@)),
        change.owed == Owed::Rows(name, owed),
{
    Change { request: LedgerRequest::CopyProduct { table, lines }, owed: Owed::Rows(name, owed) }
}

/// The changes that write the product.
fn write_changes(item: &SideItem, parent: &str, id: &String, row: SideRow) -> (script: Vec<Change>)
    requires
        id@ == id_of(*item, parent@),
        item_holds(*item),
    ensures
        changes(script@) == write_asks(*item, parent@, row),
        script@.len() == tables_of(*item, id@).len() + 1,
        script@[0].owed is Done,
        forall|i: int|
            0 <= i < tables_of(*item, id@).len() ==> ((#[trigger] script@[i + 1]).owed matches
                Owed::Rows(_, owed) && owed == tables_of(*item, id@)[i].owed),
{
    let mut script: Vec<Change> = Vec::new();
    script.push(
        Change {
            request: LedgerRequest::InsertProduct {
                parent: parent.to_owned(),
                product_id: id.clone(),
                row,
            },
            owed: Owed::Done,
        },
    );
    match item {
        SideItem::Flexible(product, leaves, _) => {
            script.push(
                copy_change(
                    SideTable::FlexibleLeaves,
                    crate::publish_flexible::leaf_lines(id.as_str(), leaves),
                    product.evidence.leaf_artifact.row_count,
                    "flexible_distinct_leaves",
                ),
            );
        },
        SideItem::Semantic(_, days) => {
            let histogram: Vec<String> = crate::publish_semantic::histogram_rows(
                id.as_str(),
                &days.zaps,
            );
            let rejections: Vec<String> = crate::publish_semantic::rejection_rows(
                id.as_str(),
                &days.zaps,
            );
            let buckets: u64 = histogram.len() as u64;
            let reasons: u64 = rejections.len() as u64;
            assert(texts(histogram@).len() == days.zaps@.len() * 17);
            assert(texts(rejections@).len() == days.zaps@.len() * 6);
            script.push(
                copy_change(
                    SideTable::Engagement,
                    crate::publish_semantic::engagement_lines(id.as_str(), &days.engagement),
                    days.engagement.len() as u64,
                    "semantic_engagement_daily",
                ),
            );
            script.push(
                copy_change(
                    SideTable::Longform,
                    crate::publish_semantic::longform_lines(id.as_str(), &days.longform),
                    days.longform.len() as u64,
                    "semantic_longform_daily",
                ),
            );
            script.push(
                copy_change(
                    SideTable::Zaps,
                    crate::publish_semantic::zap_lines(id.as_str(), &days.zaps),
                    days.zaps.len() as u64,
                    "semantic_zap_daily",
                ),
            );
            script.push(
                copy_change(
                    SideTable::Histogram,
                    histogram,
                    buckets,
                    "semantic_zap_histogram_daily",
                ),
            );
            script.push(
                copy_change(
                    SideTable::Rejections,
                    rejections,
                    reasons,
                    "semantic_zap_rejections_daily",
                ),
            );
        },
        SideItem::Zap(product) => {
            script.push(
                copy_change(
                    SideTable::ZapLeaves,
                    crate::publish_zap::leaf_lines(id.as_str(), &product.evidence.leaves),
                    product.evidence.leaves.len() as u64,
                    "semantic_zap_distinct_leaves",
                ),
            );
        },
        SideItem::Relay(product) => {
            script.push(
                copy_change(
                    SideTable::Relays,
                    crate::publish_relay::relay_lines(id.as_str(), &product.evidence.rows),
                    product.evidence.rows.len() as u64,
                    "relay_distribution_rows",
                ),
            );
        },
        SideItem::Ranking(product, rows) => {
            script.push(
                copy_change(
                    SideTable::Rankings,
                    crate::publish_ranking::ranking_lines(id.as_str(), rows),
                    product.evidence.ranking_artifact.row_count,
                    "publisher_ranking_rows",
                ),
            );
        },
        SideItem::Serving(product, hours, kinds) => {
            script.push(
                copy_change(
                    SideTable::Hours,
                    crate::publish_serving::hour_lines(id.as_str(), hours),
                    product.evidence.hourly_artifact.row_count,
                    "serving_hourly_counts",
                ),
            );
            script.push(
                copy_change(
                    SideTable::Kinds,
                    crate::publish_serving::kind_lines(id.as_str(), kinds),
                    product.evidence.kind_artifact.row_count,
                    "serving_kind_summaries",
                ),
            );
        },
    }
    assert(changes(script@) =~= write_asks(*item, parent@, row));
    script
}

/// The first failure of both.
pub open spec fn both(first: Result<()>, second: Result<()>) -> Result<()> {
    match first {
        Ok(_) => second,
        Err(error) => Err(error),
    }
}

/// What holding the product against what is stored comes to.
#[verifier::opaque]
pub open spec fn stored_outcome(item: SideItem, stored: SideStored) -> Result<()> {
    match (item, stored) {
        (
            SideItem::Flexible(product, _, _),
            SideStored::Flexible(published),
        ) => crate::flexible_publish::reconcile_outcome(published, *product),
        (
            SideItem::Semantic(product, _),
            SideStored::Semantic(published),
        ) => crate::semantic_publish::reconcile_outcome(published, *product),
        (SideItem::Zap(product), SideStored::Zap(published)) => {
            crate::zap_publish::reconcile_outcome(published, *product)
        },
        (SideItem::Relay(product), SideStored::Relay(published)) => both(
            fields_outcome(
                crate::relay_publish::metadata_fields(published.metadata, *product),
                "published relay product metadata does not reconcile",
            ),
            crate::relay_publish::rows_outcome(published.rows@, product.evidence.rows@),
        ),
        (SideItem::Ranking(product, rows), SideStored::Ranking(published)) => both(
            fields_outcome(
                crate::publisher_publish::metadata_fields(published.metadata, *product),
                "published publisher metadata does not reconcile",
            ),
            crate::publisher_publish::rows_outcome(published.rows@, rows@, 0),
        ),
        (SideItem::Serving(product, hours, kinds), SideStored::Serving(published)) => both(
            fields_outcome(
                crate::serving_publish::metadata_fields(published.metadata, *product),
                "published serving product metadata does not reconcile",
            ),
            both(
                crate::serving_publish::hourly_outcome(published.hours@, hours@, 0),
                crate::serving_publish::kind_outcome(published.kinds@, kinds@, 0),
            ),
        ),
        _ => Err(Error::Validation("the ledger gave another product")),
    }
}

/// Hold the product against what is stored.
fn check_stored(item: &SideItem, stored: &SideStored) -> (outcome: Result<()>)
    ensures
        outcome is Ok <==> stored_is(*item, *stored),
        outcome == stored_outcome(*item, *stored),
{
    proof {
        reveal(stored_is);
        reveal(stored_outcome);
    }
    match (item, stored) {
        (SideItem::Flexible(product, _, _), SideStored::Flexible(published)) => {
            reconcile_flexible_product(published, product)
        },
        (SideItem::Semantic(product, _), SideStored::Semantic(published)) => {
            reconcile_semantic_product(published, product)
        },
        (SideItem::Zap(product), SideStored::Zap(published)) => {
            reconcile_zap_product(published, product)
        },
        (SideItem::Relay(product), SideStored::Relay(published)) => {
            match crate::relay_publish::reconcile_metadata(&published.metadata, product) {
                Ok(()) => crate::relay_publish::reconcile_rows(
                    &published.rows,
                    &product.evidence.rows,
                ),
                Err(error) => Err(error),
            }
        },
        (SideItem::Ranking(product, rows), SideStored::Ranking(published)) => {
            match crate::publisher_publish::reconcile_metadata(&published.metadata, product) {
                Ok(()) => crate::publisher_publish::reconcile_rows(&published.rows, rows),
                Err(error) => Err(error),
            }
        },
        (SideItem::Serving(product, hours, kinds), SideStored::Serving(published)) => {
            match crate::serving_publish::reconcile_metadata(&published.metadata, product) {
                Ok(()) => match reconcile_hourly(&published.hours, hours) {
                    Ok(()) => reconcile_kinds(&published.kinds, kinds),
                    Err(error) => Err(error),
                },
                Err(error) => Err(error),
            }
        },
        _ => Err(Error::Validation("the ledger gave another product")),
    }
}

/// What the ledger decides of a publication: whether the product is stored, and
/// the row that is inserted where it is not.
pub struct SideChoice {
    /// Whether the product is stored.
    pub known: bool,
    /// The row of the product.
    pub row: SideRow,
}

/// What is asked to publish the product, in order.
pub open spec fn side_script(item: SideItem, parent: Seq<char>, choice: SideChoice) -> Seq<Ask> {
    let id = id_of(item, parent);
    seq![Ask::ProductStored(side_of(item), id)] + (if choice.known {
        Seq::empty()
    } else {
        write_asks(item, parent, choice.row)
    }) + seq![Ask::StoredProduct(side_of(item), id)]
}

/// Every copy stored the rows that it owes.
pub open spec fn copies_owed<X>(
    item: SideItem,
    parent: Seq<char>,
    trace: Seq<Exchange<X>>,
) -> bool {
    let tables = tables_of(item, id_of(item, parent));
    forall|i: int|
        0 <= i < tables.len() ==> (trace[i + 2].reply matches Ok(LedgerReply::Rows(rows)) && rows
            == (#[trigger] tables[i]).owed)
}

/// The outcome names the product.
pub open spec fn names_product(
    outcome: ProductOutcome,
    known: bool,
    product_id: Seq<char>,
) -> bool {
    match outcome {
        ProductOutcome::Published { product_id: id } => !known && id@ == product_id,
        ProductOutcome::AlreadyPublished { product_id: id } => known && id@ == product_id,
    }
}

/// A copy stored another number of rows than it owes.
pub open spec fn copy_falls_short(
    item: SideItem,
    parent: Seq<char>,
    ask: Ask,
    reply: LedgerReply,
    error: Error,
) -> bool {
    let tables = tables_of(item, id_of(item, parent));
    exists|i: int|
        {
            &&& 0 <= i < tables.len()
            &&& ask == Ask::CopyProduct((#[trigger] tables[i]).table, tables[i].lines)
            &&& reply matches LedgerReply::Rows(rows) && rows != tables[i].owed && (
            error matches Error::CopyCount { copied, owed, .. } && copied == rows && owed
                == tables[i].owed)
        }
}

/// Why the publication of the product fails: the last question was not
/// answered, its answer is not the one that is owed, or a number of the product
/// does not fit its column.
pub open spec fn side_fails<X>(
    item: SideItem,
    parent: Seq<char>,
    trace: Seq<Exchange<X>>,
    error: Error,
) -> bool {
    let ask = asked(trace.last().request);
    &&& trace.len() > 0
    &&& match trace.last().reply {
        Err(reason) => error == reason,
        Ok(reply) => {
            ||| ask == Ask::ProductStored(side_of(item), id_of(item, parent)) && reply
                == LedgerReply::Known(false) && !fits(item) && is_row_error(item, error)
            ||| ask == Ask::StoredProduct(side_of(item), id_of(item, parent)) && (
            reply matches LedgerReply::Product(stored) && stored_outcome(item, stored) == Err::<
                (),
                Error,
            >(error))
            ||| !answers(ask, reply) && error is Validation
            ||| copy_falls_short(item, parent, ask, reply, error)
        },
    }
}

/// What publishing the product inside of the transaction comes to.
pub open spec fn publishes_item<X>(
    item: SideItem,
    parent: Seq<char>,
    choice: SideChoice,
    trace: Seq<Exchange<X>>,
    outcome: Result<ProductOutcome>,
) -> bool {
    &&& begins(asks(trace), side_script(item, parent, choice))
    &&& trace.len() > 1 ==> trace[0].reply == Ok::<LedgerReply, Error>(
        LedgerReply::Known(choice.known),
    )
    &&& !choice.known && trace.len() > 1 ==> row_is(item, parent, choice.row)
    &&& match outcome {
        Ok(published) => {
            &&& asks(trace) == side_script(item, parent, choice)
            &&& answered(trace)
            &&& trace[0].reply == Ok::<LedgerReply, Error>(LedgerReply::Known(choice.known))
            &&& !choice.known ==> row_is(item, parent, choice.row) && copies_owed(
                item,
                parent,
                trace,
            )
            &&& trace.last().reply matches Ok(LedgerReply::Product(stored)) && stored_is(
                item,
                stored,
            )
            &&& names_product(published, choice.known, id_of(item, parent))
        },
        Err(error) => side_fails(item, parent, trace, error),
    }
}

/// Publish a product inside of the transaction.
pub(crate) fn publish_item<X, F: Fn(X, &LedgerRequest) -> (X, Result<LedgerReply>)>(
    ask: &F,
    x: X,
    item: &SideItem,
    parent: &str,
) -> (made: (X, Result<ProductOutcome>, Ghost<Seq<Exchange<X>>>, Ghost<SideChoice>))
    requires
        item_holds(*item),
        forall|x: X, request: &LedgerRequest| #[trigger] call_requires(*ask, (x, request)),
    ensures
        leads(*ask, x, made.2@, made.0),
        publishes_item(*item, parent@, made.3@, made.2@, made.1),
{
    let ghost x0 = x;
    let id: String = side_id(item, parent);
    let ghost stored_ask = seq![Ask::ProductStored(side_of(*item), id@)];
    let ghost read_ask = seq![Ask::StoredProduct(side_of(*item), id@)];
    let (x, reply, Ghost(t1)) = ask_one(
        ask,
        x,
        LedgerRequest::ProductStored { side: side(item), product_id: id.clone() },
    );
    let ghost x1 = x;
    let ghost nothing: SideChoice = arbitrary();
    proof {
        assert(asks(t1) =~= stored_ask);
        assert(asks(t1) =~= side_script(*item, parent@, nothing).take(1));
    }
    let known: bool = match reply {
        Ok(LedgerReply::Known(known)) => known,
        Ok(_) => {
            return (
                x,
                Err(Error::Validation("the ledger gave another answer")),
                Ghost(t1),
                Ghost(nothing),
            );
        },
        Err(error) => {
            return (x, Err(error), Ghost(t1), Ghost(nothing));
        },
    };
    let ghost mut choice = SideChoice { known, row: nothing.row };
    let ghost mut trace = t1;
    let mut held: X = x;
    if !known {
        let row: SideRow = match side_row(item, parent) {
            Ok(row) => row,
            Err(error) => {
                assert(asks(t1) =~= side_script(*item, parent@, choice).take(1));
                return (held, Err(error), Ghost(t1), Ghost(choice));
            },
        };
        proof {
            choice = SideChoice { known, row };
        }
        let script: Vec<Change> = write_changes(item, parent, &id, row);
        let ghost planned = script@;
        let (after, wrote, Ghost(t2)) = make_changes(ask, held, script);
        held = after;
        proof {
            lemma_join(*ask, x0, t1, x1, t2, held);
            trace = t1 + t2;
            lemma_begins(stored_ask, asks(t2), changes(planned), read_ask);
            assert(side_script(*item, parent@, choice) =~= stored_ask + changes(planned)
                + read_ask);
            assert(trace.last() == if t2.len() > 0 {
                t2.last()
            } else {
                t1.last()
            });
        }
        match wrote {
            Ok(()) => {},
            Err(error) => {
                proof {
                    let at = t2.len() - 1;
                    assert(asks(t2)[at] == changes(planned)[at]);
                    assert(trace.last() == t2[at]);
                    if at > 0 {
                        let tables = tables_of(*item, id@);
                        assert(planned[at - 1 + 1].owed is Rows);
                        assert(changes(planned)[at] == Ask::CopyProduct(
                            tables[at - 1].table,
                            tables[at - 1].lines,
                        ));
                    }
                }
                return (held, Err(error), Ghost(trace), Ghost(choice));
            },
        }
        proof {
            let tables = tables_of(*item, id@);
            assert forall|i: int| 0 <= i < tables.len() implies (trace[i + 2].reply matches Ok(
                LedgerReply::Rows(rows),
            ) && rows == (#[trigger] tables[i]).owed) by {
                assert(trace[i + 2] == t2[i + 1]);
                assert(is_owed(planned[i + 1].owed, t2[i + 1].reply));
            }
        }
    }
    let ghost x2 = held;
    let ghost middle = trace;
    let (x, reply, Ghost(t3)) = ask_one(
        ask,
        held,
        LedgerRequest::StoredProduct { side: side(item), product_id: id.clone() },
    );
    proof {
        lemma_join(*ask, x0, middle, x2, t3, x);
        trace = middle + t3;
        assert(asks(t3) =~= read_ask);
        assert(asks(trace) =~= side_script(*item, parent@, choice));
        assert(side_script(*item, parent@, choice) =~= side_script(*item, parent@, choice).take(
            trace.len() as int,
        ));
        assert(trace.last() == t3.last());
        assert(trace[0] == t1[0]);
        let tables = tables_of(*item, id@);
        assert forall|i: int| !known && 0 <= i < tables.len() implies (
        trace[i + 2].reply matches Ok(LedgerReply::Rows(rows)) && rows == (
        #[trigger] tables[i]).owed) by {
            assert(trace[i + 2] == middle[i + 2]);
        }
    }
    let stored: SideStored = match reply {
        Ok(LedgerReply::Product(stored)) => stored,
        Ok(_) => {
            return (
                x,
                Err(Error::Validation("the ledger gave another answer")),
                Ghost(trace),
                Ghost(choice),
            );
        },
        Err(error) => {
            return (x, Err(error), Ghost(trace), Ghost(choice));
        },
    };
    match check_stored(item, &stored) {
        Ok(()) => {},
        Err(error) => {
            return (x, Err(error), Ghost(trace), Ghost(choice));
        },
    }
    let published: ProductOutcome = if known {
        ProductOutcome::AlreadyPublished { product_id: id }
    } else {
        ProductOutcome::Published { product_id: id }
    };
    (x, Ok(published), Ghost(trace), Ghost(choice))
}

/// The current run, without its evidence.
pub open spec fn run_of(run: LedgerRun) -> CurrentRun {
    CurrentRun {
        run_id: run.run_id,
        snapshot_id: run.snapshot_id,
        query_version: run.query_version,
        as_of_epoch: run.as_of_epoch,
    }
}

/// The run is the one that a product of this activity was made for.
pub open spec fn serves_activity(
    run: LedgerRun,
    run_id: Seq<char>,
    snapshot_id: Seq<char>,
    as_of_epoch: u64,
    activity_sha256: Seq<char>,
) -> bool {
    &&& run.run_id@ == run_id
    &&& run.snapshot_id@ == snapshot_id
    &&& run.as_of_epoch == as_of_epoch
    &&& run.activity_evidence_sha256 is Some
    &&& run.activity_evidence_sha256->0@ == activity_sha256
}

/// The answer names the exact baseline of the product.
#[verifier::opaque]
pub open spec fn baseline_is(
    item: SideItem,
    parent: Seq<char>,
    query_version: Seq<char>,
    reply: Result<LedgerReply>,
) -> bool {
    match item {
        SideItem::Flexible(product, _, _) => reply matches Ok(LedgerReply::Run(run)) && is_baseline(
            run_of(run),
            parent,
            product.evidence.snapshot_id@,
            query_version,
            product.evidence.as_of_epoch,
        ),
        SideItem::Semantic(product, _) => reply matches Ok(LedgerReply::Run(run)) && is_baseline(
            run_of(run),
            parent,
            product.evidence.snapshot_id@,
            query_version,
            product.evidence.as_of_epoch,
        ),
        SideItem::Zap(product) => reply matches Ok(LedgerReply::Semantic(current, baseline))
            && crate::publish_zap::is_current(baseline, current@, *product, query_version),
        SideItem::Relay(product) => reply matches Ok(LedgerReply::Run(run)) && is_baseline(
            run_of(run),
            parent,
            product.evidence.snapshot_id@,
            query_version,
            product.evidence.as_of_epoch,
        ),
        SideItem::Ranking(product, _) => reply matches Ok(LedgerReply::Run(run))
            && serves_activity(
            run,
            parent,
            product.evidence.snapshot_id@,
            product.evidence.as_of_epoch,
            product.evidence.activity_evidence_sha256@,
        ),
        SideItem::Serving(product, _, _) => reply matches Ok(LedgerReply::Run(run))
            && serves_activity(
            run,
            parent,
            product.evidence.snapshot_id@,
            product.evidence.as_of_epoch,
            product.evidence.activity_evidence_sha256@,
        ),
    }
}

/// The current run, without its evidence.
fn current_run(run: LedgerRun) -> (current: CurrentRun)
    ensures
        current == run_of(run),
{
    CurrentRun {
        run_id: run.run_id,
        snapshot_id: run.snapshot_id,
        query_version: run.query_version,
        as_of_epoch: run.as_of_epoch,
    }
}

/// The current run with the evidence of its activity.
pub open spec fn ranking_run(run: LedgerRun) -> CurrentRankingRun {
    CurrentRankingRun {
        run_id: run.run_id,
        snapshot_id: run.snapshot_id,
        as_of_epoch: run.as_of_epoch,
        activity_evidence_sha256: run.activity_evidence_sha256,
    }
}

/// The current run with the evidence of its activity.
pub open spec fn serving_run(run: LedgerRun) -> CurrentServingRun {
    CurrentServingRun {
        run_id: run.run_id,
        snapshot_id: run.snapshot_id,
        as_of_epoch: run.as_of_epoch,
        activity_evidence_sha256: run.activity_evidence_sha256,
    }
}

/// How an answer that does not name the baseline of the product is refused.
#[verifier::opaque]
pub open spec fn baseline_refusal(
    item: SideItem,
    parent: Seq<char>,
    query_version: Seq<char>,
    reply: LedgerReply,
) -> Result<()> {
    match (item, reply) {
        (SideItem::Flexible(product, _, _), LedgerReply::Run(run)) => Err(
            baseline_error(
                run_of(run),
                parent,
                product.evidence.snapshot_id@,
                query_version,
                product.evidence.as_of_epoch,
                "flexible as_of_epoch",
                "current Postgres run is not the exact baseline of the flexible product",
            ),
        ),
        (SideItem::Semantic(product, _), LedgerReply::Run(run)) => fields_outcome(
            run_fields(
                run_of(run),
                parent,
                product.evidence.snapshot_id@,
                query_version,
                product.evidence.as_of_epoch,
                "semantic current as-of",
            ),
            "current Postgres run is not the exact semantic baseline",
        ),
        (SideItem::Zap(product), LedgerReply::Semantic(current, baseline)) => fields_outcome(
            crate::zap_publish::baseline_fields(
                baseline,
                current@,
                product.evidence,
                query_version,
            ),
            "semantic product is not the exact current baseline",
        ),
        (SideItem::Relay(product), LedgerReply::Run(run)) => fields_outcome(
            run_fields(
                run_of(run),
                parent,
                product.evidence.snapshot_id@,
                query_version,
                product.evidence.as_of_epoch,
                "relay current as-of",
            ),
            "current Postgres run is not the exact relay baseline",
        ),
        (SideItem::Ranking(product, _), LedgerReply::Run(run)) => fields_outcome(
            crate::publisher_publish::baseline_fields(ranking_run(run), parent, product.evidence),
            "current Postgres run is not the exact ranking baseline",
        ),
        (SideItem::Serving(product, _, _), LedgerReply::Run(run)) => fields_outcome(
            crate::serving_publish::baseline_fields(serving_run(run), parent, product.evidence),
            "current Postgres run is not the exact serving baseline",
        ),
        _ => Err(Error::Validation("the ledger gave another answer")),
    }
}

/// The error is that of an answer that does not name the baseline.
pub open spec fn baseline_fails(
    item: SideItem,
    parent: Seq<char>,
    query_version: Seq<char>,
    reply: Result<LedgerReply>,
    error: Error,
) -> bool {
    match reply {
        Err(reason) => error == reason,
        Ok(answer) => !baseline_is(item, parent, query_version, reply) && baseline_refusal(
            item,
            parent,
            query_version,
            answer,
        ) == Err::<(), Error>(error),
    }
}

/// Check that the answer names the exact baseline of the product.
fn check_baseline(
    item: &SideItem,
    parent: &str,
    query_version: &str,
    reply: Result<LedgerReply>,
) -> (outcome: Result<()>)
    ensures
        outcome is Ok ==> reply is Ok,
        outcome is Ok <==> baseline_is(*item, parent@, query_version@, reply),
        outcome is Err ==> baseline_fails(
            *item,
            parent@,
            query_version@,
            reply,
            outcome->Err_0,
        ),
{
    proof {
        reveal(baseline_is);
        reveal(baseline_refusal);
    }
    let reply: LedgerReply = match reply {
        Ok(reply) => reply,
        Err(error) => {
            return Err(error);
        },
    };
    match (item, reply) {
        (SideItem::Flexible(product, _, _), LedgerReply::Run(run)) => check_flexible_baseline(
            &current_run(run),
            parent,
            product,
            query_version,
        ),
        (SideItem::Semantic(product, _), LedgerReply::Run(run)) => check_semantic_baseline(
            &current_run(run),
            parent,
            product,
            query_version,
        ),
        (SideItem::Zap(product), LedgerReply::Semantic(current, baseline)) => check_zap_baseline(
            &baseline,
            current.as_str(),
            &product.evidence,
            query_version,
        ),
        (SideItem::Relay(product), LedgerReply::Run(run)) => check_relay_baseline(
            &current_run(run),
            parent,
            product,
            query_version,
        ),
        (SideItem::Ranking(product, _), LedgerReply::Run(run)) => check_publisher_baseline(
            &CurrentRankingRun {
                run_id: run.run_id,
                snapshot_id: run.snapshot_id,
                as_of_epoch: run.as_of_epoch,
                activity_evidence_sha256: run.activity_evidence_sha256,
            },
            parent,
            &product.evidence,
        ),
        (SideItem::Serving(product, _, _), LedgerReply::Run(run)) => check_serving_baseline(
            &CurrentServingRun {
                run_id: run.run_id,
                snapshot_id: run.snapshot_id,
                as_of_epoch: run.as_of_epoch,
                activity_evidence_sha256: run.activity_evidence_sha256,
            },
            parent,
            &product.evidence,
        ),
        _ => Err(Error::Validation("the ledger gave another answer")),
    }
}

/// The question after the baseline of the product.
pub open spec fn baseline_ask(item: SideItem, parent: Seq<char>) -> Ask {
    match item {
        SideItem::Zap(_) => Ask::SemanticProduct(parent),
        _ => Ask::CurrentRun,
    }
}

/// What is asked to publish the product in a transaction of its own, in order.
pub open spec fn alone_script(item: SideItem, parent: Seq<char>, choice: SideChoice) -> Seq<Ask> {
    seq![baseline_ask(item, parent)] + side_script(item, parent, choice)
}

/// One transaction that publishes a product.
pub struct SideRun<X> {
    /// What opening it gave.
    pub begun: Result<X>,
    /// What was asked and answered.
    pub trace: Seq<Exchange<X>>,
    /// What the ledger decided.
    pub choice: SideChoice,
    /// How it ended.
    pub end: Ended<X>,
}

/// The transaction at its end.
pub open spec fn last_of<X>(end: Ended<X>) -> Option<X> {
    match end {
        Ended::Unopened => None,
        Ended::Dropped(x) => Some(x),
        Ended::Kept(x) => Some(x),
        Ended::Refused(x) => Some(x),
    }
}

/// Whether it succeeded.
pub open spec fn done<T>(outcome: Result<T>) -> Result<()> {
    match outcome {
        Ok(_) => Ok(()),
        Err(error) => Err(error),
    }
}

/// The product was written in full, or found as it is: every question was asked
/// and answered as owed.
pub open spec fn writes_alone<X>(
    item: SideItem,
    parent: Seq<char>,
    query_version: Seq<char>,
    run: SideRun<X>,
    published: ProductOutcome,
) -> bool {
    &&& asks(run.trace) == alone_script(item, parent, run.choice)
    &&& answered(run.trace)
    &&& baseline_is(item, parent, query_version, run.trace[0].reply)
    &&& publishes_item(item, parent, run.choice, run.trace.skip(1), Ok(published))
}

/// What publishing the product in a transaction of its own comes to.
///
/// All questions stand in one transaction and in one order. It is kept exactly
/// where the publication succeeds, behind the last question, and dropped where
/// it fails.
pub open spec fn publishes_alone<
    X,
    B: FnOnce() -> Result<X>,
    F: Fn(X, &LedgerRequest) -> (X, Result<LedgerReply>),
    K: Fn(X) -> Result<()>,
    R: Fn(X),
>(
    begin: B,
    ledger: Ledger<F, K, R>,
    item: SideItem,
    parent: Seq<char>,
    query_version: Seq<char>,
    run: SideRun<X>,
    outcome: Result<ProductOutcome>,
) -> bool {
    &&& call_ensures(begin, (), run.begun)
    &&& ends(*ledger.commit, *ledger.rollback, run.end, done(outcome))
    &&& begins(asks(run.trace), alone_script(item, parent, run.choice))
    &&& match run.begun {
        Err(error) => run.end is Unopened && outcome == Err::<ProductOutcome, Error>(error)
            && run.trace.len() == 0,
        Ok(first) => last_of(run.end) is Some && leads(
            *ledger.ask,
            first,
            run.trace,
            last_of(run.end)->0,
        ),
    }
    &&& match outcome {
        Ok(published) => run.end is Kept && writes_alone(
            item,
            parent,
            query_version,
            run,
            published,
        ),
        Err(error) => {
            ||| run.end is Unopened
            ||| run.end is Refused && exists|published: ProductOutcome| #[trigger]
                writes_alone(item, parent, query_version, run, published)
            ||| run.end is Dropped && run.trace.len() == 1 && baseline_fails(
                item,
                parent,
                query_version,
                run.trace[0].reply,
                error,
            )
            ||| run.end is Dropped && run.trace.len() > 1 && baseline_is(
                item,
                parent,
                query_version,
                run.trace[0].reply,
            ) && side_fails(item, parent, run.trace, error)
        },
    }
}

/// Publish a product in a transaction of its own.
pub(crate) fn publish_alone<
    X,
    B: FnOnce() -> Result<X>,
    F: Fn(X, &LedgerRequest) -> (X, Result<LedgerReply>),
    K: Fn(X) -> Result<()>,
    R: Fn(X),
>(
    begin: B,
    ledger: &Ledger<F, K, R>,
    item: &SideItem,
    parent: &str,
    query_version: &str,
) -> (made: (Result<ProductOutcome>, Ghost<SideRun<X>>))
    requires
        item_holds(*item),
        call_requires(begin, ()),
        ledger_callable::<X, F, K, R>(*ledger),
    ensures
        publishes_alone(begin, *ledger, *item, parent@, query_version@, made.1@, made.0),
{
    let ghost nothing: SideChoice = arbitrary();
    let begun: Result<X> = begin();
    let ghost opened = begun;
    let x: X = match begun {
        Ok(x) => x,
        Err(error) => {
            let ghost trace: Seq<Exchange<X>> = Seq::empty();
            assert(asks(trace) =~= alone_script(*item, parent@, nothing).take(0));
            return (
                Err(error),
                Ghost(SideRun { begun: opened, trace, choice: nothing, end: Ended::Unopened }),
            );
        },
    };
    let ghost first = x;
    let zap: bool = match item {
        SideItem::Zap(_) => true,
        _ => false,
    };
    let request: LedgerRequest = if zap {
        LedgerRequest::SemanticProduct { product_id: parent.to_owned() }
    } else {
        LedgerRequest::CurrentRun
    };
    let (x, reply, Ghost(t0)) = ask_one(ledger.ask, x, request);
    let ghost x1 = x;
    proof {
        assert(asks(t0) =~= seq![baseline_ask(*item, parent@)]);
        assert(asks(t0) =~= alone_script(*item, parent@, nothing).take(1));
    }
    match check_baseline(item, parent, query_version, reply) {
        Ok(()) => {},
        Err(error) => {
            drop_changes(ledger.rollback, x);
            return (
                Err(error),
                Ghost(
                    SideRun { begun: opened, trace: t0, choice: nothing, end: Ended::Dropped(x1) },
                ),
            );
        },
    }
    let (x, outcome, Ghost(t1), Ghost(choice)) = publish_item(ledger.ask, x, item, parent);
    let ghost last = x;
    let ghost trace = t0 + t1;
    proof {
        lemma_join(*ledger.ask, first, t0, x1, t1, last);
        lemma_begins(asks(t0), asks(t1), side_script(*item, parent@, choice), Seq::empty());
        assert(alone_script(*item, parent@, choice) =~= asks(t0) + side_script(
            *item,
            parent@,
            choice,
        ) + Seq::empty());
        assert(trace.skip(1) =~= t1);
        assert(trace[0] == t0[0]);
        if t1.len() > 0 {
            assert(trace.last() == t1.last());
        }
    }
    let published: ProductOutcome = match outcome {
        Ok(published) => published,
        Err(error) => {
            drop_changes(ledger.rollback, x);
            return (
                Err(error),
                Ghost(SideRun { begun: opened, trace, choice, end: Ended::Dropped(last) }),
            );
        },
    };
    let commit: &K = ledger.commit;
    match commit(x) {
        Ok(done) => {
            assert(done == ());
            assert(call_ensures(*ledger.commit, (last,), Ok(())));
            (
                Ok(published),
                Ghost(SideRun { begun: opened, trace, choice, end: Ended::Kept(last) }),
            )
        },
        Err(error) => {
            let ghost refused = SideRun { begun: opened, trace, choice, end: Ended::Refused(last) };
            assert(writes_alone(*item, parent@, query_version@, refused, published));
            (Err(error), Ghost(refused))
        },
    }
}

} // verus!
