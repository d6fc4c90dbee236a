//! The publication of semantic rollups beside the current run.

use vstd::prelude::*;
use vstd::string::*;

use crate::digest::sha256_text;
use crate::error::Result;
use crate::ordered::{list, lists_map};
use crate::ledger::{ledger_callable, Ledger, LedgerReply, LedgerRequest};
use crate::publish_side::{publish_alone, publishes_alone, ProductOutcome, SideItem, SideRun};
use crate::publish_tables::texts;
use crate::rollups::{EngagementDay, LongformDay, SemanticRollups, ZapDay};
use crate::runs::product_message;
use crate::semantic_build::BoundedSemanticFacts;
use crate::semantic_publish::{
    engagement_days, engagement_line, histogram_lines, histogram_text, longform_days,
    longform_line, publishable, rejection_lines, rejection_text, validate_semantic_publication,
    zap_days, zap_line, SemanticPublishOutcome,
};
use crate::text::decimal;

verus! {

/// The line of an engagement day.
pub open spec fn engagement_text(product_id: Seq<char>, row: (u64, EngagementDay)) -> Seq<char> {
    product_id + ","@ + decimal(row.1.day_epoch as nat) + ","@ + decimal(
        row.1.original_notes as nat,
    ) + ","@ + decimal(row.1.replies as nat) + ","@ + decimal(row.1.reactions as nat) + "\n"@
}

/// The lines of the table.
pub open spec fn engagement_texts(
    product_id: Seq<char>,
    rows: Seq<(u64, EngagementDay)>,
) -> Seq<Seq<char>> {
    Seq::new(rows.len(), |i: int| engagement_text(product_id, rows[i]))
}

/// The lines of the table.
pub(crate) fn engagement_lines(
    product_id: &str,
    rows: &Vec<(u64, EngagementDay)>,
) -> (lines: Vec<String>)
    ensures
        texts(lines@) == engagement_texts(product_id@, rows@),
{
    let mut lines: Vec<String> = Vec::new();
    let mut i: usize = 0;
    while i < rows.len()
        invariant
            i <= rows@.len(),
            lines@.len() == i,
            forall|j: int|
                0 <= j < i ==> (#[trigger] lines@[j])@ == engagement_text(product_id@, rows@[j]),
        decreases rows.len() - i,
    {
        lines.push(engagement_line(product_id, &rows[i].1));
        i += 1;
    }
    assert(texts(lines@) =~= engagement_texts(product_id@, rows@));
    lines
}

/// The line of a long-form day.
pub open spec fn longform_text(product_id: Seq<char>, row: (u64, LongformDay)) -> Seq<char> {
    product_id + ","@ + decimal(row.1.day_epoch as nat) + ","@ + decimal(row.1.articles as nat)
        + ","@ + decimal(row.1.content_bytes as nat) + "\n"@
}

/// The lines of the table.
pub open spec fn longform_texts(
    product_id: Seq<char>,
    rows: Seq<(u64, LongformDay)>,
) -> Seq<Seq<char>> {
    Seq::new(rows.len(), |i: int| longform_text(product_id, rows[i]))
}

/// The lines of the table.
pub(crate) fn longform_lines(
    product_id: &str,
    rows: &Vec<(u64, LongformDay)>,
) -> (lines: Vec<String>)
    ensures
        texts(lines@) == longform_texts(product_id@, rows@),
{
    let mut lines: Vec<String> = Vec::new();
    let mut i: usize = 0;
    while i < rows.len()
        invariant
            i <= rows@.len(),
            lines@.len() == i,
            forall|j: int|
                0 <= j < i ==> (#[trigger] lines@[j])@ == longform_text(product_id@, rows@[j]),
        decreases rows.len() - i,
    {
        lines.push(longform_line(product_id, &rows[i].1));
        i += 1;
    }
    assert(texts(lines@) =~= longform_texts(product_id@, rows@));
    lines
}

/// The line of a zap day.
pub open spec fn zap_text(product_id: Seq<char>, row: (u64, ZapDay)) -> Seq<char> {
    product_id + ","@ + decimal(row.1.day_epoch as nat) + ","@ + decimal(row.1.accepted as nat)
        + ","@ + decimal(row.1.amount_msats as nat) + ","@ + decimal(
        row.1.validated_senders as nat,
    ) + ","@ + decimal(row.1.validated_recipients as nat) + "\n"@
}

/// The lines of the table.
pub open spec fn zap_texts(product_id: Seq<char>, rows: Seq<(u64, ZapDay)>) -> Seq<Seq<char>> {
    Seq::new(rows.len(), |i: int| zap_text(product_id, rows[i]))
}

/// The lines of the table.
pub(crate) fn zap_lines(product_id: &str, rows: &Vec<(u64, ZapDay)>) -> (lines: Vec<String>)
    ensures
        texts(lines@) == zap_texts(product_id@, rows@),
{
    let mut lines: Vec<String> = Vec::new();
    let mut i: usize = 0;
    while i < rows.len()
        invariant
            i <= rows@.len(),
            lines@.len() == i,
            forall|j: int|
                0 <= j < i ==> (#[trigger] lines@[j])@ == zap_text(product_id@, rows@[j]),
        decreases rows.len() - i,
    {
        lines.push(zap_line(product_id, &rows[i].1));
        i += 1;
    }
    assert(texts(lines@) =~= zap_texts(product_id@, rows@));
    lines
}

/// The lines of the amounts of the zap days.
pub open spec fn histogram_texts(
    product_id: Seq<char>,
    rows: Seq<(u64, ZapDay)>,
) -> Seq<Seq<char>> {
    Seq::new(
        rows.len() * 17,
        |i: int| histogram_text(product_id, rows[i / 17].1, i % 17),
    )
}

/// The lines of the amounts of the zap days.
pub(crate) fn histogram_rows(product_id: &str, rows: &Vec<(u64, ZapDay)>) -> (lines: Vec<String>)
    ensures
        texts(lines@) == histogram_texts(product_id@, rows@),
{
    let mut lines: Vec<String> = Vec::new();
    let mut i: usize = 0;
    while i < rows.len()
        invariant
            i <= rows@.len(),
            lines@.len() == i * 17,
            forall|k: int|
                0 <= k < lines@.len() ==> (#[trigger] lines@[k])@ == histogram_text(
                    product_id@,
                    rows@[k / 17].1,
                    k % 17,
                ),
        decreases rows.len() - i,
    {
        let ghost before = lines@;
        let mut own: Vec<String> = histogram_lines(product_id, &rows[i].1);
        let ghost added = own@;
        lines.append(&mut own);
        proof {
            assert(lines@ =~= before + added);
            assert forall|k: int| 0 <= k < lines@.len() implies (#[trigger] lines@[k])@
                == histogram_text(product_id@, rows@[k / 17].1, k % 17) by {
                if k < before.len() {
                    assert(lines@[k] == before[k]);
                } else {
                    let bucket = k - before.len();
                    assert(lines@[k] == added[bucket]);
                    assert(k / 17 == i && k % 17 == bucket);
                }
            }
        }
        i += 1;
    }
    assert(texts(lines@) =~= histogram_texts(product_id@, rows@));
    lines
}

/// The lines of the rejections of the zap days.
pub open spec fn rejection_texts(
    product_id: Seq<char>,
    rows: Seq<(u64, ZapDay)>,
) -> Seq<Seq<char>> {
    Seq::new(
        rows.len() * 6,
        |i: int| rejection_text(product_id, rows[i / 6].1, i % 6),
    )
}

/// The lines of the rejections of the zap days.
pub(crate) fn rejection_rows(product_id: &str, rows: &Vec<(u64, ZapDay)>) -> (lines: Vec<String>)
    ensures
        texts(lines@) == rejection_texts(product_id@, rows@),
{
    let mut lines: Vec<String> = Vec::new();
    let mut i: usize = 0;
    while i < rows.len()
        invariant
            i <= rows@.len(),
            lines@.len() == i * 6,
            forall|k: int|
                0 <= k < lines@.len() ==> (#[trigger] lines@[k])@ == rejection_text(
                    product_id@,
                    rows@[k / 6].1,
                    k % 6,
                ),
        decreases rows.len() - i,
    {
        let ghost before = lines@;
        let mut own: Vec<String> = rejection_lines(product_id, &rows[i].1);
        let ghost added = own@;
        lines.append(&mut own);
        proof {
            assert(lines@ =~= before + added);
            assert forall|k: int| 0 <= k < lines@.len() implies (#[trigger] lines@[k])@
                == rejection_text(product_id@, rows@[k / 6].1, k % 6) by {
                if k < before.len() {
                    assert(lines@[k] == before[k]);
                } else {
                    let bucket = k - before.len();
                    assert(lines@[k] == added[bucket]);
                    assert(k / 6 == i && k % 6 == bucket);
                }
            }
        }
        i += 1;
    }
    assert(texts(lines@) =~= rejection_texts(product_id@, rows@));
    lines
}

/// The days of the rollups.
pub struct SemanticDays {
    /// Engagement days.
    pub engagement: Vec<(u64, EngagementDay)>,
    /// Long-form days.
    pub longform: Vec<(u64, LongformDay)>,
    /// Zap days.
    pub zaps: Vec<(u64, ZapDay)>,
}

/// `days` lists the days of the rollups.
pub open spec fn lists_days(days: SemanticDays, rollups: SemanticRollups) -> bool {
    &&& lists_map(days.engagement@, rollups.engagement@)
    &&& lists_map(days.longform@, rollups.longform@)
    &&& lists_map(days.zaps@, rollups.zaps@)
    &&& days.engagement@.len() == engagement_days(rollups)
    &&& days.longform@.len() == longform_days(rollups)
    &&& days.zaps@.len() == zap_days(rollups)
}

/// The outcome as that of any product.
pub open spec fn as_product(outcome: Result<SemanticPublishOutcome>) -> Result<ProductOutcome> {
    match outcome {
        Ok(SemanticPublishOutcome::Published { product_id }) => Ok(
            ProductOutcome::Published { product_id },
        ),
        Ok(SemanticPublishOutcome::AlreadyPublished { product_id }) => Ok(
            ProductOutcome::AlreadyPublished { product_id },
        ),
        Err(error) => Err(error),
    }
}

/// The outcome of any product as this one's.
fn own_outcome(outcome: Result<ProductOutcome>) -> (own: Result<SemanticPublishOutcome>)
    ensures
        as_product(own) == outcome,
{
    match outcome {
        Ok(ProductOutcome::Published { product_id }) => Ok(
            SemanticPublishOutcome::Published { product_id },
        ),
        Ok(ProductOutcome::AlreadyPublished { product_id }) => Ok(
            SemanticPublishOutcome::AlreadyPublished { product_id },
        ),
        Err(error) => Err(error),
    }
}

/// The identity of the product of a run.
pub open spec fn product_of(run_id: Seq<char>, product: BoundedSemanticFacts) -> Seq<char> {
    sha256_text(
        product_message("pensieve-semantic-product-v2"@, seq![run_id, product.evidence_sha256@]),
    )
}

/// Publish semantic rollups beside the current run.
pub fn publish_semantic_facts<
    X,
    B: FnOnce() -> Result<X>,
    F: Fn(X, &LedgerRequest) -> (X, Result<LedgerReply>),
    K: Fn(X) -> Result<()>,
    R: Fn(X),
>(
    run_id: &str,
    product: &BoundedSemanticFacts,
    artifact: &[u8],
    query_version: &str,
    begin: B,
    ledger: &Ledger<F, K, R>,
) -> (outcome: Result<SemanticPublishOutcome>)
    requires
        call_requires(begin, ()),
        ledger_callable::<X, F, K, R>(*ledger),
    ensures
        if publishable(product.evidence, artifact@) {
            exists|days: SemanticDays, run: SideRun<X>| #[trigger]
                publishes_alone(
                    begin,
                    *ledger,
                    SideItem::Semantic(product, &days),
                    run_id@,
                    query_version@,
                    run,
                    as_product(outcome),
                ) && lists_days(days, product.evidence.rollups)
        } else {
            outcome is Err && outcome->Err_0 is Validation
        },
{
    match validate_semantic_publication(product, artifact) {
        Ok(()) => {},
        Err(error) => {
            return Err(error);
        },
    }
    let days: SemanticDays = list_days(&product.evidence.rollups);
    let (outcome, Ghost(run)) = publish_alone(
        begin,
        ledger,
        &SideItem::Semantic(product, &days),
        run_id,
        query_version,
    );
    let own: Result<SemanticPublishOutcome> = own_outcome(outcome);
    assert(publishes_alone(
        begin,
        *ledger,
        SideItem::Semantic(product, &days),
        run_id@,
        query_version@,
        run,
        as_product(own),
    ));
    own
}

/// List the days of the rollups.
pub(crate) fn list_days(rollups: &SemanticRollups) -> (days: SemanticDays)
    ensures
        lists_days(days, *rollups),
{
    SemanticDays {
        engagement: list(&rollups.engagement),
        longform: list(&rollups.longform),
        zaps: list(&rollups.zaps),
    }
}

} // verus!
