//! Publication rules of semantic products.

use vstd::prelude::*;
use vstd::string::*;

use crate::batches::BatchProgress;
use crate::digest::{sha256_hex, sha256_text};
use crate::error::{Error, Result};
use crate::input::ResolvedSnapshot;
use crate::merge::MergeOutcome;
use crate::ordered::{
    key_count, lemma_finite_keys, lemma_list_total, lemma_list_total_grows, list, list_total,
    map_total,
};
use crate::publication::{
    all_agree, all_fit, check_run, columns_error, field_agrees, fields_outcome, is_baseline,
    reconcile_fields, run_fields, to_columns, CurrentRun, FieldCheck, NamedCount,
};
use crate::rollups::{EngagementDay, LongformDay, SemanticRollups, ZapDay};
use crate::runs::{product_identity, product_message};
use crate::semantic_build::{
    completes_facts, BoundedSemanticFacts, SemanticDomainCounts, SemanticFactsConfig,
    SemanticFactsEvidence, SEMANTIC_FACTS_RUNNER_VERSION, SEMANTIC_FACTS_VERSION,
};
use crate::text::{decimal, push_decimal, text_equal};

verus! {

/// Result of publishing one product.
#[derive(Clone, Debug, PartialEq, Eq)]
pub enum SemanticPublishOutcome {
    /// A new versioned product and all rollups committed.
    Published {
        /// Identity of the product.
        product_id: String,
    },
    /// An identical committed product reconciled successfully.
    AlreadyPublished {
        /// Identity of the product.
        product_id: String,
    },
}

/// The product is complete and has its recorded artifact.
pub open spec fn publishable(evidence: SemanticFactsEvidence, artifact: Seq<u8>) -> bool {
    &&& evidence.status@ == "completed"@
    &&& evidence.runner_version@ == SEMANTIC_FACTS_RUNNER_VERSION@
    &&& evidence.final_artifact.row_count == evidence.logical_relevant_events
    &&& evidence.final_artifact.sha256@ == sha256_text(artifact)
}

/// A completed build may be published with the artifact that it wrote.
pub proof fn lemma_completed_facts_publish(
    evidence: SemanticFactsEvidence,
    snapshot: ResolvedSnapshot,
    as_of_epoch: u64,
    config: SemanticFactsConfig,
    batch_count: usize,
    progress: BatchProgress,
    merged: MergeOutcome,
    rollups: SemanticRollups,
    counts: SemanticDomainCounts,
    rollup_json: Seq<u8>,
    artifact: Seq<u8>,
)
    requires
        completes_facts(
            evidence,
            snapshot,
            as_of_epoch,
            config,
            batch_count,
            progress,
            merged,
            rollups,
            counts,
            rollup_json,
        ),
        merged.final_run.checkpoint.artifact.sha256@ == sha256_text(artifact),
    ensures
        publishable(evidence, artifact),
{
}

/// Check that a product is complete and has its recorded artifact.
pub fn validate_semantic_publication(product: &BoundedSemanticFacts, artifact: &[u8]) -> (outcome:
    Result<()>)
    ensures
        outcome is Ok <==> publishable(product.evidence, artifact@),
        outcome is Err ==> outcome == Err::<(), Error>(
            Error::Validation("semantic product failed immutable publication validation"),
        ),
{
    if !text_equal(product.evidence.status.as_str(), "completed") || !text_equal(
        product.evidence.runner_version.as_str(),
        SEMANTIC_FACTS_RUNNER_VERSION,
    ) || product.evidence.final_artifact.row_count != product.evidence.logical_relevant_events
        || !text_equal(
        sha256_hex(artifact).as_str(),
        product.evidence.final_artifact.sha256.as_str(),
    ) {
        return Err(Error::Validation("semantic product failed immutable publication validation"));
    }
    Ok(())
}

/// Check that the current run is the baseline of the product; `query_version`
/// is the version that carries cohorts.
pub fn check_semantic_baseline(
    current: &CurrentRun,
    baseline_run_id: &str,
    product: &BoundedSemanticFacts,
    query_version: &str,
) -> (outcome: Result<()>)
    ensures
        outcome is Ok <==> is_baseline(
            *current,
            baseline_run_id@,
            product.evidence.snapshot_id@,
            query_version@,
            product.evidence.as_of_epoch,
        ),
        outcome == fields_outcome(
            run_fields(
                *current,
                baseline_run_id@,
                product.evidence.snapshot_id@,
                query_version@,
                product.evidence.as_of_epoch,
                "semantic current as-of",
            ),
            "current Postgres run is not the exact semantic baseline",
        ),
{
    check_run(
        current,
        baseline_run_id,
        product.evidence.snapshot_id.as_str(),
        query_version,
        product.evidence.as_of_epoch,
        "semantic current as-of",
        "current Postgres run is not the exact semantic baseline",
    )
}

/// The identity of a published product.
pub fn semantic_product_id(baseline_run_id: &str, product: &BoundedSemanticFacts) -> (product_id:
    String)
    ensures
        product_id@ == sha256_text(
            product_message(
                "pensieve-semantic-product-v2"@,
                seq![baseline_run_id@, product.evidence_sha256@],
            ),
        ),
        product_id@.len() == 64,
{
    product_identity(
        "pensieve-semantic-product-v2",
        baseline_run_id,
        product.evidence_sha256.as_str(),
    )
}

/// The numeric columns of a published product.
#[derive(Clone, Copy, Debug, PartialEq, Eq, Structural)]
pub struct SemanticProductRow {
    /// Analytics boundary.
    pub as_of_epoch: i64,
    /// Unique relevant events.
    pub logical_relevant_events: i64,
    /// Days with engagement.
    pub engagement_days: i64,
    /// Days with long-form events.
    pub longform_days: i64,
    /// Days with zaps.
    pub zap_days: i64,
}

/// Days of a product.
pub open spec fn engagement_days(rollups: SemanticRollups) -> nat {
    rollups.engagement@.dom().len()
}

/// Days with long-form events.
pub open spec fn longform_days(rollups: SemanticRollups) -> nat {
    rollups.longform@.dom().len()
}

/// Days with zaps.
pub open spec fn zap_days(rollups: SemanticRollups) -> nat {
    rollups.zaps@.dom().len()
}

/// Every number of the product fits a signed column.
pub open spec fn columns_fit(evidence: SemanticFactsEvidence) -> bool {
    &&& evidence.as_of_epoch <= i64::MAX
    &&& evidence.logical_relevant_events <= i64::MAX
    &&& engagement_days(evidence.rollups) <= i64::MAX
    &&& longform_days(evidence.rollups) <= i64::MAX
    &&& zap_days(evidence.rollups) <= i64::MAX
}

/// The counts of a product, by column.
pub open spec fn product_counts(evidence: SemanticFactsEvidence) -> Seq<NamedCount> {
    seq![
        NamedCount { field: "semantic as-of", value: evidence.as_of_epoch },
        NamedCount { field: "semantic logical events", value: evidence.logical_relevant_events },
        NamedCount { field: "semantic engagement days", value: engagement_days(evidence.rollups) as u64 },
        NamedCount { field: "semantic longform days", value: longform_days(evidence.rollups) as u64 },
        NamedCount { field: "semantic zap days", value: zap_days(evidence.rollups) as u64 },
    ]
}

/// The columns hold the numbers of the product.
pub open spec fn is_product_row(row: SemanticProductRow, evidence: SemanticFactsEvidence) -> bool {
    &&& row.as_of_epoch == evidence.as_of_epoch
    &&& row.logical_relevant_events == evidence.logical_relevant_events
    &&& row.engagement_days == engagement_days(evidence.rollups)
    &&& row.longform_days == longform_days(evidence.rollups)
    &&& row.zap_days == zap_days(evidence.rollups)
}

/// The numeric columns of a product.
pub fn semantic_product_row(evidence: &SemanticFactsEvidence) -> (outcome: Result<
    SemanticProductRow,
>)
    ensures
        outcome is Ok <==> columns_fit(*evidence),
        match outcome {
            Ok(row) => is_product_row(row, *evidence),
            Err(error) => error == columns_error(product_counts(*evidence)),
        },
{
    let counts: [NamedCount; 5] = [
        NamedCount { field: "semantic as-of", value: evidence.as_of_epoch },
        NamedCount {
            field: "semantic logical events",
            value: evidence.logical_relevant_events,
        },
        NamedCount {
            field: "semantic engagement days",
            value: key_count(&evidence.rollups.engagement) as u64,
        },
        NamedCount {
            field: "semantic longform days",
            value: key_count(&evidence.rollups.longform) as u64,
        },
        NamedCount {
            field: "semantic zap days",
            value: key_count(&evidence.rollups.zaps) as u64,
        },
    ];
    proof {
        let s = counts@;
        assert(s =~= product_counts(*evidence));
        assert(all_fit(s) ==> s[0].value <= i64::MAX && s[1].value <= i64::MAX && s[2].value
            <= i64::MAX && s[3].value <= i64::MAX && s[4].value <= i64::MAX);
    }
    match to_columns(counts.as_slice()) {
        Ok(columns) => Ok(
            SemanticProductRow {
                as_of_epoch: columns[0],
                logical_relevant_events: columns[1],
                engagement_days: columns[2],
                longform_days: columns[3],
                zap_days: columns[4],
            },
        ),
        Err(error) => Err(error),
    }
}

/// The `COPY` line of an engagement day.
pub fn engagement_line(product_id: &str, day: &EngagementDay) -> (line: String)
    ensures
        line@ == product_id@ + ","@ + decimal(day.day_epoch as nat) + ","@ + decimal(
            day.original_notes as nat,
        ) + ","@ + decimal(day.replies as nat) + ","@ + decimal(day.reactions as nat) + "\n"@,
{
    let mut line: String = product_id.to_owned();
    line.append(",");
    push_decimal(&mut line, day.day_epoch);
    line.append(",");
    push_decimal(&mut line, day.original_notes);
    line.append(",");
    push_decimal(&mut line, day.replies);
    line.append(",");
    push_decimal(&mut line, day.reactions);
    line.append("\n");
    line
}

/// The `COPY` line of a long-form day.
pub fn longform_line(product_id: &str, day: &LongformDay) -> (line: String)
    ensures
        line@ == product_id@ + ","@ + decimal(day.day_epoch as nat) + ","@ + decimal(
            day.articles as nat,
        ) + ","@ + decimal(day.content_bytes as nat) + "\n"@,
{
    let mut line: String = product_id.to_owned();
    line.append(",");
    push_decimal(&mut line, day.day_epoch);
    line.append(",");
    push_decimal(&mut line, day.articles);
    line.append(",");
    push_decimal(&mut line, day.content_bytes);
    line.append("\n");
    line
}

/// The `COPY` line of a zap day.
pub fn zap_line(product_id: &str, day: &ZapDay) -> (line: String)
    ensures
        line@ == product_id@ + ","@ + decimal(day.day_epoch as nat) + ","@ + decimal(
            day.accepted as nat,
        ) + ","@ + decimal(day.amount_msats as nat) + ","@ + decimal(day.validated_senders as nat)
            + ","@ + decimal(day.validated_recipients as nat) + "\n"@,
{
    let mut line: String = product_id.to_owned();
    line.append(",");
    push_decimal(&mut line, day.day_epoch);
    line.append(",");
    push_decimal(&mut line, day.accepted);
    line.append(",");
    push_decimal(&mut line, day.amount_msats);
    line.append(",");
    push_decimal(&mut line, day.validated_senders);
    line.append(",");
    push_decimal(&mut line, day.validated_recipients);
    line.append("\n");
    line
}

/// The text of bucket `bucket` of a zap day.
pub open spec fn histogram_text(product_id: Seq<char>, day: ZapDay, bucket: int) -> Seq<char> {
    product_id + ","@ + decimal(day.day_epoch as nat) + ","@ + decimal(bucket as nat) + ","@
        + decimal(day.histogram@[bucket] as nat) + ","@ + decimal(
        day.histogram_amount_msats@[bucket] as nat,
    ) + "\n"@
}

/// The `COPY` lines of the 17 histogram buckets of a zap day.
pub fn histogram_lines(product_id: &str, day: &ZapDay) -> (lines: Vec<String>)
    ensures
        lines@.len() == 17,
        forall|bucket: int|
            0 <= bucket < 17 ==> (#[trigger] lines@[bucket])@ == histogram_text(
                product_id@,
                *day,
                bucket,
            ),
{
    let mut lines: Vec<String> = Vec::new();
    let mut bucket: usize = 0;
    while bucket < 17
        invariant
            bucket <= 17,
            lines@.len() == bucket,
            forall|b: int|
                0 <= b < bucket ==> (#[trigger] lines@[b])@ == histogram_text(
                    product_id@,
                    *day,
                    b,
                ),
        decreases 17 - bucket,
    {
        let mut line: String = product_id.to_owned();
        line.append(",");
        push_decimal(&mut line, day.day_epoch);
        line.append(",");
        push_decimal(&mut line, bucket as u64);
        line.append(",");
        push_decimal(&mut line, day.histogram[bucket]);
        line.append(",");
        push_decimal(&mut line, day.histogram_amount_msats[bucket]);
        line.append("\n");
        assert(line@ == histogram_text(product_id@, *day, bucket as int));
        lines.push(line);
        bucket += 1;
    }
    lines
}

/// The text of rejection reason `reason` of a zap day.
pub open spec fn rejection_text(product_id: Seq<char>, day: ZapDay, reason: int) -> Seq<char> {
    product_id + ","@ + decimal(day.day_epoch as nat) + ","@ + decimal(reason as nat) + ","@
        + decimal(day.rejected@[reason] as nat) + "\n"@
}

/// The `COPY` lines of the 6 rejection reasons of a zap day.
pub fn rejection_lines(product_id: &str, day: &ZapDay) -> (lines: Vec<String>)
    ensures
        lines@.len() == 6,
        forall|reason: int|
            0 <= reason < 6 ==> (#[trigger] lines@[reason])@ == rejection_text(
                product_id@,
                *day,
                reason,
            ),
{
    let mut lines: Vec<String> = Vec::new();
    let mut reason: usize = 0;
    while reason < 6
        invariant
            reason <= 6,
            lines@.len() == reason,
            forall|r: int|
                0 <= r < reason ==> (#[trigger] lines@[r])@ == rejection_text(
                    product_id@,
                    *day,
                    r,
                ),
        decreases 6 - reason,
    {
        let mut line: String = product_id.to_owned();
        line.append(",");
        push_decimal(&mut line, day.day_epoch);
        line.append(",");
        push_decimal(&mut line, reason as u64);
        line.append(",");
        push_decimal(&mut line, day.rejected[reason]);
        line.append("\n");
        assert(line@ == rejection_text(product_id@, *day, reason as int));
        lines.push(line);
        reason += 1;
    }
    lines
}

/// Amount of one zap day.
pub open spec fn day_amount() -> spec_fn(ZapDay) -> int {
    |day: ZapDay| day.amount_msats as int
}

/// Amount of all zap days, or an error where it leaves the `u64` range.
pub fn zap_amount(rollups: &SemanticRollups) -> (total: Result<u64>)
    ensures
        ({
            let exact = map_total(rollups.zaps@, day_amount());
            match total {
                Ok(amount) => amount == exact,
                Err(error) => exact > u64::MAX && error == Error::Validation("semantic zap amount overflowed"),
            }
        }),
{
    let rows: Vec<(u64, ZapDay)> = list(&rollups.zaps);
    proof {
        lemma_finite_keys(rollups.zaps);
        lemma_list_total(rows@, rollups.zaps@, day_amount());
        assert(rows@.take(0) =~= Seq::empty());
    }
    let mut total: u64 = 0;
    let mut i: usize = 0;
    while i < rows.len()
        invariant
            i <= rows@.len(),
            total == list_total(rows@.take(i as int), day_amount()),
            map_total(rollups.zaps@, day_amount()) == list_total(rows@, day_amount()),
        decreases rows.len() - i,
    {
        proof {
            assert(rows@.take(i + 1).drop_last() =~= rows@.take(i as int));
            lemma_list_total_grows(rows@, day_amount(), i + 1);
        }
        match total.checked_add(rows[i].1.amount_msats) {
            Some(sum) => {
                total = sum;
            },
            None => {
                return Err(Error::Validation("semantic zap amount overflowed"));
            },
        }
        i += 1;
    }
    assert(rows@.take(rows@.len() as int) =~= rows@);
    Ok(total)
}

/// A published product as the ledger holds it.
#[derive(Clone, Debug, PartialEq, Eq)]
pub struct PublishedSemantic {
    /// Frozen catalog snapshot.
    pub snapshot_id: String,
    /// Version of the product.
    pub product_version: String,
    /// Digest of the product evidence.
    pub evidence_sha256: String,
    /// Digest of the fact artifact.
    pub fact_artifact_sha256: String,
    /// Digest of the rollups.
    pub rollup_sha256: String,
    /// Numeric columns.
    pub row: SemanticProductRow,
    /// Engagement rows in the table.
    pub engagement_rows: i64,
    /// Original notes in the table.
    pub original_notes: i64,
    /// Replies in the table.
    pub replies: i64,
    /// Reactions in the table.
    pub reactions: i64,
    /// Long-form rows in the table.
    pub longform_rows: i64,
    /// Articles in the table.
    pub articles: i64,
    /// Zap rows in the table.
    pub zap_rows: i64,
    /// Accepted zaps in the table.
    pub accepted: i64,
    /// Zap amounts in the table.
    pub amount_msats: i64,
    /// Histogram rows in the table.
    pub histogram_rows: i64,
    /// Histogram counts in the table.
    pub histogram_count: i64,
    /// Histogram amounts in the table.
    pub histogram_amount: i64,
    /// Rejection rows in the table.
    pub rejection_rows: i64,
    /// Rejected zaps in the table.
    pub rejected: i64,
}

/// The published metadata is that of the product.
pub open spec fn metadata_matches(
    published: PublishedSemantic,
    product: BoundedSemanticFacts,
) -> bool {
    let evidence = product.evidence;
    &&& published.snapshot_id@ == evidence.snapshot_id@
    &&& published.product_version@ == SEMANTIC_FACTS_VERSION@
    &&& published.evidence_sha256@ == product.evidence_sha256@
    &&& published.fact_artifact_sha256@ == evidence.final_artifact.sha256@
    &&& published.rollup_sha256@ == evidence.rollup_sha256@
    &&& published.row.as_of_epoch == evidence.as_of_epoch
    &&& published.row.logical_relevant_events == evidence.logical_relevant_events
    &&& published.row.engagement_days == engagement_days(evidence.rollups)
    &&& published.row.longform_days == longform_days(evidence.rollups)
    &&& published.row.zap_days == zap_days(evidence.rollups)
}

/// The published relations hold the totals of the product.
pub open spec fn totals_match(
    published: PublishedSemantic,
    evidence: SemanticFactsEvidence,
) -> bool {
    let counts = evidence.domain_counts;
    let days = zap_days(evidence.rollups);
    let amount = map_total(evidence.rollups.zaps@, day_amount());
    &&& published.engagement_rows == engagement_days(evidence.rollups)
    &&& published.original_notes == counts.original_notes
    &&& published.replies == counts.replies
    &&& published.reactions == counts.reactions
    &&& published.longform_rows == longform_days(evidence.rollups)
    &&& published.articles == counts.longform_articles
    &&& published.zap_rows == days
    &&& published.accepted == counts.accepted_zaps
    &&& published.amount_msats == amount
    &&& published.histogram_rows == days * 17
    &&& published.histogram_count == counts.accepted_zaps
    &&& published.histogram_amount == amount
    &&& published.rejection_rows == days * 6
    &&& published.rejected == counts.rejected_zaps
}

/// The published metadata, field by field.
pub open spec fn metadata_fields(
    published: PublishedSemantic,
    product: BoundedSemanticFacts,
) -> Seq<FieldCheck> {
    let evidence = product.evidence;
    seq![
        FieldCheck::Same(published.snapshot_id@ == evidence.snapshot_id@),
        FieldCheck::Count {
            field: "semantic metadata as-of",
            stored: published.row.as_of_epoch,
            owed: evidence.as_of_epoch,
        },
        FieldCheck::Same(published.product_version@ == SEMANTIC_FACTS_VERSION@),
        FieldCheck::Same(published.evidence_sha256@ == product.evidence_sha256@),
        FieldCheck::Same(published.fact_artifact_sha256@ == evidence.final_artifact.sha256@),
        FieldCheck::Same(published.rollup_sha256@ == evidence.rollup_sha256@),
        FieldCheck::Count {
            field: "semantic metadata events",
            stored: published.row.logical_relevant_events,
            owed: evidence.logical_relevant_events,
        },
        FieldCheck::Count {
            field: "semantic metadata engagement days",
            stored: published.row.engagement_days,
            owed: engagement_days(evidence.rollups) as u64,
        },
        FieldCheck::Count {
            field: "semantic metadata longform days",
            stored: published.row.longform_days,
            owed: longform_days(evidence.rollups) as u64,
        },
        FieldCheck::Count {
            field: "semantic metadata zap days",
            stored: published.row.zap_days,
            owed: zap_days(evidence.rollups) as u64,
        },
    ]
}

/// The published engagement, total by total.
pub open spec fn engagement_fields(
    published: PublishedSemantic,
    evidence: SemanticFactsEvidence,
) -> Seq<FieldCheck> {
    seq![
        FieldCheck::Count {
            field: "engagement rows",
            stored: published.engagement_rows,
            owed: engagement_days(evidence.rollups) as u64,
        },
        FieldCheck::Count {
            field: "original notes",
            stored: published.original_notes,
            owed: evidence.domain_counts.original_notes,
        },
        FieldCheck::Count {
            field: "replies",
            stored: published.replies,
            owed: evidence.domain_counts.replies,
        },
        FieldCheck::Count {
            field: "reactions",
            stored: published.reactions,
            owed: evidence.domain_counts.reactions,
        },
    ]
}

/// The published long-form relation, total by total.
pub open spec fn longform_fields(
    published: PublishedSemantic,
    evidence: SemanticFactsEvidence,
) -> Seq<FieldCheck> {
    seq![
        FieldCheck::Count {
            field: "longform rows",
            stored: published.longform_rows,
            owed: longform_days(evidence.rollups) as u64,
        },
        FieldCheck::Count {
            field: "longform articles",
            stored: published.articles,
            owed: evidence.domain_counts.longform_articles,
        },
    ]
}

/// The published zap relations, total by total.
pub open spec fn zap_fields(
    published: PublishedSemantic,
    evidence: SemanticFactsEvidence,
) -> Seq<FieldCheck> {
    seq![
        FieldCheck::Count {
            field: "zap rows",
            stored: published.zap_rows,
            owed: zap_days(evidence.rollups) as u64,
        },
        FieldCheck::Count {
            field: "accepted zaps",
            stored: published.accepted,
            owed: evidence.domain_counts.accepted_zaps,
        },
        FieldCheck::Count {
            field: "zap amounts",
            stored: published.amount_msats,
            owed: map_total(evidence.rollups.zaps@, day_amount()) as u64,
        },
        FieldCheck::Count {
            field: "histogram rows",
            stored: published.histogram_rows,
            owed: (zap_days(evidence.rollups) * 17) as u64,
        },
        FieldCheck::Count {
            field: "histogram count",
            stored: published.histogram_count,
            owed: evidence.domain_counts.accepted_zaps,
        },
        FieldCheck::Count {
            field: "histogram amount",
            stored: published.histogram_amount,
            owed: map_total(evidence.rollups.zaps@, day_amount()) as u64,
        },
        FieldCheck::Count {
            field: "rejection rows",
            stored: published.rejection_rows,
            owed: (zap_days(evidence.rollups) * 6) as u64,
        },
        FieldCheck::Count {
            field: "rejected zaps",
            stored: published.rejected,
            owed: evidence.domain_counts.rejected_zaps,
        },
    ]
}

/// The outcome of holding a published product against the given one.
pub open spec fn reconcile_outcome(
    published: PublishedSemantic,
    product: BoundedSemanticFacts,
) -> Result<()> {
    let evidence = product.evidence;
    let metadata = fields_outcome(
        metadata_fields(published, product),
        "semantic product metadata mismatch",
    );
    let notes = fields_outcome(
        engagement_fields(published, evidence),
        "semantic engagement totals mismatch",
    );
    let articles = fields_outcome(
        longform_fields(published, evidence),
        "semantic long-form totals mismatch",
    );
    if metadata is Err {
        metadata
    } else if notes is Err {
        notes
    } else if articles is Err {
        articles
    } else if map_total(evidence.rollups.zaps@, day_amount()) > u64::MAX {
        Err(Error::Validation("semantic zap amount overflowed"))
    } else if zap_days(evidence.rollups) * 17 > u64::MAX {
        Err(Error::Validation("zap histogram rows overflowed"))
    } else {
        fields_outcome(zap_fields(published, evidence), "semantic zap totals mismatch")
    }
}

/// Check that the published product is the given one.
pub fn reconcile_semantic_product(
    published: &PublishedSemantic,
    product: &BoundedSemanticFacts,
) -> (outcome: Result<()>)
    ensures
        outcome is Ok <==> metadata_matches(*published, *product) && totals_match(
            *published,
            product.evidence,
        ),
        outcome == reconcile_outcome(*published, *product),
{
    let evidence: &SemanticFactsEvidence = &product.evidence;
    let engagement: u64 = key_count(&evidence.rollups.engagement) as u64;
    let longform: u64 = key_count(&evidence.rollups.longform) as u64;
    let zaps: u64 = key_count(&evidence.rollups.zaps) as u64;
    let metadata: [FieldCheck; 10] = [
        FieldCheck::Same(text_equal(published.snapshot_id.as_str(), evidence.snapshot_id.as_str())),
        FieldCheck::Count {
            field: "semantic metadata as-of",
            stored: published.row.as_of_epoch,
            owed: evidence.as_of_epoch,
        },
        FieldCheck::Same(text_equal(published.product_version.as_str(), SEMANTIC_FACTS_VERSION)),
        FieldCheck::Same(
            text_equal(
                published.evidence_sha256.as_str(),
                product.evidence_sha256.as_str(),
            ),
        ),
        FieldCheck::Same(
            text_equal(
                published.fact_artifact_sha256.as_str(),
                evidence.final_artifact.sha256.as_str(),
            ),
        ),
        FieldCheck::Same(
            text_equal(
                published.rollup_sha256.as_str(),
                evidence.rollup_sha256.as_str(),
            ),
        ),
        FieldCheck::Count {
            field: "semantic metadata events",
            stored: published.row.logical_relevant_events,
            owed: evidence.logical_relevant_events,
        },
        FieldCheck::Count {
            field: "semantic metadata engagement days",
            stored: published.row.engagement_days,
            owed: engagement,
        },
        FieldCheck::Count {
            field: "semantic metadata longform days",
            stored: published.row.longform_days,
            owed: longform,
        },
        FieldCheck::Count {
            field: "semantic metadata zap days",
            stored: published.row.zap_days,
            owed: zaps,
        },
    ];
    proof {
        let s = metadata@;
        assert(s =~= metadata_fields(*published, *product));
        assert(all_agree(s) ==>
            field_agrees(s[0]) && field_agrees(s[1]) && field_agrees(s[2]) && field_agrees(s[3])
            && field_agrees(s[4]) && field_agrees(s[5]) && field_agrees(s[6])
            && field_agrees(s[7]) && field_agrees(s[8]) && field_agrees(s[9]));
    }
    match reconcile_fields(metadata.as_slice(), "semantic product metadata mismatch") {
        Ok(()) => {},
        Err(error) => {
            return Err(error);
        },
    }
    let notes: [FieldCheck; 4] = [
        FieldCheck::Count {
            field: "engagement rows",
            stored: published.engagement_rows,
            owed: engagement,
        },
        FieldCheck::Count {
            field: "original notes",
            stored: published.original_notes,
            owed: evidence.domain_counts.original_notes,
        },
        FieldCheck::Count {
            field: "replies",
            stored: published.replies,
            owed: evidence.domain_counts.replies,
        },
        FieldCheck::Count {
            field: "reactions",
            stored: published.reactions,
            owed: evidence.domain_counts.reactions,
        },
    ];
    proof {
        let s = notes@;
        assert(s =~= engagement_fields(*published, *evidence));
        assert(all_agree(s) ==>
            field_agrees(s[0]) && field_agrees(s[1]) && field_agrees(s[2]) && field_agrees(s[3]));
    }
    match reconcile_fields(notes.as_slice(), "semantic engagement totals mismatch") {
        Ok(()) => {},
        Err(error) => {
            return Err(error);
        },
    }
    let articles: [FieldCheck; 2] = [
        FieldCheck::Count {
            field: "longform rows",
            stored: published.longform_rows,
            owed: longform,
        },
        FieldCheck::Count {
            field: "longform articles",
            stored: published.articles,
            owed: evidence.domain_counts.longform_articles,
        },
    ];
    proof {
        let s = articles@;
        assert(s =~= longform_fields(*published, *evidence));
        assert(all_agree(s) ==> field_agrees(s[0]) && field_agrees(s[1]));
    }
    match reconcile_fields(articles.as_slice(), "semantic long-form totals mismatch") {
        Ok(()) => {},
        Err(error) => {
            return Err(error);
        },
    }
    let amount: u64 = match zap_amount(&evidence.rollups) {
        Ok(amount) => amount,
        Err(error) => {
            return Err(error);
        },
    };
    let buckets: u64 = match zaps.checked_mul(17) {
        Some(rows) => rows,
        None => {
            return Err(Error::Validation("zap histogram rows overflowed"));
        },
    };
    let totals: [FieldCheck; 8] = [
        FieldCheck::Count {
            field: "zap rows",
            stored: published.zap_rows,
            owed: zaps,
        },
        FieldCheck::Count {
            field: "accepted zaps",
            stored: published.accepted,
            owed: evidence.domain_counts.accepted_zaps,
        },
        FieldCheck::Count {
            field: "zap amounts",
            stored: published.amount_msats,
            owed: amount,
        },
        FieldCheck::Count {
            field: "histogram rows",
            stored: published.histogram_rows,
            owed: buckets,
        },
        FieldCheck::Count {
            field: "histogram count",
            stored: published.histogram_count,
            owed: evidence.domain_counts.accepted_zaps,
        },
        FieldCheck::Count {
            field: "histogram amount",
            stored: published.histogram_amount,
            owed: amount,
        },
        FieldCheck::Count {
            field: "rejection rows",
            stored: published.rejection_rows,
            owed: zaps * 6,
        },
        FieldCheck::Count {
            field: "rejected zaps",
            stored: published.rejected,
            owed: evidence.domain_counts.rejected_zaps,
        },
    ];
    proof {
        let s = totals@;
        assert(s =~= zap_fields(*published, *evidence));
        assert(all_agree(s) ==>
            field_agrees(s[0]) && field_agrees(s[1]) && field_agrees(s[2]) && field_agrees(s[3])
            && field_agrees(s[4]) && field_agrees(s[5]) && field_agrees(s[6])
            && field_agrees(s[7]));
    }
    reconcile_fields(totals.as_slice(), "semantic zap totals mismatch")
}

} // verus!
