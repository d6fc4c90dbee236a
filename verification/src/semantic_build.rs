//! Construction of canonical semantic facts and exact additive rollups.

use vstd::prelude::*;
use vstd::string::*;

use crate::artifact::{
    ArtifactIdentity, BatchLimits, InputBatch, InputIdentity, RunCheckpoint, RunIdentity,
};
use crate::batches::{reconcile_duplicates, reconciles, BatchProgress};
use crate::digest::{sha256_hex, sha256_text};
use crate::error::{checked_add, Error, Result};
use crate::input::{CatalogSnapshot, ResolvedSnapshot};
use crate::merge::{estimate_merge_bytes, merge_bytes, MergeOutcome};
use crate::rollups::{one_if, SemanticRollups};
use crate::semantic_totals::{
    lemma_sum_count, lemma_sum_push, lemma_totals_prefix, rollups_match, sum_records, totals_fit,
    SemanticPayload, SemanticRecord,
};
use crate::text::{optional_text, optional_text_equal, text_equal};

verus! {

/// Stable semantic version of the compact fact product.
pub const SEMANTIC_FACTS_VERSION: &'static str = "canonical-semantic-facts-v1";

/// Runner identity of the compact fact product.
pub const SEMANTIC_FACTS_RUNNER_VERSION: &'static str = "pensieve-analytics-semantic-facts-v1";

/// Schema of the completion evidence.
pub const EVIDENCE_SCHEMA_VERSION: u32 = 1;

/// Bytes of one compact fact.
pub const SEMANTIC_FACT_BYTES: usize = 115;

/// Leading bytes of a compact fact that are its event ID.
pub const SEMANTIC_FACT_KEY_BYTES: usize = 32;

/// Resource and workspace settings for one bounded build.
#[derive(Clone, Debug)]
pub struct SemanticFactsConfig {
    /// Dedicated immutable run root.
    pub work_root: String,
    /// Maximum catalog bytes and rows in one scan.
    pub batch_limits: BatchLimits,
    /// Maximum immutable runs opened by one streaming merge.
    pub merge_fan_in: usize,
    /// Free bytes left untouched on the work filesystem.
    pub disk_reserve_bytes: u64,
}

/// Exact domain accounting derived from unique compact facts.
#[derive(Clone, Copy, Debug, PartialEq, Eq, Structural)]
pub struct SemanticDomainCounts {
    /// Kind-1 originals.
    pub original_notes: u64,
    /// Kind-1 replies.
    pub replies: u64,
    /// Kind-7 reactions.
    pub reactions: u64,
    /// Kind-30023 articles.
    pub longform_articles: u64,
    /// Accepted kind-9735 zaps.
    pub accepted_zaps: u64,
    /// Rejected kind-9735 zaps.
    pub rejected_zaps: u64,
}

impl Default for SemanticDomainCounts {
    fn default() -> (counts: Self)
        ensures
            counts.exact_total() == 0,
            counts == (SemanticDomainCounts {
                original_notes: 0,
                replies: 0,
                reactions: 0,
                longform_articles: 0,
                accepted_zaps: 0,
                rejected_zaps: 0,
            }),
    {
        SemanticDomainCounts {
            original_notes: 0,
            replies: 0,
            reactions: 0,
            longform_articles: 0,
            accepted_zaps: 0,
            rejected_zaps: 0,
        }
    }
}

impl SemanticDomainCounts {
    /// Sum of all counts.
    pub open spec fn exact_total(&self) -> int {
        self.original_notes + self.replies + self.reactions + self.longform_articles
            + self.accepted_zaps + self.rejected_zaps
    }

    /// Sum of all counts, or an error where it leaves the `u64` range.
    pub fn total(&self) -> (total: Result<u64>)
        ensures
            self.exact_total() <= u64::MAX ==> total == Ok::<u64, Error>(
                self.exact_total() as u64,
            ),
            self.exact_total() > u64::MAX ==> total == Err::<u64, Error>(
                Error::Invalid("semantic domain total overflowed"),
            ),
    {
        let counts: [u64; 6] = [
            self.original_notes,
            self.replies,
            self.reactions,
            self.longform_articles,
            self.accepted_zaps,
            self.rejected_zaps,
        ];
        let mut total: u64 = 0;
        let mut i: usize = 0;
        while i < 6
            invariant
                i <= 6,
                counts@ == seq![
                    self.original_notes,
                    self.replies,
                    self.reactions,
                    self.longform_articles,
                    self.accepted_zaps,
                    self.rejected_zaps,
                ],
                i == 0 ==> total == 0,
                i == 1 ==> total == self.original_notes,
                i == 2 ==> total == self.original_notes + self.replies,
                i == 3 ==> total == self.original_notes + self.replies + self.reactions,
                i == 4 ==> total == self.original_notes + self.replies + self.reactions
                    + self.longform_articles,
                i == 5 ==> total == self.original_notes + self.replies + self.reactions
                    + self.longform_articles + self.accepted_zaps,
                i == 6 ==> total == self.exact_total(),
            decreases 6 - i,
        {
            match checked_add(total, counts[i], "semantic domain total overflowed") {
                Ok(sum) => {
                    total = sum;
                },
                Err(error) => {
                    return Err(error);
                },
            }
            i += 1;
        }
        Ok(total)
    }
}

/// One for an original note.
pub open spec fn is_original() -> spec_fn(SemanticRecord) -> int {
    |r: SemanticRecord| one_if(r.payload is OriginalNote)
}

/// One for a reply.
pub open spec fn is_reply() -> spec_fn(SemanticRecord) -> int {
    |r: SemanticRecord| one_if(r.payload is Reply)
}

/// One for a reaction.
pub open spec fn is_reaction() -> spec_fn(SemanticRecord) -> int {
    |r: SemanticRecord| one_if(r.payload is Reaction)
}

/// One for an article.
pub open spec fn is_article() -> spec_fn(SemanticRecord) -> int {
    |r: SemanticRecord| one_if(r.payload is Longform)
}

/// One for an accepted zap.
pub open spec fn is_zap() -> spec_fn(SemanticRecord) -> int {
    |r: SemanticRecord| one_if(r.payload is Zap)
}

/// One for a rejected zap.
pub open spec fn is_rejected() -> spec_fn(SemanticRecord) -> int {
    |r: SemanticRecord| one_if(r.payload is RejectedZap)
}

/// The counts are those of the records.
pub open spec fn counts_domains(
    counts: SemanticDomainCounts,
    records: Seq<SemanticRecord>,
) -> bool {
    &&& counts.original_notes == sum_records(records, is_original())
    &&& counts.replies == sum_records(records, is_reply())
    &&& counts.reactions == sum_records(records, is_reaction())
    &&& counts.longform_articles == sum_records(records, is_article())
    &&& counts.accepted_zaps == sum_records(records, is_zap())
    &&& counts.rejected_zaps == sum_records(records, is_rejected())
}

/// Every record falls in exactly one domain.
pub proof fn lemma_domains_partition(counts: SemanticDomainCounts, records: Seq<SemanticRecord>)
    requires
        counts_domains(counts, records),
    ensures
        counts.exact_total() == records.len(),
{
    lemma_domain_sum(records);
}

proof fn lemma_domain_sum(records: Seq<SemanticRecord>)
    ensures
        sum_records(records, is_original()) + sum_records(records, is_reply()) + sum_records(
            records,
            is_reaction(),
        ) + sum_records(records, is_article()) + sum_records(records, is_zap()) + sum_records(
            records,
            is_rejected(),
        ) == records.len(),
    decreases records.len(),
{
    if records.len() > 0 {
        lemma_domain_sum(records.drop_last());
    }
}

/// Derive the rollups and domain counts of unique compact facts.
pub fn finalize(records: &Vec<SemanticRecord>) -> (outcome: Result<
    (SemanticRollups, SemanticDomainCounts),
>)
    ensures
        outcome is Ok <==> totals_fit(records@),
        match outcome {
            Ok((rollups, counts)) => {
                &&& rollups_match(rollups, records@)
                &&& counts_domains(counts, records@)
                &&& counts.exact_total() == records@.len()
            },
            Err(error) => error is Invalid,
        },
{
    let mut rollups: SemanticRollups = SemanticRollups::default();
    let mut counts: SemanticDomainCounts = SemanticDomainCounts::default();
    let mut i: usize = 0;
    assert(records@.take(0) =~= Seq::<SemanticRecord>::empty());
    while i < records.len()
        invariant
            i <= records@.len(),
            rollups_match(rollups, records@.take(i as int)),
            counts_domains(counts, records@.take(i as int)),
        decreases records.len() - i,
    {
        let record: &SemanticRecord = &records[i];
        let ghost earlier = records@.take(i as int);
        proof {
            assert(records@.take(i + 1) =~= earlier.push(*record));
            lemma_sum_push(earlier, *record, is_original());
            lemma_sum_push(earlier, *record, is_reply());
            lemma_sum_push(earlier, *record, is_reaction());
            lemma_sum_push(earlier, *record, is_article());
            lemma_sum_push(earlier, *record, is_zap());
            lemma_sum_push(earlier, *record, is_rejected());
            lemma_sum_count(earlier, is_original());
            lemma_sum_count(earlier, is_reply());
            lemma_sum_count(earlier, is_reaction());
            lemma_sum_count(earlier, is_article());
            lemma_sum_count(earlier, is_zap());
            lemma_sum_count(earlier, is_rejected());
        }
        match rollups.count_record(record, Ghost(earlier)) {
            Ok(()) => {},
            Err(_) => {
                proof {
                    if totals_fit(records@) {
                        let more = records@.take(i + 1);
                        assert forall|day: u64|
                            #![trigger sum_records(
                                more,
                                crate::semantic_totals::content_on(day),
                            )]
                            #![trigger sum_records(
                                more,
                                crate::semantic_totals::amount_on(day),
                            )]
                            sum_records(more, crate::semantic_totals::content_on(day))
                                <= u64::MAX && sum_records(
                                more,
                                crate::semantic_totals::amount_on(day),
                            ) <= u64::MAX by {
                            lemma_totals_prefix(records@, i + 1, day);
                            assert(sum_records(
                                records@,
                                crate::semantic_totals::content_on(day),
                            ) <= u64::MAX);
                        }
                        assert(totals_fit(more));
                    }
                }
                return Err(Error::Invalid("semantic rollup failed"));
            },
        }
        match record.payload {
            SemanticPayload::OriginalNote => {
                counts.original_notes = counts.original_notes + 1;
            },
            SemanticPayload::Reply => {
                counts.replies = counts.replies + 1;
            },
            SemanticPayload::Reaction => {
                counts.reactions = counts.reactions + 1;
            },
            SemanticPayload::Longform { .. } => {
                counts.longform_articles = counts.longform_articles + 1;
            },
            SemanticPayload::Zap { .. } => {
                counts.accepted_zaps = counts.accepted_zaps + 1;
            },
            SemanticPayload::RejectedZap(_) => {
                counts.rejected_zaps = counts.rejected_zaps + 1;
            },
        }
        i += 1;
    }
    proof {
        assert(records@.take(records@.len() as int) =~= records@);
        lemma_domains_partition(counts, records@);
        lemma_matching_rollups_fit(rollups, records@);
    }
    Ok((rollups, counts))
}

/// Totals that the rollups hold fit their counters.
proof fn lemma_matching_rollups_fit(rollups: SemanticRollups, records: Seq<SemanticRecord>)
    requires
        rollups_match(rollups, records),
    ensures
        totals_fit(records),
{
    assert forall|day: u64|
        #![trigger sum_records(records, crate::semantic_totals::content_on(day))]
        #![trigger sum_records(records, crate::semantic_totals::amount_on(day))]
        sum_records(records, crate::semantic_totals::content_on(day)) <= u64::MAX && sum_records(
            records,
            crate::semantic_totals::amount_on(day),
        ) <= u64::MAX by {
        let article = crate::rollups::longform_row(rollups.longform@, day);
        assert(crate::semantic_totals::totals_longform(article, records, day));
        if rollups.zaps@.contains_key(day) {
            assert(crate::semantic_totals::totals_zaps(rollups.zaps@[day], records, day));
        } else {
            lemma_sum_count(records, crate::semantic_totals::zap_event_on(day));
            crate::semantic_totals::lemma_sum_covered(
                records,
                crate::semantic_totals::amount_on(day),
                crate::semantic_totals::zap_event_on(day),
            );
        }
    }
}

/// Measured bounded-state maxima for one completed build.
#[derive(Clone, Copy, Debug, PartialEq, Eq, Structural)]
pub struct SemanticMemoryEvidence {
    /// Maximum compressed catalog bytes assigned to one scan.
    pub max_batch_bytes: u64,
    /// Maximum physical catalog rows assigned to one scan.
    pub max_batch_rows: u64,
    /// Maximum encoded bytes held by a streaming merge.
    pub max_merge_buffered_bytes: usize,
    /// UTC day keys retained for engagement.
    pub engagement_days: usize,
    /// UTC day keys retained for long-form.
    pub longform_days: usize,
    /// UTC day keys retained for zaps.
    pub zap_days: usize,
}

/// Immutable completion evidence for canonical facts and rollups.
#[derive(Clone, Debug, PartialEq, Eq)]
pub struct SemanticFactsEvidence {
    /// Evidence schema version.
    pub schema_version: u32,
    /// Runner implementation identity.
    pub runner_version: String,
    /// Completion state; only `completed` is publishable.
    pub status: String,
    /// Frozen canonical catalog snapshot.
    pub snapshot_id: String,
    /// Fixed analytics boundary.
    pub as_of_epoch: u64,
    /// Catalog objects scanned.
    pub object_count: u64,
    /// Catalog physical rows covered by immutable inputs.
    pub physical_rows: u64,
    /// Relevant physical rows before ID deduplication.
    pub physical_relevant_rows: u64,
    /// Unique relevant semantic event IDs.
    pub logical_relevant_events: u64,
    /// Relevant duplicate rows suppressed across all stages.
    pub duplicate_relevant_rows: u64,
    /// Immutable batch runs.
    pub batch_count: u64,
    /// Immutable merge runs.
    pub merge_count: u64,
    /// Final compact fact artifact.
    pub final_artifact: ArtifactIdentity,
    /// Exact unique domain counts.
    pub domain_counts: SemanticDomainCounts,
    /// Exact additive UTC-day products.
    pub rollups: SemanticRollups,
    /// SHA-256 of canonical rollup JSON bytes.
    pub rollup_sha256: String,
    /// Configured disk reserve.
    pub disk_reserve_bytes: u64,
    /// Bounded-state evidence.
    pub memory: SemanticMemoryEvidence,
    /// Immutable batch checkpoint paths.
    pub batch_checkpoints: Vec<String>,
    /// Immutable merge checkpoint paths.
    pub merge_checkpoints: Vec<String>,
}

/// Completed bounded facts, rollups, and canonical evidence.
pub struct BoundedSemanticFacts {
    /// Final compact fact artifact path.
    pub artifact_path: String,
    /// Fully validated completion evidence.
    pub evidence: SemanticFactsEvidence,
    /// SHA-256 of canonical evidence JSON.
    pub evidence_sha256: String,
}

/// What one batch read and kept.
#[derive(Clone, Debug, PartialEq, Eq)]
pub struct BatchEvidence {
    /// Evidence schema version.
    pub schema_version: u32,
    /// Runner identity.
    pub runner_version: String,
    /// Frozen canonical catalog snapshot.
    pub snapshot_id: String,
    /// Fixed analytics boundary.
    pub as_of_epoch: u64,
    /// Number of the batch.
    pub batch_index: usize,
    /// Inputs of the batch.
    pub inputs: Vec<InputIdentity>,
    /// Relevant rows read.
    pub physical_relevant_rows: u64,
    /// Unique relevant events kept.
    pub logical_relevant_events: u64,
    /// Relevant duplicates suppressed.
    pub duplicate_relevant_rows: u64,
    /// Hexadecimal first event ID.
    pub min_event_id: Option<String>,
    /// Hexadecimal last event ID.
    pub max_event_id: Option<String>,
    /// SHA-256 of the run.
    pub artifact_sha256: String,
}

/// The batch evidence agrees with the batch, its checkpoint and itself.
pub open spec fn batch_evidence_agrees(
    stats: BatchEvidence,
    snapshot_id: Seq<char>,
    as_of_epoch: u64,
    batch: InputBatch,
    checkpoint: RunCheckpoint,
) -> bool {
    &&& stats.schema_version == EVIDENCE_SCHEMA_VERSION
    &&& stats.runner_version@ == SEMANTIC_FACTS_RUNNER_VERSION@
    &&& stats.snapshot_id@ == snapshot_id
    &&& stats.as_of_epoch == as_of_epoch
    &&& stats.batch_index == batch.index
    &&& crate::artifact::same_inputs(stats.inputs@, batch.inputs@)
    &&& stats.logical_relevant_events == checkpoint.artifact.row_count
    &&& optional_text(stats.min_event_id) == optional_text(checkpoint.artifact.min_key)
    &&& optional_text(stats.max_event_id) == optional_text(checkpoint.artifact.max_key)
    &&& stats.artifact_sha256@ == checkpoint.artifact.sha256@
    &&& stats.logical_relevant_events + stats.duplicate_relevant_rows
        == stats.physical_relevant_rows
}

/// Check the evidence of a batch run that is to be reused.
pub fn validate_batch_evidence(
    stats: &BatchEvidence,
    snapshot_id: &str,
    as_of_epoch: u64,
    batch: &InputBatch,
    checkpoint: &RunCheckpoint,
) -> (outcome: Result<()>)
    ensures
        outcome is Ok <==> batch_evidence_agrees(
            *stats,
            snapshot_id@,
            as_of_epoch,
            *batch,
            *checkpoint,
        ),
        outcome is Err ==> outcome->Err_0 is Invalid,
{
    if stats.schema_version != EVIDENCE_SCHEMA_VERSION || !text_equal(
        stats.runner_version.as_str(),
        SEMANTIC_FACTS_RUNNER_VERSION,
    ) || !text_equal(stats.snapshot_id.as_str(), snapshot_id) || stats.as_of_epoch != as_of_epoch
        || stats.batch_index != batch.index || !crate::artifact::inputs_equal(
        &stats.inputs,
        &batch.inputs,
    ) || stats.logical_relevant_events != checkpoint.artifact.row_count || !optional_text_equal(
        &stats.min_event_id,
        &checkpoint.artifact.min_key,
    ) || !optional_text_equal(&stats.max_event_id, &checkpoint.artifact.max_key) || !text_equal(
        stats.artifact_sha256.as_str(),
        checkpoint.artifact.sha256.as_str(),
    ) {
        return Err(
            Error::Invalid("reusable semantic batch evidence does not match its checkpoint"),
        );
    }
    match checked_add(
        stats.logical_relevant_events,
        stats.duplicate_relevant_rows,
        "batch evidence accounting overflowed",
    ) {
        Err(error) => Err(error),
        Ok(total) => {
            if total != stats.physical_relevant_rows {
                Err(
                    Error::Invalid(
                        "reusable semantic batch evidence does not match its checkpoint",
                    ),
                )
            } else {
                Ok(())
            }
        },
    }
}

/// The locations match the objects, and every limit is positive.
pub open spec fn config_fits(
    snapshot: ResolvedSnapshot,
    as_of_epoch: u64,
    config: SemanticFactsConfig,
) -> bool {
    &&& snapshot.locations@.len() == snapshot.catalog.objects@.len()
    &&& as_of_epoch > 0
    &&& config.batch_limits.max_bytes > 0
    &&& config.batch_limits.max_rows > 0
    &&& config.merge_fan_in >= 2
}

/// Check the settings of a build.
pub fn validate_config(
    snapshot: &ResolvedSnapshot,
    as_of_epoch: u64,
    config: &SemanticFactsConfig,
) -> (outcome: Result<()>)
    ensures
        outcome is Ok <==> config_fits(*snapshot, as_of_epoch, *config),
        outcome is Err ==> outcome == Err::<(), Error>(
            if snapshot.locations@.len() != snapshot.catalog.objects@.len() {
                Error::Invalid("semantic snapshot locations do not match objects")
            } else {
                Error::Invalid("semantic build limits and as-of must be positive")
            },
        ),
{
    if snapshot.locations.len() != snapshot.catalog.objects.len() {
        return Err(Error::Invalid("semantic snapshot locations do not match objects"));
    }
    if as_of_epoch == 0 || config.batch_limits.max_bytes == 0 || config.batch_limits.max_rows == 0
        || config.merge_fan_in < 2 {
        return Err(Error::Invalid("semantic build limits and as-of must be positive"));
    }
    Ok(())
}

/// The inputs of a catalog whose objects all have rows.
pub fn catalog_inputs(catalog: &CatalogSnapshot) -> (outcome: Result<Vec<InputIdentity>>)
    ensures
        match outcome {
            Ok(inputs) => {
                &&& forall|i: int|
                    0 <= i < catalog.objects@.len() ==> (#[trigger] catalog.objects@[i]).row_count
                        > 0
                &&& inputs@.len() == catalog.objects@.len()
                &&& forall|i: int|
                    0 <= i < inputs@.len() ==> (#[trigger] inputs@[i])
                        == crate::artifact::object_input(catalog.objects@[i])
            },
            Err(error) => {
                &&& error == Error::Invalid("active semantic input has zero rows")
                &&& exists|i: int|
                    0 <= i < catalog.objects@.len() && (#[trigger] catalog.objects@[i]).row_count
                        == 0
            },
        },
{
    let mut i: usize = 0;
    while i < catalog.objects.len()
        invariant
            i <= catalog.objects@.len(),
            forall|j: int| 0 <= j < i ==> (#[trigger] catalog.objects@[j]).row_count > 0,
        decreases catalog.objects.len() - i,
    {
        if catalog.objects[i].row_count == 0 {
            return Err(Error::Invalid("active semantic input has zero rows"));
        }
        i += 1;
    }
    Ok(crate::artifact::object_inputs(&catalog.objects))
}

/// Bytes that all generations of the runs take.
pub fn estimate_run_bytes(rows: u64, batches: usize, fan_in: usize) -> (bytes: Result<u64>)
    requires
        2 <= fan_in,
    ensures
        ({
            let exact = merge_bytes(rows as int, 115, batches as int, fan_in as int);
            &&& exact <= u64::MAX ==> bytes == Ok::<u64, Error>(exact as u64)
            &&& exact > u64::MAX ==> bytes == Err::<u64, Error>(
                Error::Invalid("semantic disk estimate overflowed"),
            )
        }),
{
    estimate_merge_bytes(
        rows,
        SEMANTIC_FACT_BYTES as u64,
        batches,
        fan_in,
        "semantic disk estimate overflowed",
    )
}

/// The identity of one stage of the build.
pub fn run_identity(snapshot_id: &str, as_of_epoch: u64, stage: &str) -> (run: RunIdentity)
    ensures
        crate::runs::identifies_stage(
            run,
            snapshot_id@,
            as_of_epoch,
            "canonical-semantic-facts"@ + "-"@ + stage@,
            SEMANTIC_FACTS_VERSION@,
            "event-id-32-semantic-fixed-115-v1"@,
        ),
{
    crate::runs::stage_identity(
        snapshot_id,
        as_of_epoch,
        "canonical-semantic-facts",
        stage,
        SEMANTIC_FACTS_VERSION,
        "event-id-32-semantic-fixed-115-v1",
    )
}

/// The merged facts account for every relevant row, and the domains for every
/// fact.
pub open spec fn facts_reconcile(
    progress: BatchProgress,
    merged: MergeOutcome,
    counts: SemanticDomainCounts,
) -> bool {
    let logical = merged.final_run.checkpoint.artifact.row_count;
    &&& reconciles(
        progress.physical_rows,
        logical,
        progress.duplicate_rows,
        merged.duplicate_rows,
    )
    &&& counts.exact_total() == logical
}

/// The evidence reports the build.
pub open spec fn completes_facts(
    evidence: SemanticFactsEvidence,
    snapshot: ResolvedSnapshot,
    as_of_epoch: u64,
    config: SemanticFactsConfig,
    batch_count: usize,
    progress: BatchProgress,
    merged: MergeOutcome,
    rollups: SemanticRollups,
    counts: SemanticDomainCounts,
    rollup_json: Seq<u8>,
) -> bool {
    let logical = merged.final_run.checkpoint.artifact.row_count;
    &&& evidence.schema_version == EVIDENCE_SCHEMA_VERSION
    &&& evidence.runner_version@ == SEMANTIC_FACTS_RUNNER_VERSION@
    &&& evidence.status@ == "completed"@
    &&& evidence.snapshot_id == snapshot.catalog.snapshot_id
    &&& evidence.as_of_epoch == as_of_epoch
    &&& evidence.object_count == snapshot.catalog.objects@.len()
    &&& evidence.physical_rows == snapshot.catalog.physical_rows
    &&& evidence.physical_relevant_rows == progress.physical_rows
    &&& evidence.logical_relevant_events == logical
    &&& evidence.duplicate_relevant_rows == progress.physical_rows - logical
    &&& evidence.batch_count == batch_count
    &&& evidence.merge_count == merged.merge_count
    &&& evidence.final_artifact == merged.final_run.checkpoint.artifact
    &&& evidence.domain_counts == counts
    &&& evidence.rollups == rollups
    &&& evidence.rollup_sha256@ == sha256_text(rollup_json)
    &&& evidence.disk_reserve_bytes == config.disk_reserve_bytes
    &&& evidence.memory == (SemanticMemoryEvidence {
        max_batch_bytes: progress.max_batch_bytes,
        max_batch_rows: progress.max_batch_rows,
        max_merge_buffered_bytes: merged.max_buffered_bytes,
        engagement_days: rollups.engagement@.dom().len() as usize,
        longform_days: rollups.longform@.dom().len() as usize,
        zap_days: rollups.zaps@.dom().len() as usize,
    })
    &&& evidence.batch_checkpoints@ == progress.checkpoints@
    &&& evidence.merge_checkpoints@ == merged.checkpoints@
}

/// The evidence of a build whose facts reconcile.
///
/// `rollup_json` is the canonical JSON of the rollups.
pub fn complete_semantic_facts(
    snapshot: &ResolvedSnapshot,
    as_of_epoch: u64,
    config: &SemanticFactsConfig,
    batch_count: usize,
    progress: BatchProgress,
    merged: MergeOutcome,
    rollups: SemanticRollups,
    counts: SemanticDomainCounts,
    rollup_json: &[u8],
) -> (outcome: Result<SemanticFactsEvidence>)
    ensures
        outcome is Ok <==> facts_reconcile(progress, merged, counts),
        match outcome {
            Ok(evidence) => completes_facts(
                evidence,
                *snapshot,
                as_of_epoch,
                *config,
                batch_count,
                progress,
                merged,
                rollups,
                counts,
                rollup_json@,
            ),
            Err(error) => error is Invalid,
        },
{
    let logical: u64 = merged.final_run.checkpoint.artifact.row_count;
    let duplicates: u64 = match reconcile_duplicates(
        progress.physical_rows,
        logical,
        progress.duplicate_rows,
        merged.duplicate_rows,
    ) {
        Ok(rows) => rows,
        Err(error) => {
            return Err(error);
        },
    };
    match counts.total() {
        Err(error) => {
            return Err(error);
        },
        Ok(total) => {
            if total != logical {
                return Err(
                    Error::Invalid("semantic domain counts do not reconcile to unique facts"),
                );
            }
        },
    }
    let memory: SemanticMemoryEvidence = SemanticMemoryEvidence {
        max_batch_bytes: progress.max_batch_bytes,
        max_batch_rows: progress.max_batch_rows,
        max_merge_buffered_bytes: merged.max_buffered_bytes,
        engagement_days: crate::ordered::key_count(&rollups.engagement),
        longform_days: crate::ordered::key_count(&rollups.longform),
        zap_days: crate::ordered::key_count(&rollups.zaps),
    };
    Ok(
        SemanticFactsEvidence {
            schema_version: EVIDENCE_SCHEMA_VERSION,
            runner_version: SEMANTIC_FACTS_RUNNER_VERSION.to_owned(),
            status: "completed".to_owned(),
            snapshot_id: snapshot.catalog.snapshot_id.clone(),
            as_of_epoch,
            object_count: snapshot.catalog.objects.len() as u64,
            physical_rows: snapshot.catalog.physical_rows,
            physical_relevant_rows: progress.physical_rows,
            logical_relevant_events: logical,
            duplicate_relevant_rows: duplicates,
            batch_count: batch_count as u64,
            merge_count: merged.merge_count,
            final_artifact: merged.final_run.checkpoint.artifact,
            domain_counts: counts,
            rollups,
            rollup_sha256: sha256_hex(rollup_json),
            disk_reserve_bytes: config.disk_reserve_bytes,
            memory,
            batch_checkpoints: progress.checkpoints,
            merge_checkpoints: merged.checkpoints,
        },
    )
}

} // verus!
