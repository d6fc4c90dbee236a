//! Publication of one deterministic run behind the current-run pointer.
//!
//! All of a run commits in one transaction under one lock. What the ledger
//! holds comes in as plain values; what the run is called, whether it may be
//! written and whether it was written in full are decided here.

use vstd::prelude::*;
use vstd::string::*;

use crate::activity_tables::{ActiveUsersPeriod, DistinctPubkeysPeriod};
use crate::artifact::CatalogObject;
use crate::bytes::{be_bytes, push_be, push_bytes};
use crate::digest::sha256_text;
use crate::error::{to_i64, Error, Result};
use crate::fixed_activity::BoundedFixedActivity;
use crate::products::{
    BoundedCohortRetention, CohortRetentionPeriod, Generation, PublicationProducts,
};
use crate::pubkey_first_seen::BoundedPubkeyFirstSeen;
use crate::publication::{
    all_agree, all_fit, columns_error, field_agrees, reconcile_totals, to_columns, totals_outcome,
    FieldCheck, NamedCount,
};
use crate::publisher_publish::{kind_column_text, push_kind};
use crate::runs::{append_parts, digest_from, text_bytes, text_views};
use crate::text::{copy_optional, decimal, optional_text, push_decimal, text_equal};

verus! {

/// Key of the lock that one publication holds.
pub const PUBLICATION_LOCK_ID: i64 = 8_056_718_693_194_101_224;

/// Result of attempting to publish a deterministic run.
#[derive(Clone, Debug, PartialEq, Eq)]
pub enum PublishOutcome {
    /// A new run was staged, validated, and made current.
    Published {
        /// Deterministic analytics run identifier.
        run_id: String,
        /// Previously current run, if any.
        previous_run_id: Option<String>,
    },
    /// The same run was already the complete current run.
    AlreadyCurrent {
        /// Deterministic analytics run identifier.
        run_id: String,
    },
}

/// The query versions, by the most that a run holds.
#[derive(Clone, Copy)]
pub struct QueryVersions<'a> {
    /// Event counts alone.
    pub base: &'a str,
    /// With the first-seen product.
    pub identity: &'a str,
    /// With the activity product.
    pub activity: &'a str,
    /// With the cohort product.
    pub cohort: &'a str,
}

/// The query version of a run with these products.
pub open spec fn version_of(versions: QueryVersions, products: PublicationProducts) -> Seq<char> {
    if products.cohort is Some {
        versions.cohort@
    } else if products.activity is Some {
        versions.activity@
    } else if products.identity is Some {
        versions.identity@
    } else {
        versions.base@
    }
}

/// The query version of a run with these products.
pub fn query_version<'a>(versions: QueryVersions<'a>, products: &PublicationProducts) -> (version:
    &'a str)
    ensures
        version@ == version_of(versions, *products),
{
    if products.cohort.is_some() {
        versions.cohort
    } else if products.activity.is_some() {
        versions.activity
    } else if products.identity.is_some() {
        versions.identity
    } else {
        versions.base
    }
}

/// Digests of the first-seen product that a run identity covers.
pub open spec fn identity_parts(product: BoundedPubkeyFirstSeen) -> Seq<Seq<char>> {
    seq![
        product.evidence_sha256@,
        product.evidence.metric_sha256@,
        product.evidence.final_artifact.sha256@,
    ]
}

/// Digests of the activity product that a run identity covers.
pub open spec fn activity_parts(product: BoundedFixedActivity) -> Seq<Seq<char>> {
    seq![
        product.evidence_sha256@,
        product.evidence.metric_sha256@,
        product.evidence.activity_artifact.sha256@,
        product.evidence.flags_artifact.sha256@,
    ]
}

/// Digests of the cohort product that a run identity covers.
pub open spec fn cohort_parts(product: BoundedCohortRetention) -> Seq<Seq<char>> {
    seq![
        product.evidence_sha256@,
        product.evidence.metric_sha256@,
        product.evidence.identity_evidence_sha256@,
        product.evidence.activity_evidence_sha256@,
    ]
}

/// The texts that a run identity covers after its boundary.
pub open spec fn run_parts(
    versions: QueryVersions,
    code_version: Seq<char>,
    products: PublicationProducts,
) -> Seq<Seq<char>> {
    seq![version_of(versions, products), code_version] + if products.identity is Some {
        identity_parts(*products.identity->0)
    } else {
        Seq::empty()
    } + if products.activity is Some {
        activity_parts(*products.activity->0)
    } else {
        Seq::empty()
    } + if products.cohort is Some {
        cohort_parts(*products.cohort->0)
    } else {
        Seq::empty()
    }
}

/// What a run identity covers.
pub open spec fn run_message(
    generation: Generation,
    versions: QueryVersions,
    code_version: Seq<char>,
    products: PublicationProducts,
) -> Seq<u8> {
    append_parts(
        text_bytes(generation.snapshot_id@).push(0u8) + be_bytes(
            generation.as_of_epoch as nat,
            8,
        ),
        run_parts(versions, code_version, products),
    )
}

/// The deterministic identity of a run.
pub fn run_id(
    generation: Generation,
    versions: QueryVersions,
    code_version: &str,
    products: &PublicationProducts,
) -> (identity: String)
    ensures
        identity@ == sha256_text(run_message(generation, versions, code_version@, *products)),
        identity@.len() == 64,
{
    let mut head: Vec<u8> = Vec::new();
    push_bytes(&mut head, generation.snapshot_id.as_bytes());
    head.push(0u8);
    push_be(&mut head, generation.as_of_epoch, 8);
    assert(head@ =~= text_bytes(generation.snapshot_id@).push(0u8) + be_bytes(
        generation.as_of_epoch as nat,
        8,
    ));
    let mut parts: Vec<&str> = Vec::new();
    parts.push(query_version(versions, products));
    parts.push(code_version);
    if let Some(product) = products.identity {
        parts.push(product.evidence_sha256.as_str());
        parts.push(product.evidence.metric_sha256.as_str());
        parts.push(product.evidence.final_artifact.sha256.as_str());
    }
    if let Some(product) = products.activity {
        parts.push(product.evidence_sha256.as_str());
        parts.push(product.evidence.metric_sha256.as_str());
        parts.push(product.evidence.activity_artifact.sha256.as_str());
        parts.push(product.evidence.flags_artifact.sha256.as_str());
    }
    if let Some(product) = products.cohort {
        parts.push(product.evidence_sha256.as_str());
        parts.push(product.evidence.metric_sha256.as_str());
        parts.push(product.evidence.identity_evidence_sha256.as_str());
        parts.push(product.evidence.activity_evidence_sha256.as_str());
    }
    assert(text_views(parts@) =~= run_parts(versions, code_version@, *products));
    digest_from(head.as_slice(), parts.as_slice())
}

/// What a publication does next.
#[derive(Clone, Copy, Debug, PartialEq, Eq, Structural)]
pub enum PublicationStep {
    /// The run is current: hold what is stored against the products.
    Reconcile,
    /// The run is new: write it and make it current.
    Insert,
}

/// How a publication is answered.
#[derive(Clone, Copy, Debug, PartialEq, Eq, Structural)]
pub enum Verdict {
    /// The run is current already.
    Reconcile,
    /// The run is written and becomes current.
    Insert,
    /// The run was superseded.
    Stale,
    /// The current run is not the one that the build started from.
    BaselineChanged,
}

/// How the publication of a run is answered: `published` holds the runs that
/// are stored, and `expected` the run that the build started from, if any.
pub open spec fn verdict(
    run_id: Seq<char>,
    published: Set<Seq<char>>,
    current: Option<Seq<char>>,
    expected: Option<Seq<char>>,
) -> Verdict {
    if published.contains(run_id) {
        if current == Some(run_id) {
            Verdict::Reconcile
        } else {
            Verdict::Stale
        }
    } else if expected is Some && current != expected {
        Verdict::BaselineChanged
    } else {
        Verdict::Insert
    }
}

/// The runs that are stored after a publication was answered.
pub open spec fn published_after(
    answer: Verdict,
    run_id: Seq<char>,
    published: Set<Seq<char>>,
) -> Set<Seq<char>> {
    if answer is Insert {
        published.insert(run_id)
    } else {
        published
    }
}

/// The run that is current after a publication was answered.
pub open spec fn current_after(
    answer: Verdict,
    run_id: Seq<char>,
    current: Option<Seq<char>>,
) -> Option<Seq<char>> {
    if answer is Insert {
        Some(run_id)
    } else {
        current
    }
}

/// The text of an optional expectation.
pub open spec fn expected_text(expected: Option<&str>) -> Option<Seq<char>> {
    match expected {
        Some(text) => Some(text@),
        None => None,
    }
}

/// The answer to the publication of a run, for all runs that may be stored.
pub open spec fn decides(
    run_id: Seq<char>,
    stored: bool,
    current: Option<String>,
    expected: Option<&str>,
    outcome: Result<PublicationStep>,
) -> bool {
    forall|published: Set<Seq<char>>| #[trigger]
        published.contains(run_id) == stored ==> match verdict(
            run_id,
            published,
            optional_text(current),
            expected_text(expected),
        ) {
            Verdict::Reconcile => outcome == Ok::<PublicationStep, Error>(
                PublicationStep::Reconcile,
            ),
            Verdict::Insert => outcome == Ok::<PublicationStep, Error>(
                PublicationStep::Insert,
            ),
            Verdict::Stale => outcome is Err && outcome->Err_0 is StalePublishedRun
                && outcome->Err_0->StalePublishedRun_0@ == run_id,
            Verdict::BaselineChanged => outcome is Err
                && outcome->Err_0 is PublicationBaselineChanged && optional_text(
                outcome->Err_0->PublicationBaselineChanged_expected,
            ) == expected_text(expected) && optional_text(
                outcome->Err_0->PublicationBaselineChanged_actual,
            ) == optional_text(current),
        }
}

/// Decide what a publication does: `stored` says whether a run of this
/// identity is stored, `current` which run is current.
pub fn decide_publication(
    run_id: &str,
    stored: bool,
    current: &Option<String>,
    expected: Option<&str>,
) -> (outcome: Result<PublicationStep>)
    ensures
        decides(run_id@, stored, *current, expected, outcome),
{
    if stored {
        let is_current: bool = match current {
            Some(current) => text_equal(current.as_str(), run_id),
            None => false,
        };
        if is_current {
            return Ok(PublicationStep::Reconcile);
        }
        return Err(Error::StalePublishedRun(run_id.to_owned()));
    }
    if let Some(expected) = expected {
        let same: bool = match current {
            Some(current) => text_equal(current.as_str(), expected),
            None => false,
        };
        if !same {
            return Err(
                Error::PublicationBaselineChanged {
                    expected: Some(expected.to_owned()),
                    actual: copy_optional(current),
                },
            );
        }
    }
    Ok(PublicationStep::Insert)
}

/// The outcome of a publication that committed.
pub fn finish_publication(step: PublicationStep, run_id: String, previous: Option<String>) -> (
    outcome: PublishOutcome)
    ensures
        outcome == match step {
            PublicationStep::Reconcile => PublishOutcome::AlreadyCurrent { run_id },
            PublicationStep::Insert => PublishOutcome::Published {
                run_id,
                previous_run_id: previous,
            },
        },
{
    match step {
        PublicationStep::Reconcile => PublishOutcome::AlreadyCurrent { run_id },
        PublicationStep::Insert => PublishOutcome::Published { run_id, previous_run_id: previous },
    }
}

/// Publishing a run again once it was published changes nothing, whatever it
/// was expected to start from.
pub proof fn lemma_publication_is_idempotent(
    run_id: Seq<char>,
    published: Set<Seq<char>>,
    current: Option<Seq<char>>,
    expected: Option<Seq<char>>,
    expected_again: Option<Seq<char>>,
)
    requires
        ({
            let answer = verdict(run_id, published, current, expected);
            answer is Insert || answer is Reconcile
        }),
    ensures
        ({
            let answer = verdict(run_id, published, current, expected);
            let published_now = published_after(answer, run_id, published);
            let current_now = current_after(answer, run_id, current);
            let again = verdict(run_id, published_now, current_now, expected_again);
            &&& current_now == Some(run_id)
            &&& again is Reconcile
            &&& published_after(again, run_id, published_now) == published_now
            &&& current_after(again, run_id, current_now) == current_now
        }),
{
}

/// A publication that is refused leaves the stored runs and the current run as
/// they are.
pub proof fn lemma_refusal_keeps_the_current_run(
    run_id: Seq<char>,
    published: Set<Seq<char>>,
    current: Option<Seq<char>>,
    expected: Option<Seq<char>>,
)
    requires
        ({
            let answer = verdict(run_id, published, current, expected);
            answer is Stale || answer is BaselineChanged
        }),
    ensures
        ({
            let answer = verdict(run_id, published, current, expected);
            &&& published_after(answer, run_id, published) == published
            &&& current_after(answer, run_id, current) == current
        }),
{
}

/// A superseded run stays superseded: no later publication makes it current
/// again, and its own is refused.
pub proof fn lemma_superseded_run_stays_stale(
    run_id: Seq<char>,
    other: Seq<char>,
    published: Set<Seq<char>>,
    current: Option<Seq<char>>,
    expected: Option<Seq<char>>,
    expected_other: Option<Seq<char>>,
)
    requires
        published.contains(run_id),
        current != Some(run_id),
    ensures
        verdict(run_id, published, current, expected) is Stale,
        ({
            let answer = verdict(other, published, current, expected_other);
            &&& published_after(answer, other, published).contains(run_id)
            &&& current_after(answer, other, current) != Some(run_id)
        }),
{
}

/// An incremental run becomes current only in place of the run that it was
/// built from.
pub proof fn lemma_incremental_run_follows_its_baseline(
    run_id: Seq<char>,
    published: Set<Seq<char>>,
    current: Option<Seq<char>>,
    expected: Option<Seq<char>>,
)
    requires
        expected is Some,
        verdict(run_id, published, current, expected) is Insert,
    ensures
        current == expected,
{
}

/// What a build counted.
#[derive(Clone, Copy, Debug, PartialEq, Eq, Structural)]
pub struct BuildSummary {
    /// Physical rows scanned.
    pub physical_rows: u64,
    /// Unique event IDs.
    pub logical_events: u64,
    /// Physical rows that repeat an event.
    pub duplicate_rows: u64,
    /// Events whose time the API can represent.
    pub api_representable_events: u64,
    /// Daily rows.
    pub event_daily_rows: u64,
    /// Daily rows of one kind.
    pub event_daily_kind_rows: u64,
    /// All-time rows of one kind.
    pub kind_all_time_rows: u64,
}

/// Publishers that the first-seen product serves.
pub open spec fn eligible_pubkeys(products: PublicationProducts) -> u64 {
    if products.identity is Some {
        products.identity->0.evidence.eligible_pubkeys
    } else {
        0
    }
}

/// Rows of the first-seen product.
pub open spec fn new_users_rows(products: PublicationProducts) -> int {
    if products.identity is Some {
        products.identity->0.evidence.new_users_daily@.len() as int
    } else {
        0
    }
}

/// Distinct rows of the activity product.
pub open spec fn distinct_rows(products: PublicationProducts) -> u64 {
    if products.activity is Some {
        products.activity->0.evidence.distinct_period_rows
    } else {
        0
    }
}

/// Active-user rows of the activity product.
pub open spec fn active_rows(products: PublicationProducts) -> u64 {
    if products.activity is Some {
        products.activity->0.evidence.active_period_rows
    } else {
        0
    }
}

/// Rows of the cohort product.
pub open spec fn cohort_rows(products: PublicationProducts) -> u64 {
    if products.cohort is Some {
        products.cohort->0.evidence.period_rows
    } else {
        0
    }
}

/// Sizes of the products that a run records; a product that does not take part
/// has none.
#[derive(Clone, Copy, Debug, PartialEq, Eq, Structural)]
pub struct ProductSizes {
    /// Publishers that the first-seen product serves.
    pub eligible_pubkeys: u64,
    /// Rows of the first-seen product.
    pub new_users_daily_rows: u64,
    /// Distinct rows of the activity product.
    pub distinct_pubkeys_period_rows: u64,
    /// Active-user rows of the activity product.
    pub active_users_period_rows: u64,
    /// Rows of the cohort product.
    pub cohort_retention_rows: u64,
}

/// The sizes of the products; one that does not take part has none.
pub open spec fn sizes_of(products: PublicationProducts) -> ProductSizes {
    ProductSizes {
        eligible_pubkeys: eligible_pubkeys(products),
        new_users_daily_rows: new_users_rows(products) as u64,
        distinct_pubkeys_period_rows: distinct_rows(products),
        active_users_period_rows: active_rows(products),
        cohort_retention_rows: cohort_rows(products),
    }
}

/// The sizes of the products of a run.
pub fn product_sizes(products: &PublicationProducts) -> (sizes: ProductSizes)
    ensures
        sizes == sizes_of(*products),
        sizes.new_users_daily_rows == new_users_rows(*products),
{
    let mut sizes: ProductSizes = ProductSizes {
        eligible_pubkeys: 0,
        new_users_daily_rows: 0,
        distinct_pubkeys_period_rows: 0,
        active_users_period_rows: 0,
        cohort_retention_rows: 0,
    };
    if let Some(product) = products.identity {
        sizes.eligible_pubkeys = product.evidence.eligible_pubkeys;
        sizes.new_users_daily_rows = product.evidence.new_users_daily.len() as u64;
    }
    if let Some(product) = products.activity {
        sizes.distinct_pubkeys_period_rows = product.evidence.distinct_period_rows;
        sizes.active_users_period_rows = product.evidence.active_period_rows;
    }
    if let Some(product) = products.cohort {
        sizes.cohort_retention_rows = product.evidence.period_rows;
    }
    sizes
}

/// The numeric columns of a run.
#[derive(Clone, Copy, Debug, PartialEq, Eq, Structural)]
pub struct RunRow {
    /// Fixed analytics boundary.
    pub as_of_epoch: i64,
    /// Physical rows scanned.
    pub physical_rows: i64,
    /// Unique event IDs.
    pub logical_events: i64,
    /// Physical rows that repeat an event.
    pub duplicate_rows: i64,
    /// Events whose time the API can represent.
    pub api_representable_events: i64,
    /// Daily rows.
    pub event_daily_rows: i64,
    /// Daily rows of one kind.
    pub event_daily_kind_rows: i64,
    /// All-time rows of one kind.
    pub kind_all_time_rows: i64,
    /// Publishers that the first-seen product serves.
    pub eligible_pubkeys: i64,
    /// Rows of the first-seen product.
    pub new_users_daily_rows: i64,
    /// Distinct rows of the activity product.
    pub distinct_pubkeys_period_rows: i64,
    /// Active-user rows of the activity product.
    pub active_users_period_rows: i64,
    /// Rows of the cohort product.
    pub cohort_retention_rows: i64,
}

/// Every number of the run fits a signed column.
pub open spec fn run_fits(as_of_epoch: u64, summary: BuildSummary, sizes: ProductSizes) -> bool {
    &&& as_of_epoch <= i64::MAX
    &&& summary.physical_rows <= i64::MAX
    &&& summary.logical_events <= i64::MAX
    &&& summary.duplicate_rows <= i64::MAX
    &&& summary.api_representable_events <= i64::MAX
    &&& summary.event_daily_rows <= i64::MAX
    &&& summary.event_daily_kind_rows <= i64::MAX
    &&& summary.kind_all_time_rows <= i64::MAX
    &&& sizes.eligible_pubkeys <= i64::MAX
    &&& sizes.new_users_daily_rows <= i64::MAX
    &&& sizes.distinct_pubkeys_period_rows <= i64::MAX
    &&& sizes.active_users_period_rows <= i64::MAX
    &&& sizes.cohort_retention_rows <= i64::MAX
}

/// The counts of a run, by column.
pub open spec fn run_counts(
    as_of_epoch: u64,
    summary: BuildSummary,
    sizes: ProductSizes,
) -> Seq<NamedCount> {
    seq![
        NamedCount { field: "as_of_epoch", value: as_of_epoch },
        NamedCount { field: "physical_rows", value: summary.physical_rows },
        NamedCount { field: "logical_events", value: summary.logical_events },
        NamedCount { field: "duplicate_rows", value: summary.duplicate_rows },
        NamedCount { field: "api_representable_events", value: summary.api_representable_events },
        NamedCount { field: "event_daily_rows", value: summary.event_daily_rows },
        NamedCount { field: "event_daily_kind_rows", value: summary.event_daily_kind_rows },
        NamedCount { field: "kind_all_time_rows", value: summary.kind_all_time_rows },
        NamedCount { field: "eligible_pubkeys", value: sizes.eligible_pubkeys },
        NamedCount { field: "new_users_daily_rows", value: sizes.new_users_daily_rows },
        NamedCount { field: "distinct_pubkeys_period_rows", value: sizes.distinct_pubkeys_period_rows },
        NamedCount { field: "active_users_period_rows", value: sizes.active_users_period_rows },
        NamedCount { field: "cohort_retention_rows", value: sizes.cohort_retention_rows },
    ]
}

/// The columns hold the counts of the run.
pub open spec fn is_run_row(
    row: RunRow,
    as_of_epoch: u64,
    summary: BuildSummary,
    sizes: ProductSizes,
) -> bool {
    &&& row.as_of_epoch == as_of_epoch
    &&& row.physical_rows == summary.physical_rows
    &&& row.logical_events == summary.logical_events
    &&& row.duplicate_rows == summary.duplicate_rows
    &&& row.api_representable_events == summary.api_representable_events
    &&& row.event_daily_rows == summary.event_daily_rows
    &&& row.event_daily_kind_rows == summary.event_daily_kind_rows
    &&& row.kind_all_time_rows == summary.kind_all_time_rows
    &&& row.eligible_pubkeys == sizes.eligible_pubkeys
    &&& row.new_users_daily_rows == sizes.new_users_daily_rows
    &&& row.distinct_pubkeys_period_rows == sizes.distinct_pubkeys_period_rows
    &&& row.active_users_period_rows == sizes.active_users_period_rows
    &&& row.cohort_retention_rows == sizes.cohort_retention_rows
}

/// The numeric columns of a run.
pub fn run_row(as_of_epoch: u64, summary: BuildSummary, sizes: ProductSizes) -> (outcome: Result<
    RunRow,
>)
    ensures
        outcome is Ok <==> run_fits(as_of_epoch, summary, sizes),
        match outcome {
            Ok(row) => is_run_row(row, as_of_epoch, summary, sizes),
            Err(error) => error == columns_error(run_counts(as_of_epoch, summary, sizes)),
        },
{
    let counts: [NamedCount; 13] = [
        NamedCount { field: "as_of_epoch", value: as_of_epoch },
        NamedCount { field: "physical_rows", value: summary.physical_rows },
        NamedCount { field: "logical_events", value: summary.logical_events },
        NamedCount { field: "duplicate_rows", value: summary.duplicate_rows },
        NamedCount { field: "api_representable_events", value: summary.api_representable_events },
        NamedCount { field: "event_daily_rows", value: summary.event_daily_rows },
        NamedCount { field: "event_daily_kind_rows", value: summary.event_daily_kind_rows },
        NamedCount { field: "kind_all_time_rows", value: summary.kind_all_time_rows },
        NamedCount { field: "eligible_pubkeys", value: sizes.eligible_pubkeys },
        NamedCount { field: "new_users_daily_rows", value: sizes.new_users_daily_rows },
        NamedCount { field: "distinct_pubkeys_period_rows", value: sizes.distinct_pubkeys_period_rows },
        NamedCount { field: "active_users_period_rows", value: sizes.active_users_period_rows },
        NamedCount { field: "cohort_retention_rows", value: sizes.cohort_retention_rows },
    ];
    proof {
        let s = counts@;
        assert(s =~= run_counts(as_of_epoch, summary, sizes));
        assert(all_fit(s) ==>
            s[0].value <= i64::MAX && s[1].value <= i64::MAX && s[2].value <= i64::MAX
            && s[3].value <= i64::MAX && s[4].value <= i64::MAX && s[5].value <= i64::MAX
            && s[6].value <= i64::MAX && s[7].value <= i64::MAX && s[8].value <= i64::MAX
            && s[9].value <= i64::MAX && s[10].value <= i64::MAX && s[11].value <= i64::MAX
            && s[12].value <= i64::MAX);
    }
    match to_columns(counts.as_slice()) {
        Ok(columns) => Ok(
            RunRow {
                as_of_epoch: columns[0],
                physical_rows: columns[1],
                logical_events: columns[2],
                duplicate_rows: columns[3],
                api_representable_events: columns[4],
                event_daily_rows: columns[5],
                event_daily_kind_rows: columns[6],
                kind_all_time_rows: columns[7],
                eligible_pubkeys: columns[8],
                new_users_daily_rows: columns[9],
                distinct_pubkeys_period_rows: columns[10],
                active_users_period_rows: columns[11],
                cohort_retention_rows: columns[12],
            },
        ),
        Err(error) => Err(error),
    }
}

/// The counts of an overview.
#[derive(Clone, Copy, Debug, PartialEq, Eq, Structural)]
pub struct OverviewCounts {
    /// Unique event IDs.
    pub total_events: u64,
    /// Events whose time the API can represent.
    pub api_representable_events: u64,
    /// Events of the last seven days.
    pub events_7d: u64,
    /// Kinds of the last thirty days.
    pub kinds_30d: u64,
    /// Second of the earliest event.
    pub earliest_event: u32,
    /// Second of the latest event.
    pub latest_event: u32,
}

/// The numeric columns of an overview.
#[derive(Clone, Copy, Debug, PartialEq, Eq, Structural)]
pub struct OverviewRow {
    /// Unique event IDs.
    pub total_events: i64,
    /// Publishers that the first-seen product serves.
    pub total_pubkeys: i64,
    /// Events whose time the API can represent.
    pub api_representable_events: i64,
    /// Events of the last seven days.
    pub events_7d: i64,
    /// Kinds of the last thirty days.
    pub kinds_30d: i64,
    /// Second of the earliest event.
    pub earliest_event: i64,
    /// Second of the latest event.
    pub latest_event: i64,
}

/// The counts of an overview, by column.
pub open spec fn overview_counts(
    overview: OverviewCounts,
    eligible_pubkeys: u64,
) -> Seq<NamedCount> {
    seq![
        NamedCount { field: "total_events", value: overview.total_events },
        NamedCount { field: "total_pubkeys", value: eligible_pubkeys },
        NamedCount { field: "api_representable_events", value: overview.api_representable_events },
        NamedCount { field: "events_7d", value: overview.events_7d },
        NamedCount { field: "kinds_30d", value: overview.kinds_30d },
    ]
}

/// Every count of the overview fits its column.
pub open spec fn overview_fits(overview: OverviewCounts, eligible_pubkeys: u64) -> bool {
    &&& overview.total_events <= i64::MAX
    &&& eligible_pubkeys <= i64::MAX
    &&& overview.api_representable_events <= i64::MAX
    &&& overview.events_7d <= i64::MAX
    &&& overview.kinds_30d <= i64::MAX
}

/// The columns hold the counts of the overview.
pub open spec fn is_overview_row(
    row: OverviewRow,
    overview: OverviewCounts,
    eligible_pubkeys: u64,
) -> bool {
    &&& row.total_events == overview.total_events
    &&& row.total_pubkeys == eligible_pubkeys
    &&& row.api_representable_events == overview.api_representable_events
    &&& row.events_7d == overview.events_7d
    &&& row.kinds_30d == overview.kinds_30d
    &&& row.earliest_event == overview.earliest_event
    &&& row.latest_event == overview.latest_event
}

/// The numeric columns of an overview.
pub fn overview_row(overview: OverviewCounts, eligible_pubkeys: u64) -> (outcome: Result<
    OverviewRow,
>)
    ensures
        outcome is Ok <==> overview_fits(overview, eligible_pubkeys),
        match outcome {
            Ok(row) => is_overview_row(row, overview, eligible_pubkeys),
            Err(error) => error == columns_error(overview_counts(overview, eligible_pubkeys)),
        },
{
    let counts: [NamedCount; 5] = [
        NamedCount { field: "total_events", value: overview.total_events },
        NamedCount { field: "total_pubkeys", value: eligible_pubkeys },
        NamedCount {
            field: "api_representable_events",
            value: overview.api_representable_events,
        },
        NamedCount { field: "events_7d", value: overview.events_7d },
        NamedCount { field: "kinds_30d", value: overview.kinds_30d },
    ];
    proof {
        let s = counts@;
        assert(s =~= overview_counts(overview, eligible_pubkeys));
        assert(all_fit(s) ==> s[0].value <= i64::MAX && s[1].value <= i64::MAX && s[2].value
            <= i64::MAX && s[3].value <= i64::MAX && s[4].value <= i64::MAX);
    }
    match to_columns(counts.as_slice()) {
        Ok(columns) => Ok(
            OverviewRow {
                total_events: columns[0],
                total_pubkeys: columns[1],
                api_representable_events: columns[2],
                events_7d: columns[3],
                kinds_30d: columns[4],
                earliest_event: overview.earliest_event as i64,
                latest_event: overview.latest_event as i64,
            },
        ),
        Err(error) => Err(error),
    }
}

/// The numeric columns of an object.
#[derive(Clone, Copy, Debug, PartialEq, Eq, Structural)]
pub struct ObjectRow {
    /// Size in bytes.
    pub byte_size: i64,
    /// Number of rows.
    pub row_count: i64,
}

/// The sizes of the object fit their columns.
pub open spec fn object_fits(object: CatalogObject) -> bool {
    object.byte_size <= i64::MAX && object.row_count <= i64::MAX
}

/// The columns hold the sizes of the object.
pub open spec fn is_object_row(row: ObjectRow, object: CatalogObject) -> bool {
    row.byte_size == object.byte_size && row.row_count == object.row_count
}

/// The size of the object that does not fit.
pub open spec fn object_error(object: CatalogObject) -> Error {
    if object.byte_size > i64::MAX {
        Error::NumericOverflow { field: "object byte_size", value: object.byte_size }
    } else {
        Error::NumericOverflow { field: "object row_count", value: object.row_count }
    }
}

/// The numeric columns of an object.
pub fn object_row(object: &CatalogObject) -> (outcome: Result<ObjectRow>)
    ensures
        outcome is Ok <==> object_fits(*object),
        match outcome {
            Ok(row) => is_object_row(row, *object),
            Err(error) => error == object_error(*object),
        },
{
    let byte_size: i64 = match to_i64("object byte_size", object.byte_size) {
        Ok(value) => value,
        Err(error) => {
            return Err(error);
        },
    };
    match to_i64("object row_count", object.row_count) {
        Ok(row_count) => Ok(ObjectRow { byte_size, row_count }),
        Err(error) => Err(error),
    }
}

/// What a run records of its validation.
#[derive(Clone, Debug, PartialEq, Eq)]
pub struct ValidationRecord {
    /// Sum of the daily counts.
    pub event_daily_sum: u64,
    /// Sum of the daily counts of all kinds.
    pub event_daily_kind_sum: u64,
    /// Sum of the all-time counts of all kinds.
    pub kind_all_time_sum: u64,
    /// Publishers that the first-seen product serves.
    pub eligible_pubkeys: u64,
    /// Sum of the new publishers of all days.
    pub new_users_daily_sum: u64,
    /// Digest of the first-seen evidence.
    pub identity_evidence_sha256: Option<String>,
    /// Digest of the first-seen rows.
    pub identity_metric_sha256: Option<String>,
    /// Digest of the activity evidence.
    pub fixed_activity_evidence_sha256: Option<String>,
    /// Digest of the activity rows.
    pub fixed_activity_metric_sha256: Option<String>,
    /// Distinct rows.
    pub distinct_pubkeys_period_rows: u64,
    /// Active-user rows.
    pub active_users_period_rows: u64,
    /// Digest of the cohort evidence.
    pub cohort_retention_evidence_sha256: Option<String>,
    /// Digest of the cohort rows.
    pub cohort_retention_metric_sha256: Option<String>,
    /// Cohort rows.
    pub cohort_retention_rows: u64,
    /// Digest of the flexible evidence.
    pub flexible_distinct_evidence_sha256: Option<String>,
    /// Digest of the tolerance evidence.
    pub flexible_distinct_validation_sha256: Option<String>,
    /// Digest of the semantic evidence.
    pub semantic_evidence_sha256: Option<String>,
    /// Digest of the zap participant evidence.
    pub zap_distinct_evidence_sha256: Option<String>,
    /// Digest of the relay evidence.
    pub relay_distribution_evidence_sha256: Option<String>,
    /// Digest of the publisher evidence.
    pub publisher_ranking_evidence_sha256: Option<String>,
    /// Result of the validation.
    pub result: &'static str,
}

/// The record holds the counts of the run.
pub open spec fn records_counts(
    record: ValidationRecord,
    summary: BuildSummary,
    products: PublicationProducts,
) -> bool {
    &&& record.event_daily_sum == summary.api_representable_events
    &&& record.event_daily_kind_sum == summary.api_representable_events
    &&& record.kind_all_time_sum == summary.logical_events
    &&& record.eligible_pubkeys == eligible_pubkeys(products)
    &&& record.new_users_daily_sum == eligible_pubkeys(products)
    &&& record.distinct_pubkeys_period_rows == distinct_rows(products)
    &&& record.active_users_period_rows == active_rows(products)
    &&& record.cohort_retention_rows == cohort_rows(products)
    &&& record.result@ == "passed"@
}

/// The record holds the digests of the products that take part, and no others.
pub open spec fn records_digests(record: ValidationRecord, products: PublicationProducts) -> bool {
    &&& optional_text(record.identity_evidence_sha256) == (if products.identity is Some {
        Some(products.identity->0.evidence_sha256@)
    } else {
        None
    })
    &&& optional_text(record.identity_metric_sha256) == (if products.identity is Some {
        Some(products.identity->0.evidence.metric_sha256@)
    } else {
        None
    })
    &&& optional_text(record.fixed_activity_evidence_sha256) == (if products.activity is Some {
        Some(products.activity->0.evidence_sha256@)
    } else {
        None
    })
    &&& optional_text(record.fixed_activity_metric_sha256) == (if products.activity is Some {
        Some(products.activity->0.evidence.metric_sha256@)
    } else {
        None
    })
    &&& optional_text(record.cohort_retention_evidence_sha256) == (if products.cohort is Some {
        Some(products.cohort->0.evidence_sha256@)
    } else {
        None
    })
    &&& optional_text(record.cohort_retention_metric_sha256) == (if products.cohort is Some {
        Some(products.cohort->0.evidence.metric_sha256@)
    } else {
        None
    })
    &&& optional_text(record.flexible_distinct_evidence_sha256) == (if products.flexible is Some {
        Some(products.flexible->0.product.evidence_sha256@)
    } else {
        None
    })
    &&& optional_text(record.flexible_distinct_validation_sha256) == (if products.flexible is Some {
        Some(products.flexible->0.validation_evidence_sha256@)
    } else {
        None
    })
    &&& optional_text(record.semantic_evidence_sha256) == (if products.semantic is Some {
        Some(products.semantic->0.product.evidence_sha256@)
    } else {
        None
    })
    &&& optional_text(record.zap_distinct_evidence_sha256) == (if products.semantic is Some {
        Some(products.semantic->0.zap_distinct.evidence_sha256@)
    } else {
        None
    })
    &&& optional_text(record.relay_distribution_evidence_sha256) == (if products.relay is Some {
        Some(products.relay->0.evidence_sha256@)
    } else {
        None
    })
    &&& optional_text(record.publisher_ranking_evidence_sha256) == (if products.publisher is Some {
        Some(products.publisher->0.evidence_sha256@)
    } else {
        None
    })
}

/// The validation record of a run.
pub fn validation_record(summary: BuildSummary, products: &PublicationProducts) -> (record:
    ValidationRecord)
    ensures
        records_counts(record, summary, *products),
        records_digests(record, *products),
{
    let sizes: ProductSizes = product_sizes(products);
    ValidationRecord {
        event_daily_sum: summary.api_representable_events,
        event_daily_kind_sum: summary.api_representable_events,
        kind_all_time_sum: summary.logical_events,
        eligible_pubkeys: sizes.eligible_pubkeys,
        new_users_daily_sum: sizes.eligible_pubkeys,
        distinct_pubkeys_period_rows: sizes.distinct_pubkeys_period_rows,
        active_users_period_rows: sizes.active_users_period_rows,
        cohort_retention_rows: sizes.cohort_retention_rows,
        identity_evidence_sha256: match products.identity {
            Some(product) => Some(product.evidence_sha256.clone()),
            None => None,
        },
        identity_metric_sha256: match products.identity {
            Some(product) => Some(product.evidence.metric_sha256.clone()),
            None => None,
        },
        fixed_activity_evidence_sha256: match products.activity {
            Some(product) => Some(product.evidence_sha256.clone()),
            None => None,
        },
        fixed_activity_metric_sha256: match products.activity {
            Some(product) => Some(product.evidence.metric_sha256.clone()),
            None => None,
        },
        cohort_retention_evidence_sha256: match products.cohort {
            Some(product) => Some(product.evidence_sha256.clone()),
            None => None,
        },
        cohort_retention_metric_sha256: match products.cohort {
            Some(product) => Some(product.evidence.metric_sha256.clone()),
            None => None,
        },
        flexible_distinct_evidence_sha256: match products.flexible {
            Some(product) => Some(product.product.evidence_sha256.clone()),
            None => None,
        },
        flexible_distinct_validation_sha256: match products.flexible {
            Some(product) => Some(product.validation_evidence_sha256.to_owned()),
            None => None,
        },
        semantic_evidence_sha256: match products.semantic {
            Some(product) => Some(product.product.evidence_sha256.clone()),
            None => None,
        },
        zap_distinct_evidence_sha256: match products.semantic {
            Some(product) => Some(product.zap_distinct.evidence_sha256.clone()),
            None => None,
        },
        relay_distribution_evidence_sha256: match products.relay {
            Some(product) => Some(product.evidence_sha256.clone()),
            None => None,
        },
        publisher_ranking_evidence_sha256: match products.publisher {
            Some(product) => Some(product.evidence_sha256.clone()),
            None => None,
        },
        result: "passed",
    }
}

/// The `COPY` line of a daily count.
pub fn event_daily_line(run_id: &str, day: &str, event_count: u64) -> (line: String)
    ensures
        line@ == run_id@ + ","@ + day@ + ","@ + decimal(event_count as nat) + "\n"@,
{
    let mut line: String = run_id.to_owned();
    line.append(",");
    line.append(day);
    line.append(",");
    push_decimal(&mut line, event_count);
    line.append("\n");
    line
}

/// The `COPY` line of a daily count of one kind.
pub fn event_daily_kind_line(run_id: &str, day: &str, kind: u16, event_count: u64) -> (line: String)
    ensures
        line@ == run_id@ + ","@ + day@ + ","@ + decimal(kind as nat) + ","@
            + decimal(event_count as nat) + "\n"@,
{
    let mut line: String = run_id.to_owned();
    line.append(",");
    line.append(day);
    line.append(",");
    push_decimal(&mut line, kind as u64);
    line.append(",");
    push_decimal(&mut line, event_count);
    line.append("\n");
    line
}

/// The `COPY` line of an all-time count of one kind.
pub fn kind_all_time_line(run_id: &str, kind: u16, event_count: u64) -> (line: String)
    ensures
        line@ == run_id@ + ","@ + decimal(kind as nat) + ","@ + decimal(event_count as nat) + "\n"@,
{
    let mut line: String = run_id.to_owned();
    line.append(",");
    push_decimal(&mut line, kind as u64);
    line.append(",");
    push_decimal(&mut line, event_count);
    line.append("\n");
    line
}

/// The `COPY` line of a first-seen row.
pub fn new_users_line(run_id: &str, day: &str, new_pubkeys: u64) -> (line: String)
    ensures
        line@ == run_id@ + ","@ + day@ + ","@ + decimal(new_pubkeys as nat) + "\n"@,
{
    let mut line: String = run_id.to_owned();
    line.append(",");
    line.append(day);
    line.append(",");
    push_decimal(&mut line, new_pubkeys);
    line.append("\n");
    line
}

/// The `COPY` line of a distinct row; all kinds are written as -1.
pub fn distinct_pubkeys_line(run_id: &str, row: &DistinctPubkeysPeriod) -> (line: String)
    ensures
        line@ == run_id@ + ","@ + row.grain@ + ","@ + row.period_start@ + ","@
            + kind_column_text(row.kind) + ","@ + decimal(row.unique_pubkeys as nat) + "\n"@,
{
    let mut line: String = run_id.to_owned();
    line.append(",");
    line.append(row.grain.as_str());
    line.append(",");
    line.append(row.period_start.as_str());
    line.append(",");
    push_kind(&mut line, row.kind);
    line.append(",");
    push_decimal(&mut line, row.unique_pubkeys);
    line.append("\n");
    line
}

/// The `COPY` line of an active-user row.
pub fn active_users_line(run_id: &str, row: &ActiveUsersPeriod) -> (line: String)
    ensures
        line@ == run_id@ + ","@ + row.grain@ + ","@ + row.period_start@ + ","@
            + decimal(row.active_users as nat) + ","@ + decimal(row.has_profile as nat) + ","@
            + decimal(row.has_follows_list as nat) + ","@
            + decimal(row.has_profile_and_follows_list as nat) + ","@
            + decimal(row.total_events as nat) + "\n"@,
{
    let mut line: String = run_id.to_owned();
    line.append(",");
    line.append(row.grain.as_str());
    line.append(",");
    line.append(row.period_start.as_str());
    line.append(",");
    push_decimal(&mut line, row.active_users);
    line.append(",");
    push_decimal(&mut line, row.has_profile);
    line.append(",");
    push_decimal(&mut line, row.has_follows_list);
    line.append(",");
    push_decimal(&mut line, row.has_profile_and_follows_list);
    line.append(",");
    push_decimal(&mut line, row.total_events);
    line.append("\n");
    line
}

/// The `COPY` line of a cohort row.
pub fn cohort_line(run_id: &str, row: &CohortRetentionPeriod) -> (line: String)
    ensures
        line@ == run_id@ + ","@ + row.grain@ + ","@ + row.cohort_start@ + ","@
            + row.activity_period@ + ","@ + decimal(row.active_pubkeys as nat) + "\n"@,
{
    let mut line: String = run_id.to_owned();
    line.append(",");
    line.append(row.grain.as_str());
    line.append(",");
    line.append(row.cohort_start.as_str());
    line.append(",");
    line.append(row.activity_period.as_str());
    line.append(",");
    push_decimal(&mut line, row.active_pubkeys);
    line.append("\n");
    line
}

/// The first-seen accounting that the ledger holds of a run.
#[derive(Clone, Copy, Debug, PartialEq, Eq, Structural)]
pub struct PublishedIdentity {
    /// Publishers of the run.
    pub eligible_pubkeys: i64,
    /// Rows of the run.
    pub new_users_daily_rows: i64,
    /// Publishers of the overview.
    pub total_pubkeys: i64,
    /// Rows in the table.
    pub table_rows: i64,
    /// Sum of the table.
    pub table_sum: i64,
}

/// The stored identity accounts for the first-seen product.
pub open spec fn identity_accounts(
    published: PublishedIdentity,
    products: PublicationProducts,
) -> bool {
    &&& published.eligible_pubkeys == eligible_pubkeys(products)
    &&& published.new_users_daily_rows == new_users_rows(products)
    &&& published.total_pubkeys == eligible_pubkeys(products)
    &&& published.table_rows == new_users_rows(products)
    &&& published.table_sum == eligible_pubkeys(products)
}

/// The stored first-seen counts and those that are owed, in order.
pub open spec fn identity_fields(
    published: PublishedIdentity,
    products: PublicationProducts,
) -> Seq<FieldCheck> {
    let sizes = sizes_of(products);
    seq![
        FieldCheck::Count {
            field: "published eligible_pubkeys",
            stored: published.eligible_pubkeys,
            owed: sizes.eligible_pubkeys,
        },
        FieldCheck::Count {
            field: "published new_users_daily_rows",
            stored: published.new_users_daily_rows,
            owed: sizes.new_users_daily_rows,
        },
        FieldCheck::Count {
            field: "published total_pubkeys",
            stored: published.total_pubkeys,
            owed: sizes.eligible_pubkeys,
        },
        FieldCheck::Count {
            field: "published new users row count",
            stored: published.table_rows,
            owed: sizes.new_users_daily_rows,
        },
        FieldCheck::Count {
            field: "published new users sum",
            stored: published.table_sum,
            owed: sizes.eligible_pubkeys,
        },
    ]
}

/// What holding the stored identity against the products comes to.
pub open spec fn identity_outcome(
    published: PublishedIdentity,
    products: PublicationProducts,
) -> Result<()> {
    totals_outcome(
        identity_fields(published, products),
        "published identity accounting does not match",
    )
}

/// Check the first-seen accounting of a run; a run without the product holds
/// none of it.
pub fn reconcile_published_identity(
    published: PublishedIdentity,
    products: &PublicationProducts,
) -> (outcome: Result<()>)
    ensures
        outcome is Ok <==> identity_accounts(published, *products),
        outcome == identity_outcome(published, *products),
{
    let sizes: ProductSizes = product_sizes(products);
    let counts: [FieldCheck; 5] = [
        FieldCheck::Count {
            field: "published eligible_pubkeys",
            stored: published.eligible_pubkeys,
            owed: sizes.eligible_pubkeys,
        },
        FieldCheck::Count {
            field: "published new_users_daily_rows",
            stored: published.new_users_daily_rows,
            owed: sizes.new_users_daily_rows,
        },
        FieldCheck::Count {
            field: "published total_pubkeys",
            stored: published.total_pubkeys,
            owed: sizes.eligible_pubkeys,
        },
        FieldCheck::Count {
            field: "published new users row count",
            stored: published.table_rows,
            owed: sizes.new_users_daily_rows,
        },
        FieldCheck::Count {
            field: "published new users sum",
            stored: published.table_sum,
            owed: sizes.eligible_pubkeys,
        },
    ];
    proof {
        assert(counts@ =~= identity_fields(published, *products));
        let s = counts@;
        assert(all_agree(s) ==> {
            &&& field_agrees(s[0])
            &&& field_agrees(s[1])
            &&& field_agrees(s[2])
            &&& field_agrees(s[3])
            &&& field_agrees(s[4])
        });
    }
    reconcile_totals(counts.as_slice(), "published identity accounting does not match")
}

/// Sum of the distinct publishers of all rows.
pub open spec fn distinct_sum(rows: Seq<DistinctPubkeysPeriod>) -> int
    decreases rows.len(),
{
    if rows.len() == 0 {
        0
    } else {
        distinct_sum(rows.drop_last()) + rows.last().unique_pubkeys
    }
}

/// Sum of the active users of all rows.
pub open spec fn active_sum(rows: Seq<ActiveUsersPeriod>) -> int
    decreases rows.len(),
{
    if rows.len() == 0 {
        0
    } else {
        active_sum(rows.drop_last()) + rows.last().active_users
    }
}

/// A longer run of rows sums to no less.
proof fn lemma_distinct_sum_grows(rows: Seq<DistinctPubkeysPeriod>, count: int)
    requires
        0 <= count <= rows.len(),
    ensures
        0 <= distinct_sum(rows.take(count)) <= distinct_sum(rows),
    decreases rows.len(),
{
    if count == rows.len() {
        assert(rows.take(count) =~= rows);
        if count > 0 {
            lemma_distinct_sum_grows(rows.drop_last(), 0);
            assert(rows.drop_last().take(0) =~= Seq::empty());
        }
    } else {
        lemma_distinct_sum_grows(rows.drop_last(), count);
        assert(rows.drop_last().take(count) =~= rows.take(count));
    }
}

/// A longer run of rows sums to no less.
proof fn lemma_active_sum_grows(rows: Seq<ActiveUsersPeriod>, count: int)
    requires
        0 <= count <= rows.len(),
    ensures
        0 <= active_sum(rows.take(count)) <= active_sum(rows),
    decreases rows.len(),
{
    if count == rows.len() {
        assert(rows.take(count) =~= rows);
        if count > 0 {
            lemma_active_sum_grows(rows.drop_last(), 0);
            assert(rows.drop_last().take(0) =~= Seq::empty());
        }
    } else {
        lemma_active_sum_grows(rows.drop_last(), count);
        assert(rows.drop_last().take(count) =~= rows.take(count));
    }
}

/// The sum of the distinct publishers of all rows.
fn sum_distinct(rows: &Vec<DistinctPubkeysPeriod>) -> (outcome: Result<u64>)
    ensures
        match outcome {
            Ok(sum) => sum == distinct_sum(rows@),
            Err(error) => distinct_sum(rows@) > u64::MAX && (error matches Error::NumericOverflow {
                field,
                ..
            } && field == "distinct pubkey sum"),
        },
{
    let mut sum: u64 = 0;
    let mut i: usize = 0;
    assert(rows@.take(0) =~= Seq::empty());
    while i < rows.len()
        invariant
            i <= rows@.len(),
            sum == distinct_sum(rows@.take(i as int)),
        decreases rows.len() - i,
    {
        let value: u64 = rows[i].unique_pubkeys;
        proof {
            assert(rows@.take(i + 1).drop_last() =~= rows@.take(i as int));
            lemma_distinct_sum_grows(rows@, i + 1);
        }
        sum = match sum.checked_add(value) {
            Some(sum) => sum,
            None => {
                return Err(Error::NumericOverflow { field: "distinct pubkey sum", value });
            },
        };
        i += 1;
    }
    assert(rows@.take(rows@.len() as int) =~= rows@);
    Ok(sum)
}

/// The sum of the active users of all rows.
fn sum_active(rows: &Vec<ActiveUsersPeriod>) -> (outcome: Result<u64>)
    ensures
        match outcome {
            Ok(sum) => sum == active_sum(rows@),
            Err(error) => active_sum(rows@) > u64::MAX && (error matches Error::NumericOverflow {
                field,
                ..
            } && field == "active user sum"),
        },
{
    let mut sum: u64 = 0;
    let mut i: usize = 0;
    assert(rows@.take(0) =~= Seq::empty());
    while i < rows.len()
        invariant
            i <= rows@.len(),
            sum == active_sum(rows@.take(i as int)),
        decreases rows.len() - i,
    {
        let value: u64 = rows[i].active_users;
        proof {
            assert(rows@.take(i + 1).drop_last() =~= rows@.take(i as int));
            lemma_active_sum_grows(rows@, i + 1);
        }
        sum = match sum.checked_add(value) {
            Some(sum) => sum,
            None => {
                return Err(Error::NumericOverflow { field: "active user sum", value });
            },
        };
        i += 1;
    }
    assert(rows@.take(rows@.len() as int) =~= rows@);
    Ok(sum)
}

/// The activity accounting that the ledger holds of a run.
#[derive(Clone, Copy, Debug, PartialEq, Eq, Structural)]
pub struct PublishedActivity {
    /// Distinct rows of the run.
    pub distinct_rows: i64,
    /// Active-user rows of the run.
    pub active_rows: i64,
    /// Distinct rows in the table.
    pub distinct_table_rows: i64,
    /// Sum of the distinct table.
    pub distinct_sum: i64,
    /// Active-user rows in the table.
    pub active_table_rows: i64,
    /// Sum of the active-user table.
    pub active_sum: i64,
}

/// The activity accounting that a run owes.
pub open spec fn activity_accounts(
    published: PublishedActivity,
    products: PublicationProducts,
) -> bool {
    let evidence = products.activity->0.evidence;
    &&& published.distinct_rows == distinct_rows(products)
    &&& published.active_rows == active_rows(products)
    &&& published.distinct_table_rows == distinct_rows(products)
    &&& published.distinct_sum == if products.activity is Some {
        distinct_sum(evidence.distinct_pubkeys@)
    } else {
        0
    }
    &&& published.active_table_rows == active_rows(products)
    &&& published.active_sum == if products.activity is Some {
        active_sum(evidence.active_users@)
    } else {
        0
    }
}

/// A sum of the activity product leaves the `u64` range.
pub open spec fn sums_overflow(products: PublicationProducts) -> bool {
    &&& products.activity is Some
    &&& distinct_sum(products.activity->0.evidence.distinct_pubkeys@) > u64::MAX || active_sum(
        products.activity->0.evidence.active_users@,
    ) > u64::MAX
}

/// The error names the first sum that leaves the `u64` range.
pub open spec fn is_sum_error(products: PublicationProducts, error: Error) -> bool {
    error matches Error::NumericOverflow { field, .. } && field == if distinct_sum(
        products.activity->0.evidence.distinct_pubkeys@,
    ) > u64::MAX {
        "distinct pubkey sum"
    } else {
        "active user sum"
    }
}

/// The stored activity counts and those that are owed, in order.
pub open spec fn activity_fields(
    published: PublishedActivity,
    products: PublicationProducts,
) -> Seq<FieldCheck> {
    let sizes = sizes_of(products);
    let evidence = products.activity->0.evidence;
    let distinct = if products.activity is Some {
        distinct_sum(evidence.distinct_pubkeys@) as u64
    } else {
        0
    };
    let active = if products.activity is Some {
        active_sum(evidence.active_users@) as u64
    } else {
        0
    };
    seq![
        FieldCheck::Count {
            field: "published distinct metadata rows",
            stored: published.distinct_rows,
            owed: sizes.distinct_pubkeys_period_rows,
        },
        FieldCheck::Count {
            field: "published active metadata rows",
            stored: published.active_rows,
            owed: sizes.active_users_period_rows,
        },
        FieldCheck::Count {
            field: "published distinct row count",
            stored: published.distinct_table_rows,
            owed: sizes.distinct_pubkeys_period_rows,
        },
        FieldCheck::Count {
            field: "published distinct sum",
            stored: published.distinct_sum,
            owed: distinct,
        },
        FieldCheck::Count {
            field: "published active row count",
            stored: published.active_table_rows,
            owed: sizes.active_users_period_rows,
        },
        FieldCheck::Count {
            field: "published active sum",
            stored: published.active_sum,
            owed: active,
        },
    ]
}

/// What holding the stored activity against the products comes to where both
/// sums of the products are in the `u64` range.
pub open spec fn activity_outcome(
    published: PublishedActivity,
    products: PublicationProducts,
) -> Result<()> {
    totals_outcome(
        activity_fields(published, products),
        "published fixed-activity accounting does not match expected rows/sums",
    )
}

/// Check the activity accounting of a run; a run without the product holds none
/// of it.
pub fn reconcile_published_activity(
    published: PublishedActivity,
    products: &PublicationProducts,
) -> (outcome: Result<()>)
    ensures
        outcome is Ok <==> activity_accounts(published, *products),
        if sums_overflow(*products) {
            outcome is Err && is_sum_error(*products, outcome->Err_0)
        } else {
            outcome == activity_outcome(published, *products)
        },
{
    let sizes: ProductSizes = product_sizes(products);
    let mut owed_distinct: u64 = 0;
    let mut owed_active: u64 = 0;
    if let Some(product) = products.activity {
        owed_distinct =
        match sum_distinct(&product.evidence.distinct_pubkeys) {
            Ok(sum) => sum,
            Err(error) => {
                return Err(error);
            },
        };
        owed_active =
        match sum_active(&product.evidence.active_users) {
            Ok(sum) => sum,
            Err(error) => {
                return Err(error);
            },
        };
    }
    let counts: [FieldCheck; 6] = [
        FieldCheck::Count {
            field: "published distinct metadata rows",
            stored: published.distinct_rows,
            owed: sizes.distinct_pubkeys_period_rows,
        },
        FieldCheck::Count {
            field: "published active metadata rows",
            stored: published.active_rows,
            owed: sizes.active_users_period_rows,
        },
        FieldCheck::Count {
            field: "published distinct row count",
            stored: published.distinct_table_rows,
            owed: sizes.distinct_pubkeys_period_rows,
        },
        FieldCheck::Count {
            field: "published distinct sum",
            stored: published.distinct_sum,
            owed: owed_distinct,
        },
        FieldCheck::Count {
            field: "published active row count",
            stored: published.active_table_rows,
            owed: sizes.active_users_period_rows,
        },
        FieldCheck::Count {
            field: "published active sum",
            stored: published.active_sum,
            owed: owed_active,
        },
    ];
    proof {
        assert(counts@ =~= activity_fields(published, *products));
        let s = counts@;
        assert(all_agree(s) ==> {
            &&& field_agrees(s[0])
            &&& field_agrees(s[1])
            &&& field_agrees(s[2])
            &&& field_agrees(s[3])
            &&& field_agrees(s[4])
            &&& field_agrees(s[5])
        });
    }
    reconcile_totals(
        counts.as_slice(),
        "published fixed-activity accounting does not match expected rows/sums",
    )
}

/// Rows of a cohort in its own first period.
pub open spec fn period_zero_rows(rows: Seq<CohortRetentionPeriod>) -> nat
    decreases rows.len(),
{
    if rows.len() == 0 {
        0
    } else {
        period_zero_rows(rows.drop_last()) + if rows.last().activity_period@
            == rows.last().cohort_start@ {
            1nat
        } else {
            0nat
        }
    }
}

/// The number of rows of a cohort in its own first period.
fn count_period_zero(rows: &Vec<CohortRetentionPeriod>) -> (count: u64)
    ensures
        count == period_zero_rows(rows@),
{
    let mut count: u64 = 0;
    let mut i: usize = 0;
    assert(rows@.take(0) =~= Seq::empty());
    while i < rows.len()
        invariant
            i <= rows@.len(),
            count <= i,
            count == period_zero_rows(rows@.take(i as int)),
        decreases rows.len() - i,
    {
        assert(rows@.take(i + 1).drop_last() =~= rows@.take(i as int));
        if text_equal(rows[i].activity_period.as_str(), rows[i].cohort_start.as_str()) {
            count += 1;
        }
        i += 1;
    }
    assert(rows@.take(rows@.len() as int) =~= rows@);
    count
}

/// The cohort accounting that the ledger holds of a run.
#[derive(Clone, Copy, Debug, PartialEq, Eq, Structural)]
pub struct PublishedCohort {
    /// Rows of the run.
    pub rows: i64,
    /// Rows in the table.
    pub table_rows: i64,
    /// Sum of the table.
    pub table_sum: i64,
    /// Rows of a cohort in its own first period.
    pub period_zero_rows: i64,
}

/// The cohort accounting that a run owes.
pub open spec fn cohort_accounts(
    published: PublishedCohort,
    products: PublicationProducts,
) -> bool {
    let evidence = products.cohort->0.evidence;
    &&& published.rows == cohort_rows(products)
    &&& published.table_rows == cohort_rows(products)
    &&& published.table_sum == if products.cohort is Some {
        evidence.active_pubkeys_sum as int
    } else {
        0
    }
    &&& published.period_zero_rows == if products.cohort is Some {
        period_zero_rows(evidence.periods@) as int
    } else {
        0
    }
}

/// The stored cohort counts and those that are owed, in order.
pub open spec fn cohort_fields(
    published: PublishedCohort,
    products: PublicationProducts,
) -> Seq<FieldCheck> {
    let sizes = sizes_of(products);
    let evidence = products.cohort->0.evidence;
    let sum = if products.cohort is Some {
        evidence.active_pubkeys_sum
    } else {
        0
    };
    let zero = if products.cohort is Some {
        period_zero_rows(evidence.periods@) as u64
    } else {
        0
    };
    seq![
        FieldCheck::Count {
            field: "published cohort metadata rows",
            stored: published.rows,
            owed: sizes.cohort_retention_rows,
        },
        FieldCheck::Count {
            field: "published cohort row count",
            stored: published.table_rows,
            owed: sizes.cohort_retention_rows,
        },
        FieldCheck::Count {
            field: "published cohort active sum",
            stored: published.table_sum,
            owed: sum,
        },
        FieldCheck::Count {
            field: "published cohort period-zero rows",
            stored: published.period_zero_rows,
            owed: zero,
        },
    ]
}

/// What holding the stored cohorts against the products comes to.
pub open spec fn cohort_outcome(
    published: PublishedCohort,
    products: PublicationProducts,
) -> Result<()> {
    totals_outcome(
        cohort_fields(published, products),
        "published cohort accounting does not match expected rows/sum/period-zero",
    )
}

/// Check the cohort accounting of a run; a run without the product holds none
/// of it.
pub fn reconcile_published_cohort(
    published: PublishedCohort,
    products: &PublicationProducts,
) -> (outcome: Result<()>)
    ensures
        outcome is Ok <==> cohort_accounts(published, *products),
        outcome == cohort_outcome(published, *products),
{
    let sizes: ProductSizes = product_sizes(products);
    let mut owed_sum: u64 = 0;
    let mut owed_zero: u64 = 0;
    if let Some(product) = products.cohort {
        owed_sum = product.evidence.active_pubkeys_sum;
        owed_zero = count_period_zero(&product.evidence.periods);
    }
    let counts: [FieldCheck; 4] = [
        FieldCheck::Count {
            field: "published cohort metadata rows",
            stored: published.rows,
            owed: sizes.cohort_retention_rows,
        },
        FieldCheck::Count {
            field: "published cohort row count",
            stored: published.table_rows,
            owed: sizes.cohort_retention_rows,
        },
        FieldCheck::Count {
            field: "published cohort active sum",
            stored: published.table_sum,
            owed: owed_sum,
        },
        FieldCheck::Count {
            field: "published cohort period-zero rows",
            stored: published.period_zero_rows,
            owed: owed_zero,
        },
    ];
    proof {
        assert(counts@ =~= cohort_fields(published, *products));
        let s = counts@;
        assert(all_agree(s) ==> {
            &&& field_agrees(s[0])
            &&& field_agrees(s[1])
            &&& field_agrees(s[2])
            &&& field_agrees(s[3])
        });
    }
    reconcile_totals(
        counts.as_slice(),
        "published cohort accounting does not match expected rows/sum/period-zero",
    )
}

} // verus!
