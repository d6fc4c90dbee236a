//! Publications with the products that take part in them.
//!
//! A full rebuild is published whatever run is current. An incremental run is
//! published only if the run that it started from is current.

use vstd::prelude::*;

use crate::error::Result;
use crate::fixed_activity::{weeks_defined, BoundedFixedActivity};
use crate::ledger::{ledger_callable, Ledger, LedgerReply, LedgerRequest};
use crate::products::{
    AllBoundedProducts, AllRecurringProducts, AllRecurringProductsWithPublisher,
    AllRecurringProductsWithRelay, BoundedCohortRetention, FlexibleDistinctPublication,
    ProductReads, PublicationProducts, SemanticPublication,
};
use crate::pubkey_first_seen::BoundedPubkeyFirstSeen;
use crate::publish::PublishOutcome;
use crate::publish_run::{publish_kind, publishes, RunRequest};
use crate::zap_evidence::ZapRevalidation;

verus! {

/// The request of a build that starts from no run.
pub open spec fn full_rebuild<'a>(request: RunRequest<'a>) -> RunRequest<'a> {
    RunRequest { expected_previous: None, ..request }
}

/// The request of a build that starts from the run.
pub open spec fn incremental<'a>(request: RunRequest<'a>, expected: &'a str) -> RunRequest<'a> {
    RunRequest { expected_previous: Some(expected), ..request }
}

/// The request with the run that its build started from.
fn starts_from<'a>(request: &RunRequest<'a>, expected: Option<&'a str>) -> (started: RunRequest<'a>)
    ensures
        started == (RunRequest { expected_previous: expected, ..*request }),
{
    RunRequest {
        generation: request.generation,
        objects: request.objects,
        code_version: request.code_version,
        versions: request.versions,
        expected_previous: expected,
        summary: request.summary,
        overview: request.overview,
        rows: request.rows,
        started_at: request.started_at,
        completed_at: request.completed_at,
    }
}

/// The products of the first lanes.
pub open spec fn bounded<'a>(
    identity: Option<&'a BoundedPubkeyFirstSeen>,
    activity: Option<&'a BoundedFixedActivity>,
    cohort: Option<&'a BoundedCohortRetention>,
    flexible: Option<FlexibleDistinctPublication<'a>>,
    semantic: Option<SemanticPublication<'a>>,
) -> PublicationProducts<'a> {
    PublicationProducts {
        identity,
        activity,
        cohort,
        flexible,
        semantic,
        relay: None,
        publisher: None,
    }
}

/// What the participants were rebuilt to covers their checkpoints.
pub open spec fn covers_checkpoints(
    semantic: SemanticPublication,
    zap: Option<ZapRevalidation>,
) -> bool {
    zap is Some ==> {
        let evidence = semantic.zap_distinct.evidence;
        &&& zap->0.chunk_checkpoints@.len() == evidence.chunk_checkpoints@.len()
        &&& zap->0.merge_checkpoints@.len() == evidence.merge_checkpoints@.len()
    }
}

/// Publish the event counts of a full rebuild.
pub fn publish<
    X,
    B: FnOnce() -> Result<X>,
    F: Fn(X, &LedgerRequest) -> (X, Result<LedgerReply>),
    K: Fn(X) -> Result<()>,
    R: Fn(X),
>(
    request: &RunRequest,
    reads: ProductReads,
    begin: B,
    ledger: &Ledger<F, K, R>,
) -> (outcome: Result<PublishOutcome>)
    requires
        call_requires(begin, ()),
        ledger_callable::<X, F, K, R>(*ledger),
    ensures
        publishes(
            begin,
            *ledger,
            full_rebuild(*request),
            bounded(None, None, None, None, None),
            reads,
            None,
            outcome,
        ),
{
    publish_kind(
        &starts_from(request, None),
        PublicationProducts::none(),
        reads,
        None,
        begin,
        ledger,
    )
}

/// Publish a full rebuild with its first-seen product.
pub fn publish_with_identity<
    X,
    B: FnOnce() -> Result<X>,
    F: Fn(X, &LedgerRequest) -> (X, Result<LedgerReply>),
    K: Fn(X) -> Result<()>,
    R: Fn(X),
>(
    request: &RunRequest,
    identity: &BoundedPubkeyFirstSeen,
    reads: ProductReads,
    begin: B,
    ledger: &Ledger<F, K, R>,
) -> (outcome: Result<PublishOutcome>)
    requires
        call_requires(begin, ()),
        ledger_callable::<X, F, K, R>(*ledger),
    ensures
        publishes(
            begin,
            *ledger,
            full_rebuild(*request),
            bounded(Some(identity), None, None, None, None),
            reads,
            None,
            outcome,
        ),
{
    publish_kind(
        &starts_from(request, None),
        PublicationProducts::with_identity(identity),
        reads,
        None,
        begin,
        ledger,
    )
}

/// Publish a full rebuild with its first-seen and activity products.
pub fn publish_with_identity_and_activity<
    X,
    B: FnOnce() -> Result<X>,
    F: Fn(X, &LedgerRequest) -> (X, Result<LedgerReply>),
    K: Fn(X) -> Result<()>,
    R: Fn(X),
>(
    request: &RunRequest,
    identity: &BoundedPubkeyFirstSeen,
    activity: &BoundedFixedActivity,
    reads: ProductReads,
    begin: B,
    ledger: &Ledger<F, K, R>,
) -> (outcome: Result<PublishOutcome>)
    requires
        weeks_defined(reads.activity@, activity.evidence.as_of_epoch as int),
        call_requires(begin, ()),
        ledger_callable::<X, F, K, R>(*ledger),
    ensures
        publishes(
            begin,
            *ledger,
            full_rebuild(*request),
            bounded(Some(identity), Some(activity), None, None, None),
            reads,
            None,
            outcome,
        ),
{
    publish_kind(
        &starts_from(request, None),
        PublicationProducts::with_activity(identity, activity),
        reads,
        None,
        begin,
        ledger,
    )
}

/// Publish a full rebuild with its first-seen, activity and cohort products.
pub fn publish_with_all_bounded_products<
    X,
    B: FnOnce() -> Result<X>,
    F: Fn(X, &LedgerRequest) -> (X, Result<LedgerReply>),
    K: Fn(X) -> Result<()>,
    R: Fn(X),
>(
    request: &RunRequest,
    products: AllBoundedProducts,
    reads: ProductReads,
    begin: B,
    ledger: &Ledger<F, K, R>,
) -> (outcome: Result<PublishOutcome>)
    requires
        weeks_defined(reads.activity@, products.activity.evidence.as_of_epoch as int),
        call_requires(begin, ()),
        ledger_callable::<X, F, K, R>(*ledger),
    ensures
        publishes(
            begin,
            *ledger,
            full_rebuild(*request),
            bounded(
                Some(products.identity),
                Some(products.activity),
                Some(products.cohort),
                None,
                None,
            ),
            reads,
            None,
            outcome,
        ),
{
    publish_kind(
        &starts_from(request, None),
        PublicationProducts::with_bounded(products),
        reads,
        None,
        begin,
        ledger,
    )
}

/// Publish the event counts of an incremental run.
pub fn publish_incremental<
    X,
    B: FnOnce() -> Result<X>,
    F: Fn(X, &LedgerRequest) -> (X, Result<LedgerReply>),
    K: Fn(X) -> Result<()>,
    R: Fn(X),
>(
    request: &RunRequest,
    expected_previous_run_id: &str,
    reads: ProductReads,
    begin: B,
    ledger: &Ledger<F, K, R>,
) -> (outcome: Result<PublishOutcome>)
    requires
        call_requires(begin, ()),
        ledger_callable::<X, F, K, R>(*ledger),
    ensures
        publishes(
            begin,
            *ledger,
            incremental(*request, expected_previous_run_id),
            bounded(None, None, None, None, None),
            reads,
            None,
            outcome,
        ),
{
    publish_kind(
        &starts_from(request, Some(expected_previous_run_id)),
        PublicationProducts::none(),
        reads,
        None,
        begin,
        ledger,
    )
}

/// Publish an incremental run with its first-seen product.
pub fn publish_incremental_with_identity<
    X,
    B: FnOnce() -> Result<X>,
    F: Fn(X, &LedgerRequest) -> (X, Result<LedgerReply>),
    K: Fn(X) -> Result<()>,
    R: Fn(X),
>(
    request: &RunRequest,
    identity: &BoundedPubkeyFirstSeen,
    expected_previous_run_id: &str,
    reads: ProductReads,
    begin: B,
    ledger: &Ledger<F, K, R>,
) -> (outcome: Result<PublishOutcome>)
    requires
        call_requires(begin, ()),
        ledger_callable::<X, F, K, R>(*ledger),
    ensures
        publishes(
            begin,
            *ledger,
            incremental(*request, expected_previous_run_id),
            bounded(Some(identity), None, None, None, None),
            reads,
            None,
            outcome,
        ),
{
    publish_kind(
        &starts_from(request, Some(expected_previous_run_id)),
        PublicationProducts::with_identity(identity),
        reads,
        None,
        begin,
        ledger,
    )
}

/// Publish an incremental run with its first-seen and activity products.
pub fn publish_incremental_with_identity_and_activity<
    X,
    B: FnOnce() -> Result<X>,
    F: Fn(X, &LedgerRequest) -> (X, Result<LedgerReply>),
    K: Fn(X) -> Result<()>,
    R: Fn(X),
>(
    request: &RunRequest,
    identity: &BoundedPubkeyFirstSeen,
    activity: &BoundedFixedActivity,
    expected_previous_run_id: &str,
    reads: ProductReads,
    begin: B,
    ledger: &Ledger<F, K, R>,
) -> (outcome: Result<PublishOutcome>)
    requires
        weeks_defined(reads.activity@, activity.evidence.as_of_epoch as int),
        call_requires(begin, ()),
        ledger_callable::<X, F, K, R>(*ledger),
    ensures
        publishes(
            begin,
            *ledger,
            incremental(*request, expected_previous_run_id),
            bounded(Some(identity), Some(activity), None, None, None),
            reads,
            None,
            outcome,
        ),
{
    publish_kind(
        &starts_from(request, Some(expected_previous_run_id)),
        PublicationProducts::with_activity(identity, activity),
        reads,
        None,
        begin,
        ledger,
    )
}

/// Publish an incremental run with its first-seen, activity and cohort products.
pub fn publish_incremental_with_all_bounded_products<
    X,
    B: FnOnce() -> Result<X>,
    F: Fn(X, &LedgerRequest) -> (X, Result<LedgerReply>),
    K: Fn(X) -> Result<()>,
    R: Fn(X),
>(
    request: &RunRequest,
    products: AllBoundedProducts,
    expected_previous_run_id: &str,
    reads: ProductReads,
    begin: B,
    ledger: &Ledger<F, K, R>,
) -> (outcome: Result<PublishOutcome>)
    requires
        weeks_defined(reads.activity@, products.activity.evidence.as_of_epoch as int),
        call_requires(begin, ()),
        ledger_callable::<X, F, K, R>(*ledger),
    ensures
        publishes(
            begin,
            *ledger,
            incremental(*request, expected_previous_run_id),
            bounded(
                Some(products.identity),
                Some(products.activity),
                Some(products.cohort),
                None,
                None,
            ),
            reads,
            None,
            outcome,
        ),
{
    publish_kind(
        &starts_from(request, Some(expected_previous_run_id)),
        PublicationProducts::with_bounded(products),
        reads,
        None,
        begin,
        ledger,
    )
}

/// Publish an incremental run with its bounded products and flexible leaves.
pub fn publish_incremental_with_all_bounded_products_and_flexible<
    X,
    B: FnOnce() -> Result<X>,
    F: Fn(X, &LedgerRequest) -> (X, Result<LedgerReply>),
    K: Fn(X) -> Result<()>,
    R: Fn(X),
>(
    request: &RunRequest,
    products: AllBoundedProducts,
    flexible: FlexibleDistinctPublication,
    expected_previous_run_id: &str,
    reads: ProductReads,
    begin: B,
    ledger: &Ledger<F, K, R>,
) -> (outcome: Result<PublishOutcome>)
    requires
        weeks_defined(reads.activity@, products.activity.evidence.as_of_epoch as int),
        call_requires(begin, ()),
        ledger_callable::<X, F, K, R>(*ledger),
    ensures
        publishes(
            begin,
            *ledger,
            incremental(*request, expected_previous_run_id),
            bounded(
                Some(products.identity),
                Some(products.activity),
                Some(products.cohort),
                Some(flexible),
                None,
            ),
            reads,
            None,
            outcome,
        ),
{
    publish_kind(
        &starts_from(request, Some(expected_previous_run_id)),
        PublicationProducts::with_flexible(products, flexible),
        reads,
        None,
        begin,
        ledger,
    )
}

/// Publish an incremental run with its products through the semantic facts.
pub fn publish_incremental_with_all_bounded_products_flexible_and_semantic<
    X,
    B: FnOnce() -> Result<X>,
    F: Fn(X, &LedgerRequest) -> (X, Result<LedgerReply>),
    K: Fn(X) -> Result<()>,
    R: Fn(X),
>(
    request: &RunRequest,
    products: AllRecurringProducts,
    expected_previous_run_id: &str,
    reads: ProductReads,
    zap: Option<ZapRevalidation>,
    begin: B,
    ledger: &Ledger<F, K, R>,
) -> (outcome: Result<PublishOutcome>)
    requires
        weeks_defined(reads.activity@, products.bounded.activity.evidence.as_of_epoch as int),
        covers_checkpoints(products.semantic, zap),
        call_requires(begin, ()),
        ledger_callable::<X, F, K, R>(*ledger),
    ensures
        publishes(
            begin,
            *ledger,
            incremental(*request, expected_previous_run_id),
            bounded(
                Some(products.bounded.identity),
                Some(products.bounded.activity),
                Some(products.bounded.cohort),
                Some(products.flexible),
                Some(products.semantic),
            ),
            reads,
            zap,
            outcome,
        ),
{
    publish_kind(
        &starts_from(request, Some(expected_previous_run_id)),
        PublicationProducts::with_semantic(products),
        reads,
        zap,
        begin,
        ledger,
    )
}

/// Publish an incremental run with its products through the relay distribution.
pub fn publish_incremental_with_all_recurring_products_and_relay<
    X,
    B: FnOnce() -> Result<X>,
    F: Fn(X, &LedgerRequest) -> (X, Result<LedgerReply>),
    K: Fn(X) -> Result<()>,
    R: Fn(X),
>(
    request: &RunRequest,
    products: AllRecurringProductsWithRelay,
    expected_previous_run_id: &str,
    reads: ProductReads,
    zap: Option<ZapRevalidation>,
    begin: B,
    ledger: &Ledger<F, K, R>,
) -> (outcome: Result<PublishOutcome>)
    requires
        weeks_defined(reads.activity@, products.recurring.bounded.activity.evidence.as_of_epoch as int),
        covers_checkpoints(products.recurring.semantic, zap),
        call_requires(begin, ()),
        ledger_callable::<X, F, K, R>(*ledger),
    ensures
        publishes(
            begin,
            *ledger,
            incremental(*request, expected_previous_run_id),
            (PublicationProducts {
                relay: Some(products.relay),
                ..bounded(
                    Some(products.recurring.bounded.identity),
                    Some(products.recurring.bounded.activity),
                    Some(products.recurring.bounded.cohort),
                    Some(products.recurring.flexible),
                    Some(products.recurring.semantic),
                )
            }),
            reads,
            zap,
            outcome,
        ),
{
    publish_kind(
        &starts_from(request, Some(expected_previous_run_id)),
        PublicationProducts::with_relay(products),
        reads,
        zap,
        begin,
        ledger,
    )
}

/// Publish an incremental run with every product.
pub fn publish_incremental_with_all_recurring_products_and_publisher<
    X,
    B: FnOnce() -> Result<X>,
    F: Fn(X, &LedgerRequest) -> (X, Result<LedgerReply>),
    K: Fn(X) -> Result<()>,
    R: Fn(X),
>(
    request: &RunRequest,
    products: AllRecurringProductsWithPublisher,
    expected_previous_run_id: &str,
    reads: ProductReads,
    zap: Option<ZapRevalidation>,
    begin: B,
    ledger: &Ledger<F, K, R>,
) -> (outcome: Result<PublishOutcome>)
    requires
        weeks_defined(reads.activity@, products.recurring.recurring.bounded.activity.evidence.as_of_epoch as int),
        covers_checkpoints(products.recurring.recurring.semantic, zap),
        call_requires(begin, ()),
        ledger_callable::<X, F, K, R>(*ledger),
    ensures
        publishes(
            begin,
            *ledger,
            incremental(*request, expected_previous_run_id),
            (PublicationProducts {
                relay: Some(products.recurring.relay),
                publisher: Some(products.publisher),
                ..bounded(
                    Some(products.recurring.recurring.bounded.identity),
                    Some(products.recurring.recurring.bounded.activity),
                    Some(products.recurring.recurring.bounded.cohort),
                    Some(products.recurring.recurring.flexible),
                    Some(products.recurring.recurring.semantic),
                )
            }),
            reads,
            zap,
            outcome,
        ),
{
    publish_kind(
        &starts_from(request, Some(expected_previous_run_id)),
        PublicationProducts::with_publisher(products),
        reads,
        zap,
        begin,
        ledger,
    )
}

} // verus!
