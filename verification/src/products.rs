//! The products that one generation publishes together.

use vstd::prelude::*;

use crate::digest::sha256_text;
use crate::error::{Error, Result};
use crate::fixed_activity::{weeks_defined, BoundedFixedActivity};
use crate::flexible_distinct::{
    completed_for, product_valid, BoundedFlexibleDistinct, FlexibleRevalidation,
};
use crate::flexible_publish::{passes_gate, validate_flexible_distinct_publication};
use crate::flexible_validation::{
    artifacts_equal, same_artifact, FlexibleDistinctValidationEvidence,
};
use crate::pubkey_first_seen::BoundedPubkeyFirstSeen;
use crate::publisher_artifact::ranking_artifact;
use crate::publisher_product::{
    BoundedPublisherRanking, EVIDENCE_SCHEMA_VERSION, PUBLISHER_RANKING_VERSION, RUNNER_VERSION,
};
use crate::publisher_publish::validate_publisher_ranking_publication;
use crate::relay_build::BoundedRelayDistribution;
use crate::relay_publish::{publishable, validate_relay_distribution_publication};
use crate::semantic_build::{BoundedSemanticFacts, SEMANTIC_FACTS_RUNNER_VERSION};
use crate::semantic_publish::validate_semantic_publication;
use crate::text::text_equal;
use crate::zap_evidence::{zap_product_valid, BoundedZapDistinct, ZapRevalidation};
use crate::zap_publish::{belongs_to, validate_zap_distinct_publication};

verus! {

/// Publishers of a cohort that were active in a period.
#[derive(Clone, Debug, PartialEq, Eq)]
pub struct CohortRetentionPeriod {
    /// `week` or `month`.
    pub grain: String,
    /// ISO 8601 UTC start of the cohort.
    pub cohort_start: String,
    /// ISO 8601 UTC start of the period.
    pub activity_period: String,
    /// Active publishers.
    pub active_pubkeys: u64,
}

/// What a publication reads of the evidence of a cohort product.
#[derive(Clone, Debug, PartialEq, Eq)]
pub struct CohortRetentionEvidence {
    /// Frozen catalog snapshot.
    pub snapshot_id: String,
    /// Fixed analytics boundary.
    pub as_of_epoch: u64,
    /// Digest of the first-seen evidence that it was built from.
    pub identity_evidence_sha256: String,
    /// Digest of the activity evidence that it was built from.
    pub activity_evidence_sha256: String,
    /// Digest of the serving rows.
    pub metric_sha256: String,
    /// Number of serving rows.
    pub period_rows: u64,
    /// Sum of the active publishers of all rows.
    pub active_pubkeys_sum: u64,
    /// Serving rows.
    pub periods: Vec<CohortRetentionPeriod>,
}

/// Exact weekly and monthly cohort-retention product.
#[derive(Clone, Debug, PartialEq, Eq)]
pub struct BoundedCohortRetention {
    /// Completion evidence.
    pub evidence: CohortRetentionEvidence,
    /// SHA-256 of canonical evidence JSON.
    pub evidence_sha256: String,
}

/// Exact bounded products that must publish as one generation.
#[derive(Clone, Copy)]
pub struct AllBoundedProducts<'a> {
    /// Eligible-pubkey first-seen state.
    pub identity: &'a BoundedPubkeyFirstSeen,
    /// Fixed-grain pubkey activity state.
    pub activity: &'a BoundedFixedActivity,
    /// Exact weekly and monthly cohort-retention matrix.
    pub cohort: &'a BoundedCohortRetention,
}

/// Flexible distinct product and its exact production tolerance gate.
#[derive(Clone, Copy)]
pub struct FlexibleDistinctPublication<'a> {
    /// Complete-hour leaf product.
    pub product: &'a BoundedFlexibleDistinct,
    /// Canonical passed tolerance evidence.
    pub validation: &'a FlexibleDistinctValidationEvidence,
    /// The bytes that the tolerance evidence was decoded from.
    pub validation_json: &'a [u8],
    /// Explicitly authorized SHA-256 of the tolerance evidence.
    pub validation_evidence_sha256: &'a str,
}

/// Exact semantic facts and participant sketches.
#[derive(Clone, Copy)]
pub struct SemanticPublication<'a> {
    /// Canonical additive semantic facts and rollups.
    pub product: &'a BoundedSemanticFacts,
    /// Daily validated zap sender and recipient sketches derived from the facts.
    pub zap_distinct: &'a BoundedZapDistinct,
}

/// Every bounded product through the semantic facts.
#[derive(Clone, Copy)]
pub struct AllRecurringProducts<'a> {
    /// Exact first-seen, activity and cohort products.
    pub bounded: AllBoundedProducts<'a>,
    /// Complete-hour flexible distinct leaves and tolerance gate.
    pub flexible: FlexibleDistinctPublication<'a>,
    /// Additive semantic rollups and zap participant leaves.
    pub semantic: SemanticPublication<'a>,
}

/// Every bounded product through the relay distribution.
#[derive(Clone, Copy)]
pub struct AllRecurringProductsWithRelay<'a> {
    /// Recurring products through the semantic facts.
    pub recurring: AllRecurringProducts<'a>,
    /// Exact current NIP-65 relay distribution.
    pub relay: &'a BoundedRelayDistribution,
}

/// Every bounded product through the publisher rankings.
#[derive(Clone, Copy)]
pub struct AllRecurringProductsWithPublisher<'a> {
    /// Recurring products through the relay distribution.
    pub recurring: AllRecurringProductsWithRelay<'a>,
    /// Exact predefined-window publisher rankings.
    pub publisher: &'a BoundedPublisherRanking,
}

/// The products of one publication.
#[derive(Clone, Copy)]
pub struct PublicationProducts<'a> {
    /// First-seen product.
    pub identity: Option<&'a BoundedPubkeyFirstSeen>,
    /// Activity product.
    pub activity: Option<&'a BoundedFixedActivity>,
    /// Cohort product.
    pub cohort: Option<&'a BoundedCohortRetention>,
    /// Flexible distinct product.
    pub flexible: Option<FlexibleDistinctPublication<'a>>,
    /// Semantic products.
    pub semantic: Option<SemanticPublication<'a>>,
    /// Relay product.
    pub relay: Option<&'a BoundedRelayDistribution>,
    /// Publisher product.
    pub publisher: Option<&'a BoundedPublisherRanking>,
}

impl<'a> PublicationProducts<'a> {
    /// No product beside the event counts.
    pub fn none() -> (products: PublicationProducts<'a>)
        ensures
            products.identity is None,
            products.activity is None,
            products.cohort is None,
            products.flexible is None,
            products.semantic is None,
            products.relay is None,
            products.publisher is None,
    {
        PublicationProducts {
            identity: None,
            activity: None,
            cohort: None,
            flexible: None,
            semantic: None,
            relay: None,
            publisher: None,
        }
    }

    /// The first-seen product alone.
    pub fn with_identity(identity: &'a BoundedPubkeyFirstSeen) -> (products: PublicationProducts<
        'a,
    >)
        ensures
            products.identity == Some(identity),
            products.activity is None,
            products.cohort is None,
            products.flexible is None,
            products.semantic is None,
            products.relay is None,
            products.publisher is None,
    {
        PublicationProducts {
            identity: Some(identity),
            activity: None,
            cohort: None,
            flexible: None,
            semantic: None,
            relay: None,
            publisher: None,
        }
    }

    /// The first-seen and activity products.
    pub fn with_activity(
        identity: &'a BoundedPubkeyFirstSeen,
        activity: &'a BoundedFixedActivity,
    ) -> (products: PublicationProducts<'a>)
        ensures
            products.identity == Some(identity),
            products.activity == Some(activity),
            products.cohort is None,
            products.flexible is None,
            products.semantic is None,
            products.relay is None,
            products.publisher is None,
    {
        PublicationProducts {
            identity: Some(identity),
            activity: Some(activity),
            cohort: None,
            flexible: None,
            semantic: None,
            relay: None,
            publisher: None,
        }
    }

    /// The first-seen, activity and cohort products.
    pub fn with_bounded(bounded: AllBoundedProducts<'a>) -> (products: PublicationProducts<'a>)
        ensures
            products.identity == Some(bounded.identity),
            products.activity == Some(bounded.activity),
            products.cohort == Some(bounded.cohort),
            products.flexible is None,
            products.semantic is None,
            products.relay is None,
            products.publisher is None,
    {
        PublicationProducts {
            identity: Some(bounded.identity),
            activity: Some(bounded.activity),
            cohort: Some(bounded.cohort),
            flexible: None,
            semantic: None,
            relay: None,
            publisher: None,
        }
    }

    /// The bounded products and the flexible distinct leaves.
    pub fn with_flexible(
        bounded: AllBoundedProducts<'a>,
        flexible: FlexibleDistinctPublication<'a>,
    ) -> (products: PublicationProducts<'a>)
        ensures
            products.identity == Some(bounded.identity),
            products.activity == Some(bounded.activity),
            products.cohort == Some(bounded.cohort),
            products.flexible == Some(flexible),
            products.semantic is None,
            products.relay is None,
            products.publisher is None,
    {
        PublicationProducts {
            identity: Some(bounded.identity),
            activity: Some(bounded.activity),
            cohort: Some(bounded.cohort),
            flexible: Some(flexible),
            semantic: None,
            relay: None,
            publisher: None,
        }
    }

    /// The products through the semantic facts.
    pub fn with_semantic(recurring: AllRecurringProducts<'a>) -> (products: PublicationProducts<
        'a,
    >)
        ensures
            products.identity == Some(recurring.bounded.identity),
            products.activity == Some(recurring.bounded.activity),
            products.cohort == Some(recurring.bounded.cohort),
            products.flexible == Some(recurring.flexible),
            products.semantic == Some(recurring.semantic),
            products.relay is None,
            products.publisher is None,
    {
        PublicationProducts {
            identity: Some(recurring.bounded.identity),
            activity: Some(recurring.bounded.activity),
            cohort: Some(recurring.bounded.cohort),
            flexible: Some(recurring.flexible),
            semantic: Some(recurring.semantic),
            relay: None,
            publisher: None,
        }
    }

    /// The products through the relay distribution.
    pub fn with_relay(products: AllRecurringProductsWithRelay<'a>) -> (selected:
        PublicationProducts<'a>)
        ensures
            selected.identity == Some(products.recurring.bounded.identity),
            selected.activity == Some(products.recurring.bounded.activity),
            selected.cohort == Some(products.recurring.bounded.cohort),
            selected.flexible == Some(products.recurring.flexible),
            selected.semantic == Some(products.recurring.semantic),
            selected.relay == Some(products.relay),
            selected.publisher is None,
    {
        PublicationProducts {
            identity: Some(products.recurring.bounded.identity),
            activity: Some(products.recurring.bounded.activity),
            cohort: Some(products.recurring.bounded.cohort),
            flexible: Some(products.recurring.flexible),
            semantic: Some(products.recurring.semantic),
            relay: Some(products.relay),
            publisher: None,
        }
    }

    /// Every product.
    pub fn with_publisher(products: AllRecurringProductsWithPublisher<'a>) -> (selected:
        PublicationProducts<'a>)
        ensures
            selected.identity == Some(products.recurring.recurring.bounded.identity),
            selected.activity == Some(products.recurring.recurring.bounded.activity),
            selected.cohort == Some(products.recurring.recurring.bounded.cohort),
            selected.flexible == Some(products.recurring.recurring.flexible),
            selected.semantic == Some(products.recurring.recurring.semantic),
            selected.relay == Some(products.recurring.relay),
            selected.publisher == Some(products.publisher),
    {
        PublicationProducts {
            identity: Some(products.recurring.recurring.bounded.identity),
            activity: Some(products.recurring.recurring.bounded.activity),
            cohort: Some(products.recurring.recurring.bounded.cohort),
            flexible: Some(products.recurring.recurring.flexible),
            semantic: Some(products.recurring.recurring.semantic),
            relay: Some(products.recurring.relay),
            publisher: Some(products.publisher),
        }
    }
}

/// The generation that a publication makes current.
#[derive(Clone, Copy)]
pub struct Generation<'a> {
    /// Frozen catalog snapshot.
    pub snapshot_id: &'a str,
    /// Fixed analytics boundary.
    pub as_of_epoch: u64,
}

/// What was read of the products to revalidate them. The bytes of a product
/// that does not take part are not looked at.
#[derive(Clone, Copy)]
pub struct ProductReads<'a> {
    /// Bytes of the first-seen state.
    pub first_seen: &'a [u8],
    /// JSON of the rows of the first-seen product.
    pub first_seen_json: &'a [u8],
    /// Earliest second that the first-seen product serves.
    pub genesis: u64,
    /// Bytes of the activity artifact.
    pub activity: &'a [u8],
    /// Bytes of the flags artifact.
    pub flags: &'a [u8],
    /// JSON of the rows of the activity product.
    pub activity_json: &'a [u8],
    /// Whether the cohort product revalidated.
    pub cohort_valid: bool,
    /// What the flexible product was rebuilt to.
    pub flexible: &'a FlexibleRevalidation<'a>,
    /// Bytes of the semantic artifact.
    pub semantic: &'a [u8],
    /// Precision of the participant sketches in use.
    pub sketch_lg_k: u8,
    /// JSON of the relay rows.
    pub relay_json: &'a [u8],
    /// Bytes of the ranking artifact.
    pub ranking: &'a [u8],
}

/// The first-seen product may take part in the generation.
pub open spec fn identity_fits(
    generation: Generation,
    products: PublicationProducts,
    reads: ProductReads,
) -> bool {
    products.identity is Some ==> {
        &&& products.identity->0.completed_for(
            generation.snapshot_id@,
            generation.as_of_epoch,
        )
        &&& products.identity->0.matches_state(
            reads.first_seen@,
            reads.first_seen_json@,
            reads.genesis,
        )
    }
}

/// The activity product may take part in the generation.
pub open spec fn activity_fits(
    generation: Generation,
    products: PublicationProducts,
    reads: ProductReads,
) -> bool {
    products.activity is Some ==> {
        &&& products.identity is Some
        &&& products.activity->0.completed_for(
            generation.snapshot_id@,
            generation.as_of_epoch,
        )
        &&& products.activity->0.matches_state(
            reads.activity@,
            reads.flags@,
            reads.activity_json@,
        )
    }
}

/// The cohort product may take part in the generation.
pub open spec fn cohort_fits(
    generation: Generation,
    products: PublicationProducts,
    reads: ProductReads,
) -> bool {
    products.cohort is Some ==> {
        let evidence = products.cohort->0.evidence;
        &&& products.identity is Some
        &&& products.activity is Some
        &&& evidence.snapshot_id@ == generation.snapshot_id@
        &&& evidence.as_of_epoch == generation.as_of_epoch
        &&& evidence.identity_evidence_sha256@ == products.identity->0.evidence_sha256@
        &&& evidence.activity_evidence_sha256@ == products.activity->0.evidence_sha256@
        &&& reads.cohort_valid
    }
}

/// The flexible product may take part in the generation.
pub open spec fn flexible_fits(
    generation: Generation,
    products: PublicationProducts,
    reads: ProductReads,
) -> bool {
    products.flexible is Some ==> {
        let flexible = products.flexible->0;
        &&& flexible_linked(generation, products)
        &&& flexible_follows(products, reads)
        &&& sha256_text(flexible.validation_json@) == flexible.validation_evidence_sha256@
        &&& passes_gate(*flexible.product, *flexible.validation)
    }
}

/// The semantic products may take part in the generation.
pub open spec fn semantic_fits(
    generation: Generation,
    products: PublicationProducts,
    reads: ProductReads,
    zap: Option<ZapRevalidation>,
) -> bool {
    products.semantic is Some ==> {
        let semantic = products.semantic->0;
        &&& facts_fit(generation, products, reads)
        &&& zap is Some
        &&& zap_product_valid(
            semantic.zap_distinct.evidence,
            *semantic.product,
            zap->0,
            reads.sketch_lg_k,
        )
        &&& belongs_to(semantic.zap_distinct.evidence, *semantic.product)
    }
}

/// The relay product may take part in the generation.
pub open spec fn relay_fits(
    generation: Generation,
    products: PublicationProducts,
    reads: ProductReads,
) -> bool {
    products.relay is Some ==> {
        let evidence = products.relay->0.evidence;
        &&& products.semantic is Some
        &&& evidence.snapshot_id@ == generation.snapshot_id@
        &&& evidence.as_of_epoch == generation.as_of_epoch
        &&& publishable(evidence, reads.relay_json@)
    }
}

/// The publisher product may take part in the generation.
pub open spec fn publisher_fits(
    generation: Generation,
    products: PublicationProducts,
    reads: ProductReads,
) -> bool {
    products.publisher is Some ==> {
        let evidence = products.publisher->0.evidence;
        &&& publisher_linked(generation, products, reads)
        &&& ranking_artifact(reads.ranking@, evidence.ranking_artifact.row_count as int)
    }
}

/// Every product may take part in the generation.
pub open spec fn products_fit(
    generation: Generation,
    products: PublicationProducts,
    reads: ProductReads,
    zap: Option<ZapRevalidation>,
) -> bool {
    &&& identity_fits(generation, products, reads)
    &&& activity_fits(generation, products, reads)
    &&& cohort_fits(generation, products, reads)
    &&& flexible_fits(generation, products, reads)
    &&& semantic_fits(generation, products, reads, zap)
    &&& relay_fits(generation, products, reads)
    &&& publisher_fits(generation, products, reads)
}

/// How a generation is refused.
#[derive(Clone, Copy, Debug, PartialEq, Eq, Structural)]
pub enum Refusal {
    /// A product does not follow from its own state.
    Invalid,
    /// A product does not fit the generation.
    Validation,
}

/// The outcome reports the refusal, and none where there is none.
pub open spec fn reports(outcome: Result<()>, refusal: Option<Refusal>) -> bool {
    match refusal {
        None => outcome is Ok,
        Some(Refusal::Invalid) => outcome is Err && outcome->Err_0 is Invalid,
        Some(Refusal::Validation) => outcome is Err && outcome->Err_0 is Validation,
    }
}

/// How the first-seen, activity and cohort products are refused, if so.
pub open spec fn bounded_refusal(
    generation: Generation,
    products: PublicationProducts,
    reads: ProductReads,
) -> Option<Refusal> {
    if !identity_fits(generation, products, reads) {
        Some(Refusal::Invalid)
    } else if products.activity is Some && products.identity is None {
        Some(Refusal::Validation)
    } else if !activity_fits(generation, products, reads) {
        Some(Refusal::Invalid)
    } else if !cohort_fits(generation, products, reads) {
        if cohort_fits(generation, products, (ProductReads { cohort_valid: true, ..reads })) {
            Some(Refusal::Invalid)
        } else {
            Some(Refusal::Validation)
        }
    } else {
        None
    }
}

/// How the flexible product is refused, if so.
pub open spec fn flexible_refusal(
    generation: Generation,
    products: PublicationProducts,
    reads: ProductReads,
) -> Option<Refusal> {
    if flexible_fits(generation, products, reads) {
        None
    } else if flexible_linked(generation, products) && !flexible_follows(products, reads) {
        Some(Refusal::Invalid)
    } else {
        Some(Refusal::Validation)
    }
}

/// The flexible product was built from the activity product of the generation.
pub open spec fn flexible_linked(
    generation: Generation,
    products: PublicationProducts,
) -> bool {
    let evidence = products.flexible->0.product.evidence;
    &&& products.activity is Some
    &&& evidence.snapshot_id@ == generation.snapshot_id@
    &&& evidence.as_of_epoch == generation.as_of_epoch
    &&& evidence.activity_evidence_sha256@ == products.activity->0.evidence_sha256@
    &&& same_artifact(
        evidence.activity_artifact,
        products.activity->0.evidence.activity_artifact,
    )
}

/// The flexible product follows from its state.
pub open spec fn flexible_follows(products: PublicationProducts, reads: ProductReads) -> bool {
    let evidence = products.flexible->0.product.evidence;
    &&& completed_for(evidence, evidence.snapshot_id@, evidence.as_of_epoch)
    &&& product_valid(evidence, *reads.flexible)
}

/// How the semantic products are refused, if so.
pub open spec fn semantic_refusal(
    generation: Generation,
    products: PublicationProducts,
    reads: ProductReads,
    zap: Option<ZapRevalidation>,
) -> Option<Refusal> {
    if semantic_fits(generation, products, reads, zap) {
        None
    } else if facts_fit(generation, products, reads) && zap is Some && !zap_product_valid(
        products.semantic->0.zap_distinct.evidence,
        *products.semantic->0.product,
        zap->0,
        reads.sketch_lg_k,
    ) {
        Some(Refusal::Invalid)
    } else {
        Some(Refusal::Validation)
    }
}

/// The semantic facts may take part in the generation.
pub open spec fn facts_fit(
    generation: Generation,
    products: PublicationProducts,
    reads: ProductReads,
) -> bool {
    let evidence = products.semantic->0.product.evidence;
    &&& evidence.snapshot_id@ == generation.snapshot_id@
    &&& evidence.as_of_epoch == generation.as_of_epoch
    &&& evidence.status@ == "completed"@
    &&& evidence.runner_version@ == SEMANTIC_FACTS_RUNNER_VERSION@
    &&& evidence.final_artifact.row_count == evidence.logical_relevant_events
    &&& evidence.final_artifact.sha256@ == sha256_text(reads.semantic@)
}

/// The publisher product names the generation and its artifact.
pub open spec fn publisher_linked(
    generation: Generation,
    products: PublicationProducts,
    reads: ProductReads,
) -> bool {
    let evidence = products.publisher->0.evidence;
    &&& products.activity is Some
    &&& products.relay is Some
    &&& evidence.snapshot_id@ == generation.snapshot_id@
    &&& evidence.as_of_epoch == generation.as_of_epoch
    &&& evidence.activity_evidence_sha256@ == products.activity->0.evidence_sha256@
    &&& evidence.activity_artifact_sha256@
        == products.activity->0.evidence.activity_artifact.sha256@
    &&& evidence.schema_version == EVIDENCE_SCHEMA_VERSION
    &&& evidence.runner_version@ == RUNNER_VERSION@
    &&& evidence.status@ == "completed"@
    &&& evidence.product_version@ == PUBLISHER_RANKING_VERSION@
    &&& evidence.ranking_artifact.sha256@ == sha256_text(reads.ranking@)
}

/// How the publisher product is refused, if so.
pub open spec fn publisher_refusal(
    generation: Generation,
    products: PublicationProducts,
    reads: ProductReads,
) -> Option<Refusal> {
    if publisher_fits(generation, products, reads) {
        None
    } else if publisher_linked(generation, products, reads) {
        Some(Refusal::Invalid)
    } else {
        Some(Refusal::Validation)
    }
}

/// How the products are refused, if so: the first that does not fit decides.
pub open spec fn products_refusal(
    generation: Generation,
    products: PublicationProducts,
    reads: ProductReads,
    zap: Option<ZapRevalidation>,
) -> Option<Refusal> {
    let bounded = bounded_refusal(generation, products, reads);
    let flexible = flexible_refusal(generation, products, reads);
    let semantic = semantic_refusal(generation, products, reads, zap);
    if bounded is Some {
        bounded
    } else if flexible is Some {
        flexible
    } else if semantic is Some {
        semantic
    } else if !relay_fits(generation, products, reads) {
        Some(Refusal::Validation)
    } else {
        publisher_refusal(generation, products, reads)
    }
}

/// Check the first-seen, activity and cohort products of a generation.
fn validate_bounded(
    generation: Generation,
    products: PublicationProducts,
    reads: ProductReads,
) -> (outcome: Result<()>)
    requires
        products.activity is Some ==> weeks_defined(
            reads.activity@,
            products.activity->0.evidence.as_of_epoch as int,
        ),
    ensures
        outcome is Ok <==> identity_fits(generation, products, reads) && activity_fits(
            generation,
            products,
            reads,
        ) && cohort_fits(generation, products, reads),
        reports(outcome, bounded_refusal(generation, products, reads)),
{
    if let Some(identity) = products.identity {
        match identity.validate_for_publication(
            generation.snapshot_id,
            generation.as_of_epoch,
            reads.first_seen,
            reads.first_seen_json,
            reads.genesis,
        ) {
            Ok(()) => {},
            Err(error) => {
                return Err(error);
            },
        }
    }
    if let Some(activity) = products.activity {
        if products.identity.is_none() {
            return Err(
                Error::Validation("fixed activity publication requires first-seen identity"),
            );
        }
        match activity.validate_for_publication(
            generation.snapshot_id,
            generation.as_of_epoch,
            reads.activity,
            reads.flags,
            reads.activity_json,
        ) {
            Ok(()) => {},
            Err(error) => {
                return Err(error);
            },
        }
    }
    if let Some(cohort) = products.cohort {
        let identity: &BoundedPubkeyFirstSeen = match products.identity {
            Some(identity) => identity,
            None => {
                return Err(
                    Error::Validation(
                        "cohort-retention publication requires identity and fixed activity",
                    ),
                );
            },
        };
        let activity: &BoundedFixedActivity = match products.activity {
            Some(activity) => activity,
            None => {
                return Err(
                    Error::Validation(
                        "cohort-retention publication requires identity and fixed activity",
                    ),
                );
            },
        };
        if !text_equal(cohort.evidence.snapshot_id.as_str(), generation.snapshot_id)
            || cohort.evidence.as_of_epoch != generation.as_of_epoch || !text_equal(
            cohort.evidence.identity_evidence_sha256.as_str(),
            identity.evidence_sha256.as_str(),
        ) || !text_equal(
            cohort.evidence.activity_evidence_sha256.as_str(),
            activity.evidence_sha256.as_str(),
        ) {
            return Err(
                Error::Validation(
                    "cohort-retention evidence does not match its publication inputs",
                ),
            );
        }
        if !reads.cohort_valid {
            return Err(Error::Invalid("cohort-retention product failed validation"));
        }
    }
    Ok(())
}

/// Check the flexible product of a generation.
fn validate_flexible(
    generation: Generation,
    products: PublicationProducts,
    reads: ProductReads,
) -> (outcome: Result<()>)
    ensures
        outcome is Ok <==> flexible_fits(generation, products, reads),
        reports(outcome, flexible_refusal(generation, products, reads)),
{
    let flexible: FlexibleDistinctPublication = match products.flexible {
        Some(flexible) => flexible,
        None => {
            return Ok(());
        },
    };
    let activity: &BoundedFixedActivity = match products.activity {
        Some(activity) => activity,
        None => {
            return Err(
                Error::Validation("flexible-distinct publication requires fixed activity"),
            );
        },
    };
    if !text_equal(flexible.product.evidence.snapshot_id.as_str(), generation.snapshot_id)
        || flexible.product.evidence.as_of_epoch != generation.as_of_epoch || !text_equal(
        flexible.product.evidence.activity_evidence_sha256.as_str(),
        activity.evidence_sha256.as_str(),
    ) || !artifacts_equal(
        &flexible.product.evidence.activity_artifact,
        &activity.evidence.activity_artifact,
    ) {
        return Err(
            Error::Validation("flexible-distinct evidence does not match its publication inputs"),
        );
    }
    match validate_flexible_distinct_publication(
        flexible.product,
        reads.flexible,
        flexible.validation,
        flexible.validation_json,
        flexible.validation_evidence_sha256,
    ) {
        Ok(_) => Ok(()),
        Err(error) => Err(error),
    }
}

/// Check the semantic products of a generation.
fn validate_semantic(
    generation: Generation,
    products: PublicationProducts,
    reads: ProductReads,
    zap: Option<ZapRevalidation>,
) -> (outcome: Result<()>)
    requires
        products.semantic is Some && zap is Some ==> {
            let evidence = products.semantic->0.zap_distinct.evidence;
            &&& zap->0.chunk_checkpoints@.len() == evidence.chunk_checkpoints@.len()
            &&& zap->0.merge_checkpoints@.len() == evidence.merge_checkpoints@.len()
        },
    ensures
        outcome is Ok <==> semantic_fits(generation, products, reads, zap),
        reports(outcome, semantic_refusal(generation, products, reads, zap)),
{
    let semantic: SemanticPublication = match products.semantic {
        Some(semantic) => semantic,
        None => {
            return Ok(());
        },
    };
    if !text_equal(semantic.product.evidence.snapshot_id.as_str(), generation.snapshot_id)
        || semantic.product.evidence.as_of_epoch != generation.as_of_epoch {
        return Err(
            Error::Validation("semantic evidence does not match its publication generation"),
        );
    }
    match validate_semantic_publication(semantic.product, reads.semantic) {
        Ok(()) => {},
        Err(error) => {
            return Err(error);
        },
    }
    match zap {
        Some(read) => validate_zap_distinct_publication(
            semantic.product,
            semantic.zap_distinct,
            read,
            reads.sketch_lg_k,
        ),
        None => Err(
            Error::Validation("semantic publication is missing pre-transaction validation"),
        ),
    }
}

/// Check the relay product of a generation.
fn validate_relay(
    generation: Generation,
    products: PublicationProducts,
    reads: ProductReads,
) -> (outcome: Result<()>)
    ensures
        outcome is Ok <==> relay_fits(generation, products, reads),
        outcome is Err ==> outcome->Err_0 is Validation,
{
    let relay: &BoundedRelayDistribution = match products.relay {
        Some(relay) => relay,
        None => {
            return Ok(());
        },
    };
    if products.semantic.is_none() {
        return Err(
            Error::Validation("relay publication requires the complete semantic lane"),
        );
    }
    if !text_equal(relay.evidence.snapshot_id.as_str(), generation.snapshot_id)
        || relay.evidence.as_of_epoch != generation.as_of_epoch {
        return Err(Error::Validation("relay evidence does not match its publication generation"));
    }
    validate_relay_distribution_publication(relay, reads.relay_json)
}

/// Check the publisher product of a generation.
fn validate_publisher(
    generation: Generation,
    products: PublicationProducts,
    reads: ProductReads,
) -> (outcome: Result<()>)
    ensures
        outcome is Ok <==> publisher_fits(generation, products, reads),
        reports(outcome, publisher_refusal(generation, products, reads)),
{
    let publisher: &BoundedPublisherRanking = match products.publisher {
        Some(publisher) => publisher,
        None => {
            return Ok(());
        },
    };
    let activity: &BoundedFixedActivity = match products.activity {
        Some(activity) => activity,
        None => {
            return Err(
                Error::Validation("publisher ranking publication requires fixed activity"),
            );
        },
    };
    if products.relay.is_none() || !text_equal(
        publisher.evidence.snapshot_id.as_str(),
        generation.snapshot_id,
    ) || publisher.evidence.as_of_epoch != generation.as_of_epoch || !text_equal(
        publisher.evidence.activity_evidence_sha256.as_str(),
        activity.evidence_sha256.as_str(),
    ) || !text_equal(
        publisher.evidence.activity_artifact_sha256.as_str(),
        activity.evidence.activity_artifact.sha256.as_str(),
    ) {
        return Err(
            Error::Validation(
                "publisher ranking evidence does not match its publication generation",
            ),
        );
    }
    validate_publisher_ranking_publication(publisher, reads.ranking)
}

/// Check that every product may take part in the generation, before anything
/// is written.
pub fn validate_products(
    generation: Generation,
    products: PublicationProducts,
    reads: ProductReads,
    zap: Option<ZapRevalidation>,
) -> (outcome: Result<()>)
    requires
        products.activity is Some ==> weeks_defined(
            reads.activity@,
            products.activity->0.evidence.as_of_epoch as int,
        ),
        products.semantic is Some && zap is Some ==> {
            let evidence = products.semantic->0.zap_distinct.evidence;
            &&& zap->0.chunk_checkpoints@.len() == evidence.chunk_checkpoints@.len()
            &&& zap->0.merge_checkpoints@.len() == evidence.merge_checkpoints@.len()
        },
    ensures
        outcome is Ok <==> products_fit(generation, products, reads, zap),
        reports(outcome, products_refusal(generation, products, reads, zap)),
{
    match validate_bounded(generation, products, reads) {
        Ok(()) => {},
        Err(error) => {
            return Err(error);
        },
    }
    match validate_flexible(generation, products, reads) {
        Ok(()) => {},
        Err(error) => {
            return Err(error);
        },
    }
    match validate_semantic(generation, products, reads, zap) {
        Ok(()) => {},
        Err(error) => {
            return Err(error);
        },
    }
    match validate_relay(generation, products, reads) {
        Ok(()) => {},
        Err(error) => {
            return Err(error);
        },
    }
    validate_publisher(generation, products, reads)
}

/// All products that take part in a generation are of one snapshot and one
/// boundary.
pub proof fn lemma_one_generation(
    generation: Generation,
    products: PublicationProducts,
    reads: ProductReads,
    zap: Option<ZapRevalidation>,
)
    requires
        products_fit(generation, products, reads, zap),
    ensures
        products.identity is Some ==> products.identity->0.evidence.snapshot_id@
            == generation.snapshot_id@ && products.identity->0.evidence.as_of_epoch
            == generation.as_of_epoch,
        products.activity is Some ==> products.activity->0.evidence.snapshot_id@
            == generation.snapshot_id@ && products.activity->0.evidence.as_of_epoch
            == generation.as_of_epoch,
        products.cohort is Some ==> products.cohort->0.evidence.snapshot_id@
            == generation.snapshot_id@ && products.cohort->0.evidence.as_of_epoch
            == generation.as_of_epoch,
        products.flexible is Some ==> products.flexible->0.product.evidence.snapshot_id@
            == generation.snapshot_id@ && products.flexible->0.product.evidence.as_of_epoch
            == generation.as_of_epoch,
        products.semantic is Some ==> products.semantic->0.product.evidence.snapshot_id@
            == generation.snapshot_id@ && products.semantic->0.product.evidence.as_of_epoch
            == generation.as_of_epoch,
        products.semantic is Some ==> products.semantic->0.zap_distinct.evidence.snapshot_id@
            == generation.snapshot_id@ && products.semantic->0.zap_distinct.evidence.as_of_epoch
            == generation.as_of_epoch,
        products.relay is Some ==> products.relay->0.evidence.snapshot_id@
            == generation.snapshot_id@ && products.relay->0.evidence.as_of_epoch
            == generation.as_of_epoch,
        products.publisher is Some ==> products.publisher->0.evidence.snapshot_id@
            == generation.snapshot_id@ && products.publisher->0.evidence.as_of_epoch
            == generation.as_of_epoch,
{
}

/// A generation with publisher rankings holds every product that they rest on.
pub proof fn lemma_rankings_need_their_sources(
    generation: Generation,
    products: PublicationProducts,
    reads: ProductReads,
    zap: Option<ZapRevalidation>,
)
    requires
        products_fit(generation, products, reads, zap),
        products.publisher is Some,
    ensures
        products.identity is Some,
        products.activity is Some,
        products.semantic is Some,
        products.relay is Some,
{
}

} // verus!
