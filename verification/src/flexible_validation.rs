//! Tolerance evidence for flexible distinct sketches.

use vstd::prelude::*;
use vstd::string::*;

use crate::error::{Error, Result};
use crate::fixed_activity::{weeks_defined, BoundedFixedActivity};
use crate::flexible_distinct::{
    completed_for, product_valid, BoundedFlexibleDistinct, FlexibleDistinctEvidence,
    FlexibleDistinctWindow, FlexibleRevalidation,
};
use crate::flexible_samples::{
    has_unreadable_day, lemma_samples_are_candidates, select_samples, selects, ExactSample,
};
use crate::flexible_windows::{estimates_outcome, load_and_estimate_flexible_distinct_windows};
use crate::digest::sha256_text;
use crate::text::{optional_text, optional_text_equal, text_equal};

verus! {

/// Validation runner identity that publication accepts.
pub const FLEXIBLE_DISTINCT_VALIDATION_RUNNER: &'static str =
    "pensieve-analytics-flexible-distinct-validation-v2";

/// Production maximum accepted relative error in parts per million.
pub const FLEXIBLE_DISTINCT_TOLERANCE_PPM: u64 = 21_000;

/// One exact-versus-estimated representative daily sample.
#[derive(Clone, Debug, PartialEq, Eq)]
pub struct FlexibleDistinctValidationSample {
    /// UTC day selected deterministically from the exact reference.
    pub period_start: String,
    /// Inclusive UTC epoch-second boundary.
    pub since_epoch: u64,
    /// Exclusive UTC epoch-second boundary.
    pub until_epoch: u64,
    /// Optional kind restriction.
    pub kind: Option<u16>,
    /// Exact distinct authors from fixed-activity evidence.
    pub exact_unique_pubkeys: u64,
    /// Estimate from complete-hour leaves.
    pub estimated_unique_pubkeys: u64,
    /// Absolute estimation error.
    pub absolute_error: u64,
    /// Conservative relative error in parts per million.
    pub relative_error_ppm: u64,
    /// Whether this sample satisfies the selected tolerance.
    pub accepted: bool,
}

/// Canonical production tolerance evidence.
#[derive(Clone, Debug, PartialEq, Eq)]
pub struct FlexibleDistinctValidationEvidence {
    /// Evidence schema version.
    pub schema_version: u32,
    /// Validator implementation identity.
    pub runner_version: String,
    /// `passed` only when every sample is accepted.
    pub status: String,
    /// Frozen catalog identity.
    pub snapshot_id: String,
    /// Analytics as-of boundary.
    pub as_of_epoch: u64,
    /// Exclusive complete-hour boundary.
    pub complete_through_epoch: u64,
    /// Exact fixed-activity evidence SHA-256.
    pub activity_evidence_sha256: String,
    /// Flexible-distinct evidence SHA-256.
    pub flexible_evidence_sha256: String,
    /// Accepted relative error ceiling.
    pub tolerance_ppm: u64,
    /// Number of deterministic representative samples.
    pub sample_count: u64,
    /// Largest absolute error observed.
    pub max_absolute_error: u64,
    /// Largest relative error observed.
    pub max_relative_error_ppm: u64,
    /// Exact sample evidence.
    pub samples: Vec<FlexibleDistinctValidationSample>,
}

/// Relative error in parts per million, rounded up.
pub open spec fn ceiling_ppm(absolute_error: int, exact: int) -> int {
    if exact == 0 {
        if absolute_error == 0 {
            0
        } else {
            u64::MAX as int
        }
    } else {
        (absolute_error * 1_000_000 + exact - 1) / exact
    }
}

/// Relative error in parts per million, rounded up; any error against nothing
/// is the largest.
pub fn relative_error_ppm(absolute_error: u64, exact: u64) -> (ppm: Result<u64>)
    ensures
        ({
            let rounded = ceiling_ppm(absolute_error as int, exact as int);
            &&& rounded <= u64::MAX ==> ppm == Ok::<u64, Error>(rounded as u64)
            &&& rounded > u64::MAX ==> ppm == Err::<u64, Error>(
                Error::Invalid("relative error exceeds u64"),
            )
        }),
{
    if exact == 0 {
        return Ok(
            if absolute_error == 0 {
                0
            } else {
                u64::MAX
            },
        );
    }
    let rounded: u128 = (absolute_error as u128 * 1_000_000 + (exact as u128 - 1)) / exact as u128;
    if rounded > u64::MAX as u128 {
        return Err(Error::Invalid("relative error exceeds u64"));
    }
    Ok(rounded as u64)
}

/// Rounding up never reports less than the true error.
pub proof fn lemma_error_is_conservative(absolute_error: u64, exact: u64)
    requires
        exact > 0,
    ensures
        ceiling_ppm(absolute_error as int, exact as int) * exact >= absolute_error * 1_000_000,
        ceiling_ppm(absolute_error as int, exact as int) * exact < absolute_error * 1_000_000
            + exact,
        ceiling_ppm(0, exact as int) == 0,
{
    let n = absolute_error * 1_000_000 + exact - 1;
    let d = exact as int;
    vstd::arithmetic::div_mod::lemma_fundamental_div_mod(n, d);
    vstd::arithmetic::div_mod::lemma_mod_bound(n, d);
    assert(n / d * d == d * (n / d)) by (nonlinear_arith);
    assert((d - 1) / d == 0) by (nonlinear_arith)
        requires
            d > 0,
    ;
}

/// Distance of two counts.
pub open spec fn distance(a: u64, b: u64) -> u64 {
    if a < b {
        (b - a) as u64
    } else {
        (a - b) as u64
    }
}

/// The windows are the days of the samples.
pub open spec fn sample_windows_are(
    windows: Seq<FlexibleDistinctWindow>,
    samples: Seq<ExactSample>,
) -> bool {
    &&& windows.len() == samples.len()
    &&& forall|i: int|
        0 <= i < samples.len() ==> (#[trigger] windows[i]) == (FlexibleDistinctWindow {
            since_epoch: samples[i].since_epoch,
            until_epoch: (samples[i].since_epoch + 86_400) as u64,
            kind: samples[i].row.kind,
        })
}

/// The windows of the samples: one day each.
fn sample_windows(samples: &Vec<ExactSample>) -> (windows: Vec<FlexibleDistinctWindow>)
    requires
        forall|i: int|
            0 <= i < samples@.len() ==> (#[trigger] samples@[i]).since_epoch + 86_400 <= u64::MAX,
    ensures
        sample_windows_are(windows@, samples@),
{
    let mut windows: Vec<FlexibleDistinctWindow> = Vec::new();
    let mut i: usize = 0;
    while i < samples.len()
        invariant
            i <= samples@.len(),
            windows@.len() == i,
            forall|j: int|
                0 <= j < samples@.len() ==> (#[trigger] samples@[j]).since_epoch + 86_400
                    <= u64::MAX,
            forall|j: int|
                0 <= j < i ==> (#[trigger] windows@[j]) == (FlexibleDistinctWindow {
                    since_epoch: samples@[j].since_epoch,
                    until_epoch: (samples@[j].since_epoch + 86_400) as u64,
                    kind: samples@[j].row.kind,
                }),
        decreases samples.len() - i,
    {
        assert(samples@[i as int].since_epoch + 86_400 <= u64::MAX);
        windows.push(
            FlexibleDistinctWindow {
                since_epoch: samples[i].since_epoch,
                until_epoch: samples[i].since_epoch + 86_400,
                kind: samples[i].row.kind,
            },
        );
        i += 1;
    }
    windows
}

/// The sample compares the exact row with the estimate.
pub open spec fn compares(
    sample: FlexibleDistinctValidationSample,
    exact: ExactSample,
    estimate: u64,
    tolerance_ppm: u64,
) -> bool {
    let error = distance(exact.row.unique_pubkeys, estimate);
    &&& sample.period_start == exact.period_start
    &&& sample.since_epoch == exact.since_epoch
    &&& sample.until_epoch == exact.since_epoch + 86_400
    &&& sample.kind == exact.row.kind
    &&& sample.exact_unique_pubkeys == exact.row.unique_pubkeys
    &&& sample.estimated_unique_pubkeys == estimate
    &&& sample.absolute_error == error
    &&& sample.relative_error_ppm == ceiling_ppm(error as int, exact.row.unique_pubkeys as int)
    &&& sample.accepted == (sample.relative_error_ppm <= tolerance_ppm)
}

/// Every sample compares its exact row with its estimate.
pub open spec fn compares_all(
    samples: Seq<FlexibleDistinctValidationSample>,
    exact: Seq<ExactSample>,
    estimates: Seq<u64>,
    tolerance_ppm: u64,
) -> bool {
    &&& samples.len() == exact.len()
    &&& forall|i: int|
        0 <= i < samples.len() ==> #[trigger] compares(
            samples[i],
            exact[i],
            estimates[i],
            tolerance_ppm,
        )
}

/// The relative error of some sample leaves the `u64` range.
pub open spec fn error_leaves_range(exact: Seq<ExactSample>, estimates: Seq<u64>) -> bool {
    exists|i: int| 0 <= i < exact.len() && #[trigger] error_too_large(exact[i], estimates[i])
}

/// The relative error leaves the `u64` range.
pub open spec fn error_too_large(exact: ExactSample, estimate: u64) -> bool {
    ceiling_ppm(
        distance(exact.row.unique_pubkeys, estimate) as int,
        exact.row.unique_pubkeys as int,
    ) > u64::MAX
}

/// Compare every exact row with its estimate.
pub fn compare_samples(
    exact: &Vec<ExactSample>,
    estimates: &Vec<u64>,
    tolerance_ppm: u64,
) -> (outcome: Result<Vec<FlexibleDistinctValidationSample>>)
    requires
        exact@.len() == estimates@.len(),
        forall|i: int|
            0 <= i < exact@.len() ==> (#[trigger] exact@[i]).since_epoch + 86_400 <= u64::MAX,
    ensures
        outcome is Err <==> error_leaves_range(exact@, estimates@),
        match outcome {
            Ok(samples) => compares_all(samples@, exact@, estimates@, tolerance_ppm),
            Err(error) => error is Invalid,
        },
{
    let mut samples: Vec<FlexibleDistinctValidationSample> = Vec::new();
    let mut i: usize = 0;
    while i < exact.len()
        invariant
            i <= exact@.len(),
            samples@.len() == i,
            exact@.len() == estimates@.len(),
            forall|j: int|
                0 <= j < exact@.len() ==> (#[trigger] exact@[j]).since_epoch + 86_400 <= u64::MAX,
            forall|j: int|
                0 <= j < i ==> #[trigger] compares(
                    samples@[j],
                    exact@[j],
                    estimates@[j],
                    tolerance_ppm,
                ),
            forall|j: int| 0 <= j < i ==> !#[trigger] error_too_large(exact@[j], estimates@[j]),
        decreases exact.len() - i,
    {
        let sample: &ExactSample = &exact[i];
        assert(exact@[i as int].since_epoch + 86_400 <= u64::MAX);
        let estimate: u64 = estimates[i];
        let unique: u64 = sample.row.unique_pubkeys;
        let absolute_error: u64 = if unique < estimate {
            estimate - unique
        } else {
            unique - estimate
        };
        let ppm: u64 = match relative_error_ppm(absolute_error, unique) {
            Ok(ppm) => ppm,
            Err(error) => {
                assert(error_too_large(exact@[i as int], estimates@[i as int]));
                return Err(error);
            },
        };
        samples.push(
            FlexibleDistinctValidationSample {
                period_start: sample.period_start.clone(),
                since_epoch: sample.since_epoch,
                until_epoch: sample.since_epoch + 86_400,
                kind: sample.row.kind,
                exact_unique_pubkeys: unique,
                estimated_unique_pubkeys: estimate,
                absolute_error,
                relative_error_ppm: ppm,
                accepted: ppm <= tolerance_ppm,
            },
        );
        i += 1;
    }
    Ok(samples)
}

/// The largest relative error, zero where there is no sample.
pub open spec fn largest_relative(samples: Seq<FlexibleDistinctValidationSample>) -> u64
    decreases samples.len(),
{
    if samples.len() == 0 {
        0
    } else {
        let earlier = largest_relative(samples.drop_last());
        if samples.last().relative_error_ppm > earlier {
            samples.last().relative_error_ppm
        } else {
            earlier
        }
    }
}

/// The largest absolute error, zero where there is no sample.
pub open spec fn largest_absolute(samples: Seq<FlexibleDistinctValidationSample>) -> u64
    decreases samples.len(),
{
    if samples.len() == 0 {
        0
    } else {
        let earlier = largest_absolute(samples.drop_last());
        if samples.last().absolute_error > earlier {
            samples.last().absolute_error
        } else {
            earlier
        }
    }
}

/// There is a sample, and every one is accepted.
pub open spec fn all_accepted(samples: Seq<FlexibleDistinctValidationSample>) -> bool {
    &&& samples.len() > 0
    &&& forall|i: int| 0 <= i < samples.len() ==> (#[trigger] samples[i]).accepted
}

/// Largest relative error, largest absolute error, and whether all are accepted.
pub fn summarize_samples(samples: &Vec<FlexibleDistinctValidationSample>) -> (summary: (
    u64,
    u64,
    bool,
))
    ensures
        summary.0 == largest_relative(samples@),
        summary.1 == largest_absolute(samples@),
        summary.2 == all_accepted(samples@),
{
    let mut relative: u64 = 0;
    let mut absolute: u64 = 0;
    let mut accepted: bool = true;
    let mut i: usize = 0;
    assert(samples@.take(0) =~= Seq::empty());
    while i < samples.len()
        invariant
            i <= samples@.len(),
            relative == largest_relative(samples@.take(i as int)),
            absolute == largest_absolute(samples@.take(i as int)),
            accepted == forall|j: int| 0 <= j < i ==> (#[trigger] samples@[j]).accepted,
        decreases samples.len() - i,
    {
        assert(samples@.take(i + 1).drop_last() =~= samples@.take(i as int));
        if samples[i].relative_error_ppm > relative {
            relative = samples[i].relative_error_ppm;
        }
        if samples[i].absolute_error > absolute {
            absolute = samples[i].absolute_error;
        }
        let before: bool = accepted;
        accepted = accepted && samples[i].accepted;
        proof {
            if accepted {
                assert forall|j: int| 0 <= j < i + 1 implies (#[trigger] samples@[j]).accepted by {
                    if j == i {
                        assert(samples@[j].accepted);
                    }
                }
            } else if !before {
                let j = choose|j: int| 0 <= j < i && !(#[trigger] samples@[j]).accepted;
                assert(!samples@[j].accepted);
            }
        }
        i += 1;
    }
    assert(samples@.take(samples@.len() as int) =~= samples@);
    (relative, absolute, samples.len() > 0 && accepted)
}

/// The artifacts agree in every field.
pub open spec fn same_artifact(
    a: crate::artifact::ArtifactIdentity,
    b: crate::artifact::ArtifactIdentity,
) -> bool {
    &&& a.path@ == b.path@
    &&& a.byte_size == b.byte_size
    &&& a.row_count == b.row_count
    &&& optional_text(a.min_key) == optional_text(b.min_key)
    &&& optional_text(a.max_key) == optional_text(b.max_key)
    &&& a.sha256@ == b.sha256@
}

/// Whether the artifacts agree in every field.
pub fn artifacts_equal(
    a: &crate::artifact::ArtifactIdentity,
    b: &crate::artifact::ArtifactIdentity,
) -> (same: bool)
    ensures
        same == same_artifact(*a, *b),
{
    text_equal(a.path.as_str(), b.path.as_str()) && a.byte_size == b.byte_size && a.row_count
        == b.row_count && optional_text_equal(&a.min_key, &b.min_key) && optional_text_equal(
        &a.max_key,
        &b.max_key,
    ) && text_equal(a.sha256.as_str(), b.sha256.as_str())
}

/// The flexible product was built from this activity product.
pub open spec fn built_from(
    flexible: FlexibleDistinctEvidence,
    activity: BoundedFixedActivity,
) -> bool {
    &&& activity.evidence.snapshot_id@ == flexible.snapshot_id@
    &&& activity.evidence.as_of_epoch == flexible.as_of_epoch
    &&& activity.evidence_sha256@ == flexible.activity_evidence_sha256@
    &&& same_artifact(activity.evidence.activity_artifact, flexible.activity_artifact)
}

/// Whether the flexible product was built from this activity product.
fn is_built_from(flexible: &FlexibleDistinctEvidence, activity: &BoundedFixedActivity) -> (same:
    bool)
    ensures
        same == built_from(*flexible, *activity),
{
    text_equal(activity.evidence.snapshot_id.as_str(), flexible.snapshot_id.as_str())
        && activity.evidence.as_of_epoch == flexible.as_of_epoch && text_equal(
        activity.evidence_sha256.as_str(),
        flexible.activity_evidence_sha256.as_str(),
    ) && artifacts_equal(&activity.evidence.activity_artifact, &flexible.activity_artifact)
}

/// The evidence reports the samples of the products.
pub open spec fn reports_samples(
    evidence: FlexibleDistinctValidationEvidence,
    activity: BoundedFixedActivity,
    flexible: FlexibleDistinctEvidence,
    flexible_sha256: Seq<char>,
    exact: Seq<ExactSample>,
    estimates: Seq<u64>,
    tolerance_ppm: u64,
) -> bool {
    &&& evidence.schema_version == 1
    &&& evidence.runner_version@ == FLEXIBLE_DISTINCT_VALIDATION_RUNNER@
    &&& evidence.status@ == if all_accepted(evidence.samples@) {
        "passed"@
    } else {
        "failed"@
    }
    &&& evidence.snapshot_id == flexible.snapshot_id
    &&& evidence.as_of_epoch == flexible.as_of_epoch
    &&& evidence.complete_through_epoch == flexible.complete_through_epoch
    &&& evidence.activity_evidence_sha256 == activity.evidence_sha256
    &&& evidence.flexible_evidence_sha256@ == flexible_sha256
    &&& evidence.tolerance_ppm == tolerance_ppm
    &&& evidence.sample_count == evidence.samples@.len()
    &&& evidence.max_absolute_error == largest_absolute(evidence.samples@)
    &&& evidence.max_relative_error_ppm == largest_relative(evidence.samples@)
    &&& compares_all(evidence.samples@, exact, estimates, tolerance_ppm)
}

/// The tolerance evidence of a flexible product against an activity product.
pub fn report_validation(
    activity: &BoundedFixedActivity,
    flexible: &BoundedFlexibleDistinct,
    exact: &Vec<ExactSample>,
    estimates: &Vec<u64>,
    tolerance_ppm: u64,
) -> (outcome: Result<FlexibleDistinctValidationEvidence>)
    requires
        exact@.len() == estimates@.len(),
        forall|i: int|
            0 <= i < exact@.len() ==> (#[trigger] exact@[i]).since_epoch + 86_400 <= u64::MAX,
    ensures
        outcome is Ok <==> built_from(flexible.evidence, *activity) && !error_leaves_range(
            exact@,
            estimates@,
        ),
        match outcome {
            Ok(evidence) => reports_samples(
                evidence,
                *activity,
                flexible.evidence,
                flexible.evidence_sha256@,
                exact@,
                estimates@,
                tolerance_ppm,
            ),
            Err(error) => error is Invalid,
        },
{
    if !is_built_from(&flexible.evidence, activity) {
        return Err(
            Error::Invalid("fixed-activity and flexible-distinct evidence identities differ"),
        );
    }
    let samples: Vec<FlexibleDistinctValidationSample> = match compare_samples(
        exact,
        estimates,
        tolerance_ppm,
    ) {
        Ok(samples) => samples,
        Err(error) => {
            return Err(error);
        },
    };
    let (max_relative_error_ppm, max_absolute_error, passed) = summarize_samples(&samples);
    let status: String = if passed {
        "passed".to_owned()
    } else {
        "failed".to_owned()
    };
    let sample_count: u64 = samples.len() as u64;
    Ok(
        FlexibleDistinctValidationEvidence {
            schema_version: 1,
            runner_version: FLEXIBLE_DISTINCT_VALIDATION_RUNNER.to_owned(),
            status,
            snapshot_id: flexible.evidence.snapshot_id.clone(),
            as_of_epoch: flexible.evidence.as_of_epoch,
            complete_through_epoch: flexible.evidence.complete_through_epoch,
            activity_evidence_sha256: activity.evidence_sha256.clone(),
            flexible_evidence_sha256: flexible.evidence_sha256.clone(),
            tolerance_ppm,
            sample_count,
            max_absolute_error,
            max_relative_error_ppm,
            samples,
        },
    )
}

/// Whether the tolerance evidence passed; publication needs it.
pub fn require_passed(evidence: &FlexibleDistinctValidationEvidence) -> (outcome: Result<()>)
    ensures
        outcome is Ok <==> evidence.status@ == "passed"@,
        outcome is Err ==> outcome == Err::<(), Error>(
            Error::Invalid("representative flexible-distinct error exceeds the tolerance"),
        ),
{
    if !text_equal(evidence.status.as_str(), "passed") {
        return Err(Error::Invalid("representative flexible-distinct error exceeds the tolerance"));
    }
    Ok(())
}

/// State of an activity product, read to revalidate it.
pub struct ActivityState<'a> {
    /// Bytes of the activity artifact.
    pub activity: &'a [u8],
    /// Bytes of the flags artifact.
    pub flags: &'a [u8],
    /// Canonical JSON of the serving rows.
    pub metric_json: &'a [u8],
}

/// Both products are complete and valid, and every day can be read.
pub open spec fn can_compare(
    activity: BoundedFixedActivity,
    state: ActivityState,
    flexible: FlexibleDistinctEvidence,
    read: FlexibleRevalidation,
) -> bool {
    &&& activity.completed_for(activity.evidence.snapshot_id@, activity.evidence.as_of_epoch)
    &&& activity.matches_state(state.activity@, state.flags@, state.metric_json@)
    &&& !has_unreadable_day(activity.evidence.distinct_pubkeys@)
    &&& completed_for(flexible, flexible.snapshot_id@, flexible.as_of_epoch)
    &&& product_valid(flexible, read)
}

/// The evidence compares the exact samples of the activity product with the
/// estimates of their days.
pub open spec fn validates<U: Fn(Vec<Vec<u8>>) -> Result<u64>>(
    evidence: FlexibleDistinctValidationEvidence,
    activity: BoundedFixedActivity,
    flexible: FlexibleDistinctEvidence,
    flexible_sha256: Seq<char>,
    leaf_bytes: Seq<u8>,
    tolerance_ppm: u64,
    union: U,
) -> bool {
    exists|
        exact: Seq<ExactSample>,
        windows: Seq<FlexibleDistinctWindow>,
        estimates: Vec<u64>,
    |
        {
            &&& selects(
                exact,
                activity.evidence.distinct_pubkeys@,
                flexible.complete_through_epoch as int,
            )
            &&& sample_windows_are(windows, exact)
            &&& #[trigger] estimates_outcome(
                union,
                leaf_bytes,
                flexible.complete_through_epoch as int,
                windows,
                Ok(estimates),
            )
            &&& #[trigger] reports_samples(
                evidence,
                activity,
                flexible,
                flexible_sha256,
                exact,
                estimates@,
                tolerance_ppm,
            )
        }
}

/// Estimating the days of the samples fails, or an error leaves its range.
pub open spec fn comparison_fails<U: Fn(Vec<Vec<u8>>) -> Result<u64>>(
    error: Error,
    activity: BoundedFixedActivity,
    flexible: FlexibleDistinctEvidence,
    leaf_bytes: Seq<u8>,
    union: U,
) -> bool {
    exists|
        exact: Seq<ExactSample>,
        windows: Seq<FlexibleDistinctWindow>,
        result: Result<Vec<u64>>,
    |
        {
            &&& #[trigger] selects(
                exact,
                activity.evidence.distinct_pubkeys@,
                flexible.complete_through_epoch as int,
            )
            &&& sample_windows_are(windows, exact)
            &&& #[trigger] estimates_outcome(
                union,
                leaf_bytes,
                flexible.complete_through_epoch as int,
                windows,
                result,
            )
            &&& match result {
                Ok(estimates) => error is Invalid && error_leaves_range(exact, estimates@),
                Err(reason) => error == reason,
            }
        }
}

/// Compare one flexible product with deterministic exact daily samples.
fn measure_samples<U: Fn(Vec<Vec<u8>>) -> Result<u64>>(
    activity: &BoundedFixedActivity,
    state: &ActivityState,
    flexible: FlexibleDistinctEvidence,
    flexible_json: &[u8],
    read: &FlexibleRevalidation,
    tolerance_ppm: u64,
    union: &U,
) -> (outcome: Result<FlexibleDistinctValidationEvidence>)
    requires
        weeks_defined(state.activity@, activity.evidence.as_of_epoch as int),
        forall|given: Vec<Vec<u8>>| call_requires(*union, (given,)),
    ensures
        match outcome {
            Ok(evidence) => {
                &&& can_compare(*activity, *state, flexible, *read)
                &&& built_from(flexible, *activity)
                &&& validates(
                    evidence,
                    *activity,
                    flexible,
                    sha256_text(flexible_json@),
                    read.leaves@,
                    tolerance_ppm,
                    *union,
                )
            },
            Err(error) => {
                ||| error is Invalid && !can_compare(*activity, *state, flexible, *read)
                ||| error is Invalid && !built_from(flexible, *activity)
                ||| comparison_fails(
                    error,
                    *activity,
                    flexible,
                    read.leaves@,
                    *union,
                )
            },
        },
{
    match activity.validate_for_publication(
        activity.evidence.snapshot_id.as_str(),
        activity.evidence.as_of_epoch,
        state.activity,
        state.flags,
        state.metric_json,
    ) {
        Ok(()) => {},
        Err(error) => {
            return Err(error);
        },
    }
    let exact: Vec<ExactSample> = match select_samples(
        activity.evidence.distinct_pubkeys.as_slice(),
        flexible.complete_through_epoch,
    ) {
        Ok(samples) => samples,
        Err(error) => {
            return Err(error);
        },
    };
    proof {
        lemma_samples_are_candidates(
            exact@,
            activity.evidence.distinct_pubkeys@,
            flexible.complete_through_epoch as int,
        );
    }
    let windows: Vec<FlexibleDistinctWindow> = sample_windows(&exact);
    let ghost header = flexible;
    let (product, estimates) = match load_and_estimate_flexible_distinct_windows(
        flexible,
        flexible_json,
        read,
        windows.as_slice(),
        union,
    ) {
        Ok(loaded) => loaded,
        Err(error) => {
            let ghost failed: Result<Vec<u64>> = Err(error);
            proof {
                if can_compare(*activity, *state, header, *read) {
                    assert(estimates_outcome(
                        *union,
                        read.leaves@,
                        header.complete_through_epoch as int,
                        windows@,
                        failed,
                    ));
                    assert(comparison_fails(error, *activity, header, read.leaves@, *union));
                }
            }
            return Err(error);
        },
    };
    let ghost estimated: Result<Vec<u64>> = Ok(estimates);
    proof {
        assert(estimates_outcome(
            *union,
            read.leaves@,
            header.complete_through_epoch as int,
            windows@,
            estimated,
        ));
        assert(estimates_outcome(
            *union,
            read.leaves@,
            header.complete_through_epoch as int,
            windows@,
            Ok(estimates),
        ));
    }
    report_validation(activity, &product, &exact, &estimates, tolerance_ppm)
}

/// Some sample is taken, and the error of every sample is within the tolerance.
pub open spec fn within_tolerance(evidence: FlexibleDistinctValidationEvidence) -> bool {
    evidence.samples@.len() > 0 && forall|i: int|
        0 <= i < evidence.samples@.len() ==> (#[trigger] evidence.samples@[i]).relative_error_ppm
            <= evidence.tolerance_ppm
}

/// Validate one flexible product against deterministic exact daily samples.
///
/// `write` stores the evidence. It is stored whether it passed or not; only
/// evidence that passed is returned.
pub fn build_flexible_distinct_validation<
    U: Fn(Vec<Vec<u8>>) -> Result<u64>,
    W: Fn(&FlexibleDistinctValidationEvidence) -> Result<()>,
>(
    activity: &BoundedFixedActivity,
    state: &ActivityState,
    flexible: FlexibleDistinctEvidence,
    flexible_json: &[u8],
    read: &FlexibleRevalidation,
    tolerance_ppm: u64,
    union: &U,
    write: &W,
) -> (outcome: Result<FlexibleDistinctValidationEvidence>)
    requires
        weeks_defined(state.activity@, activity.evidence.as_of_epoch as int),
        forall|given: Vec<Vec<u8>>| call_requires(*union, (given,)),
        forall|evidence: &FlexibleDistinctValidationEvidence| #[trigger]
            call_requires(*write, (evidence,)),
    ensures
        ({
            ||| outcome is Err && outcome->Err_0 is Invalid && !(can_compare(
                *activity,
                *state,
                flexible,
                *read,
            ) && built_from(flexible, *activity))
            ||| outcome is Err && comparison_fails(
                outcome->Err_0,
                *activity,
                flexible,
                read.leaves@,
                *union,
            )
            ||| can_compare(*activity, *state, flexible, *read) && built_from(
                flexible,
                *activity,
            ) && exists|evidence: FlexibleDistinctValidationEvidence, written: Result<()>| #[trigger]
                call_ensures(*write, (&evidence,), written) && validates(
                    evidence,
                    *activity,
                    flexible,
                    sha256_text(flexible_json@),
                    read.leaves@,
                    tolerance_ppm,
                    *union,
                ) && match written {
                    Err(error) => outcome == Err::<FlexibleDistinctValidationEvidence, Error>(
                        error,
                    ),
                    Ok(_) => if within_tolerance(evidence) {
                        evidence.status@ == "passed"@ && outcome == Ok::<
                            FlexibleDistinctValidationEvidence,
                            Error,
                        >(evidence)
                    } else {
                        evidence.status@ == "failed"@ && outcome == Err::<
                            FlexibleDistinctValidationEvidence,
                            Error,
                        >(
                            Error::Invalid(
                                "representative flexible-distinct error exceeds the tolerance",
                            ),
                        )
                    },
                }
        }),
{
    let ghost header = flexible;
    let evidence: FlexibleDistinctValidationEvidence = match measure_samples(
        activity,
        state,
        flexible,
        flexible_json,
        read,
        tolerance_ppm,
        union,
    ) {
        Ok(evidence) => evidence,
        Err(error) => {
            return Err(error);
        },
    };
    proof {
        let (exact, windows, estimates) = choose|
            exact: Seq<ExactSample>,
            windows: Seq<FlexibleDistinctWindow>,
            estimates: Vec<u64>,
        |
            {
                &&& selects(
                    exact,
                    activity.evidence.distinct_pubkeys@,
                    header.complete_through_epoch as int,
                )
                &&& sample_windows_are(windows, exact)
                &&& #[trigger] estimates_outcome(
                    *union,
                    read.leaves@,
                    header.complete_through_epoch as int,
                    windows,
                    Ok(estimates),
                )
                &&& #[trigger] reports_samples(
                    evidence,
                    *activity,
                    header,
                    sha256_text(flexible_json@),
                    exact,
                    estimates@,
                    tolerance_ppm,
                )
            };
        assert(compares_all(evidence.samples@, exact, estimates@, tolerance_ppm));
        assert forall|i: int| 0 <= i < evidence.samples@.len() implies (
        #[trigger] evidence.samples@[i]).accepted == (evidence.samples@[i].relative_error_ppm
            <= evidence.tolerance_ppm) by {
            assert(compares(evidence.samples@[i], exact[i], estimates@[i], tolerance_ppm));
        }
        assert(within_tolerance(evidence) == all_accepted(evidence.samples@));
    }
    match write(&evidence) {
        Ok(done) => {
            assert(done == ());
            assert(call_ensures(*write, (&evidence,), Ok(())));
        },
        Err(error) => {
            assert(call_ensures(*write, (&evidence,), Err(error)));
            return Err(error);
        },
    }
    proof {
        reveal_strlit("passed");
        reveal_strlit("failed");
        assert("passed"@[0] != "failed"@[0]);
    }
    match require_passed(&evidence) {
        Ok(()) => Ok(evidence),
        Err(error) => Err(error),
    }
}

} // verus!
