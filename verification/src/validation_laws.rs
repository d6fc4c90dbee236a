//! When an estimate is close enough.

use vstd::prelude::*;

use crate::flexible_distinct::FlexibleDistinctWindow;
use crate::flexible_samples::ExactSample;
use crate::flexible_validation::{
    compares, largest_absolute, largest_relative, sample_windows_are,
    FlexibleDistinctValidationSample,
};

verus! {

/// A sample is accepted exactly where the estimate differs from the exact number
/// by no more than the tolerated millionths of this number.
pub proof fn lemma_accepted_is_within_tolerance(
    sample: FlexibleDistinctValidationSample,
    exact: ExactSample,
    estimate: u64,
    tolerance_ppm: u64,
)
    requires
        compares(sample, exact, estimate, tolerance_ppm),
        exact.row.unique_pubkeys > 0,
    ensures
        ({
            let truth = exact.row.unique_pubkeys as int;
            &&& sample.exact_unique_pubkeys == truth
            &&& sample.estimated_unique_pubkeys == estimate
            &&& sample.absolute_error == truth - estimate || sample.absolute_error == estimate
                - truth
            &&& sample.accepted <==> (estimate - truth) * 1_000_000 <= tolerance_ppm * truth && (
            truth - estimate) * 1_000_000 <= tolerance_ppm * truth
            &&& sample.since_epoch == exact.since_epoch
            &&& sample.until_epoch - sample.since_epoch == 86_400
            &&& sample.kind == exact.row.kind
        }),
{
    let truth = exact.row.unique_pubkeys as int;
    let error = sample.absolute_error as int;
    let ppm = sample.relative_error_ppm as int;
    let n = error * 1_000_000 + truth - 1;
    vstd::arithmetic::div_mod::lemma_fundamental_div_mod(n, truth);
    vstd::arithmetic::div_mod::lemma_mod_bound(n, truth);
    assert(ppm == n / truth);
    let t = tolerance_ppm as int;
    assert(truth * ppm <= n < truth * ppm + truth);
    assert(ppm <= t <==> error * 1_000_000 <= t * truth) by (nonlinear_arith)
        requires
            truth > 0,
            n == error * 1_000_000 + truth - 1,
            truth * ppm <= n < truth * ppm + truth,
    ;
    assert(0 <= t * truth) by (nonlinear_arith)
        requires
            t >= 0,
            truth > 0,
    ;
}

/// The windows of samples are their days of 86400 seconds, with their kinds.
pub proof fn lemma_samples_are_whole_days(
    windows: Seq<FlexibleDistinctWindow>,
    samples: Seq<ExactSample>,
    i: int,
)
    requires
        sample_windows_are(windows, samples),
        0 <= i < samples.len(),
        samples[i].since_epoch + 86_400 <= u64::MAX,
    ensures
        windows.len() == samples.len(),
        windows[i].since_epoch == samples[i].since_epoch,
        windows[i].until_epoch == samples[i].since_epoch + 86_400,
        windows[i].kind == samples[i].row.kind,
{
}

/// The reported errors are the largest of the samples.
pub proof fn lemma_largest_errors(samples: Seq<FlexibleDistinctValidationSample>)
    ensures
        forall|i: int|
            0 <= i < samples.len() ==> (#[trigger] samples[i]).relative_error_ppm
                <= largest_relative(samples) && samples[i].absolute_error <= largest_absolute(
                samples,
            ),
        samples.len() > 0 ==> exists|i: int|
            0 <= i < samples.len() && (#[trigger] samples[i]).relative_error_ppm
                == largest_relative(samples),
        samples.len() > 0 ==> exists|i: int|
            0 <= i < samples.len() && (#[trigger] samples[i]).absolute_error == largest_absolute(
                samples,
            ),
    decreases samples.len(),
{
    if samples.len() > 0 {
        let fewer = samples.drop_last();
        lemma_largest_errors(fewer);
        let last = samples.len() - 1;
        assert forall|i: int| 0 <= i < samples.len() implies (
        #[trigger] samples[i]).relative_error_ppm <= largest_relative(samples)
            && samples[i].absolute_error <= largest_absolute(samples) by {
            if i < last {
                assert(fewer[i] == samples[i]);
            }
        }
        if samples[last].relative_error_ppm == largest_relative(samples) {
        } else {
            let i = choose|i: int|
                0 <= i < fewer.len() && (#[trigger] fewer[i]).relative_error_ppm
                    == largest_relative(fewer);
            assert(samples[i] == fewer[i]);
        }
        if samples[last].absolute_error == largest_absolute(samples) {
        } else {
            let i = choose|i: int|
                0 <= i < fewer.len() && (#[trigger] fewer[i]).absolute_error == largest_absolute(
                    fewer,
                );
            assert(samples[i] == fewer[i]);
        }
    }
}

} // verus!
