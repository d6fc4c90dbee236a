//! When two stores agree.

use vstd::prelude::*;

use crate::reconcile::{
    compare_metric, compares_series, differences_of, keys_of_class, series_total, signed_decimal,
    unequal_metrics, InputAlignment, KeyClass, MetricComparison, ReconciliationSummary,
    SeriesComparison,
};
use crate::text::{decimal, decimal_value};
use crate::text_map::TextMap;
use crate::words::lemma_decimal_reads_back;

verus! {

/// A metric matches exactly where both values are equal. A difference is a bug
/// where the inputs are proven to be the same, and uncertain else. Its text is
/// the second value less the first, with a sign where it is negative.
pub proof fn lemma_metrics_match_when_equal(
    metric: &str,
    endpoints: Vec<String>,
    postgres: u64,
    clickhouse: u64,
    alignment: InputAlignment,
    comparison: MetricComparison,
)
    requires
        call_ensures(
            compare_metric,
            (metric, endpoints, postgres, clickhouse, alignment),
            comparison,
        ),
    ensures
        comparison.classification is ExactMatch <==> postgres == clickhouse,
        comparison.classification is Bug <==> postgres != clickhouse && alignment is Proven,
        comparison.classification is OldStackUncertainty <==> postgres != clickhouse
            && alignment is Unproven,
        comparison.postgres == postgres,
        comparison.clickhouse == clickhouse,
        clickhouse < postgres ==> comparison.difference@[0] == '-' && decimal_value(
            comparison.difference@.skip(1),
        ) == postgres - clickhouse,
        clickhouse >= postgres ==> decimal_value(comparison.difference@) == clickhouse - postgres,
{
    reveal_strlit("-");
    let n = clickhouse - postgres;
    if n < 0 {
        lemma_decimal_reads_back((-n) as nat);
        assert(signed_decimal(n).skip(1) =~= decimal((-n) as nat));
    } else {
        lemma_decimal_reads_back(n as nat);
    }
}

/// A comparison of two series counts the keys with equal values, with unequal
/// values, and of either series alone.
pub proof fn lemma_series_are_compared_by_key(
    comparison: SeriesComparison,
    postgres: TextMap<u64>,
    clickhouse: TextMap<u64>,
    alignment: InputAlignment,
    max_examples: int,
)
    requires
        compares_series(comparison, postgres, clickhouse, alignment, max_examples),
    ensures
        ({
            let a = postgres.map();
            let b = clickhouse.map();
            &&& comparison.matching_keys == a.dom().filter(
                |key: Seq<char>| b.contains_key(key) && a[key] == b[key],
            ).len()
            &&& comparison.mismatched_values == a.dom().filter(
                |key: Seq<char>| b.contains_key(key) && a[key] != b[key],
            ).len()
            &&& comparison.postgres_only_keys == a.dom().difference(b.dom()).len()
            &&& comparison.clickhouse_only_keys == b.dom().difference(a.dom()).len()
            &&& differences_of(comparison) == comparison.mismatched_values
                + comparison.postgres_only_keys + comparison.clickhouse_only_keys
        }),
{
    let a = postgres.map();
    let b = clickhouse.map();
    assert(keys_of_class(a, b, KeyClass::Equal) =~= a.dom().filter(
        |key: Seq<char>| b.contains_key(key) && a[key] == b[key],
    ));
    assert(keys_of_class(a, b, KeyClass::Unequal) =~= a.dom().filter(
        |key: Seq<char>| b.contains_key(key) && a[key] != b[key],
    ));
    assert(keys_of_class(a, b, KeyClass::Alone) =~= a.dom().difference(b.dom()));
    assert(keys_of_class(b, a, KeyClass::Alone) =~= b.dom().difference(a.dom()));
}

/// A reconciliation passes where the inputs are proven to be the same and no
/// metric and no key differs, fails where one differs, and stays open where the
/// inputs are not proven.
pub proof fn lemma_gate_tells_differences(
    alignment: InputAlignment,
    metrics: &[MetricComparison],
    series: &[SeriesComparison],
    summary: ReconciliationSummary,
)
    requires
        call_ensures(ReconciliationSummary::new, (alignment, metrics, series), summary),
    ensures
        summary.gate is Incomplete <==> alignment is Unproven,
        summary.gate is Passed <==> alignment is Proven && (forall|i: int|
            0 <= i < metrics@.len() ==> (#[trigger] metrics@[i]).classification is ExactMatch) && (
        forall|i: int| 0 <= i < series@.len() ==> #[trigger] differences_of(series@[i]) == 0),
        summary.scalar_differences == metrics@.filter(
            |metric: MetricComparison| !(metric.classification is ExactMatch),
        ).len(),
        summary.scalar_metrics == metrics@.len(),
        summary.series == series@.len(),
{
    lemma_unequal(metrics@);
    lemma_series_zero(series@);
    let differ = |metric: MetricComparison| !(metric.classification is ExactMatch);
    let kept = metrics@.filter(differ);
    if kept.len() == 0 {
        assert forall|i: int| 0 <= i < metrics@.len() implies (
        #[trigger] metrics@[i]).classification is ExactMatch by {
            if differ(metrics@[i]) {
                assert(kept.contains(metrics@[i]));
            }
        }
    } else {
        assert(differ(kept[0]));
        lemma_kept_from(metrics@, differ);
        assert(metrics@.contains(kept[0]));
        let i = choose|i: int| 0 <= i < metrics@.len() && metrics@[i] == kept[0];
        assert(!(metrics@[i].classification is ExactMatch));
    }
}

/// What a filter keeps was there.
proof fn lemma_kept_from(
    metrics: Seq<MetricComparison>,
    keep: spec_fn(MetricComparison) -> bool,
)
    ensures
        forall|i: int|
            0 <= i < metrics.filter(keep).len() ==> metrics.contains(
                #[trigger] metrics.filter(keep)[i],
            ),
    decreases metrics.len(),
{
    reveal(Seq::filter);
    if metrics.len() > 0 {
        let fewer = metrics.drop_last();
        lemma_kept_from(fewer, keep);
        let kept = metrics.filter(keep);
        assert forall|i: int| 0 <= i < kept.len() implies metrics.contains(#[trigger] kept[i]) by {
            if i < fewer.filter(keep).len() {
                assert(kept[i] == fewer.filter(keep)[i]);
                assert(fewer.contains(fewer.filter(keep)[i]));
                let k = choose|k: int| 0 <= k < fewer.len() && fewer[k] == kept[i];
                assert(metrics[k] == kept[i]);
            } else {
                assert(metrics[metrics.len() - 1] == kept[i]);
            }
        }
    }
}

proof fn lemma_unequal(metrics: Seq<MetricComparison>)
    ensures
        unequal_metrics(metrics) == metrics.filter(
            |metric: MetricComparison| !(metric.classification is ExactMatch),
        ).len(),
    decreases metrics.len(),
{
    reveal(Seq::filter);
    if metrics.len() > 0 {
        lemma_unequal(metrics.drop_last());
    }
}

proof fn lemma_series_zero(series: Seq<SeriesComparison>)
    ensures
        series_total(series) >= 0,
        series_total(series) == 0 <==> forall|i: int|
            0 <= i < series.len() ==> #[trigger] differences_of(series[i]) == 0,
    decreases series.len(),
{
    if series.len() > 0 {
        let fewer = series.drop_last();
        lemma_series_zero(fewer);
        let last = series.len() - 1;
        if series_total(series) == 0 {
            assert forall|i: int| 0 <= i < series.len() implies #[trigger] differences_of(
                series[i],
            ) == 0 by {
                if i < last {
                    assert(differences_of(fewer[i]) == 0);
                }
            }
        } else if forall|i: int|
            0 <= i < series.len() ==> #[trigger] differences_of(series[i]) == 0 {
            assert(differences_of(series[last]) == 0);
            assert forall|i: int| 0 <= i < fewer.len() implies #[trigger] differences_of(
                fewer[i],
            ) == 0 by {
                assert(differences_of(series[i]) == 0);
            }
        }
    }
}

} // verus!
