use pensieve_analytics::reconcile::{
    compare_metric, compare_series, digest_series, Classification, ComparisonGate, InputAlignment,
    ReconciliationSummary,
};
use pensieve_analytics::text_map::TextMap;

fn map(rows: &[(&str, u64)]) -> TextMap<u64> {
    let mut map = TextMap::new();
    for (key, value) in rows {
        map.insert((*key).to_owned(), *value);
    }
    map
}

#[test]
fn unproven_scalar_difference_is_uncertainty() {
    let comparison = compare_metric("events_7d", Vec::new(), 10, 11, InputAlignment::Unproven);
    assert_eq!(
        comparison.classification,
        Classification::OldStackUncertainty
    );
    assert_eq!(comparison.difference, "1");
}

#[test]
fn proven_scalar_difference_is_bug() {
    let comparison = compare_metric("events_7d", Vec::new(), 11, 10, InputAlignment::Proven);
    assert_eq!(comparison.classification, Classification::Bug);
    assert_eq!(comparison.difference, "-1");
}

#[test]
fn series_counts_every_difference_but_bounds_examples() {
    let postgres = map(&[("a", 1), ("b", 2), ("c", 3)]);
    let clickhouse = map(&[("a", 1), ("b", 9), ("d", 4)]);
    let comparison = compare_series(
        "daily",
        Vec::new(),
        "fixture",
        &postgres,
        &clickhouse,
        InputAlignment::Proven,
        2,
    );
    assert_eq!(comparison.compared_keys, 4);
    assert_eq!(comparison.matching_keys, 1);
    assert_eq!(comparison.mismatched_values, 1);
    assert_eq!(comparison.postgres_only_keys, 1);
    assert_eq!(comparison.clickhouse_only_keys, 1);
    assert_eq!(comparison.difference_count(), 3);
    assert_eq!(comparison.examples.len(), 2);
    assert!(comparison
        .examples
        .iter()
        .all(|example| example.classification == Classification::Bug));
}

#[test]
fn gate_requires_alignment_even_when_values_match() {
    let metric = compare_metric("latest_event", Vec::new(), 10, 10, InputAlignment::Unproven);
    let summary = ReconciliationSummary::new(InputAlignment::Unproven, &[metric], &[]);
    assert_eq!(summary.gate, ComparisonGate::Incomplete);
    assert_eq!(summary.scalar_differences, 0);
}

#[test]
fn stable_digest_is_independent_of_insertion_order() {
    let first = map(&[("a", 1), ("b", 2)]);
    let second = map(&[("b", 2), ("a", 1)]);
    assert_eq!(digest_series(&first), digest_series(&second));
}

#[test]
fn digests_tell_series_apart() {
    assert_ne!(digest_series(&map(&[("a", 1)])), digest_series(&map(&[("a", 2)])));
    assert_ne!(digest_series(&map(&[("a", 1)])), digest_series(&map(&[("b", 1)])));
    assert_eq!(
        digest_series(&map(&[])),
        "e3b0c44298fc1c149afbf4c8996fb92427ae41e4649b934ca495991b7852b855"
    );
}

#[test]
fn reconciliation_passes_or_fails_on_proven_inputs() {
    let same = compare_metric("total", Vec::new(), 10, 10, InputAlignment::Proven);
    assert_eq!(same.classification, Classification::ExactMatch);
    assert_eq!(same.difference, "0");
    let series = compare_series(
        "daily",
        vec!["/stats".to_owned()],
        "fixture",
        &map(&[("a", 1)]),
        &map(&[("a", 1)]),
        InputAlignment::Proven,
        2,
    );
    assert_eq!(series.postgres_sha256, series.clickhouse_sha256);
    let passed = ReconciliationSummary::new(InputAlignment::Proven, &[same], &[series]);
    assert_eq!(passed.gate, ComparisonGate::Passed);
    assert_eq!(passed.series_differences, 0);

    let other = compare_metric("total", Vec::new(), 9, 12, InputAlignment::Proven);
    assert_eq!(other.difference, "3");
    let failed = ReconciliationSummary::new(InputAlignment::Proven, &[other], &[]);
    assert_eq!(failed.gate, ComparisonGate::Failed);
    assert_eq!(failed.scalar_differences, 1);
}

#[test]
fn examples_list_postgres_keys_before_others() {
    let comparison = compare_series(
        "daily",
        Vec::new(),
        "fixture",
        &map(&[("c", 3), ("a", 1)]),
        &map(&[("b", 9), ("a", 2)]),
        InputAlignment::Unproven,
        2,
    );
    let found: Vec<(&str, Option<u64>, Option<u64>)> = comparison
        .examples
        .iter()
        .map(|example| (example.key.as_str(), example.postgres, example.clickhouse))
        .collect();
    assert_eq!(
        found,
        vec![("a", Some(1), Some(2)), ("c", Some(3), None)]
    );
    assert_eq!(
        comparison.matching_keys
            + comparison.mismatched_values
            + comparison.postgres_only_keys
            + comparison.clickhouse_only_keys,
        comparison.compared_keys
    );
}

#[test]
fn a_limit_cuts_the_examples_alone() {
    let postgres = map(&[("e", 5), ("a", 1), ("c", 3), ("s", 7)]);
    let clickhouse = map(&[("z", 1), ("b", 9), ("a", 2), ("s", 7)]);
    let compare = |limit: usize| {
        compare_series(
            "daily",
            Vec::new(),
            "fixture",
            &postgres,
            &clickhouse,
            InputAlignment::Proven,
            limit,
        )
    };
    let all = compare(100);
    let keys: Vec<&str> = all
        .examples
        .iter()
        .map(|example| example.key.as_str())
        .collect();
    assert_eq!(keys, ["a", "c", "e", "b", "z"]);
    assert_eq!(all.difference_count(), 5);
    assert_eq!(all.compared_keys - all.matching_keys, 5);
    for limit in 0..6 {
        let mut cut = compare(limit);
        assert_eq!(cut.examples.len(), limit.min(5));
        assert_eq!(cut.examples, all.examples[..limit.min(5)]);
        cut.examples = all.examples.clone();
        assert_eq!(cut, all);
    }
    let same = compare_series(
        "daily",
        Vec::new(),
        "fixture",
        &postgres,
        &postgres,
        InputAlignment::Proven,
        2,
    );
    assert_eq!(same.difference_count(), 0);
    assert!(same.examples.is_empty());
}
