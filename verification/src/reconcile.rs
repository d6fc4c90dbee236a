//! Comparison and classification of shadow analytics.

use vstd::prelude::*;
use vstd::string::*;

use crate::bytes::push_bytes;
use crate::digest::{sha256_hex, sha256_text};
use crate::runs::text_bytes;
use crate::text::{decimal, push_decimal};
use crate::text_map::{lemma_text_order, text_less, TextMap};

verus! {

/// Whether an independent proof tied both stores to the same input barrier.
#[derive(Clone, Copy, Debug, PartialEq, Eq, Structural)]
pub enum InputAlignment {
    /// Event time is fixed, but the exact input set is not proven.
    Unproven,
    /// Independent evidence proves both stores contain the same event-ID set.
    Proven,
}

/// Ledger classification assigned to one comparison result.
#[derive(Clone, Copy, Debug, PartialEq, Eq, Structural)]
pub enum Classification {
    /// Both stores returned exactly the same value.
    ExactMatch,
    /// Aligned inputs returned different exact values; the new implementation is wrong.
    Bug,
    /// Different values cannot be attributed until input alignment is proven.
    OldStackUncertainty,
}

/// One exact scalar comparison.
#[derive(Clone, Debug, PartialEq, Eq)]
pub struct MetricComparison {
    /// Stable metric identifier.
    pub metric: String,
    /// API routes whose semantics this metric helps cover.
    pub endpoints: Vec<String>,
    /// Value published by Postgres.
    pub postgres: u64,
    /// Value computed at the fixed boundary.
    pub clickhouse: u64,
    /// Signed ClickHouse-minus-Postgres difference, as text.
    pub difference: String,
    /// Reconciliation-ledger classification.
    pub classification: Classification,
}

/// One missing or unequal keyed value from a series comparison.
#[derive(Clone, Debug, PartialEq, Eq)]
pub struct DifferenceExample {
    /// Stable series key.
    pub key: String,
    /// Postgres value, absent when only ClickHouse had the key.
    pub postgres: Option<u64>,
    /// ClickHouse value, absent when only Postgres had the key.
    pub clickhouse: Option<u64>,
    /// Classification inherited from the input-alignment state.
    pub classification: Classification,
}

/// Exact comparison summary for a keyed relation.
#[derive(Clone, Debug, PartialEq, Eq)]
pub struct SeriesComparison {
    /// Stable series identifier.
    pub metric: String,
    /// API routes whose semantics this relation helps cover.
    pub endpoints: Vec<String>,
    /// Human-readable boundary applied to both queries.
    pub scope: String,
    /// Total union of keys compared.
    pub compared_keys: u64,
    /// Keys present with equal values in both stores.
    pub matching_keys: u64,
    /// Keys present in both stores with unequal values.
    pub mismatched_values: u64,
    /// Keys present only in Postgres.
    pub postgres_only_keys: u64,
    /// Keys present only in ClickHouse.
    pub clickhouse_only_keys: u64,
    /// SHA-256 of the stable rows from Postgres.
    pub postgres_sha256: String,
    /// SHA-256 of the stable rows from ClickHouse.
    pub clickhouse_sha256: String,
    /// Bounded examples; the counts above always describe the full comparison.
    pub examples: Vec<DifferenceExample>,
}

/// Unequal or missing keys of a comparison.
pub open spec fn differences_of(series: SeriesComparison) -> int {
    series.mismatched_values + series.postgres_only_keys + series.clickhouse_only_keys
}

impl SeriesComparison {
    /// Number of unequal or missing keys.
    #[must_use]
    pub fn difference_count(&self) -> (count: u64)
        requires
            differences_of(*self) <= u64::MAX,
        ensures
            count == differences_of(*self),
    {
        self.mismatched_values + self.postgres_only_keys + self.clickhouse_only_keys
    }
}

/// Whether the current evidence can approve the shadow parity gate.
#[derive(Clone, Copy, Debug, PartialEq, Eq, Structural)]
pub enum ComparisonGate {
    /// Aligned inputs and every exact comparison matched.
    Passed,
    /// Comparisons completed, but exact input alignment remains unproven.
    Incomplete,
    /// Aligned inputs produced at least one exact mismatch.
    Failed,
}

/// Aggregate outcome across scalar and keyed comparisons.
#[derive(Clone, Debug, PartialEq, Eq)]
pub struct ReconciliationSummary {
    /// Gate outcome.
    pub gate: ComparisonGate,
    /// Number of exact scalar comparisons.
    pub scalar_metrics: u64,
    /// Number of unequal scalar values.
    pub scalar_differences: u64,
    /// Number of keyed relations.
    pub series: u64,
    /// Total unequal or missing series keys.
    pub series_differences: u64,
}

/// Metrics that do not match.
pub open spec fn unequal_metrics(metrics: Seq<MetricComparison>) -> int
    decreases metrics.len(),
{
    if metrics.len() == 0 {
        0
    } else {
        unequal_metrics(metrics.drop_last()) + if metrics.last().classification
            != Classification::ExactMatch {
            1int
        } else {
            0int
        }
    }
}

/// Unequal or missing keys of all comparisons.
pub open spec fn series_total(series: Seq<SeriesComparison>) -> int
    decreases series.len(),
{
    if series.len() == 0 {
        0
    } else {
        series_total(series.drop_last()) + differences_of(series.last())
    }
}

/// The total never decreases with more comparisons.
proof fn lemma_series_grow(series: Seq<SeriesComparison>, count: int)
    requires
        0 <= count <= series.len(),
    ensures
        0 <= series_total(series.take(count)) <= series_total(series),
    decreases series.len(),
{
    if count == series.len() {
        assert(series.take(count) =~= series);
        if series.len() > 0 {
            lemma_series_grow(series.drop_last(), count - 1);
            assert(series.drop_last().take(count - 1) =~= series.drop_last());
        }
    } else {
        lemma_series_grow(series.drop_last(), count);
        assert(series.drop_last().take(count) =~= series.take(count));
    }
}

/// The outcome of a reconciliation.
pub open spec fn gate_for(alignment: InputAlignment, differs: bool) -> ComparisonGate {
    match alignment {
        InputAlignment::Unproven => ComparisonGate::Incomplete,
        InputAlignment::Proven => if differs {
            ComparisonGate::Failed
        } else {
            ComparisonGate::Passed
        },
    }
}

impl ReconciliationSummary {
    /// Derive the outcome from complete comparison outputs.
    #[must_use]
    pub fn new(
        alignment: InputAlignment,
        metrics: &[MetricComparison],
        series: &[SeriesComparison],
    ) -> (summary: Self)
        requires
            series_total(series@) <= u64::MAX,
        ensures
            summary.scalar_metrics == metrics@.len(),
            summary.scalar_differences == unequal_metrics(metrics@),
            summary.series == series@.len(),
            summary.series_differences == series_total(series@),
            summary.gate == gate_for(
                alignment,
                unequal_metrics(metrics@) != 0 || series_total(series@) != 0,
            ),
    {
        let mut scalar_differences: u64 = 0;
        let mut i: usize = 0;
        assert(metrics@.take(0) =~= Seq::empty());
        while i < metrics.len()
            invariant
                i <= metrics@.len(),
                scalar_differences == unequal_metrics(metrics@.take(i as int)),
                scalar_differences <= i,
            decreases metrics@.len() - i,
        {
            assert(metrics@.take(i + 1).drop_last() =~= metrics@.take(i as int));
            if metrics[i].classification != Classification::ExactMatch {
                scalar_differences = scalar_differences + 1;
            }
            i += 1;
        }
        assert(metrics@.take(metrics@.len() as int) =~= metrics@);
        let mut series_differences: u64 = 0;
        let mut j: usize = 0;
        assert(series@.take(0) =~= Seq::empty());
        while j < series.len()
            invariant
                j <= series@.len(),
                series_total(series@) <= u64::MAX,
                series_differences == series_total(series@.take(j as int)),
            decreases series@.len() - j,
        {
            proof {
                assert(series@.take(j + 1).drop_last() =~= series@.take(j as int));
                lemma_series_grow(series@, j + 1);
                lemma_series_grow(series@, j as int);
            }
            series_differences = series_differences + series[j].difference_count();
            j += 1;
        }
        assert(series@.take(series@.len() as int) =~= series@);
        let differs: bool = scalar_differences != 0 || series_differences != 0;
        let gate: ComparisonGate = match alignment {
            InputAlignment::Unproven => ComparisonGate::Incomplete,
            InputAlignment::Proven => if differs {
                ComparisonGate::Failed
            } else {
                ComparisonGate::Passed
            },
        };
        ReconciliationSummary {
            gate,
            scalar_metrics: metrics.len() as u64,
            scalar_differences,
            series: series.len() as u64,
            series_differences,
        }
    }
}

/// A reconciliation passes exactly where alignment is proven and nothing differs.
pub proof fn lemma_gate_needs_alignment(alignment: InputAlignment, differs: bool)
    ensures
        gate_for(alignment, differs) == ComparisonGate::Passed <==> alignment
            == InputAlignment::Proven && !differs,
{
}

/// Classification of a comparison.
pub open spec fn class_of(matches: bool, alignment: InputAlignment) -> Classification {
    if matches {
        Classification::ExactMatch
    } else if alignment == InputAlignment::Proven {
        Classification::Bug
    } else {
        Classification::OldStackUncertainty
    }
}

/// Classify a comparison.
pub fn classify(matches: bool, alignment: InputAlignment) -> (class: Classification)
    ensures
        class == class_of(matches, alignment),
{
    if matches {
        Classification::ExactMatch
    } else if alignment == InputAlignment::Proven {
        Classification::Bug
    } else {
        Classification::OldStackUncertainty
    }
}

/// A signed number in decimal.
pub open spec fn signed_decimal(n: int) -> Seq<char> {
    if n < 0 {
        "-"@ + decimal((-n) as nat)
    } else {
        decimal(n as nat)
    }
}

/// Compare one exact scalar under the selected input-alignment state.
#[must_use]
pub fn compare_metric(
    metric: &str,
    endpoints: Vec<String>,
    postgres: u64,
    clickhouse: u64,
    alignment: InputAlignment,
) -> (comparison: MetricComparison)
    ensures
        comparison.metric@ == metric@,
        comparison.endpoints == endpoints,
        comparison.postgres == postgres,
        comparison.clickhouse == clickhouse,
        comparison.difference@ == signed_decimal(clickhouse - postgres),
        comparison.classification == class_of(postgres == clickhouse, alignment),
{
    let mut difference: String = String::new();
    if clickhouse < postgres {
        difference.append("-");
        push_decimal(&mut difference, postgres - clickhouse);
        assert(difference@ =~= signed_decimal(clickhouse - postgres));
    } else {
        push_decimal(&mut difference, clickhouse - postgres);
        assert(difference@ =~= signed_decimal(clickhouse - postgres));
    }
    MetricComparison {
        metric: metric.to_owned(),
        endpoints,
        postgres,
        clickhouse,
        difference,
        classification: classify(postgres == clickhouse, alignment),
    }
}

/// What a digest of the first `count` rows covers: key, zero byte, decimal
/// value and line break of each.
pub open spec fn series_message(entries: Seq<(String, u64)>, count: int) -> Seq<u8>
    decreases count,
{
    if count <= 0 {
        Seq::empty()
    } else {
        series_message(entries, count - 1) + text_bytes(entries[count - 1].0@).push(0u8)
            + text_bytes(decimal(entries[count - 1].1 as nat)).push(10u8)
    }
}

/// The digest of the stable rows of a series.
pub fn digest_series(series: &TextMap<u64>) -> (digest: String)
    ensures
        digest@ == sha256_text(series_message(series.entries@, series.entries@.len() as int)),
{
    let mut message: Vec<u8> = Vec::new();
    let mut i: usize = 0;
    while i < series.entries.len()
        invariant
            i <= series.entries@.len(),
            message@ =~= series_message(series.entries@, i as int),
        decreases series.entries.len() - i,
    {
        push_bytes(&mut message, series.entries[i].0.as_str().as_bytes());
        message.push(0u8);
        let mut value: String = String::new();
        push_decimal(&mut value, series.entries[i].1);
        proof {
            assert(value@ =~= decimal(series.entries@[i as int].1 as nat));
        }
        push_bytes(&mut message, value.as_str().as_bytes());
        message.push(10u8);
        i += 1;
    }
    sha256_hex(message.as_slice())
}

/// The digest of a series depends on its keys and values alone, not on how it
/// was filled.
pub proof fn lemma_digest_is_stable(a: TextMap<u64>, b: TextMap<u64>)
    requires
        a.wf(),
        b.wf(),
        a.map() == b.map(),
    ensures
        a.entries@.len() == b.entries@.len(),
        series_message(a.entries@, a.entries@.len() as int) == series_message(
            b.entries@,
            b.entries@.len() as int,
        ),
{
    let n = if a.entries@.len() < b.entries@.len() {
        a.entries@.len() as int
    } else {
        b.entries@.len() as int
    };
    lemma_same_entries(a, b, n);
    if a.entries@.len() < b.entries@.len() {
        lemma_extra_entry(a, b, n);
    }
    if b.entries@.len() < a.entries@.len() {
        lemma_same_entries(b, a, n);
        lemma_extra_entry(b, a, n);
    }
    lemma_same_message(a.entries@, b.entries@, n);
}

/// A map cannot have one entry more than another with the same keys.
proof fn lemma_extra_entry(a: TextMap<u64>, b: TextMap<u64>, n: int)
    requires
        a.wf(),
        b.wf(),
        a.map() == b.map(),
        n == a.entries@.len(),
        n <= b.entries@.len(),
        forall|i: int| 0 <= i < n ==> (#[trigger] a.entries@[i]).0@ == b.entries@[i].0@,
    ensures
        b.entries@.len() == n,
{
    if n < b.entries@.len() {
        let key = b.entries@[n].0@;
        assert(b.at(key, n));
        b.lemma_at(key, n);
        assert(a.map().contains_key(key));
        let i = choose|i: int| #[trigger] a.at(key, i);
        assert(b.at(key, i));
    }
}

/// Maps with the same keys and values list the same entries.
proof fn lemma_same_entries(a: TextMap<u64>, b: TextMap<u64>, n: int)
    requires
        a.wf(),
        b.wf(),
        a.map() == b.map(),
        0 <= n <= a.entries@.len(),
        n <= b.entries@.len(),
    ensures
        forall|i: int|
            0 <= i < n ==> (#[trigger] a.entries@[i]).0@ == b.entries@[i].0@ && a.entries@[i].1
                == b.entries@[i].1,
    decreases n,
{
    if n > 0 {
        lemma_same_entries(a, b, n - 1);
        let x = a.entries@[n - 1].0@;
        let y = b.entries@[n - 1].0@;
        assert(a.at(x, n - 1));
        a.lemma_at(x, n - 1);
        assert(b.map().contains_key(x));
        let j = choose|j: int| #[trigger] b.at(x, j);
        b.lemma_at(x, j);
        assert(b.at(y, n - 1));
        b.lemma_at(y, n - 1);
        assert(a.map().contains_key(y));
        let k = choose|k: int| #[trigger] a.at(y, k);
        a.lemma_at(y, k);
        if j < n - 1 {
            assert(a.entries@[j].0@ == b.entries@[j].0@);
            assert(a.at(x, j));
        }
        if k < n - 1 {
            assert(a.entries@[k].0@ == b.entries@[k].0@);
            assert(b.at(y, k));
        }
        if x != y {
            assert(text_less(b.entries@[n - 1].0@, b.entries@[j].0@));
            assert(text_less(a.entries@[n - 1].0@, a.entries@[k].0@));
            lemma_text_order(x, y);
        }
    }
}

/// Entries that agree have the same message.
proof fn lemma_same_message(a: Seq<(String, u64)>, b: Seq<(String, u64)>, n: int)
    requires
        0 <= n <= a.len(),
        n <= b.len(),
        forall|i: int| 0 <= i < n ==> (#[trigger] a[i]).0@ == b[i].0@ && a[i].1 == b[i].1,
    ensures
        series_message(a, n) == series_message(b, n),
    decreases n,
{
    if n > 0 {
        lemma_same_message(a, b, n - 1);
        assert(a[n - 1].0@ == b[n - 1].0@);
    }
}

/// How the value of a key compares.
#[derive(Clone, Copy, Debug, PartialEq, Eq, Structural)]
pub enum KeyClass {
    /// Equal in both stores.
    Equal,
    /// Unequal in both stores.
    Unequal,
    /// In the first store only.
    Alone,
}

/// How a key of `a` compares with `b`.
pub open spec fn key_class(
    a: Map<Seq<char>, u64>,
    b: Map<Seq<char>, u64>,
    key: Seq<char>,
) -> KeyClass {
    if !b.contains_key(key) {
        KeyClass::Alone
    } else if a[key] == b[key] {
        KeyClass::Equal
    } else {
        KeyClass::Unequal
    }
}

/// The keys of `a` that compare so with `b`.
pub open spec fn keys_of_class(
    a: Map<Seq<char>, u64>,
    b: Map<Seq<char>, u64>,
    class: KeyClass,
) -> Set<Seq<char>> {
    Set::new(|key: Seq<char>| a.contains_key(key) && key_class(a, b, key) == class)
}

/// Of the first `count` keys of `a`, those that compare so with `b`.
spec fn first_of_class(a: TextMap<u64>, b: TextMap<u64>, class: KeyClass, count: int) -> Set<
    Seq<char>,
> {
    Set::new(
        |key: Seq<char>|
            exists|i: int|
                0 <= i < count && #[trigger] a.at(key, i) && key_class(a.map(), b.map(), key)
                    == class,
    )
}

/// One more key adds itself to its class.
proof fn lemma_class_step(a: TextMap<u64>, b: TextMap<u64>, class: KeyClass, count: int)
    requires
        a.wf(),
        0 <= count < a.entries@.len(),
        first_of_class(a, b, class, count).finite(),
    ensures
        first_of_class(a, b, class, count + 1).finite(),
        first_of_class(a, b, class, count + 1).len() == first_of_class(a, b, class, count).len()
            + if key_class(a.map(), b.map(), a.entries@[count].0@) == class {
            1int
        } else {
            0int
        },
{
    let key = a.entries@[count].0@;
    let before = first_of_class(a, b, class, count);
    let after = first_of_class(a, b, class, count + 1);
    assert(a.at(key, count));
    a.lemma_at(key, count);
    assert(!before.contains(key));
    if key_class(a.map(), b.map(), key) == class {
        assert forall|other: Seq<char>| after.contains(other) <==> before.insert(key).contains(
            other,
        ) by {
            if after.contains(other) {
                let i = choose|i: int|
                    0 <= i < count + 1 && #[trigger] a.at(other, i) && key_class(
                        a.map(),
                        b.map(),
                        other,
                    ) == class;
                if i < count {
                    assert(before.contains(other));
                }
            }
            if before.contains(other) {
                let i = choose|i: int|
                    0 <= i < count && #[trigger] a.at(other, i) && key_class(
                        a.map(),
                        b.map(),
                        other,
                    ) == class;
                assert(after.contains(other));
            }
        }
        assert(after =~= before.insert(key));
    } else {
        assert forall|other: Seq<char>| after.contains(other) <==> before.contains(other) by {
            if after.contains(other) {
                let i = choose|i: int|
                    0 <= i < count + 1 && #[trigger] a.at(other, i) && key_class(
                        a.map(),
                        b.map(),
                        other,
                    ) == class;
                assert(i < count);
            }
            if before.contains(other) {
                let i = choose|i: int|
                    0 <= i < count && #[trigger] a.at(other, i) && key_class(
                        a.map(),
                        b.map(),
                        other,
                    ) == class;
                assert(after.contains(other));
            }
        }
        assert(after =~= before);
    }
}

/// All entries are all keys.
proof fn lemma_class_all(a: TextMap<u64>, b: TextMap<u64>, class: KeyClass)
    requires
        a.wf(),
    ensures
        first_of_class(a, b, class, a.entries@.len() as int) == keys_of_class(
            a.map(),
            b.map(),
            class,
        ),
{
    let all = first_of_class(a, b, class, a.entries@.len() as int);
    assert forall|key: Seq<char>| all.contains(key) <==> keys_of_class(
        a.map(),
        b.map(),
        class,
    ).contains(key) by {
        if a.map().contains_key(key) {
            let i = choose|i: int| #[trigger] a.at(key, i);
            assert(a.at(key, i));
        }
    }
    assert(all =~= keys_of_class(a.map(), b.map(), class));
}

/// A difference: key and both values.
pub open spec fn difference_at(
    a: TextMap<u64>,
    b: TextMap<u64>,
    i: int,
    swapped: bool,
) -> (Seq<char>, Option<u64>, Option<u64>) {
    let key = a.entries@[i].0@;
    let mine = Some(a.entries@[i].1);
    let other = if b.map().contains_key(key) {
        Some(b.map()[key])
    } else {
        None
    };
    if swapped {
        (key, other, mine)
    } else {
        (key, mine, other)
    }
}

/// The differences among the first `count` keys of `postgres`, in key order.
pub open spec fn own_differences(
    postgres: TextMap<u64>,
    clickhouse: TextMap<u64>,
    count: int,
) -> Seq<(Seq<char>, Option<u64>, Option<u64>)>
    decreases count,
{
    if count <= 0 {
        Seq::empty()
    } else {
        let earlier = own_differences(postgres, clickhouse, count - 1);
        if key_class(
            postgres.map(),
            clickhouse.map(),
            postgres.entries@[count - 1].0@,
        ) != KeyClass::Equal {
            earlier.push(difference_at(postgres, clickhouse, count - 1, false))
        } else {
            earlier
        }
    }
}

/// The first `count` keys of `clickhouse` that `postgres` lacks, in key order.
pub open spec fn extra_differences(
    postgres: TextMap<u64>,
    clickhouse: TextMap<u64>,
    count: int,
) -> Seq<(Seq<char>, Option<u64>, Option<u64>)>
    decreases count,
{
    if count <= 0 {
        Seq::empty()
    } else {
        let earlier = extra_differences(postgres, clickhouse, count - 1);
        if key_class(
            clickhouse.map(),
            postgres.map(),
            clickhouse.entries@[count - 1].0@,
        ) == KeyClass::Alone {
            earlier.push(difference_at(clickhouse, postgres, count - 1, true))
        } else {
            earlier
        }
    }
}

/// Every difference of two series: first by the keys of `postgres`, then the
/// keys that it lacks.
pub open spec fn all_differences(postgres: TextMap<u64>, clickhouse: TextMap<u64>) -> Seq<
    (Seq<char>, Option<u64>, Option<u64>),
> {
    own_differences(postgres, clickhouse, postgres.entries@.len() as int) + extra_differences(
        postgres,
        clickhouse,
        clickhouse.entries@.len() as int,
    )
}

/// The examples are the first differences, at most `maximum` of them.
pub open spec fn shows_first(
    examples: Seq<DifferenceExample>,
    differences: Seq<(Seq<char>, Option<u64>, Option<u64>)>,
    maximum: int,
    alignment: InputAlignment,
) -> bool {
    &&& examples.len() == if differences.len() < maximum {
        differences.len() as int
    } else {
        maximum
    }
    &&& forall|i: int|
        0 <= i < examples.len() ==> #[trigger] shows(examples[i], differences[i], alignment)
}

/// The example shows the difference.
pub open spec fn shows(
    example: DifferenceExample,
    difference: (Seq<char>, Option<u64>, Option<u64>),
    alignment: InputAlignment,
) -> bool {
    &&& example.key@ == difference.0
    &&& example.postgres == difference.1
    &&& example.clickhouse == difference.2
    &&& example.classification == class_of(false, alignment)
}

/// Retain one more example while there is room.
fn push_example(
    examples: &mut Vec<DifferenceExample>,
    maximum: usize,
    key: &str,
    postgres: Option<u64>,
    clickhouse: Option<u64>,
    alignment: InputAlignment,
    Ghost(differences): Ghost<Seq<(Seq<char>, Option<u64>, Option<u64>)>>,
)
    requires
        shows_first(old(examples)@, differences, maximum as int, alignment),
    ensures
        shows_first(
            final(examples)@,
            differences.push((key@, postgres, clickhouse)),
            maximum as int,
            alignment,
        ),
{
    let ghost before = examples@;
    if examples.len() < maximum {
        examples.push(
            DifferenceExample {
                key: key.to_owned(),
                postgres,
                clickhouse,
                classification: classify(false, alignment),
            },
        );
    }
    proof {
        let more = differences.push((key@, postgres, clickhouse));
        assert forall|i: int| 0 <= i < examples@.len() implies #[trigger] shows(
            examples@[i],
            more[i],
            alignment,
        ) by {
            if i < before.len() {
                assert(shows(before[i], differences[i], alignment));
            }
        }
    }
}

/// What comparing two series comes to.
pub open spec fn compares_series(
    comparison: SeriesComparison,
    postgres: TextMap<u64>,
    clickhouse: TextMap<u64>,
    alignment: InputAlignment,
    max_examples: int,
) -> bool {
    let a = postgres.map();
    let b = clickhouse.map();
    &&& comparison.matching_keys == keys_of_class(a, b, KeyClass::Equal).len()
    &&& comparison.mismatched_values == keys_of_class(a, b, KeyClass::Unequal).len()
    &&& comparison.postgres_only_keys == keys_of_class(a, b, KeyClass::Alone).len()
    &&& comparison.clickhouse_only_keys == keys_of_class(b, a, KeyClass::Alone).len()
    &&& comparison.compared_keys == comparison.matching_keys + comparison.mismatched_values
        + comparison.postgres_only_keys + comparison.clickhouse_only_keys
    &&& comparison.postgres_sha256@ == sha256_text(
        series_message(postgres.entries@, postgres.entries@.len() as int),
    )
    &&& comparison.clickhouse_sha256@ == sha256_text(
        series_message(clickhouse.entries@, clickhouse.entries@.len() as int),
    )
    &&& shows_first(
        comparison.examples@,
        all_differences(postgres, clickhouse),
        max_examples,
        alignment,
    )
    &&& all_differences(postgres, clickhouse).len() == differences_of(comparison)
}

/// Compare complete stable maps while retaining only a bounded set of examples.
#[must_use]
pub fn compare_series(
    metric: &str,
    endpoints: Vec<String>,
    scope: &str,
    postgres: &TextMap<u64>,
    clickhouse: &TextMap<u64>,
    alignment: InputAlignment,
    max_examples: usize,
) -> (comparison: SeriesComparison)
    requires
        postgres.wf(),
        clickhouse.wf(),
        postgres.entries@.len() + clickhouse.entries@.len() <= u64::MAX,
    ensures
        comparison.metric@ == metric@,
        comparison.endpoints == endpoints,
        comparison.scope@ == scope@,
        compares_series(comparison, *postgres, *clickhouse, alignment, max_examples as int),
{
    let ghost a = *postgres;
    let ghost b = *clickhouse;
    let mut matching_keys: u64 = 0;
    let mut mismatched_values: u64 = 0;
    let mut postgres_only_keys: u64 = 0;
    let mut clickhouse_only_keys: u64 = 0;
    let mut examples: Vec<DifferenceExample> = Vec::new();
    let mut i: usize = 0;
    proof {
        assert(first_of_class(a, b, KeyClass::Equal, 0) =~= Set::empty());
        assert(first_of_class(a, b, KeyClass::Unequal, 0) =~= Set::empty());
        assert(first_of_class(a, b, KeyClass::Alone, 0) =~= Set::empty());
        assert(first_of_class(b, a, KeyClass::Alone, 0) =~= Set::empty());
    }
    while i < postgres.entries.len()
        invariant
            i <= postgres.entries@.len(),
            a == *postgres,
            b == *clickhouse,
            a.wf(),
            b.wf(),
            a.entries@.len() + b.entries@.len() <= u64::MAX,
            matching_keys + mismatched_values + postgres_only_keys == i,
            first_of_class(a, b, KeyClass::Equal, i as int).finite(),
            matching_keys == first_of_class(a, b, KeyClass::Equal, i as int).len(),
            first_of_class(a, b, KeyClass::Unequal, i as int).finite(),
            mismatched_values == first_of_class(a, b, KeyClass::Unequal, i as int).len(),
            first_of_class(a, b, KeyClass::Alone, i as int).finite(),
            postgres_only_keys == first_of_class(a, b, KeyClass::Alone, i as int).len(),
            own_differences(a, b, i as int).len() == mismatched_values + postgres_only_keys,
            shows_first(
                examples@,
                own_differences(a, b, i as int),
                max_examples as int,
                alignment,
            ),
        decreases postgres.entries.len() - i,
    {
        let key: &str = postgres.entries[i].0.as_str();
        let value: u64 = postgres.entries[i].1;
        let ghost earlier = own_differences(a, b, i as int);
        proof {
            lemma_class_step(a, b, KeyClass::Equal, i as int);
            lemma_class_step(a, b, KeyClass::Unequal, i as int);
            lemma_class_step(a, b, KeyClass::Alone, i as int);
            assert(a.at(key@, i as int));
            a.lemma_at(key@, i as int);
        }
        match clickhouse.find(key) {
            Some(place) => {
                let other: u64 = clickhouse.entries[place].1;
                if other == value {
                    matching_keys = matching_keys + 1;
                } else {
                    mismatched_values = mismatched_values + 1;
                    push_example(
                        &mut examples,
                        max_examples,
                        key,
                        Some(value),
                        Some(other),
                        alignment,
                        Ghost(earlier),
                    );
                }
            },
            None => {
                postgres_only_keys = postgres_only_keys + 1;
                push_example(
                    &mut examples,
                    max_examples,
                    key,
                    Some(value),
                    None,
                    alignment,
                    Ghost(earlier),
                );
            },
        }
        i += 1;
    }
    let ghost own = own_differences(a, b, a.entries@.len() as int);
    let mut j: usize = 0;
    assert(own + extra_differences(a, b, 0) =~= own);
    while j < clickhouse.entries.len()
        invariant
            j <= clickhouse.entries@.len(),
            a == *postgres,
            b == *clickhouse,
            a.wf(),
            b.wf(),
            clickhouse_only_keys <= j,
            first_of_class(b, a, KeyClass::Alone, j as int).finite(),
            clickhouse_only_keys == first_of_class(b, a, KeyClass::Alone, j as int).len(),
            extra_differences(a, b, j as int).len() == clickhouse_only_keys,
            shows_first(
                examples@,
                own + extra_differences(a, b, j as int),
                max_examples as int,
                alignment,
            ),
        decreases clickhouse.entries.len() - j,
    {
        let key: &str = clickhouse.entries[j].0.as_str();
        let value: u64 = clickhouse.entries[j].1;
        let ghost earlier = own + extra_differences(a, b, j as int);
        proof {
            lemma_class_step(b, a, KeyClass::Alone, j as int);
        }
        if postgres.find(key).is_none() {
            clickhouse_only_keys = clickhouse_only_keys + 1;
            push_example(
                &mut examples,
                max_examples,
                key,
                None,
                Some(value),
                alignment,
                Ghost(earlier),
            );
            assert(own + extra_differences(a, b, j + 1) =~= earlier.push(
                difference_at(b, a, j as int, true),
            ));
        }
        j += 1;
    }
    proof {
        lemma_class_all(a, b, KeyClass::Equal);
        lemma_class_all(a, b, KeyClass::Unequal);
        lemma_class_all(a, b, KeyClass::Alone);
        lemma_class_all(b, a, KeyClass::Alone);
    }
    SeriesComparison {
        metric: metric.to_owned(),
        endpoints,
        scope: scope.to_owned(),
        compared_keys: matching_keys + mismatched_values + postgres_only_keys
            + clickhouse_only_keys,
        matching_keys,
        mismatched_values,
        postgres_only_keys,
        clickhouse_only_keys,
        postgres_sha256: digest_series(postgres),
        clickhouse_sha256: digest_series(clickhouse),
        examples,
    }
}

/// Finitely many keys compare so.
proof fn lemma_class_finite(a: TextMap<u64>, b: TextMap<u64>, class: KeyClass, count: int)
    requires
        a.wf(),
        0 <= count <= a.entries@.len(),
    ensures
        first_of_class(a, b, class, count).finite(),
    decreases count,
{
    if count == 0 {
        assert(first_of_class(a, b, class, 0) =~= Set::empty());
    } else {
        lemma_class_finite(a, b, class, count - 1);
        lemma_class_step(a, b, class, count - 1);
    }
}

/// The four classes part the keys of both series, so their sizes add up to the
/// number of keys compared.
pub proof fn lemma_classes_part_keys(postgres: TextMap<u64>, clickhouse: TextMap<u64>)
    requires
        postgres.wf(),
        clickhouse.wf(),
    ensures
        ({
            let a = postgres.map();
            let b = clickhouse.map();
            a.dom().union(b.dom()).len() == keys_of_class(a, b, KeyClass::Equal).len()
                + keys_of_class(a, b, KeyClass::Unequal).len() + keys_of_class(
                a,
                b,
                KeyClass::Alone,
            ).len() + keys_of_class(b, a, KeyClass::Alone).len()
        }),
{
    let a = postgres.map();
    let b = clickhouse.map();
    let n = postgres.entries@.len() as int;
    let m = clickhouse.entries@.len() as int;
    lemma_class_finite(postgres, clickhouse, KeyClass::Equal, n);
    lemma_class_finite(postgres, clickhouse, KeyClass::Unequal, n);
    lemma_class_finite(postgres, clickhouse, KeyClass::Alone, n);
    lemma_class_finite(clickhouse, postgres, KeyClass::Alone, m);
    lemma_class_all(postgres, clickhouse, KeyClass::Equal);
    lemma_class_all(postgres, clickhouse, KeyClass::Unequal);
    lemma_class_all(postgres, clickhouse, KeyClass::Alone);
    lemma_class_all(clickhouse, postgres, KeyClass::Alone);
    let equal = keys_of_class(a, b, KeyClass::Equal);
    let unequal = keys_of_class(a, b, KeyClass::Unequal);
    let alone = keys_of_class(a, b, KeyClass::Alone);
    let extra = keys_of_class(b, a, KeyClass::Alone);
    vstd::set_lib::lemma_set_disjoint_lens(equal, unequal);
    vstd::set_lib::lemma_set_disjoint_lens(equal + unequal, alone);
    vstd::set_lib::lemma_set_disjoint_lens(equal + unequal + alone, extra);
    assert(equal + unequal + alone + extra =~= a.dom().union(b.dom()));
}

/// The differences of a comparison are the keys that do not match, and there are
/// none exactly where both series are equal.
pub proof fn lemma_differences_do_not_match(
    comparison: SeriesComparison,
    postgres: TextMap<u64>,
    clickhouse: TextMap<u64>,
    alignment: InputAlignment,
    max_examples: int,
)
    requires
        postgres.wf(),
        clickhouse.wf(),
        compares_series(comparison, postgres, clickhouse, alignment, max_examples),
    ensures
        differences_of(comparison) == comparison.compared_keys - comparison.matching_keys,
        differences_of(comparison) == 0 <==> postgres.map() == clickhouse.map(),
{
    let a = postgres.map();
    let b = clickhouse.map();
    let n = postgres.entries@.len() as int;
    let m = clickhouse.entries@.len() as int;
    let unequal = keys_of_class(a, b, KeyClass::Unequal);
    let alone = keys_of_class(a, b, KeyClass::Alone);
    let extra = keys_of_class(b, a, KeyClass::Alone);
    lemma_class_finite(postgres, clickhouse, KeyClass::Unequal, n);
    lemma_class_finite(postgres, clickhouse, KeyClass::Alone, n);
    lemma_class_finite(clickhouse, postgres, KeyClass::Alone, m);
    lemma_class_all(postgres, clickhouse, KeyClass::Unequal);
    lemma_class_all(postgres, clickhouse, KeyClass::Alone);
    lemma_class_all(clickhouse, postgres, KeyClass::Alone);
    if differences_of(comparison) == 0 {
        assert(unequal =~= Set::empty());
        assert(alone =~= Set::empty());
        assert(extra =~= Set::empty());
        assert forall|key: Seq<char>| #[trigger] a.dom().contains(key) == b.dom().contains(key) by {
            assert(!alone.contains(key) && !extra.contains(key));
        }
        assert(a.dom() =~= b.dom());
        assert forall|key: Seq<char>| #[trigger] a.contains_key(key) implies a[key] == b[key] by {
            assert(!unequal.contains(key) && !alone.contains(key));
        }
        assert(a =~= b);
    }
    if a == b {
        assert(unequal =~= Set::empty());
        assert(alone =~= Set::empty());
        assert(extra =~= Set::empty());
    }
}

/// Both examples show the same.
pub open spec fn same_example(a: DifferenceExample, b: DifferenceExample) -> bool {
    &&& a.key@ == b.key@
    &&& a.postgres == b.postgres
    &&& a.clickhouse == b.clickhouse
    &&& a.classification == b.classification
}

/// The limit on examples bounds the examples and changes nothing else: those of
/// the lower limit are the first of those of the higher one.
pub proof fn lemma_limit_cuts_examples(
    fewer: SeriesComparison,
    more: SeriesComparison,
    postgres: TextMap<u64>,
    clickhouse: TextMap<u64>,
    alignment: InputAlignment,
    low: int,
    high: int,
)
    requires
        compares_series(fewer, postgres, clickhouse, alignment, low),
        compares_series(more, postgres, clickhouse, alignment, high),
        0 <= low <= high,
    ensures
        fewer.compared_keys == more.compared_keys,
        fewer.matching_keys == more.matching_keys,
        fewer.mismatched_values == more.mismatched_values,
        fewer.postgres_only_keys == more.postgres_only_keys,
        fewer.clickhouse_only_keys == more.clickhouse_only_keys,
        fewer.postgres_sha256@ == more.postgres_sha256@,
        fewer.clickhouse_sha256@ == more.clickhouse_sha256@,
        fewer.examples@.len() == if low < differences_of(more) {
            low
        } else {
            differences_of(more)
        },
        fewer.examples@.len() <= more.examples@.len(),
        forall|i: int|
            0 <= i < fewer.examples@.len() ==> same_example(
                #[trigger] fewer.examples@[i],
                more.examples@[i],
            ),
{
    let differences = all_differences(postgres, clickhouse);
    assert forall|i: int| 0 <= i < fewer.examples@.len() implies same_example(
        #[trigger] fewer.examples@[i],
        more.examples@[i],
    ) by {
        assert(shows(fewer.examples@[i], differences[i], alignment));
        assert(shows(more.examples@[i], differences[i], alignment));
    }
}

/// The keys of the differences ascend.
pub open spec fn keys_ascend(differences: Seq<(Seq<char>, Option<u64>, Option<u64>)>) -> bool {
    forall|i: int, j: int|
        0 <= i < j < differences.len() ==> text_less(
            (#[trigger] differences[i]).0,
            (#[trigger] differences[j]).0,
        )
}

/// The keys of the differences stand before the entry at `count`.
proof fn lemma_differences_ascend(postgres: TextMap<u64>, clickhouse: TextMap<u64>, count: int)
    requires
        postgres.wf(),
        clickhouse.wf(),
        0 <= count,
    ensures
        count <= postgres.entries@.len() ==> {
            let own = own_differences(postgres, clickhouse, count);
            &&& keys_ascend(own)
            &&& forall|i: int|
                0 <= i < own.len() ==> exists|k: int|
                    0 <= k < count && (#[trigger] own[i]).0 == (#[trigger] postgres.entries@[k]).0@
        },
        count <= clickhouse.entries@.len() ==> {
            let extra = extra_differences(postgres, clickhouse, count);
            &&& keys_ascend(extra)
            &&& forall|i: int|
                0 <= i < extra.len() ==> exists|k: int|
                    0 <= k < count && (#[trigger] extra[i]).0 == (
                    #[trigger] clickhouse.entries@[k]).0@
        },
    decreases count,
{
    if count > 0 {
        lemma_differences_ascend(postgres, clickhouse, count - 1);
        let own = own_differences(postgres, clickhouse, count);
        let extra = extra_differences(postgres, clickhouse, count);
        if count <= postgres.entries@.len() {
            assert forall|i: int| 0 <= i < own.len() implies exists|k: int|
                0 <= k < count && (#[trigger] own[i]).0 == (#[trigger] postgres.entries@[k]).0@ by {
                let earlier = own_differences(postgres, clickhouse, count - 1);
                if i < earlier.len() {
                    assert(own[i] == earlier[i]);
                } else {
                    assert(own[i].0 == postgres.entries@[count - 1].0@);
                }
            }
        }
        if count <= clickhouse.entries@.len() {
            assert forall|i: int| 0 <= i < extra.len() implies exists|k: int|
                0 <= k < count && (#[trigger] extra[i]).0 == (
                #[trigger] clickhouse.entries@[k]).0@ by {
                let earlier = extra_differences(postgres, clickhouse, count - 1);
                if i < earlier.len() {
                    assert(extra[i] == earlier[i]);
                } else {
                    assert(extra[i].0 == clickhouse.entries@[count - 1].0@);
                }
            }
        }
    }
}

/// Differences are shown in a stable order: the differing keys of `postgres`
/// ascending, then the keys of `clickhouse` alone ascending.
pub proof fn lemma_differences_are_ordered(postgres: TextMap<u64>, clickhouse: TextMap<u64>)
    requires
        postgres.wf(),
        clickhouse.wf(),
    ensures
        ({
            let own = own_differences(postgres, clickhouse, postgres.entries@.len() as int);
            let extra = extra_differences(postgres, clickhouse, clickhouse.entries@.len() as int);
            &&& all_differences(postgres, clickhouse) == own + extra
            &&& keys_ascend(own)
            &&& keys_ascend(extra)
        }),
{
    lemma_differences_ascend(postgres, clickhouse, postgres.entries@.len() as int);
    lemma_differences_ascend(postgres, clickhouse, clickhouse.entries@.len() as int);
}

} // verus!
