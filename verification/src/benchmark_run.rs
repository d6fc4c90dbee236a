//! One benchmark of the publisher windows.
//!
//! The activity is scanned, the best rows are encoded, and the evidence is
//! checked and written. Encoding, clock and file come in as functions.

use vstd::prelude::*;

use crate::activity::activity_stream;
use crate::digest::hex_text;
use crate::error::{Error, Result};
use crate::fixed_activity::{weeks_defined, BoundedFixedActivity};
use crate::flexible_validation::ActivityState;
use crate::publisher_artifact::metrics_valid;
use crate::publisher_benchmark::{
    config_fits, evidence_agrees, is_ledger, ledger_overflows, measures, measures_ledger,
    projections_fit, report_benchmark, reported_rows, reports_scan, row_valid, row_views,
    scan_benchmark, scope_rows, validate_evidence, wanted_scopes, BenchmarkScan,
    PublisherBenchmarkConfig, PublisherBenchmarkEvidence, PublisherBenchmarkRow,
};
use crate::publisher_ledger::PublisherRankingRow;
use crate::publisher_product::{lemma_kinds_small, source_valid};
use crate::publisher_scan::windows_fit;
use crate::publisher_tally::{group_ranks, keeps_scope, rank_of, RankScope};
use crate::publisher_top::{splits, RankRow};
use crate::records::record_count;

verus! {

/// The functions that a benchmark calls.
pub struct BenchmarkSteps<'a, J, T, W> {
    /// Encodes the best rows as canonical JSON.
    pub encode: &'a J,
    /// Milliseconds since the scan started.
    pub elapsed: &'a T,
    /// Writes the evidence.
    pub write: &'a W,
}

/// The activity and the settings can be benchmarked.
pub open spec fn can_benchmark(
    activity: BoundedFixedActivity,
    state: ActivityState,
    config: PublisherBenchmarkConfig,
) -> bool {
    &&& source_valid(activity, state)
    &&& config_fits(config)
    &&& windows_fit(config.windows_days@, activity.evidence.as_of_epoch as int)
}

/// The evidence reports the scan of the activity, with rows encoded and time
/// measured by the steps.
pub open spec fn benchmarked<
    J: Fn(&Vec<PublisherBenchmarkRow>) -> Result<Vec<u8>>,
    T: Fn() -> u64,
    W: Fn(&PublisherBenchmarkEvidence) -> Result<()>,
>(
    activity: BoundedFixedActivity,
    state: ActivityState,
    config: PublisherBenchmarkConfig,
    steps: BenchmarkSteps<J, T, W>,
    scan: BenchmarkScan,
    rows_json: Vec<u8>,
    millis: u64,
    evidence: PublisherBenchmarkEvidence,
) -> bool {
    &&& measures(scan, state.activity@, config, activity.evidence.as_of_epoch as int)
    &&& call_ensures(*steps.encode, (&scan.representative_top_rows,), Ok(rows_json))
    &&& call_ensures(*steps.elapsed, (), millis)
    &&& reports_scan(evidence, activity, config, scan, rows_json@, millis)
    &&& evidence_agrees(evidence, rows_json@)
}

/// The scan of the activity cannot be encoded, or its projections do not fit
/// their counters.
pub open spec fn scan_unreported<
    J: Fn(&Vec<PublisherBenchmarkRow>) -> Result<Vec<u8>>,
    T: Fn() -> u64,
    W: Fn(&PublisherBenchmarkEvidence) -> Result<()>,
>(
    activity: BoundedFixedActivity,
    state: ActivityState,
    config: PublisherBenchmarkConfig,
    steps: BenchmarkSteps<J, T, W>,
    scan: BenchmarkScan,
    error: Error,
) -> bool {
    &&& measures(scan, state.activity@, config, activity.evidence.as_of_epoch as int)
    &&& {
        ||| call_ensures(*steps.encode, (&scan.representative_top_rows,), Err(error))
        ||| !projections_fit(config, scan) && error is Invalid
    }
}

/// What a benchmark comes to.
pub open spec fn benchmarks<
    J: Fn(&Vec<PublisherBenchmarkRow>) -> Result<Vec<u8>>,
    T: Fn() -> u64,
    W: Fn(&PublisherBenchmarkEvidence) -> Result<()>,
>(
    activity: BoundedFixedActivity,
    state: ActivityState,
    config: PublisherBenchmarkConfig,
    steps: BenchmarkSteps<J, T, W>,
    outcome: Result<PublisherBenchmarkEvidence>,
) -> bool {
    let as_of = activity.evidence.as_of_epoch as int;
    if !can_benchmark(activity, state, config) {
        outcome is Err && outcome->Err_0 is Invalid
    } else {
        match outcome {
            Ok(evidence) => {
                &&& exists|scan: BenchmarkScan, rows_json: Vec<u8>, millis: u64| #[trigger]
                    benchmarked(
                        activity,
                        state,
                        config,
                        steps,
                        scan,
                        rows_json,
                        millis,
                        evidence,
                    )
                &&& call_ensures(*steps.write, (&evidence,), Ok(()))
            },
            Err(error) => {
                ||| ledger_overflows(state.activity@, config.windows_days@, as_of)
                    && error is Invalid
                ||| exists|scan: BenchmarkScan| #[trigger]
                    scan_unreported(activity, state, config, steps, scan, error)
                ||| exists|
                    scan: BenchmarkScan,
                    rows_json: Vec<u8>,
                    millis: u64,
                    evidence: PublisherBenchmarkEvidence,
                | #[trigger]
                    benchmarked(
                        activity,
                        state,
                        config,
                        steps,
                        scan,
                        rows_json,
                        millis,
                        evidence,
                    ) && call_ensures(*steps.write, (&evidence,), Err(error))
            },
        }
    }
}

/// The metrics of a group are those of rows of the ledger.
proof fn lemma_rank_from_ledger(
    ledger: Seq<PublisherRankingRow>,
    days: u32,
    kind: Option<u16>,
    i: int,
) -> (k: int)
    requires
        0 <= i < group_ranks(ledger, days, kind).len(),
    ensures
        0 <= k < ledger.len(),
        group_ranks(ledger, days, kind)[i] == rank_of(ledger[k]),
    decreases ledger.len(),
{
    let earlier = group_ranks(ledger.drop_last(), days, kind);
    if i < earlier.len() {
        lemma_rank_from_ledger(ledger.drop_last(), days, kind, i)
    } else {
        ledger.len() - 1
    }
}

/// The best rows of a scope are metrics of rows of the ledger.
proof fn lemma_kept_from_ledger(
    rows: Seq<RankRow>,
    ledger: Seq<PublisherRankingRow>,
    scope: RankScope,
    limit: int,
    i: int,
) -> (k: int)
    requires
        keeps_scope(rows, ledger, scope, limit),
        0 <= i < rows.len(),
    ensures
        0 <= k < ledger.len(),
        rows[i] == rank_of(ledger[k]),
{
    let seen = group_ranks(ledger, scope.days, scope.kind);
    let dropped = choose|dropped: vstd::multiset::Multiset<RankRow>| #[trigger]
        splits(rows, dropped, seen, limit);
    rows.to_multiset_ensures();
    seen.to_multiset_ensures();
    assert(rows.contains(rows[i]));
    assert(rows.to_multiset().count(rows[i]) > 0);
    assert(seen.to_multiset().count(rows[i]) > 0);
    assert(seen.contains(rows[i]));
    let j = choose|j: int| 0 <= j < seen.len() && seen[j] == rows[i];
    lemma_rank_from_ledger(ledger, scope.days, scope.kind, j)
}

/// A hexadecimal text has two bytes for each byte.
proof fn lemma_hex_width(bytes: Seq<u8>)
    ensures
        vstd::utf8::encode_utf8(hex_text(bytes)).len() == 2 * bytes.len(),
{
    let text = hex_text(bytes);
    assert forall|i: int| 0 <= i < text.len() implies '\0' <= #[trigger] text[i] <= '\u{7f}' by {}
    assert(vstd::utf8::is_ascii_chars(text));
    vstd::utf8::is_ascii_chars_encode_utf8(text);
}

/// The values of a reported row are possible ones.
pub open spec fn view_valid(row: (u32, Option<u16>, Seq<char>, u64, u64, u32, u32)) -> bool {
    &&& row.3 > 0
    &&& row.4 > 0
    &&& row.5 <= row.6
    &&& vstd::utf8::encode_utf8(row.2).len() == 64
}

/// Reported rows of a ledger with possible metrics are possible ones.
proof fn lemma_reported_valid(
    scopes: Seq<RankScope>,
    tops: Seq<Vec<RankRow>>,
    ledger: Seq<PublisherRankingRow>,
    limit: int,
)
    requires
        tops.len() == scopes.len(),
        forall|i: int| 0 <= i < ledger.len() ==> metrics_valid(#[trigger] ledger[i]),
        forall|j: int|
            0 <= j < scopes.len() ==> #[trigger] keeps_scope(tops[j]@, ledger, scopes[j], limit),
    ensures
        forall|i: int|
            0 <= i < reported_rows(scopes, tops).len() ==> view_valid(
                #[trigger] reported_rows(scopes, tops)[i],
            ),
    decreases scopes.len(),
{
    if scopes.len() > 0 {
        let n = scopes.len() - 1;
        assert forall|j: int| 0 <= j < n implies #[trigger] keeps_scope(
            tops.drop_last()[j]@,
            ledger,
            scopes.drop_last()[j],
            limit,
        ) by {
            assert(keeps_scope(tops[j]@, ledger, scopes[j], limit));
        }
        lemma_reported_valid(scopes.drop_last(), tops.drop_last(), ledger, limit);
        let earlier = reported_rows(scopes.drop_last(), tops.drop_last());
        let last = scope_rows(scopes[n], tops[n]@);
        assert(keeps_scope(tops[n]@, ledger, scopes[n], limit));
        assert forall|i: int| 0 <= i < reported_rows(scopes, tops).len() implies view_valid(
            #[trigger] reported_rows(scopes, tops)[i],
        ) by {
            if i < earlier.len() {
                assert(reported_rows(scopes, tops)[i] == earlier[i]);
            } else {
                let at = i - earlier.len();
                assert(reported_rows(scopes, tops)[i] == last[at]);
                let k = lemma_kept_from_ledger(tops[n]@, ledger, scopes[n], limit, at);
                assert(metrics_valid(ledger[k]));
                lemma_hex_width(tops[n]@[at].pubkey@);
            }
        }
    }
}

/// The evidence of a completed benchmark agrees with itself and with the JSON of
/// its rows.
pub proof fn lemma_completed_benchmark_agrees(
    evidence: PublisherBenchmarkEvidence,
    activity: BoundedFixedActivity,
    bytes: Seq<u8>,
    config: PublisherBenchmarkConfig,
    scan: BenchmarkScan,
    rows_json: Seq<u8>,
    millis: u64,
)
    requires
        activity_stream(bytes),
        measures(scan, bytes, config, activity.evidence.as_of_epoch as int),
        reports_scan(evidence, activity, config, scan, rows_json, millis),
    ensures
        evidence_agrees(evidence, rows_json),
{
    let as_of = activity.evidence.as_of_epoch as int;
    let total = record_count(bytes, 70);
    let (ledger, tops) = choose|ledger: Seq<PublisherRankingRow>, tops: Seq<Vec<RankRow>>|
        is_ledger(ledger, bytes, config.windows_days@, as_of) && #[trigger] measures_ledger(
            scan,
            ledger,
            tops,
            config,
        );
    vstd::arithmetic::div_mod::lemma_div_pos_is_pos(bytes.len() as int, 70);
    lemma_kinds_small(ledger, bytes, 0, total, config.windows_days@, as_of);
    let scopes = wanted_scopes(config.windows_days@, config.sampled_kinds@);
    lemma_reported_valid(scopes, tops, ledger, config.top_limit as int);
    let rows = scan.representative_top_rows@;
    assert forall|i: int| 0 <= i < rows.len() implies row_valid(#[trigger] rows[i]) by {
        assert(row_views(rows)[i] == rows[i]@);
        assert(view_valid(reported_rows(scopes, tops)[i]));
    }
}

/// Benchmark the exact windows of a validated activity product.
pub fn benchmark_publishers<
    J: Fn(&Vec<PublisherBenchmarkRow>) -> Result<Vec<u8>>,
    T: Fn() -> u64,
    W: Fn(&PublisherBenchmarkEvidence) -> Result<()>,
>(
    activity: &BoundedFixedActivity,
    state: &ActivityState,
    config: &PublisherBenchmarkConfig,
    steps: &BenchmarkSteps<J, T, W>,
) -> (outcome: Result<PublisherBenchmarkEvidence>)
    requires
        weeks_defined(state.activity@, activity.evidence.as_of_epoch as int),
        forall|rows: &Vec<PublisherBenchmarkRow>| #[trigger]
            call_requires(*steps.encode, (rows,)),
        call_requires(*steps.elapsed, ()),
        forall|evidence: &PublisherBenchmarkEvidence| #[trigger]
            call_requires(*steps.write, (evidence,)),
    ensures
        benchmarks(*activity, *state, *config, *steps, outcome),
{
    let scan: BenchmarkScan = match scan_benchmark(activity, state, config) {
        Ok(scan) => scan,
        Err(error) => {
            return Err(error);
        },
    };
    let ghost scanned = scan;
    let encode: &J = steps.encode;
    let rows_json: Vec<u8> = match encode(&scan.representative_top_rows) {
        Ok(rows_json) => rows_json,
        Err(error) => {
            assert(scan_unreported(*activity, *state, *config, *steps, scanned, error));
            return Err(error);
        },
    };
    let elapsed: &T = steps.elapsed;
    let millis: u64 = elapsed();
    let evidence: PublisherBenchmarkEvidence = match report_benchmark(
        activity,
        config,
        scan,
        rows_json.as_slice(),
        millis,
    ) {
        Ok(evidence) => evidence,
        Err(error) => {
            assert(scan_unreported(*activity, *state, *config, *steps, scanned, error));
            return Err(error);
        },
    };
    proof {
        lemma_completed_benchmark_agrees(
            evidence,
            *activity,
            state.activity@,
            *config,
            scanned,
            rows_json@,
            millis,
        );
    }
    match validate_evidence(&evidence, rows_json.as_slice()) {
        Ok(()) => {},
        Err(error) => {
            return Err(error);
        },
    }
    assert(benchmarked(
        *activity,
        *state,
        *config,
        *steps,
        scanned,
        rows_json,
        millis,
        evidence,
    ));
    let write: &W = steps.write;
    match write(&evidence) {
        Ok(done) => {
            assert(done == ());
            assert(call_ensures(*steps.write, (&evidence,), Ok(())));
            Ok(evidence)
        },
        Err(error) => {
            assert(call_ensures(*steps.write, (&evidence,), Err(error)));
            Err(error)
        },
    }
}

} // verus!
