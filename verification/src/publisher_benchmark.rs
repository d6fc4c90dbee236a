//! Benchmark of exact predefined publisher windows.

use vstd::prelude::*;
use vstd::string::*;

use crate::activity::{activity_stream, eligible};
use crate::digest::{encode_hex, hex_text, sha256_hex, sha256_text};
use crate::error::{checked_mul, saturating_product, Error, Result};
use crate::fixed_activity::{lemma_row_count, weeks_defined, BoundedFixedActivity};
use crate::flexible_validation::ActivityState;
use crate::period_counter::{counted, largest_kind_set, scope_key, Grain};
use crate::publisher_days::{
    count_days, largest_publisher_kinds, publisher_day_kinds, publisher_days,
};
use crate::publisher_ledger::{
    at_boundary, facts_between, lemma_ledgers_join, lists_ledger, PublisherRankingRow,
};
use crate::publisher_product::{copy_windows, increases, source_valid, strictly_increase};
use crate::publisher_scan::{groups_between, scan_publishers, windows_fit, LedgerBatch};
use crate::publisher_tally::{
    group_count, keeps_scope, single_count, top_count, PublisherTally, RankScope,
};
use crate::publisher_top::RankRow;
use crate::records::record_count;
use crate::text::text_equal;

verus! {

/// Stable benchmark contract.
pub const PUBLISHER_BENCHMARK_VERSION: &'static str = "publisher-benchmark-v1";

/// Compact daily publisher fact bytes used for deterministic size projection.
pub const PUBLISHER_DAILY_FACT_BYTES: u64 = 52;

/// Compact daily publisher-kind fact bytes used for deterministic size projection.
pub const PUBLISHER_DAILY_KIND_FACT_BYTES: u64 = 54;

/// Compact predefined-window publisher row bytes used for size projection.
pub const PUBLISHER_MATERIALIZED_TOP_BYTES: u64 = 62;

/// Schema of the benchmark evidence.
pub const EVIDENCE_SCHEMA_VERSION: u32 = 1;

/// Runner identity.
pub const RUNNER_VERSION: &'static str = "pensieve-analytics-publisher-benchmark-v1";

/// Publishers that one step of the scan takes.
const SCAN_PUBLISHERS: usize = 1_024;

/// Exact windows and bounded limits of a benchmark.
#[derive(Clone, Debug)]
pub struct PublisherBenchmarkConfig {
    /// Exact rolling windows in days.
    pub windows_days: Vec<u32>,
    /// Representative kind filters whose exact rows are retained in evidence.
    pub sampled_kinds: Vec<u16>,
    /// Maximum publishers retained of each window and filter.
    pub top_limit: usize,
}

/// One exact publisher result for a fixed window.
#[derive(Clone, Debug, PartialEq, Eq)]
pub struct PublisherBenchmarkRow {
    /// Rolling window length.
    pub days: u32,
    /// Optional exact kind filter.
    pub kind: Option<u16>,
    /// 32-byte publisher key as lowercase hexadecimal.
    pub pubkey: String,
    /// Exact events between the boundaries.
    pub event_count: u64,
    /// Exact distinct kinds; one for kind-filtered rows.
    pub kinds_count: u64,
    /// Earliest included event timestamp.
    pub first_event: u32,
    /// Latest included event timestamp.
    pub last_event: u32,
}

/// Canonical deterministic results and measured scan cost of one benchmark.
#[derive(Clone, Debug, PartialEq, Eq)]
pub struct PublisherBenchmarkEvidence {
    /// Evidence schema version.
    pub schema_version: u32,
    /// Runner implementation identity.
    pub runner_version: String,
    /// Completion state.
    pub status: String,
    /// Stable benchmark semantics.
    pub benchmark_version: String,
    /// Frozen activity snapshot.
    pub snapshot_id: String,
    /// Fixed analytics boundary.
    pub as_of_epoch: u64,
    /// SHA-256 of validated fixed-activity evidence.
    pub activity_evidence_sha256: String,
    /// SHA-256 of the exact source activity artifact.
    pub activity_artifact_sha256: String,
    /// Exact activity records scanned.
    pub source_records: u64,
    /// Exact predefined windows.
    pub windows_days: Vec<u32>,
    /// Representative retained kind filters.
    pub sampled_kinds: Vec<u16>,
    /// Exact top limit.
    pub top_limit: usize,
    /// Publisher days across the source.
    pub publisher_daily_rows: u64,
    /// Publisher days and kinds across the source.
    pub publisher_daily_kind_rows: u64,
    /// Fixed-width compact bytes for all daily publisher facts.
    pub publisher_daily_compact_bytes: u64,
    /// Fixed-width compact bytes for all daily publisher-kind facts.
    pub publisher_daily_kind_compact_bytes: u64,
    /// Exact publishers of each window without a kind filter.
    pub all_kind_publishers_by_window: Vec<u64>,
    /// Exact sum across all kinds of the publishers of each window.
    pub per_kind_publishers_by_window: Vec<u64>,
    /// Exact rows in a fully materialized relation of the best rows.
    pub materialized_top_rows: u64,
    /// Deterministic compact byte projection for that relation.
    pub materialized_top_compact_bytes: u64,
    /// Exact all-kind and representative-kind top rows.
    pub representative_top_rows: Vec<PublisherBenchmarkRow>,
    /// SHA-256 of representative top rows.
    pub representative_rows_sha256: String,
    /// Maximum distinct kinds of one publisher on one day.
    pub max_day_kinds_buffered: usize,
    /// Maximum distinct kinds of one publisher.
    pub max_publisher_kinds_buffered: usize,
    /// Maximum total rows retained for representative results.
    pub max_representative_heap_rows: usize,
    /// Measured single-pass scan wall time.
    pub scan_elapsed_millis: u64,
    /// Measured source records processed per second.
    pub scan_records_per_second: u64,
}

/// The kinds strictly increase.
pub open spec fn kinds_increase(kinds: Seq<u16>) -> bool {
    forall|i: int, j: int| 0 <= i < j < kinds.len() ==> kinds[i] < kinds[j]
}

/// Whether the kinds strictly increase.
fn kinds_strictly_increase(kinds: &Vec<u16>) -> (yes: bool)
    ensures
        yes == kinds_increase(kinds@),
{
    let mut i: usize = 1;
    while i < kinds.len()
        invariant
            1 <= i,
            forall|j: int, k: int| 0 <= j < k < i && k < kinds@.len() ==> kinds@[j] < kinds@[k],
        decreases kinds.len() - i,
    {
        if kinds[i - 1] >= kinds[i] {
            assert(!(kinds@[i - 1] < kinds@[i as int]));
            return false;
        }
        i += 1;
    }
    true
}

/// Every setting is usable.
pub open spec fn config_fits(config: PublisherBenchmarkConfig) -> bool {
    &&& config.windows_days@.len() > 0
    &&& increases(config.windows_days@)
    &&& forall|i: int|
        0 <= i < config.windows_days@.len() ==> (#[trigger] config.windows_days@[i]) > 0
    &&& kinds_increase(config.sampled_kinds@)
    &&& 0 < config.top_limit <= 1_000
}

/// Check the source and the settings of a benchmark.
pub fn validate_config(
    activity: &BoundedFixedActivity,
    state: &ActivityState,
    config: &PublisherBenchmarkConfig,
) -> (outcome: Result<()>)
    requires
        weeks_defined(state.activity@, activity.evidence.as_of_epoch as int),
    ensures
        outcome is Ok <==> source_valid(*activity, *state) && config_fits(*config),
        outcome is Err ==> outcome->Err_0 is Invalid,
{
    match activity.validate_for_publication(
        activity.evidence.snapshot_id.as_str(),
        activity.evidence.as_of_epoch,
        state.activity,
        state.flags,
        state.metric_json,
    ) {
        Ok(()) => {},
        Err(error) => {
            return Err(error);
        },
    }
    if config.windows_days.len() == 0 || !strictly_increase(&config.windows_days)
        || config.windows_days[0] == 0 || !kinds_strictly_increase(&config.sampled_kinds)
        || config.top_limit == 0 || config.top_limit > 1_000 {
        return Err(Error::Invalid("publisher benchmark windows, kinds, or top limit are invalid"));
    }
    proof {
        assert forall|i: int| 0 <= i < config.windows_days@.len() implies (
        #[trigger] config.windows_days@[i]) > 0 by {
            if i > 0 {
                assert(config.windows_days@[0] < config.windows_days@[i]);
            }
        }
    }
    Ok(())
}

/// The scopes of one window: all kinds, then the sampled ones.
pub open spec fn window_scopes(days: u32, sampled: Seq<u16>) -> Seq<RankScope> {
    Seq::new(
        (sampled.len() + 1) as nat,
        |i: int|
            if i == 0 {
                RankScope { days, kind: None }
            } else {
                RankScope { days, kind: Some(sampled[i - 1]) }
            },
    )
}

/// The scopes whose best rows a benchmark retains, by window and kind.
pub open spec fn wanted_scopes(windows: Seq<u32>, sampled: Seq<u16>) -> Seq<RankScope>
    decreases windows.len(),
{
    if windows.len() == 0 {
        Seq::empty()
    } else {
        wanted_scopes(windows.drop_last(), sampled) + window_scopes(windows.last(), sampled)
    }
}

/// The scopes whose best rows a benchmark retains.
fn list_scopes(windows: &Vec<u32>, sampled: &Vec<u16>) -> (scopes: Vec<RankScope>)
    ensures
        scopes@ == wanted_scopes(windows@, sampled@),
{
    let mut scopes: Vec<RankScope> = Vec::new();
    let mut w: usize = 0;
    assert(windows@.take(0) =~= Seq::empty());
    while w < windows.len()
        invariant
            w <= windows@.len(),
            scopes@ == wanted_scopes(windows@.take(w as int), sampled@),
        decreases windows.len() - w,
    {
        let days: u32 = windows[w];
        let ghost base = scopes@;
        scopes.push(RankScope { days, kind: None });
        let mut k: usize = 0;
        while k < sampled.len()
            invariant
                k <= sampled@.len(),
                scopes@ =~= base + window_scopes(days, sampled@).take(k + 1),
            decreases sampled.len() - k,
        {
            scopes.push(RankScope { days, kind: Some(sampled[k]) });
            k += 1;
        }
        proof {
            assert(window_scopes(days, sampled@).take(sampled@.len() as int + 1) =~= window_scopes(
                days,
                sampled@,
            ));
            assert(windows@.take(w + 1).drop_last() =~= windows@.take(w as int));
        }
        w += 1;
    }
    assert(windows@.take(windows@.len() as int) =~= windows@);
    scopes
}

impl View for PublisherBenchmarkRow {
    type V = (u32, Option<u16>, Seq<char>, u64, u64, u32, u32);

    open spec fn view(&self) -> Self::V {
        (
            self.days,
            self.kind,
            self.pubkey@,
            self.event_count,
            self.kinds_count,
            self.first_event,
            self.last_event,
        )
    }
}

/// The views of the rows.
pub open spec fn row_views(rows: Seq<PublisherBenchmarkRow>) -> Seq<
    (u32, Option<u16>, Seq<char>, u64, u64, u32, u32),
> {
    Seq::new(rows.len(), |i: int| rows[i]@)
}

/// The best rows of one scope, as they are reported.
pub open spec fn scope_rows(scope: RankScope, rows: Seq<RankRow>) -> Seq<
    (u32, Option<u16>, Seq<char>, u64, u64, u32, u32),
> {
    Seq::new(
        rows.len(),
        |i: int|
            (
                scope.days,
                scope.kind,
                hex_text(rows[i].pubkey@),
                rows[i].event_count,
                rows[i].kinds_count,
                rows[i].first_event,
                rows[i].last_event,
            ),
    )
}

/// The best rows of all scopes, as they are reported.
pub open spec fn reported_rows(scopes: Seq<RankScope>, tops: Seq<Vec<RankRow>>) -> Seq<
    (u32, Option<u16>, Seq<char>, u64, u64, u32, u32),
>
    decreases scopes.len(),
{
    if scopes.len() == 0 || tops.len() == 0 {
        Seq::empty()
    } else {
        reported_rows(scopes.drop_last(), tops.drop_last()) + scope_rows(
            scopes.last(),
            tops.last()@,
        )
    }
}

/// Report the best rows of all scopes.
fn report_rows(scopes: &Vec<RankScope>, tops: &Vec<Vec<RankRow>>) -> (rows: Vec<
    PublisherBenchmarkRow,
>)
    requires
        scopes@.len() == tops@.len(),
    ensures
        row_views(rows@) == reported_rows(scopes@, tops@),
{
    let mut rows: Vec<PublisherBenchmarkRow> = Vec::new();
    let mut j: usize = 0;
    proof {
        assert(scopes@.take(0) =~= Seq::empty());
        assert(row_views(rows@) =~= Seq::empty());
    }
    while j < scopes.len()
        invariant
            j <= scopes@.len(),
            scopes@.len() == tops@.len(),
            row_views(rows@) == reported_rows(scopes@.take(j as int), tops@.take(j as int)),
        decreases scopes.len() - j,
    {
        let scope: RankScope = scopes[j];
        let top: &Vec<RankRow> = &tops[j];
        let ghost base = row_views(rows@);
        let mut i: usize = 0;
        while i < top.len()
            invariant
                i <= top@.len(),
                row_views(rows@) =~= base + scope_rows(scope, top@).take(i as int),
            decreases top.len() - i,
        {
            let ghost before = rows@;
            rows.push(
                PublisherBenchmarkRow {
                    days: scope.days,
                    kind: scope.kind,
                    pubkey: encode_hex(top[i].pubkey.as_slice()),
                    event_count: top[i].event_count,
                    kinds_count: top[i].kinds_count,
                    first_event: top[i].first_event,
                    last_event: top[i].last_event,
                },
            );
            proof {
                assert(row_views(rows@) =~= row_views(before).push(
                    scope_rows(scope, top@)[i as int],
                ));
            }
            i += 1;
        }
        proof {
            assert(scope_rows(scope, top@).take(top@.len() as int) =~= scope_rows(scope, top@));
            assert(scopes@.take(j + 1).drop_last() =~= scopes@.take(j as int));
            assert(tops@.take(j + 1).drop_last() =~= tops@.take(j as int));
        }
        j += 1;
    }
    proof {
        assert(scopes@.take(scopes@.len() as int) =~= scopes@);
        assert(tops@.take(tops@.len() as int) =~= tops@);
    }
    rows
}

/// What the scan of a benchmark measures.
pub struct BenchmarkScan {
    /// Activity records scanned.
    pub source_records: u64,
    /// Publisher days.
    pub publisher_daily_rows: u64,
    /// Publisher days and kinds.
    pub publisher_daily_kind_rows: u64,
    /// Publishers of each window.
    pub all_kind_publishers_by_window: Vec<u64>,
    /// Publishers of each window, added up over the kinds.
    pub per_kind_publishers_by_window: Vec<u64>,
    /// Rows of a relation of the best rows of every group.
    pub materialized_top_rows: u64,
    /// The best rows of the wanted groups.
    pub representative_top_rows: Vec<PublisherBenchmarkRow>,
    /// Most kinds of one publisher on one day.
    pub max_day_kinds_buffered: usize,
    /// Most kinds of one publisher.
    pub max_publisher_kinds_buffered: usize,
}

/// The scan measures the ledger.
pub open spec fn measures_ledger(
    scan: BenchmarkScan,
    ledger: Seq<PublisherRankingRow>,
    tops: Seq<Vec<RankRow>>,
    config: PublisherBenchmarkConfig,
) -> bool {
    let windows = config.windows_days@;
    let scopes = wanted_scopes(windows, config.sampled_kinds@);
    &&& scan.all_kind_publishers_by_window@.len() == windows.len()
    &&& forall|w: int|
        0 <= w < windows.len() ==> (#[trigger] scan.all_kind_publishers_by_window@[w])
            == group_count(ledger, windows[w], None)
    &&& scan.per_kind_publishers_by_window@.len() == windows.len()
    &&& forall|w: int|
        0 <= w < windows.len() ==> (#[trigger] scan.per_kind_publishers_by_window@[w])
            == single_count(ledger, windows[w])
    &&& scan.materialized_top_rows == top_count(ledger, config.top_limit as int)
    &&& tops.len() == scopes.len()
    &&& forall|j: int|
        0 <= j < scopes.len() ==> #[trigger] keeps_scope(
            tops[j]@,
            ledger,
            scopes[j],
            config.top_limit as int,
        )
    &&& row_views(scan.representative_top_rows@) == reported_rows(scopes, tops)
}

/// The scan measures the daily facts.
pub open spec fn measures_days(scan: BenchmarkScan, facts: Seq<Seq<u8>>) -> bool {
    &&& scan.publisher_daily_rows == publisher_days(facts).len()
    &&& scan.publisher_daily_kind_rows == publisher_day_kinds(facts).len()
    &&& largest_kind_set(facts, Grain::Day, scan.max_day_kinds_buffered as int)
    &&& largest_publisher_kinds(facts, scan.max_publisher_kinds_buffered as int)
}

/// `ledger` is that of the activity stream.
pub open spec fn is_ledger(
    ledger: Seq<PublisherRankingRow>,
    activity: Seq<u8>,
    windows: Seq<u32>,
    as_of: int,
) -> bool {
    lists_ledger(ledger, facts_between(activity, 0, record_count(activity, 70)), windows, as_of)
}

/// The scan measures the activity stream.
pub open spec fn measures(
    scan: BenchmarkScan,
    activity: Seq<u8>,
    config: PublisherBenchmarkConfig,
    as_of: int,
) -> bool {
    &&& scan.source_records == record_count(activity, 70)
    &&& measures_days(scan, eligible(activity, as_of))
    &&& exists|ledger: Seq<PublisherRankingRow>, tops: Seq<Vec<RankRow>>|
        is_ledger(ledger, activity, config.windows_days@, as_of) && #[trigger] measures_ledger(
            scan,
            ledger,
            tops,
            config,
        )
}

/// The ledger of the first records has more rows than a counter holds.
pub open spec fn ledger_overflows(activity: Seq<u8>, windows: Seq<u32>, as_of: int) -> bool {
    exists|ledger: Seq<PublisherRankingRow>, next: int| #[trigger]
        lists_ledger(ledger, facts_between(activity, 0, next), windows, as_of) && 0 <= next
            <= record_count(activity, 70) && ledger.len() > u64::MAX
}

/// Tally the ledger of a sorted activity stream.
fn tally_ledger(
    activity: &[u8],
    config: &PublisherBenchmarkConfig,
    scopes: &Vec<RankScope>,
    as_of: u64,
) -> (outcome: Result<(PublisherTally, Ghost<Seq<PublisherRankingRow>>)>)
    requires
        activity_stream(activity@),
    ensures
        match outcome {
            Ok((tally, ledger)) => {
                &&& windows_fit(config.windows_days@, as_of as int)
                &&& is_ledger(ledger@, activity@, config.windows_days@, as_of as int)
                &&& tally.tallies(ledger@, scopes@, config.top_limit as int)
            },
            Err(error) => {
                &&& error is Invalid
                &&& !windows_fit(config.windows_days@, as_of as int) || ledger_overflows(
                    activity@,
                    config.windows_days@,
                    as_of as int,
                )
            },
        },
{
    let ghost bytes = activity@;
    let ghost total = record_count(bytes, 70);
    let windows: &Vec<u32> = &config.windows_days;
    let mut tally: PublisherTally = PublisherTally::new(scopes, config.top_limit);
    let ghost mut ledger: Seq<PublisherRankingRow> = Seq::empty();
    let mut at: usize = 0;
    let mut started: bool = false;
    proof {
        assert(facts_between(bytes, 0, 0) =~= Seq::empty());
        assert(lists_ledger(ledger, facts_between(bytes, 0, 0), windows@, as_of as int));
    }
    while !started || at < activity.len() / 70
        invariant
            bytes == activity@,
            activity_stream(bytes),
            windows == &config.windows_days,
            total == record_count(bytes, 70),
            at <= total,
            at_boundary(bytes, at as int),
            started ==> windows_fit(windows@, as_of as int),
            lists_ledger(ledger, facts_between(bytes, 0, at as int), windows@, as_of as int),
            tally.tallies(ledger, scopes@, config.top_limit as int),
        decreases total - at,
            if started {
                0int
            } else {
                1int
            },
    {
        let batch: LedgerBatch = match scan_publishers(
            activity,
            at,
            SCAN_PUBLISHERS,
            windows,
            as_of,
        ) {
            Ok(batch) => batch,
            Err(error) => {
                return Err(error);
            },
        };
        let ghost before = ledger;
        let ghost joined = before + batch.rows@;
        let ghost next = batch.source_records as int;
        proof {
            lemma_ledgers_join(
                bytes,
                0,
                at as int,
                next,
                before,
                batch.rows@,
                windows@,
                as_of as int,
            );
        }
        let mut i: usize = 0;
        while i < batch.rows.len()
            invariant
                bytes == activity@,
                joined == before + batch.rows@,
                0 <= next <= record_count(bytes, 70),
                lists_ledger(joined, facts_between(bytes, 0, next), windows@, as_of as int),
                i <= batch.rows@.len(),
                ledger =~= before + batch.rows@.take(i as int),
                windows == &config.windows_days,
                windows_fit(windows@, as_of as int),
                tally.tallies(ledger, scopes@, config.top_limit as int),
            decreases batch.rows.len() - i,
        {
            let row: PublisherRankingRow = batch.rows[i];
            match tally.observe(row, scopes, config.top_limit, Ghost(ledger)) {
                Ok(()) => {},
                Err(error) => {
                    return Err(error);
                },
            }
            proof {
                ledger = ledger.push(row);
            }
            i += 1;
        }
        proof {
            assert(batch.rows@.take(batch.rows@.len() as int) =~= batch.rows@);
            assert(ledger =~= before + batch.rows@);
            if batch.source_records == at {
                assert(groups_between(bytes, at as int, at as int) == 0);
                assert(at == total);
            }
        }
        at = batch.source_records;
        started = true;
    }
    Ok((tally, Ghost(ledger)))
}

/// Scan a validated activity product for a benchmark.
pub fn scan_benchmark(
    activity: &BoundedFixedActivity,
    state: &ActivityState,
    config: &PublisherBenchmarkConfig,
) -> (outcome: Result<BenchmarkScan>)
    requires
        weeks_defined(state.activity@, activity.evidence.as_of_epoch as int),
    ensures
        match outcome {
            Ok(scan) => {
                &&& source_valid(*activity, *state)
                &&& config_fits(*config)
                &&& windows_fit(config.windows_days@, activity.evidence.as_of_epoch as int)
                &&& measures(
                    scan,
                    state.activity@,
                    *config,
                    activity.evidence.as_of_epoch as int,
                )
                &&& scan.source_records == activity.evidence.activity_artifact.row_count
            },
            Err(error) => {
                &&& error is Invalid
                &&& {
                    ||| !source_valid(*activity, *state)
                    ||| !config_fits(*config)
                    ||| !windows_fit(config.windows_days@, activity.evidence.as_of_epoch as int)
                    ||| ledger_overflows(
                        state.activity@,
                        config.windows_days@,
                        activity.evidence.as_of_epoch as int,
                    )
                }
            },
        },
{
    match validate_config(activity, state, config) {
        Ok(()) => {},
        Err(error) => {
            return Err(error);
        },
    }
    proof {
        lemma_row_count(activity.evidence.activity_artifact, 70, state.activity@);
    }
    let as_of: u64 = activity.evidence.as_of_epoch;
    let scopes: Vec<RankScope> = list_scopes(&config.windows_days, &config.sampled_kinds);
    let (tally, Ghost(ledger)) = match tally_ledger(state.activity, config, &scopes, as_of) {
        Ok(tallied) => tallied,
        Err(error) => {
            return Err(error);
        },
    };
    let (days, source_records) = match count_days(state.activity, as_of) {
        Ok(counted) => counted,
        Err(error) => {
            return Err(error);
        },
    };
    let windows: &Vec<u32> = &config.windows_days;
    let mut all: Vec<u64> = Vec::new();
    let mut single: Vec<u64> = Vec::new();
    let mut w: usize = 0;
    while w < windows.len()
        invariant
            w <= windows@.len(),
            windows == &config.windows_days,
            all@.len() == w,
            single@.len() == w,
            tally.tallies(ledger, scopes@, config.top_limit as int),
            forall|j: int|
                0 <= j < w ==> (#[trigger] all@[j]) == group_count(ledger, windows@[j], None),
            forall|j: int|
                0 <= j < w ==> (#[trigger] single@[j]) == single_count(ledger, windows@[j]),
        decreases windows.len() - w,
    {
        let length: u32 = windows[w];
        let key: u64 = length as u64 * 131_072;
        proof {
            assert(key == scope_key(length as int, None));
            assert(counted(tally.groups@, scope_key(length as int, None)) == group_count(
                ledger,
                length,
                None,
            ));
            assert(counted(tally.singles@, length as int) == single_count(ledger, length));
        }
        all.push(crate::ordered::value_or(&tally.groups, key, 0));
        single.push(crate::ordered::value_or(&tally.singles, length as u64, 0));
        w += 1;
    }
    let rows: Vec<PublisherBenchmarkRow> = report_rows(&scopes, &tally.tops);
    let scan: BenchmarkScan = BenchmarkScan {
        source_records,
        publisher_daily_rows: days.rows,
        publisher_daily_kind_rows: days.kind_rows,
        all_kind_publishers_by_window: all,
        per_kind_publishers_by_window: single,
        materialized_top_rows: tally.top_rows,
        representative_top_rows: rows,
        max_day_kinds_buffered: days.max_day_kinds,
        max_publisher_kinds_buffered: days.max_publisher_kinds,
    };
    assert(measures_ledger(scan, ledger, tally.tops@, *config));
    Ok(scan)
}

/// Source records of each second, or all of them where no time was measured.
pub open spec fn records_per_second(records: int, millis: int) -> int {
    if millis == 0 {
        records
    } else if records * 1_000 > u64::MAX {
        u64::MAX as int / millis
    } else {
        records * 1_000 / millis
    }
}

/// Rows that the representative lists hold at most.
pub open spec fn heap_bound(config: PublisherBenchmarkConfig) -> int {
    config.windows_days@.len() * (config.sampled_kinds@.len() + 1) * config.top_limit
}

/// The evidence reports the scan.
pub open spec fn reports_scan(
    evidence: PublisherBenchmarkEvidence,
    activity: BoundedFixedActivity,
    config: PublisherBenchmarkConfig,
    scan: BenchmarkScan,
    rows_json: Seq<u8>,
    elapsed_millis: u64,
) -> bool {
    &&& evidence.schema_version == EVIDENCE_SCHEMA_VERSION
    &&& evidence.runner_version@ == RUNNER_VERSION@
    &&& evidence.status@ == "completed"@
    &&& evidence.benchmark_version@ == PUBLISHER_BENCHMARK_VERSION@
    &&& evidence.snapshot_id == activity.evidence.snapshot_id
    &&& evidence.as_of_epoch == activity.evidence.as_of_epoch
    &&& evidence.activity_evidence_sha256 == activity.evidence_sha256
    &&& evidence.activity_artifact_sha256 == activity.evidence.activity_artifact.sha256
    &&& evidence.source_records == scan.source_records
    &&& evidence.windows_days@ == config.windows_days@
    &&& evidence.sampled_kinds@ == config.sampled_kinds@
    &&& evidence.top_limit == config.top_limit
    &&& evidence.publisher_daily_rows == scan.publisher_daily_rows
    &&& evidence.publisher_daily_kind_rows == scan.publisher_daily_kind_rows
    &&& evidence.publisher_daily_compact_bytes == scan.publisher_daily_rows * 52
    &&& evidence.publisher_daily_kind_compact_bytes == scan.publisher_daily_kind_rows * 54
    &&& evidence.all_kind_publishers_by_window@ == scan.all_kind_publishers_by_window@
    &&& evidence.per_kind_publishers_by_window@ == scan.per_kind_publishers_by_window@
    &&& evidence.materialized_top_rows == scan.materialized_top_rows
    &&& evidence.materialized_top_compact_bytes == scan.materialized_top_rows * 62
    &&& evidence.representative_top_rows@ == scan.representative_top_rows@
    &&& evidence.representative_rows_sha256@ == sha256_text(rows_json)
    &&& evidence.max_day_kinds_buffered == scan.max_day_kinds_buffered
    &&& evidence.max_publisher_kinds_buffered == scan.max_publisher_kinds_buffered
    &&& evidence.max_representative_heap_rows == heap_bound(config)
    &&& evidence.scan_elapsed_millis == elapsed_millis
    &&& evidence.scan_records_per_second == records_per_second(
        scan.source_records as int,
        elapsed_millis as int,
    )
}

/// Every projection fits its counter.
pub open spec fn projections_fit(config: PublisherBenchmarkConfig, scan: BenchmarkScan) -> bool {
    &&& scan.publisher_daily_rows * 52 <= u64::MAX
    &&& scan.publisher_daily_kind_rows * 54 <= u64::MAX
    &&& scan.materialized_top_rows * 62 <= u64::MAX
    &&& heap_bound(config) <= usize::MAX
}

/// Rows that the representative lists hold at most.
fn representative_bound(config: &PublisherBenchmarkConfig) -> (bound: Result<usize>)
    requires
        config.top_limit > 0,
    ensures
        heap_bound(*config) <= usize::MAX ==> bound == Ok::<usize, Error>(
            heap_bound(*config) as usize,
        ),
        heap_bound(*config) > usize::MAX ==> bound == Err::<usize, Error>(
            Error::Invalid("publisher heap bound overflowed"),
        ),
{
    let windows: usize = config.windows_days.len();
    let kinds: usize = config.sampled_kinds.len();
    proof {
        let w = windows as int;
        let k = kinds as int;
        let t = config.top_limit as int;
        assert(w * (k + 1) <= w * (k + 1) * t) by (nonlinear_arith)
            requires
                w >= 0,
                k >= 0,
                t >= 1,
        ;
        if k + 1 > usize::MAX && w >= 1 {
            assert(w * (k + 1) >= k + 1) by (nonlinear_arith)
                requires
                    w >= 1,
                    k >= 0,
            ;
        }
        if w == 0 {
            assert(w * (k + 1) * t == 0) by (nonlinear_arith)
                requires
                    w == 0,
            ;
        }
    }
    if windows == 0 {
        return Ok(0);
    }
    if kinds == usize::MAX {
        return Err(Error::Invalid("publisher heap bound overflowed"));
    }
    match windows.checked_mul(kinds + 1) {
        None => Err(Error::Invalid("publisher heap bound overflowed")),
        Some(lists) => match lists.checked_mul(config.top_limit) {
            None => Err(Error::Invalid("publisher heap bound overflowed")),
            Some(bound) => Ok(bound),
        },
    }
}

/// A copy of the kinds.
fn copy_kinds(kinds: &Vec<u16>) -> (copy: Vec<u16>)
    ensures
        copy@ == kinds@,
{
    let mut copy: Vec<u16> = Vec::new();
    let mut i: usize = 0;
    while i < kinds.len()
        invariant
            i <= kinds@.len(),
            copy@ =~= kinds@.take(i as int),
        decreases kinds.len() - i,
    {
        copy.push(kinds[i]);
        i += 1;
    }
    copy
}

/// The evidence of a benchmark from its scan.
///
/// `rows_json` is the canonical JSON of the representative rows, and
/// `elapsed_millis` the measured scan time.
pub fn report_benchmark(
    activity: &BoundedFixedActivity,
    config: &PublisherBenchmarkConfig,
    scan: BenchmarkScan,
    rows_json: &[u8],
    elapsed_millis: u64,
) -> (outcome: Result<PublisherBenchmarkEvidence>)
    ensures
        outcome is Ok <==> config.top_limit > 0 && projections_fit(*config, scan),
        match outcome {
            Ok(evidence) => reports_scan(
                evidence,
                *activity,
                *config,
                scan,
                rows_json@,
                elapsed_millis,
            ),
            Err(error) => error is Invalid,
        },
{
    if config.top_limit == 0 {
        return Err(Error::Invalid("invalid publisher benchmark configuration"));
    }
    let bound: usize = match representative_bound(config) {
        Ok(bound) => bound,
        Err(error) => {
            return Err(error);
        },
    };
    let daily: u64 = match checked_mul(
        scan.publisher_daily_rows,
        PUBLISHER_DAILY_FACT_BYTES,
        "publisher daily bytes overflowed",
    ) {
        Ok(bytes) => bytes,
        Err(error) => {
            return Err(error);
        },
    };
    let daily_kinds: u64 = match checked_mul(
        scan.publisher_daily_kind_rows,
        PUBLISHER_DAILY_KIND_FACT_BYTES,
        "publisher kind bytes overflowed",
    ) {
        Ok(bytes) => bytes,
        Err(error) => {
            return Err(error);
        },
    };
    let materialized: u64 = match checked_mul(
        scan.materialized_top_rows,
        PUBLISHER_MATERIALIZED_TOP_BYTES,
        "publisher materialized bytes overflowed",
    ) {
        Ok(bytes) => bytes,
        Err(error) => {
            return Err(error);
        },
    };
    let speed: u64 = if elapsed_millis == 0 {
        scan.source_records
    } else {
        saturating_product(scan.source_records, 1_000) / elapsed_millis
    };
    let windows: Vec<u32> = copy_windows(&config.windows_days);
    Ok(
        PublisherBenchmarkEvidence {
            schema_version: EVIDENCE_SCHEMA_VERSION,
            runner_version: RUNNER_VERSION.to_owned(),
            status: "completed".to_owned(),
            benchmark_version: PUBLISHER_BENCHMARK_VERSION.to_owned(),
            snapshot_id: activity.evidence.snapshot_id.clone(),
            as_of_epoch: activity.evidence.as_of_epoch,
            activity_evidence_sha256: activity.evidence_sha256.clone(),
            activity_artifact_sha256: activity.evidence.activity_artifact.sha256.clone(),
            source_records: scan.source_records,
            windows_days: windows,
            sampled_kinds: copy_kinds(&config.sampled_kinds),
            top_limit: config.top_limit,
            publisher_daily_rows: scan.publisher_daily_rows,
            publisher_daily_kind_rows: scan.publisher_daily_kind_rows,
            publisher_daily_compact_bytes: daily,
            publisher_daily_kind_compact_bytes: daily_kinds,
            all_kind_publishers_by_window: scan.all_kind_publishers_by_window,
            per_kind_publishers_by_window: scan.per_kind_publishers_by_window,
            materialized_top_rows: scan.materialized_top_rows,
            materialized_top_compact_bytes: materialized,
            representative_top_rows: scan.representative_top_rows,
            representative_rows_sha256: sha256_hex(rows_json),
            max_day_kinds_buffered: scan.max_day_kinds_buffered,
            max_publisher_kinds_buffered: scan.max_publisher_kinds_buffered,
            max_representative_heap_rows: bound,
            scan_elapsed_millis: elapsed_millis,
            scan_records_per_second: speed,
        },
    )
}

/// The row has possible metrics and a whole key.
pub open spec fn row_valid(row: PublisherBenchmarkRow) -> bool {
    &&& row.event_count > 0
    &&& row.kinds_count > 0
    &&& row.first_event <= row.last_event
    &&& vstd::utf8::encode_utf8(row.pubkey@).len() == 64
}

/// The evidence agrees with itself and with the JSON of its rows.
pub open spec fn evidence_agrees(evidence: PublisherBenchmarkEvidence, rows_json: Seq<u8>) -> bool {
    &&& evidence.schema_version == EVIDENCE_SCHEMA_VERSION
    &&& evidence.runner_version@ == RUNNER_VERSION@
    &&& evidence.status@ == "completed"@
    &&& evidence.benchmark_version@ == PUBLISHER_BENCHMARK_VERSION@
    &&& evidence.windows_days@.len() == evidence.all_kind_publishers_by_window@.len()
    &&& evidence.windows_days@.len() == evidence.per_kind_publishers_by_window@.len()
    &&& evidence.representative_rows_sha256@ == sha256_text(rows_json)
    &&& evidence.publisher_daily_compact_bytes == evidence.publisher_daily_rows * 52
    &&& evidence.publisher_daily_kind_compact_bytes == evidence.publisher_daily_kind_rows * 54
    &&& evidence.materialized_top_compact_bytes == evidence.materialized_top_rows * 62
    &&& forall|i: int|
        0 <= i < evidence.representative_top_rows@.len() ==> row_valid(
            #[trigger] evidence.representative_top_rows@[i],
        )
}

/// Whether the product is the given one.
fn is_product(rows: u64, width: u64, bytes: u64) -> (same: bool)
    ensures
        same == (rows * width == bytes),
{
    match rows.checked_mul(width) {
        None => false,
        Some(product) => product == bytes,
    }
}

/// Check that evidence agrees with itself and with the JSON of its rows.
pub fn validate_evidence(evidence: &PublisherBenchmarkEvidence, rows_json: &[u8]) -> (outcome:
    Result<()>)
    ensures
        outcome is Ok <==> evidence_agrees(*evidence, rows_json@),
        outcome is Err ==> outcome == Err::<(), Error>(
            Error::Invalid("publisher benchmark evidence does not reconcile"),
        ),
{
    let mut rows_valid: bool = true;
    let mut i: usize = 0;
    while i < evidence.representative_top_rows.len()
        invariant
            i <= evidence.representative_top_rows@.len(),
            rows_valid <==> forall|j: int|
                0 <= j < i ==> row_valid(#[trigger] evidence.representative_top_rows@[j]),
        decreases evidence.representative_top_rows.len() - i,
    {
        let row: &PublisherBenchmarkRow = &evidence.representative_top_rows[i];
        let valid: bool = row.event_count > 0 && row.kinds_count > 0 && row.first_event
            <= row.last_event && row.pubkey.as_str().as_bytes().len() == 64;
        assert(valid == row_valid(evidence.representative_top_rows@[i as int]));
        let before: bool = rows_valid;
        rows_valid = rows_valid && valid;
        proof {
            if !before {
                let j = choose|j: int|
                    0 <= j < i && !row_valid(#[trigger] evidence.representative_top_rows@[j]);
                assert(!row_valid(evidence.representative_top_rows@[j]));
            }
        }
        i += 1;
    }
    if evidence.schema_version != EVIDENCE_SCHEMA_VERSION || !text_equal(
        evidence.runner_version.as_str(),
        RUNNER_VERSION,
    ) || !text_equal(evidence.status.as_str(), "completed") || !text_equal(
        evidence.benchmark_version.as_str(),
        PUBLISHER_BENCHMARK_VERSION,
    ) || evidence.windows_days.len() != evidence.all_kind_publishers_by_window.len()
        || evidence.windows_days.len() != evidence.per_kind_publishers_by_window.len()
        || !text_equal(
        evidence.representative_rows_sha256.as_str(),
        sha256_hex(rows_json).as_str(),
    ) || !is_product(
        evidence.publisher_daily_rows,
        PUBLISHER_DAILY_FACT_BYTES,
        evidence.publisher_daily_compact_bytes,
    ) || !is_product(
        evidence.publisher_daily_kind_rows,
        PUBLISHER_DAILY_KIND_FACT_BYTES,
        evidence.publisher_daily_kind_compact_bytes,
    ) || !is_product(
        evidence.materialized_top_rows,
        PUBLISHER_MATERIALIZED_TOP_BYTES,
        evidence.materialized_top_compact_bytes,
    ) || !rows_valid {
        return Err(Error::Invalid("publisher benchmark evidence does not reconcile"));
    }
    Ok(())
}

} // verus!
