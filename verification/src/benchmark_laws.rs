//! What a benchmark of the publishers measures.

use vstd::prelude::*;

use crate::activity::{eligible, event_day, event_kind, lemma_eligible_grouped};
use crate::activity_laws::lemma_eligible_are_up_to_as_of;
use crate::fixed_activity::BoundedFixedActivity;
use crate::flexible_validation::ActivityState;
use crate::error::Result;
use crate::publisher_benchmark::{
    is_ledger, measures_ledger, report_benchmark, scan_benchmark, wanted_scopes, window_scopes,
    BenchmarkScan, PublisherBenchmarkConfig, PublisherBenchmarkEvidence,
};
use crate::publisher_days::{publisher_day_kinds, publisher_days};
use crate::publisher_ledger::{facts_between, lemma_stream_grouped, PublisherRankingRow};
use crate::publisher_tally::{group_count, single_count};
use crate::publisher_top::RankRow;
use crate::ranking_laws::{lemma_row_counts_its_days, within};
use crate::words::{cut, lemma_big_endian, lemma_records_are_cut, word16, word32};

verus! {

/// The rows of all kinds together for a window.
pub open spec fn all_kinds_row(days: u32) -> spec_fn(PublisherRankingRow) -> bool {
    |row: PublisherRankingRow| row.days == days && row.kind is None
}

/// The rows of a single kind for a window.
pub open spec fn one_kind_row(days: u32) -> spec_fn(PublisherRankingRow) -> bool {
    |row: PublisherRankingRow| row.days == days && row.kind is Some
}

proof fn lemma_groups_are_filtered(ledger: Seq<PublisherRankingRow>, days: u32)
    ensures
        group_count(ledger, days, None) == ledger.filter(all_kinds_row(days)).len(),
        single_count(ledger, days) == ledger.filter(one_kind_row(days)).len(),
    decreases ledger.len(),
{
    reveal(Seq::filter);
    if ledger.len() > 0 {
        lemma_groups_are_filtered(ledger.drop_last(), days);
    }
}

/// The publishers that a scan counts for a window are the rows of a ledger in
/// which every row counts the events of its publisher within the window.
pub proof fn lemma_scan_counts_the_publishers_of_windows(
    activity: &BoundedFixedActivity,
    state: &ActivityState,
    config: &PublisherBenchmarkConfig,
    outcome: Result<BenchmarkScan>,
) -> (ledger: Seq<PublisherRankingRow>)
    requires
        call_ensures(scan_benchmark, (activity, state, config), outcome),
        outcome is Ok,
    ensures
        ({
            let scan = outcome->Ok_0;
            let windows = config.windows_days@;
            let as_of = activity.evidence.as_of_epoch as int;
            let events = cut(state.activity@, 70);
            &&& scan.source_records == events.len()
            &&& forall|i: int|
                0 <= i < ledger.len() ==> windows.contains((#[trigger] ledger[i]).days)
                    && ledger[i].event_count == events.filter(
                    within(ledger[i].pubkey@, ledger[i].kind, ledger[i].days, as_of),
                ).len() && ledger[i].event_count > 0
            &&& forall|w: int|
                0 <= w < windows.len() ==> (#[trigger] scan.all_kind_publishers_by_window@[w])
                    == ledger.filter(all_kinds_row(windows[w])).len()
            &&& forall|w: int|
                0 <= w < windows.len() ==> (#[trigger] scan.per_kind_publishers_by_window@[w])
                    == ledger.filter(one_kind_row(windows[w])).len()
        }),
{
    let scan = outcome->Ok_0;
    let windows = config.windows_days@;
    let as_of = activity.evidence.as_of_epoch as int;
    let (ledger, tops) = choose|ledger: Seq<PublisherRankingRow>, tops: Seq<Vec<RankRow>>|
        is_ledger(ledger, state.activity@, windows, as_of) && #[trigger] measures_ledger(
            scan,
            ledger,
            tops,
            *config,
        );
    lemma_records_are_cut(state.activity@, 70);
    let events = cut(state.activity@, 70);
    let count = events.len() as int;
    assert(events =~= facts_between(state.activity@, 0, count));
    lemma_stream_grouped(state.activity@, 0, count);
    assert forall|i: int| 0 <= i < ledger.len() implies windows.contains(
        (#[trigger] ledger[i]).days,
    ) && ledger[i].event_count == events.filter(
        within(ledger[i].pubkey@, ledger[i].kind, ledger[i].days, as_of),
    ).len() && ledger[i].event_count > 0 by {
        lemma_row_counts_its_days(ledger, events, windows, as_of, i);
    }
    assert forall|w: int| 0 <= w < windows.len() implies (
    #[trigger] scan.all_kind_publishers_by_window@[w]) == ledger.filter(
        all_kinds_row(windows[w]),
    ).len() by {
        lemma_groups_are_filtered(ledger, windows[w]);
    }
    assert forall|w: int| 0 <= w < windows.len() implies (
    #[trigger] scan.per_kind_publishers_by_window@[w]) == ledger.filter(
        one_kind_row(windows[w]),
    ).len() by {
        lemma_groups_are_filtered(ledger, windows[w]);
    }
    ledger
}

/// A scan counts a publisher and a day once, and a publisher, a day and a kind
/// once, for the events up to the boundary.
pub proof fn lemma_scan_counts_publisher_days(
    activity: &BoundedFixedActivity,
    state: &ActivityState,
    config: &PublisherBenchmarkConfig,
    outcome: Result<BenchmarkScan>,
    who: Seq<u8>,
    day: int,
    kind: u16,
)
    requires
        call_ensures(scan_benchmark, (activity, state, config), outcome),
        outcome is Ok,
    ensures
        ({
            let scan = outcome->Ok_0;
            let events = eligible(
                state.activity@,
                activity.evidence.as_of_epoch as int,
            );
            &&& scan.publisher_daily_rows == publisher_days(events).len()
            &&& scan.publisher_daily_kind_rows == publisher_day_kinds(events).len()
            &&& publisher_days(events).contains((who, day)) <==> exists|i: int|
                0 <= i < events.len() && (#[trigger] events[i]).subrange(0, 32) == who && day
                    * 86_400 <= word32(events[i], 32) < day * 86_400 + 86_400
            &&& publisher_day_kinds(events).contains((who, day, kind)) <==> exists|i: int|
                0 <= i < events.len() && (#[trigger] events[i]).subrange(0, 32) == who && day
                    * 86_400 <= word32(events[i], 32) < day * 86_400 + 86_400 && word16(
                    events[i],
                    36,
                ) == kind
            &&& events == cut(state.activity@, 70).filter(
                |event: Seq<u8>| word32(event, 32) <= activity.evidence.as_of_epoch,
            )
        }),
{
    let as_of = activity.evidence.as_of_epoch as int;
    let events = eligible(state.activity@, as_of);
    lemma_eligible_are_up_to_as_of(state.activity@, as_of);
    lemma_records_are_cut(state.activity@, 70);
    lemma_eligible_grouped(
        state.activity@,
        as_of,
        crate::records::record_count(state.activity@, 70),
    );
    assert(cut(state.activity@, 70).filter(
        |event: Seq<u8>| word32(event, 32) <= activity.evidence.as_of_epoch,
    ) == cut(state.activity@, 70).filter(|event: Seq<u8>| word32(event, 32) <= as_of)) by {
        assert((|event: Seq<u8>| word32(event, 32) <= activity.evidence.as_of_epoch)
            =~= (|event: Seq<u8>| word32(event, 32) <= as_of));
    }
    assert forall|i: int| 0 <= i < events.len() implies crate::activity::publisher(
        #[trigger] events[i],
    ) == events[i].subrange(0, 32) && (event_day(events[i]) == day <==> day * 86_400 <= word32(
        events[i],
        32,
    ) < day * 86_400 + 86_400) && event_kind(events[i]) == word16(events[i], 36) by {
        lemma_big_endian(events[i], 32);
        lemma_big_endian(events[i], 36);
    }
}

/// A report holds 52 bytes for every publisher and day, 54 for every kind of
/// them, 62 for every row of a top, and room for the top of every window with
/// each sampled kind and with all kinds together. Its rate is the whole number
/// of records for a second.
pub proof fn lemma_report_projects_sizes(
    activity: &BoundedFixedActivity,
    config: &PublisherBenchmarkConfig,
    scan: BenchmarkScan,
    rows_json: &[u8],
    elapsed_millis: u64,
    outcome: Result<PublisherBenchmarkEvidence>,
)
    requires
        call_ensures(report_benchmark, (activity, config, scan, rows_json, elapsed_millis), outcome),
        outcome is Ok,
    ensures
        ({
            let evidence = outcome->Ok_0;
            let rate = evidence.scan_records_per_second;
            &&& evidence.source_records == scan.source_records
            &&& evidence.publisher_daily_rows * 52 == evidence.publisher_daily_compact_bytes
            &&& evidence.publisher_daily_kind_rows * 54
                == evidence.publisher_daily_kind_compact_bytes
            &&& evidence.materialized_top_rows * 62 == evidence.materialized_top_compact_bytes
            &&& evidence.max_representative_heap_rows == config.top_limit * wanted_scopes(
                config.windows_days@,
                config.sampled_kinds@,
            ).len()
            &&& elapsed_millis == 0 ==> rate == scan.source_records
            &&& elapsed_millis > 0 && scan.source_records * 1_000 <= u64::MAX ==> rate
                * elapsed_millis <= scan.source_records * 1_000 < (rate + 1) * elapsed_millis
        }),
{
    let windows = config.windows_days@.len() as int;
    let kinds = config.sampled_kinds@.len() as int;
    let limit = config.top_limit as int;
    lemma_scopes_are_windows_by_kinds(config.windows_days@, config.sampled_kinds@, 0, 0);
    assert(windows * (kinds + 1) * limit == limit * (windows * (kinds + 1))) by (nonlinear_arith);
    let records = scan.source_records * 1_000;
    let millis = elapsed_millis as int;
    if millis > 0 {
        vstd::arithmetic::div_mod::lemma_fundamental_div_mod(records, millis);
        let rate = records / millis;
        assert(rate * millis <= records < (rate + 1) * millis) by (nonlinear_arith)
            requires
                records == millis * rate + records % millis,
                0 <= records % millis < millis,
                rate == records / millis,
        ;
    }
}

/// The scopes of a benchmark are, for every window in turn, all kinds together
/// and then every sampled kind.
pub proof fn lemma_scopes_are_windows_by_kinds(
    windows: Seq<u32>,
    sampled: Seq<u16>,
    w: int,
    k: int,
)
    ensures
        ({
            let scopes = wanted_scopes(windows, sampled);
            let each = sampled.len() + 1;
            &&& scopes.len() == windows.len() * each
            &&& 0 <= w < windows.len() && 0 <= k <= sampled.len() ==> {
                &&& 0 <= w * each + k < scopes.len()
                &&& scopes[w * each + k].days == windows[w]
                &&& k == 0 ==> scopes[w * each + k].kind is None
                &&& k > 0 ==> scopes[w * each + k].kind == Some(sampled[k - 1])
            }
        }),
    decreases windows.len(),
{
    let each = sampled.len() + 1;
    if windows.len() > 0 {
        let last = windows.len() - 1;
        lemma_scopes_are_windows_by_kinds(windows.drop_last(), sampled, w, k);
        let earlier = wanted_scopes(windows.drop_last(), sampled);
        assert(windows.len() * each == last * each + each) by (nonlinear_arith)
            requires
                last == windows.len() - 1,
        ;
        assert(earlier.len() == last * each);
        assert(wanted_scopes(windows, sampled) == earlier + window_scopes(
            windows.last(),
            sampled,
        ));
        if 0 <= w < last && 0 <= k <= sampled.len() {
            assert(w * each + k < last * each) by (nonlinear_arith)
                requires
                    0 <= w < last,
                    0 <= k < each,
            ;
            assert(0 <= w * each) by (nonlinear_arith)
                requires
                    0 <= w,
                    0 < each,
            ;
        }
        if w == last {
            assert(w * each == last * each);
            assert(0 <= last * each) by (nonlinear_arith)
                requires
                    0 <= last,
                    0 < each,
            ;
        }
    } else {
        assert(0 * each == 0);
    }
}

} // verus!
