//! The first and the last of what is bounded, ordered or held.

use vstd::prelude::*;

use crate::artifact::EncodedRun;
use crate::bytes::lex_less;
use crate::digest::hex_text;
use crate::error::Result;
use crate::input::CatalogSnapshot;
use crate::merge::{
    group_held, group_of, merges_to, round_held, rounds_held, CompletedRun, MergeOutcome,
};
use crate::plan::{
    accounts_for_changes, is_extreme, plans, recorded, records_value, Baseline, CatalogDeltaPlan,
};
use crate::publisher_artifact::{encode_rankings, ranking_key, ranking_record};
use crate::publisher_benchmark::{reported_rows, scope_rows};
use crate::publisher_ledger::PublisherRankingRow;
use crate::publisher_tally::RankScope;
use crate::publisher_top::RankRow;
use crate::relay_distribution::RelayDistributionRow;
use crate::relay_rows::{materialize_rows, RelayCandidate};
use crate::sorting::Ordered;
use crate::text::{decimal_value, optional_text, unsigned_value};
use crate::words::lemma_decimal_reads_back;

verus! {

/// The earliest bound is at most every recorded bound, and the latest at least.
/// There is none only where none is recorded.
pub proof fn lemma_bounds_enclose_the_recorded(
    bounds: Seq<Option<Seq<char>>>,
    lowest: Option<Seq<char>>,
    highest: Option<Seq<char>>,
    i: int,
)
    requires
        is_extreme(bounds, false, lowest),
        is_extreme(bounds, true, highest),
        0 <= i < bounds.len(),
        bounds[i] is Some,
        unsigned_value(bounds[i]->0) is Some,
    ensures
        lowest is Some,
        highest is Some,
        decimal_value(lowest->0) <= unsigned_value(bounds[i]->0)->0 <= decimal_value(highest->0),
        exists|k: int|
            0 <= k < bounds.len() && #[trigger] bounds[k] is Some && unsigned_value(bounds[k]->0)
                is Some && unsigned_value(bounds[k]->0)->0 == decimal_value(lowest->0),
        exists|k: int|
            0 <= k < bounds.len() && #[trigger] bounds[k] is Some && unsigned_value(bounds[k]->0)
                is Some && unsigned_value(bounds[k]->0)->0 == decimal_value(highest->0),
{
    let own = unsigned_value(bounds[i]->0)->0;
    assert(records_value(bounds, i, own));
    let (a, low) = choose|a: int, low: u64| #[trigger]
        records_value(bounds, a, low) && lowest->0 == crate::text::decimal(low as nat) && (forall|
            j: int,
            other: u64,
        | #[trigger]
            records_value(bounds, j, other) ==> low <= other);
    let (b, high) = choose|b: int, high: u64| #[trigger]
        records_value(bounds, b, high) && highest->0 == crate::text::decimal(high as nat) && (forall|
            j: int,
            other: u64,
        | #[trigger]
            records_value(bounds, j, other) ==> other <= high);
    lemma_decimal_reads_back(low as nat);
    lemma_decimal_reads_back(high as nat);
    assert(bounds[a] is Some && bounds[b] is Some);
}

/// The affected range of a plan starts no later than any object that it adds or
/// removes, and ends no earlier. It is complete where every one of them has both
/// its bounds.
pub proof fn lemma_plan_covers_its_objects(
    snapshot: CatalogSnapshot,
    published: Option<Baseline>,
    query_version: Seq<char>,
    outcome: Result<CatalogDeltaPlan>,
    i: int,
)
    requires
        plans(snapshot, published, query_version, outcome),
        outcome is Ok,
    ensures
        ({
            let plan = outcome->Ok_0;
            let added = plan.added_objects@;
            let removed = plan.removed_objects@;
            &&& 0 <= i < added.len() ==> {
                &&& starts_by(plan.affected_min_created_at, added[i].min_created_at)
                &&& ends_by(plan.affected_max_created_at, added[i].max_created_at)
                &&& plan.affected_range_complete ==> added[i].min_created_at is Some
                    && added[i].max_created_at is Some
            }
            &&& 0 <= i < removed.len() ==> {
                &&& starts_by(plan.affected_min_created_at, removed[i].min_created_at)
                &&& ends_by(plan.affected_max_created_at, removed[i].max_created_at)
                &&& plan.affected_range_complete ==> removed[i].min_created_at is Some
                    && removed[i].max_created_at is Some
            }
        }),
{
    let plan = outcome->Ok_0;
    let added = plan.added_objects@;
    let removed = plan.removed_objects@;
    lemma_range_covers(plan, i);
    if 0 <= i < removed.len() {
        lemma_range_covers(plan, added.len() + i);
    }
}

/// The number in the first text is at most that in the second, where there is
/// one.
pub open spec fn starts_by(start: Option<String>, own: Option<String>) -> bool {
    own is Some && unsigned_value(own->0@) is Some ==> start is Some && decimal_value(start->0@)
        <= unsigned_value(own->0@)->0
}

/// The number in the first text is at least that in the second, where there is
/// one.
pub open spec fn ends_by(end: Option<String>, own: Option<String>) -> bool {
    own is Some && unsigned_value(own->0@) is Some ==> end is Some && unsigned_value(own->0@)->0
        <= decimal_value(end->0@)
}

proof fn lemma_range_covers(plan: CatalogDeltaPlan, i: int)
    requires
        accounts_for_changes(plan),
    ensures
        ({
            let lower = recorded(plan.added_objects@, plan.removed_objects@, false);
            let upper = recorded(plan.added_objects@, plan.removed_objects@, true);
            0 <= i < lower.len() ==> {
                &&& lower[i] is Some && unsigned_value(lower[i]->0) is Some
                    ==> plan.affected_min_created_at is Some && decimal_value(
                    plan.affected_min_created_at->0@,
                ) <= unsigned_value(lower[i]->0)->0
                &&& upper[i] is Some && unsigned_value(upper[i]->0) is Some
                    ==> plan.affected_max_created_at is Some && unsigned_value(upper[i]->0)->0
                    <= decimal_value(plan.affected_max_created_at->0@)
                &&& plan.affected_range_complete ==> lower[i] is Some && upper[i] is Some
            }
        }),
{
    let lower = recorded(plan.added_objects@, plan.removed_objects@, false);
    let upper = recorded(plan.added_objects@, plan.removed_objects@, true);
    if 0 <= i < lower.len() {
        if lower[i] is Some && unsigned_value(lower[i]->0) is Some {
            lemma_one_bound(lower, false, optional_text(plan.affected_min_created_at), i);
        }
        if upper[i] is Some && unsigned_value(upper[i]->0) is Some {
            lemma_one_bound(upper, true, optional_text(plan.affected_max_created_at), i);
        }
    }
}

proof fn lemma_one_bound(
    bounds: Seq<Option<Seq<char>>>,
    upper: bool,
    text: Option<Seq<char>>,
    i: int,
)
    requires
        is_extreme(bounds, upper, text),
        0 <= i < bounds.len(),
        bounds[i] is Some,
        unsigned_value(bounds[i]->0) is Some,
    ensures
        text is Some,
        upper ==> unsigned_value(bounds[i]->0)->0 <= decimal_value(text->0),
        !upper ==> decimal_value(text->0) <= unsigned_value(bounds[i]->0)->0,
{
    assert(records_value(bounds, i, unsigned_value(bounds[i]->0)->0));
    let (a, value) = choose|a: int, value: u64| #[trigger]
        records_value(bounds, a, value) && text->0 == crate::text::decimal(value as nat) && (forall|
            j: int,
            other: u64,
        | #[trigger]
            records_value(bounds, j, other) ==> if upper {
                other <= value
            } else {
                value <= other
            });
    lemma_decimal_reads_back(value as nat);
}

proof fn lemma_round_holds_its_groups(
    before: Seq<CompletedRun>,
    fan_in: int,
    width: int,
    peaks: Seq<usize>,
    count: int,
    g: int,
)
    requires
        0 <= g < count,
    ensures
        group_held(group_of(before, fan_in, g).len() as int, width, peaks[g]) <= round_held(
            before,
            fan_in,
            width,
            peaks,
            count,
        ),
    decreases count,
{
    if g < count - 1 {
        lemma_round_holds_its_groups(before, fan_in, width, peaks, count - 1, g);
    }
}

proof fn lemma_rounds_hold_their_rounds(
    rounds: Seq<Seq<CompletedRun>>,
    peaks: Seq<Seq<usize>>,
    fan_in: int,
    width: int,
    count: int,
    r: int,
)
    requires
        0 <= r < count,
    ensures
        round_held(rounds[r], fan_in, width, peaks[r], peaks[r].len() as int) <= rounds_held(
            rounds,
            peaks,
            fan_in,
            width,
            count,
        ),
    decreases count,
{
    if r < count - 1 {
        lemma_rounds_hold_their_rounds(rounds, peaks, fan_in, width, count - 1, r);
    }
}

/// A merge reports at least the bytes of one record for every run of a group and
/// one more, and at least what the merging of the group reported.
pub proof fn lemma_merges_report_what_they_hold<
    M: Fn(u32, usize, &[CompletedRun]) -> Result<(CompletedRun, usize)>,
>(
    rounds: Seq<Seq<CompletedRun>>,
    peaks: Seq<Seq<usize>>,
    merge: M,
    fan_in: int,
    width: int,
    runs: Seq<CompletedRun>,
    done: MergeOutcome,
    r: int,
    g: int,
)
    requires
        merges_to(rounds, peaks, merge, fan_in, width, runs, done),
        0 <= r < peaks.len(),
        0 <= g < peaks[r].len(),
        group_of(rounds[r], fan_in, g).len() > 1,
    ensures
        peaks[r][g] <= done.max_buffered_bytes,
        (group_of(rounds[r], fan_in, g).len() + 1) * width <= usize::MAX ==> (group_of(
            rounds[r],
            fan_in,
            g,
        ).len() + 1) * width <= done.max_buffered_bytes,
{
    lemma_round_holds_its_groups(rounds[r], fan_in, width, peaks[r], peaks[r].len() as int, g);
    lemma_rounds_hold_their_rounds(rounds, peaks, fan_in, width, peaks.len() as int, r);
}

/// The first key of a stored ranking is that of one of its rows and comes behind
/// that of none, and the last key comes before that of none.
pub proof fn lemma_ranking_keys_enclose_the_rows(
    rows: &Vec<PublisherRankingRow>,
    run: EncodedRun,
    i: int,
)
    requires
        call_ensures(encode_rankings, (rows,), run),
        0 <= i < rows@.len(),
    ensures
        ({
            let key = vstd::utf8::encode_utf8(hex_text(ranking_record(rows@[i]).subrange(0, 40)));
            &&& run.min_key is Some
            &&& run.max_key is Some
            &&& !lex_less(key, vstd::utf8::encode_utf8(run.min_key->0@))
            &&& !lex_less(vstd::utf8::encode_utf8(run.max_key->0@), key)
        }),
        exists|k: int|
            0 <= k < rows@.len() && run.min_key->0@ == hex_text(
                ranking_record(#[trigger] rows@[k]).subrange(0, 40),
            ),
        exists|k: int|
            0 <= k < rows@.len() && run.max_key->0@ == hex_text(
                ranking_record(#[trigger] rows@[k]).subrange(0, 40),
            ),
{
    assert forall|k: int| 0 <= k < rows@.len() implies ranking_key(#[trigger] rows@[k]) == hex_text(
        ranking_record(rows@[k]).subrange(0, 40),
    ) by {
        assert(ranking_record(rows@[k]).take(40) =~= ranking_record(rows@[k]).subrange(0, 40));
    }
    let own = ranking_key(rows@[i]);
    let a = choose|a: int| 0 <= a < rows@.len() && ranking_key(#[trigger] rows@[a])
        == run.min_key->0@;
    let b = choose|b: int| 0 <= b < rows@.len() && ranking_key(#[trigger] rows@[b])
        == run.max_key->0@;
    assert(rows@[a] == rows@[a] && rows@[b] == rows@[b]);
}

/// A reported row is a leading row of one of the scopes, with its window, its
/// kind, its publisher in hexadecimal and its numbers.
pub proof fn lemma_reported_rows_are_leading_rows(
    scopes: Seq<RankScope>,
    tops: Seq<Vec<RankRow>>,
    k: int,
) -> (place: (int, int))
    requires
        scopes.len() == tops.len(),
        0 <= k < reported_rows(scopes, tops).len(),
    ensures
        ({
            let (j, i) = place;
            let shown = reported_rows(scopes, tops)[k];
            &&& 0 <= j < scopes.len()
            &&& 0 <= i < tops[j]@.len()
            &&& shown.0 == scopes[j].days
            &&& shown.1 == scopes[j].kind
            &&& shown.2 == hex_text(tops[j]@[i].pubkey@)
            &&& shown.3 == tops[j]@[i].event_count
            &&& shown.4 == tops[j]@[i].kinds_count
            &&& shown.5 == tops[j]@[i].first_event
            &&& shown.6 == tops[j]@[i].last_event
        }),
    decreases scopes.len(),
{
    let earlier = reported_rows(scopes.drop_last(), tops.drop_last());
    let last = scopes.len() - 1;
    if k < earlier.len() {
        let place = lemma_reported_rows_are_leading_rows(scopes.drop_last(), tops.drop_last(), k);
        assert(tops.drop_last()[place.0] == tops[place.0]);
        assert(scopes.drop_last()[place.0] == scopes[place.0]);
        place
    } else {
        let i = k - earlier.len();
        assert(reported_rows(scopes, tops)[k] == scope_rows(scopes.last(), tops.last()@)[i]);
        (last, i)
    }
}

/// The relays of a distribution come by falling numbers of users, and those with
/// as many by their addresses, each relay once.
pub proof fn lemma_relays_come_by_users(
    candidates: &Vec<RelayCandidate>,
    as_of: u64,
    minimum_users: u64,
    outcome: Result<Vec<RelayDistributionRow>>,
    i: int,
    j: int,
)
    requires
        call_ensures(materialize_rows, (candidates, as_of, minimum_users), outcome),
        outcome is Ok,
        0 <= i < j < outcome->Ok_0@.len(),
    ensures
        ({
            let (a, b) = (outcome->Ok_0@[i], outcome->Ok_0@[j]);
            &&& a.user_count >= b.user_count
            &&& a.relay_url@ != b.relay_url@
            &&& a.user_count == b.user_count ==> lex_less(
                vstd::utf8::encode_utf8(a.relay_url@),
                vstd::utf8::encode_utf8(b.relay_url@),
            )
        }),
{
    let rows = outcome->Ok_0@;
    assert(rows[i].at_most(rows[j]));
    assert(crate::relay_rows::url_at(rows, i) != crate::relay_rows::url_at(rows, j));
}

} // verus!
