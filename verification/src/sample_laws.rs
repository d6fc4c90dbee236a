//! Which days are sampled, which publishers lead, and what the largest are.

use vstd::prelude::*;

use crate::activity_tables::DistinctPubkeysPeriod;
use crate::calendar::day_text_epoch;
use crate::error::Result;
use crate::flexible_samples::{
    candidates, category, has_scope, is_candidate, picked_from, picks, ranks_candidates,
    same_scope, sample_of, select_samples, unique_scopes, ExactSample, RankedSample,
};
use crate::publisher_ledger::PublisherRankingRow;
use crate::publisher_scan::{largest_kinds, max_kinds};
use crate::publisher_state::{ledger_columns, ledger_row, LedgerColumns};
use crate::publisher_tally::{group_count, group_ranks, keeps_scope, rank_of, top_count, RankScope};
use crate::publisher_top::{splits, RankRow};
use crate::reconcile::{digest_series, series_message};
use crate::serving_records::ServingKindRow;
use crate::serving_tables::read_kind_artifact;
use crate::sorting::{lemma_sorts_members, sorts, Ordered};
use crate::runs::text_bytes;
use crate::text::decimal;
use crate::text_map::TextMap;

verus! {

/// The days that can be sampled for a kind: whole days before the boundary with
/// publishers, of all kinds together, of long-form articles, or of any other
/// kind.
pub open spec fn sampled_for(kind: Option<u16>, complete_through: int) -> spec_fn(
    DistinctPubkeysPeriod,
) -> bool {
    |row: DistinctPubkeysPeriod|
        {
            &&& row.grain@ == "day"@
            &&& row.unique_pubkeys > 0
            &&& day_text_epoch(row.period_start@) is Some
            &&& day_text_epoch(row.period_start@)->0 + 86_400 <= complete_through
            &&& row.kind is None <==> kind is None
            &&& row.kind == Some(30_023u16) <==> kind == Some(30_023u16)
        }
}

proof fn lemma_candidates_are_filtered(
    rows: Seq<DistinctPubkeysPeriod>,
    complete_through: int,
    kind: Option<u16>,
)
    ensures
        candidates(rows, complete_through, category(kind)).len() == rows.filter(
            sampled_for(kind, complete_through),
        ).len(),
        forall|p: int|
            0 <= p < rows.len() && sampled_for(kind, complete_through)(#[trigger] rows[p])
                ==> candidates(rows, complete_through, category(kind)).contains(
                RankedSample { sample: sample_of(rows[p]) },
            ),
    decreases rows.len(),
{
    reveal(Seq::filter);
    let keep = sampled_for(kind, complete_through);
    if rows.len() > 0 {
        let row = rows.last();
        let fewer = rows.drop_last();
        lemma_candidates_are_filtered(fewer, complete_through, kind);
        assert(keep(row) <==> is_candidate(row, complete_through) && category(row.kind) == category(
            kind,
        ));
        let earlier = candidates(fewer, complete_through, category(kind));
        let now = candidates(rows, complete_through, category(kind));
        assert forall|p: int| 0 <= p < rows.len() && keep(#[trigger] rows[p]) implies now.contains(
            RankedSample { sample: sample_of(rows[p]) },
        ) by {
            if p < rows.len() - 1 {
                assert(fewer[p] == rows[p]);
                let wanted = RankedSample { sample: sample_of(rows[p]) };
                let q = choose|q: int| 0 <= q < earlier.len() && earlier[q] == wanted;
                assert(now[q] == wanted);
            } else {
                assert(now[earlier.len() as int] == RankedSample { sample: sample_of(row) });
            }
        }
    }
}

proof fn lemma_scopes_stay(samples: Seq<ExactSample>, i: int)
    requires
        0 <= i < samples.len(),
    ensures
        has_scope(unique_scopes(samples), samples[i]),
    decreases samples.len(),
{
    let fewer = samples.drop_last();
    let earlier = unique_scopes(fewer);
    let now = unique_scopes(samples);
    if i < samples.len() - 1 {
        lemma_scopes_stay(fewer, i);
        let k = choose|k: int| 0 <= k < earlier.len() && #[trigger] same_scope(
            earlier[k],
            fewer[i],
        );
        assert(same_scope(now[k], samples[i]));
    } else if !has_scope(earlier, samples.last()) {
        assert(same_scope(now[earlier.len() as int], samples[i]));
    }
}

/// A sample of the day and the kind.
pub open spec fn samples_day(samples: Seq<ExactSample>, row: DistinctPubkeysPeriod) -> bool {
    exists|i: int|
        0 <= i < samples.len() && (#[trigger] samples[i]).period_start@ == row.period_start@
            && samples[i].row.kind == row.kind
}

/// Of the days that can be sampled for a kind, ranked by their publishers, the
/// first, the middle and the last are sampled.
pub proof fn lemma_extremes_and_middle_are_sampled(
    rows: &[DistinctPubkeysPeriod],
    complete_through: u64,
    outcome: Result<Vec<ExactSample>>,
    kind: Option<u16>,
    middle: int,
) -> (ranking: Seq<DistinctPubkeysPeriod>)
    requires
        call_ensures(select_samples, (rows, complete_through), outcome),
        outcome is Ok,
    ensures
        ({
            let n = ranking.len() as int;
            let samples = outcome->Ok_0@;
            let keep = sampled_for(kind, complete_through as int);
            &&& n == rows@.filter(keep).len()
            &&& forall|p: int|
                0 <= p < rows@.len() && keep(#[trigger] rows@[p]) ==> ranking.contains(rows@[p])
            &&& forall|i: int, j: int|
                0 <= i < j < n ==> (#[trigger] ranking[i]).unique_pubkeys <= (
                #[trigger] ranking[j]).unique_pubkeys
            &&& n > 0 ==> samples_day(samples, ranking[0]) && samples_day(samples, ranking[n - 1])
            &&& n > 0 && 2 * middle <= n < 2 * middle + 2 ==> samples_day(samples, ranking[middle])
        }),
{
    let samples = outcome->Ok_0@;
    let end = complete_through as int;
    let keep = sampled_for(kind, end);
    let (all, single, longform) = choose|
        all: Seq<RankedSample>,
        single: Seq<RankedSample>,
        longform: Seq<RankedSample>,
    |
        ranks_candidates(rows@, end, all, single, longform) && #[trigger] picked_from(
            samples,
            all,
            single,
            longform,
        );
    let ranked = if category(kind) == 0 {
        all
    } else if category(kind) == 1 {
        single
    } else {
        longform
    };
    let source = candidates(rows@, end, category(kind));
    assert(sorts(ranked, source));
    lemma_candidates_are_filtered(rows@, end, kind);
    let ranking = Seq::new(ranked.len(), |i: int| ranked[i].sample.row);
    let n = ranking.len() as int;
    lemma_sorts_members(ranked, source);
    assert forall|p: int| 0 <= p < rows@.len() && keep(#[trigger] rows@[p]) implies ranking.contains(
        rows@[p],
    ) by {
        let wanted = RankedSample { sample: sample_of(rows@[p]) };
        assert(ranked.contains(wanted));
        let q = choose|q: int| 0 <= q < ranked.len() && ranked[q] == wanted;
        assert(ranking[q] == rows@[p]);
    }
    assert forall|i: int, j: int| 0 <= i < j < n implies (#[trigger] ranking[i]).unique_pubkeys <= (
    #[trigger] ranking[j]).unique_pubkeys by {
        assert(ranked[i].at_most(ranked[j]));
    }
    let offered = picks(all) + picks(single) + picks(longform);
    if n > 0 {
        let base: int = if category(kind) == 0 {
            0
        } else if category(kind) == 1 {
            picks(all).len() as int
        } else {
            (picks(all).len() + picks(single).len()) as int
        };
        assert(offered[base] == ranked[0].sample);
        assert(offered[base + 1] == ranked[n / 2].sample);
        assert(offered[base + 2] == ranked[n - 1].sample);
        lemma_offered_is_sampled(samples, offered, base);
        lemma_offered_is_sampled(samples, offered, base + 1);
        lemma_offered_is_sampled(samples, offered, base + 2);
        assert forall|x: RankedSample| #[trigger] ranked.contains(x) implies x.sample.period_start
            == x.sample.row.period_start by {
            lemma_candidate_keeps_its_day(rows@, end, category(kind), x);
        }
        assert(ranked.contains(ranked[0]));
        assert(ranked.contains(ranked[n / 2]));
        assert(ranked.contains(ranked[n - 1]));
        assert(samples_day(samples, ranking[0]));
        assert(samples_day(samples, ranking[n / 2]));
        assert(samples_day(samples, ranking[n - 1]));
        if 2 * middle <= n < 2 * middle + 2 {
            assert(middle == n / 2);
        }
    }
    ranking
}

proof fn lemma_candidate_keeps_its_day(
    rows: Seq<DistinctPubkeysPeriod>,
    complete_through: int,
    wanted: int,
    sample: RankedSample,
)
    requires
        candidates(rows, complete_through, wanted).contains(sample),
    ensures
        sample.sample.period_start == sample.sample.row.period_start,
    decreases rows.len(),
{
    if rows.len() > 0 {
        let earlier = candidates(rows.drop_last(), complete_through, wanted);
        let now = candidates(rows, complete_through, wanted);
        let q = choose|q: int| 0 <= q < now.len() && now[q] == sample;
        if q < earlier.len() {
            assert(earlier[q] == sample);
            lemma_candidate_keeps_its_day(rows.drop_last(), complete_through, wanted, sample);
        }
    }
}

proof fn lemma_offered_is_sampled(samples: Seq<ExactSample>, offered: Seq<ExactSample>, i: int)
    requires
        sorts(samples, unique_scopes(offered)),
        0 <= i < offered.len(),
    ensures
        exists|k: int|
            0 <= k < samples.len() && (#[trigger] samples[k]).period_start@
                == offered[i].period_start@ && samples[k].row.kind == offered[i].row.kind,
{
    lemma_scopes_stay(offered, i);
    let unique = unique_scopes(offered);
    lemma_sorts_members(samples, unique);
    let k = choose|k: int| 0 <= k < unique.len() && #[trigger] same_scope(unique[k], offered[i]);
    assert(samples.contains(unique[k]));
    let at = choose|at: int| 0 <= at < samples.len() && samples[at] == unique[k];
    assert(samples[at].period_start@ == offered[i].period_start@);
}

/// The most kinds of a publisher are those of some row, and no row has more.
pub proof fn lemma_most_kinds_are_of_a_row(rows: &Vec<PublisherRankingRow>, count: u64)
    requires
        call_ensures(max_kinds, (rows,), count),
    ensures
        forall|i: int| 0 <= i < rows@.len() ==> (#[trigger] rows@[i]).kinds_count <= count,
        count == 0 || exists|i: int|
            0 <= i < rows@.len() && (#[trigger] rows@[i]).kinds_count == count,
{
    lemma_largest_kinds(rows@);
}

proof fn lemma_largest_kinds(rows: Seq<PublisherRankingRow>)
    ensures
        forall|i: int| 0 <= i < rows.len() ==> (#[trigger] rows[i]).kinds_count <= largest_kinds(rows),
        largest_kinds(rows) == 0 || exists|i: int|
            0 <= i < rows.len() && (#[trigger] rows[i]).kinds_count == largest_kinds(rows),
    decreases rows.len(),
{
    if rows.len() > 0 {
        let fewer = rows.drop_last();
        lemma_largest_kinds(fewer);
        assert(forall|i: int| 0 <= i < fewer.len() ==> #[trigger] fewer[i] == rows[i]);
        assert forall|i: int| 0 <= i < rows.len() implies (#[trigger] rows[i]).kinds_count
            <= largest_kinds(rows) by {
            if i < rows.len() - 1 {
                assert(fewer[i] == rows[i]);
            }
        }
        if largest_kinds(rows) == rows.last().kinds_count {
            assert(rows[rows.len() - 1].kinds_count == largest_kinds(rows));
        } else if largest_kinds(fewer) != 0 {
            let i = choose|i: int|
                0 <= i < fewer.len() && (#[trigger] fewer[i]).kinds_count == largest_kinds(fewer);
            assert(rows[i].kinds_count == largest_kinds(rows));
        }
    }
}

/// The columns of a stored row are the values of the row under their own names,
/// with minus one for all kinds, and are read back as that row.
pub proof fn lemma_stored_rows_are_read_back(
    row: &PublisherRankingRow,
    written: Result<LedgerColumns>,
    read: Result<PublisherRankingRow>,
)
    requires
        call_ensures(ledger_columns, (row,), written),
        written is Ok,
        call_ensures(ledger_row, (&written->Ok_0,), read),
        read is Ok,
    ensures
        ({
            let columns = written->Ok_0;
            &&& columns.days == row.days
            &&& row.kind is None ==> columns.kind == -1
            &&& row.kind is Some ==> columns.kind == row.kind->0
            &&& columns.pubkey@ == row.pubkey@
            &&& columns.event_count == row.event_count
            &&& columns.kinds_count == row.kinds_count
            &&& columns.first_event == row.first_event
            &&& columns.last_event == row.last_event
            &&& read->Ok_0.days == row.days
            &&& read->Ok_0.kind == row.kind
            &&& read->Ok_0.pubkey@ == row.pubkey@
            &&& read->Ok_0.event_count == row.event_count
            &&& read->Ok_0.kinds_count == row.kinds_count
            &&& read->Ok_0.first_event == row.first_event
            &&& read->Ok_0.last_event == row.last_event
        }),
{
}

/// The rows of a window and a kind.
pub open spec fn of_scope(days: u32, kind: Option<u16>) -> spec_fn(PublisherRankingRow) -> bool {
    |row: PublisherRankingRow| row.days == days && row.kind == kind
}

proof fn lemma_scope_is_filtered(ledger: Seq<PublisherRankingRow>, days: u32, kind: Option<u16>)
    ensures
        group_count(ledger, days, kind) == ledger.filter(of_scope(days, kind)).len(),
        group_ranks(ledger, days, kind) == ledger.filter(of_scope(days, kind)).map_values(
            |row: PublisherRankingRow| rank_of(row),
        ),
    decreases ledger.len(),
{
    reveal(Seq::filter);
    if ledger.len() > 0 {
        lemma_scope_is_filtered(ledger.drop_last(), days, kind);
        let earlier = ledger.drop_last().filter(of_scope(days, kind));
        assert(earlier.push(ledger.last()).map_values(|row: PublisherRankingRow| rank_of(row))
            =~= earlier.map_values(|row: PublisherRankingRow| rank_of(row)).push(
            rank_of(ledger.last()),
        ));
    }
}

/// One more row is among the leading ones of its window and kind as long as
/// fewer than the limit have come before it.
pub proof fn lemma_leading_rows_are_counted(
    ledger: Seq<PublisherRankingRow>,
    row: PublisherRankingRow,
    limit: int,
)
    ensures
        top_count(Seq::empty(), limit) == 0,
        ledger.filter(of_scope(row.days, row.kind)).len() < limit ==> top_count(
            ledger.push(row),
            limit,
        ) == top_count(ledger, limit) + 1,
        ledger.filter(of_scope(row.days, row.kind)).len() >= limit ==> top_count(
            ledger.push(row),
            limit,
        ) == top_count(ledger, limit),
{
    lemma_scope_is_filtered(ledger, row.days, row.kind);
    assert(ledger.push(row).drop_last() =~= ledger);
}

/// The leading rows of a window and a kind are as many as there are, up to the
/// limit. They come by falling numbers of events, and a row that is not among
/// them has no more events than any of them.
pub proof fn lemma_leading_rows_have_most_events(
    rows: Seq<RankRow>,
    ledger: Seq<PublisherRankingRow>,
    scope: RankScope,
    limit: int,
    row: PublisherRankingRow,
)
    requires
        keeps_scope(rows, ledger, scope, limit),
        0 <= limit,
    ensures
        ({
            let held = ledger.filter(of_scope(scope.days, scope.kind)).len();
            &&& held < limit ==> rows.len() == held
            &&& held >= limit ==> rows.len() == limit
            &&& forall|i: int, j: int|
                0 <= i < j < rows.len() ==> (#[trigger] rows[i]).event_count >= (
                #[trigger] rows[j]).event_count
            &&& ledger.contains(row) && row.days == scope.days && row.kind == scope.kind ==> (
            exists|i: int|
                {
                    &&& 0 <= i < rows.len()
                    &&& (#[trigger] rows[i]).pubkey == row.pubkey
                    &&& rows[i].event_count == row.event_count
                    &&& rows[i].kinds_count == row.kinds_count
                    &&& rows[i].first_event == row.first_event
                    &&& rows[i].last_event == row.last_event
                }) || forall|i: int|
                0 <= i < rows.len() ==> (#[trigger] rows[i]).event_count >= row.event_count
        }),
{
    broadcast use vstd::seq_lib::group_to_multiset_ensures;

    lemma_scope_is_filtered(ledger, scope.days, scope.kind);
    let kept = ledger.filter(of_scope(scope.days, scope.kind));
    let seen = group_ranks(ledger, scope.days, scope.kind);
    let dropped = choose|dropped: vstd::multiset::Multiset<RankRow>| #[trigger]
        splits(rows, dropped, seen, limit);
    assert forall|i: int, j: int| 0 <= i < j < rows.len() implies (#[trigger] rows[i]).event_count
        >= (#[trigger] rows[j]).event_count by {
        assert(rows[i].at_most(rows[j]));
    }
    assert(seen.len() == kept.len());
    if ledger.contains(row) && row.days == scope.days && row.kind == scope.kind {
        assert(kept.contains(row));
        let k = choose|k: int| 0 <= k < kept.len() && kept[k] == row;
        assert(seen[k] == rank_of(row));
        assert(seen.to_multiset().count(rank_of(row)) > 0);
        if rows.to_multiset().count(rank_of(row)) > 0 {
            let i = choose|i: int| 0 <= i < rows.len() && rows[i] == rank_of(row);
            assert(rows[i].pubkey == row.pubkey);
        } else {
            assert(dropped.count(rank_of(row)) > 0);
            assert forall|i: int| 0 <= i < rows.len() implies (#[trigger] rows[i]).event_count
                >= row.event_count by {
                assert(rows[i].at_most(rank_of(row)));
            }
        }
    }
}

/// A summary of a kind is read only with events and publishers, no more
/// publishers than events, and content for every event.
pub proof fn lemma_read_summaries_are_sound(
    bytes: &[u8],
    expected_rows: u64,
    outcome: Result<Vec<ServingKindRow>>,
    i: int,
)
    requires
        call_ensures(read_kind_artifact, (bytes, expected_rows), outcome),
        outcome is Ok,
        0 <= i < outcome->Ok_0@.len(),
    ensures
        ({
            let row = outcome->Ok_0@[i];
            &&& outcome->Ok_0@.len() == expected_rows
            &&& 0 < row.unique_pubkeys <= row.event_count
            &&& row.first_seen <= row.last_seen
            &&& row.content_rows == row.event_count
            &&& i > 0 ==> outcome->Ok_0@[i - 1].kind < row.kind
        }),
{
    assert(crate::serving_records::is_kind_row(outcome->Ok_0@[i]));
}

/// The digest of a series is that of its entries in order: the key, a zero, the
/// value in decimal digits and a line feed.
pub proof fn lemma_digest_is_of_the_entries(series: &TextMap<u64>, digest: String)
    requires
        call_ensures(digest_series, (series,), digest),
    ensures
        digest@ == crate::digest::sha256_text(
            series.entries@.fold_left(
                Seq::<u8>::empty(),
                |message: Seq<u8>, entry: (String, u64)|
                    message + text_bytes(entry.0@) + seq![0u8] + text_bytes(
                        decimal(entry.1 as nat),
                    ) + seq![10u8],
            ),
        ),
{
    let entries = series.entries@;
    lemma_message_folds(entries, entries.len() as int);
    assert(entries.take(entries.len() as int) =~= entries);
}

proof fn lemma_message_folds(entries: Seq<(String, u64)>, count: int)
    requires
        0 <= count <= entries.len(),
    ensures
        series_message(entries, count) == entries.take(count).fold_left(
            Seq::<u8>::empty(),
            |message: Seq<u8>, entry: (String, u64)|
                message + text_bytes(entry.0@) + seq![0u8] + text_bytes(decimal(entry.1 as nat))
                    + seq![10u8],
        ),
    decreases count,
{
    if count > 0 {
        lemma_message_folds(entries, count - 1);
        let last = entries[count - 1];
        assert(entries.take(count).drop_last() =~= entries.take(count - 1));
        let earlier = series_message(entries, count - 1);
        assert(series_message(entries, count) =~= earlier + text_bytes(last.0@) + seq![0u8]
            + text_bytes(decimal(last.1 as nat)) + seq![10u8]);
    }
}

} // verus!
