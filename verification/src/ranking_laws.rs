//! What a publisher ranking says of the events.
//!
//! An event is 70 bytes: the publisher key in the first 32, the second of its
//! creation in the next four, and its kind in the two behind.

use vstd::prelude::*;

use crate::activity::{activity_stream, created_at, event_kind, grouped, publisher};
use crate::bytes::{lemma_be_limits, lemma_be_nat_bound, lex_less};
use crate::publisher_ledger::{
    counts_row, facts_between, has_key, has_row, hits, in_scope, is_active, kinds_hit,
    lemma_hits_forward, lemma_hits_nonempty, lemma_hits_witness, lemma_stream_grouped,
    lists_ledger, window_hits, window_since, PublisherRankingRow,
};
use crate::publisher_product::{ranks_activity, RankingBuild};
use crate::publisher_rank::{beaters, is_top, lemma_ranking_order, ranking_before, same_group};
use crate::publisher_scan::scans_batch;
use crate::records::record_count;
use crate::words::{cut, lemma_big_endian, lemma_records_are_cut, word16, word32};

verus! {

/// The event was created by the publisher within the last `days` days before
/// `as_of`, this second included, and has the kind, where one is given.
pub open spec fn within(pubkey: Seq<u8>, kind: Option<u16>, days: u32, as_of: int) -> spec_fn(
    Seq<u8>,
) -> bool {
    |event: Seq<u8>|
        {
            &&& event.subrange(0, 32) == pubkey
            &&& as_of <= word32(event, 32) + days * 86_400
            &&& word32(event, 32) <= as_of
            &&& kind matches Some(k) ==> word16(event, 36) == k
        }
}

/// Kinds of the events of the publisher within the last `days` days.
pub open spec fn kinds_within(
    events: Seq<Seq<u8>>,
    pubkey: Seq<u8>,
    days: u32,
    as_of: int,
) -> Set<u64> {
    Set::new(
        |kind: u64|
            exists|i: int|
                0 <= i < events.len() && word16(#[trigger] events[i], 36) == kind && within(
                    pubkey,
                    None,
                    days,
                    as_of,
                )(events[i]),
    )
}

/// Every event has 70 bytes.
pub open spec fn whole(events: Seq<Seq<u8>>) -> bool {
    forall|i: int| 0 <= i < events.len() ==> (#[trigger] events[i]).len() == 70
}

/// What a whole event says.
proof fn lemma_event(event: Seq<u8>)
    requires
        event.len() == 70,
    ensures
        publisher(event) == event.subrange(0, 32),
        created_at(event) == word32(event, 32),
        event_kind(event) == word16(event, 36),
        word16(event, 36) <= u16::MAX,
        word32(event, 32) <= u32::MAX,
{
    lemma_big_endian(event, 32);
    lemma_big_endian(event, 36);
    lemma_be_limits();
    lemma_be_nat_bound(event.subrange(36, 38));
    lemma_be_nat_bound(event.subrange(32, 36));
}

/// The events of a window are those within its days.
proof fn lemma_window_hits(
    events: Seq<Seq<u8>>,
    pubkey: Seq<u8>,
    kind: Option<u16>,
    days: u32,
    as_of: int,
)
    requires
        whole(events),
    ensures
        window_hits(events, pubkey, kind, days as int, as_of) == events.filter(
            within(pubkey, kind, days, as_of),
        ),
    decreases events.len(),
{
    reveal(Seq::filter);
    if events.len() > 0 {
        let fewer = events.drop_last();
        assert(whole(fewer));
        lemma_window_hits(fewer, pubkey, kind, days, as_of);
        let event = events.last();
        assert(events[events.len() - 1].len() == 70);
        lemma_event(event);
        assert(in_scope(event, pubkey, kind, window_since(as_of, days as int), as_of) == within(
            pubkey,
            kind,
            days,
            as_of,
        )(event));
    }
}

/// A row of a ledger counts exactly the events that its publisher created
/// within the last `days` days, of its kind or of all kinds. It tells the first
/// and the last second of these events and the number of their kinds.
pub proof fn lemma_row_counts_its_days(
    rows: Seq<PublisherRankingRow>,
    events: Seq<Seq<u8>>,
    windows: Seq<u32>,
    as_of: int,
    i: int,
)
    requires
        lists_ledger(rows, events, windows, as_of),
        whole(events),
        grouped(events),
        0 <= i < rows.len(),
    ensures
        ({
            let row = rows[i];
            let wanted = within(row.pubkey@, row.kind, row.days, as_of);
            &&& windows.contains(row.days)
            &&& row.event_count == events.filter(wanted).len()
            &&& row.event_count > 0
            &&& forall|k: int|
                0 <= k < events.len() && wanted(#[trigger] events[k]) ==> row.first_event <= word32(
                    events[k],
                    32,
                ) <= row.last_event
            &&& exists|k: int|
                0 <= k < events.len() && wanted(#[trigger] events[k]) && word32(events[k], 32)
                    == row.first_event
            &&& exists|k: int|
                0 <= k < events.len() && wanted(#[trigger] events[k]) && word32(events[k], 32)
                    == row.last_event
            &&& row.kind is None ==> row.kinds_count == kinds_within(
                events,
                row.pubkey@,
                row.days,
                as_of,
            ).len()
            &&& row.kind is Some ==> row.kinds_count == 1
        }),
{
    let row = rows[i];
    let who = row.pubkey@;
    let since = window_since(as_of, row.days as int);
    let wanted = within(who, row.kind, row.days, as_of);
    assert(counts_row(row, events, as_of));
    lemma_window_hits(events, who, row.kind, row.days, as_of);
    lemma_hits_forward(events, who, row.kind, since, as_of);
    let found = hits(events, who, row.kind, since, as_of);
    let filtered = events.filter(wanted);
    assert(found == filtered);
    assert forall|k: int| 0 <= k < events.len() && wanted(#[trigger] events[k]) implies row.first_event
        <= word32(events[k], 32) <= row.last_event by {
        assert(filtered.contains(events[k]));
        let x = choose|x: int| 0 <= x < filtered.len() && filtered[x] == events[k];
        assert(found[x] == events[k]);
        lemma_event(events[k]);
        assert(created_at(found[0]) <= created_at(found[x]));
        assert(created_at(found[x]) <= created_at(found[found.len() - 1]));
    }
    assert(events.contains(found[0]));
    let first = choose|k: int| 0 <= k < events.len() && events[k] == found[0];
    lemma_event(events[first]);
    assert(wanted(filtered[0]));
    assert(wanted(events[first]));
    assert(events.contains(found[found.len() - 1]));
    let last = choose|k: int| 0 <= k < events.len() && events[k] == found[found.len() - 1];
    lemma_event(events[last]);
    assert(wanted(filtered[filtered.len() - 1]));
    assert(wanted(events[last]));
    if row.kind is None {
        let kinds = kinds_hit(events, who, since, as_of);
        let said = kinds_within(events, who, row.days, as_of);
        assert forall|kind: u64| kinds.contains(kind) <==> said.contains(kind) by {
            if kinds.contains(kind) {
                let k = lemma_hits_witness(events, who, Some(kind as u16), since, as_of);
                lemma_event(events[k]);
                assert(within(who, None, row.days, as_of)(events[k]));
            }
            if said.contains(kind) {
                let k = choose|k: int|
                    0 <= k < events.len() && word16(#[trigger] events[k], 36) == kind && within(
                        who,
                        None,
                        row.days,
                        as_of,
                    )(events[k]);
                lemma_event(events[k]);
                lemma_hits_nonempty(events, who, Some(kind as u16), since, as_of, k);
            }
        }
        assert(kinds =~= said);
    }
}

/// Every event within a window stands in the ledger: there is a row of its
/// publisher for all kinds, and one for its kind.
pub proof fn lemma_event_has_its_rows(
    rows: Seq<PublisherRankingRow>,
    events: Seq<Seq<u8>>,
    windows: Seq<u32>,
    as_of: int,
    k: int,
    days: u32,
)
    requires
        lists_ledger(rows, events, windows, as_of),
        whole(events),
        windows.contains(days),
        0 <= k < events.len(),
        as_of - days * 86_400 <= word32(events[k], 32) <= as_of,
    ensures
        exists|i: int|
            0 <= i < rows.len() && (#[trigger] rows[i]).pubkey@ == events[k].subrange(0, 32)
                && rows[i].kind is None && rows[i].days == days,
        exists|i: int|
            0 <= i < rows.len() && (#[trigger] rows[i]).pubkey@ == events[k].subrange(0, 32)
                && rows[i].kind is Some && rows[i].kind->0 == word16(events[k], 36)
                && rows[i].days == days,
{
    lemma_event(events[k]);
    let who = publisher(events[k]);
    let kind = word16(events[k], 36) as u16;
    let since = window_since(as_of, days as int);
    lemma_hits_nonempty(events, who, None, since, as_of, k);
    lemma_hits_nonempty(events, who, Some(kind), since, as_of, k);
    assert(is_active(events, who, None, days, as_of));
    assert(is_active(events, who, Some(kind), days, as_of));
    assert(has_row(rows, who, None, days));
    assert(has_row(rows, who, Some(kind), days));
    let a = choose|i: int| 0 <= i < rows.len() && #[trigger] has_key(rows[i], who, None, days);
    let b = choose|i: int|
        0 <= i < rows.len() && #[trigger] has_key(rows[i], who, Some(kind), days);
    assert(rows[a].pubkey@ == who);
    assert(rows[b].pubkey@ == who);
}

/// A wider window counts no fewer events of a publisher and kind, all kinds
/// count no fewer than one, and an earlier first second goes with it.
pub proof fn lemma_wider_windows_count_more(
    rows: Seq<PublisherRankingRow>,
    events: Seq<Seq<u8>>,
    windows: Seq<u32>,
    as_of: int,
    i: int,
    j: int,
)
    requires
        lists_ledger(rows, events, windows, as_of),
        whole(events),
        grouped(events),
        0 <= i < rows.len(),
        0 <= j < rows.len(),
        rows[i].pubkey@ == rows[j].pubkey@,
        rows[i].kind == rows[j].kind || rows[j].kind is None,
        rows[i].days <= rows[j].days,
    ensures
        rows[i].event_count <= rows[j].event_count,
        rows[i].kinds_count <= rows[j].kinds_count,
        rows[j].first_event <= rows[i].first_event,
        rows[i].last_event <= rows[j].last_event,
{
    lemma_row_counts_its_days(rows, events, windows, as_of, i);
    lemma_row_counts_its_days(rows, events, windows, as_of, j);
    let a = within(rows[i].pubkey@, rows[i].kind, rows[i].days, as_of);
    let b = within(rows[j].pubkey@, rows[j].kind, rows[j].days, as_of);
    assert forall|event: Seq<u8>| #[trigger] a(event) implies b(event) by {
        assert(rows[i].days * 86_400 <= rows[j].days * 86_400) by (nonlinear_arith)
            requires
                rows[i].days <= rows[j].days,
        ;
    }
    lemma_filter_grows(events, a, b);
    let who = rows[i].pubkey@;
    let narrow = kinds_within(events, who, rows[i].days, as_of);
    let wide = kinds_within(events, who, rows[j].days, as_of);
    assert forall|kind: u64| wide.contains(kind) implies kind < 65_536 by {
        let k = choose|k: int|
            0 <= k < events.len() && word16(#[trigger] events[k], 36) == kind && within(
                who,
                None,
                rows[j].days,
                as_of,
            )(events[k]);
        lemma_event(events[k]);
    }
    lemma_small(wide, 65_536);
    if rows[i].kind is None {
        assert(narrow.subset_of(wide)) by {
            assert forall|kind: u64| narrow.contains(kind) implies wide.contains(kind) by {
                let k = choose|k: int|
                    0 <= k < events.len() && word16(#[trigger] events[k], 36) == kind && within(
                        who,
                        None,
                        rows[i].days,
                        as_of,
                    )(events[k]);
                assert(within(who, None, rows[j].days, as_of)(events[k])) by {
                    assert(rows[i].days * 86_400 <= rows[j].days * 86_400) by (nonlinear_arith)
                        requires
                            rows[i].days <= rows[j].days,
                    ;
                }
            }
        }
        vstd::set_lib::lemma_len_subset(narrow, wide);
    } else if rows[j].kind is None {
        let k = choose|k: int|
            0 <= k < events.len() && a(#[trigger] events[k]) && word32(events[k], 32)
                == rows[i].first_event;
        lemma_event(events[k]);
        assert(wide.contains(word16(events[k], 36) as u64));
        if wide.len() == 0 {
            assert(wide =~= Set::empty());
        }
    }
    let k = choose|k: int|
        0 <= k < events.len() && a(#[trigger] events[k]) && word32(events[k], 32)
            == rows[i].first_event;
    assert(b(events[k]));
    let l = choose|k: int|
        0 <= k < events.len() && a(#[trigger] events[k]) && word32(events[k], 32)
            == rows[i].last_event;
    assert(b(events[l]));
}

/// A weaker filter keeps no fewer.
pub proof fn lemma_filter_grows(
    events: Seq<Seq<u8>>,
    a: spec_fn(Seq<u8>) -> bool,
    b: spec_fn(Seq<u8>) -> bool,
)
    requires
        forall|event: Seq<u8>| #[trigger] a(event) ==> b(event),
    ensures
        events.filter(a).len() <= events.filter(b).len(),
    decreases events.len(),
{
    reveal(Seq::filter);
    if events.len() > 0 {
        lemma_filter_grows(events.drop_last(), a, b);
        assert(a(events.last()) ==> b(events.last()));
    }
}

/// A set of small numbers is finite.
proof fn lemma_small(set: Set<u64>, bound: nat)
    requires
        forall|x: u64| #[trigger] set.contains(x) ==> x < bound,
    ensures
        set.finite(),
    decreases bound,
{
    if bound == 0 {
        assert(set =~= Set::empty());
    } else {
        let last = (bound - 1) as u64;
        let rest = set.remove(last);
        lemma_small(rest, (bound - 1) as nat);
        if set.contains(last) {
            assert(set =~= rest.insert(last));
        } else {
            assert(set =~= rest);
        }
    }
}

/// A scanned batch counts the records of the artifact that it passed: those
/// from `from` up to `next`, cut at every 70 bytes.
pub proof fn lemma_batch_counts_its_records(
    activity: Seq<u8>,
    from: int,
    publishers: int,
    windows: Seq<u32>,
    as_of: int,
    rows: Seq<PublisherRankingRow>,
    next: int,
)
    requires
        0 <= from,
        activity_stream(activity),
        scans_batch(activity, from, publishers, windows, as_of, rows, next),
    ensures
        ({
            let events = cut(activity, 70).subrange(from, next);
            &&& from <= next <= cut(activity, 70).len()
            &&& lists_ledger(rows, events, windows, as_of)
            &&& whole(events)
            &&& grouped(events)
            &&& forall|i: int|
                0 <= i < rows.len() ==> (#[trigger] rows[i]).event_count == events.filter(
                    within(rows[i].pubkey@, rows[i].kind, rows[i].days, as_of),
                ).len()
        }),
{
    lemma_records_are_cut(activity, 70);
    lemma_stream_grouped(activity, from, next);
    let events = cut(activity, 70).subrange(from, next);
    assert forall|i: int| 0 <= i < events.len() implies events[i] == facts_between(
        activity,
        from,
        next,
    )[i] by {
        assert(cut(activity, 70)[from + i] == crate::records::record(activity, 70, from + i));
    }
    assert(events =~= facts_between(activity, from, next));
    assert forall|i: int| 0 <= i < rows.len() implies (#[trigger] rows[i]).event_count
        == events.filter(within(rows[i].pubkey@, rows[i].kind, rows[i].days, as_of)).len() by {
        lemma_row_counts_its_days(rows, events, windows, as_of, i);
    }
}

/// A completed ranking counts all records of the activity artifact.
pub proof fn lemma_ranking_counts_the_artifact(
    build: RankingBuild,
    ledger: Seq<PublisherRankingRow>,
    rows: Seq<PublisherRankingRow>,
    activity: Seq<u8>,
    path: Seq<char>,
    i: int,
)
    requires
        activity_stream(activity),
        ranks_activity(build, ledger, rows, activity, path),
        0 <= i < rows.len(),
    ensures
        build.evidence.windows_days@.contains(rows[i].days),
        rows[i].event_count == cut(activity, 70).filter(
            within(
                rows[i].pubkey@,
                rows[i].kind,
                rows[i].days,
                build.evidence.as_of_epoch as int,
            ),
        ).len(),
        rows[i].event_count > 0,
{
    lemma_records_are_cut(activity, 70);
    let total = record_count(activity, 70);
    lemma_stream_grouped(activity, 0, total);
    let events = cut(activity, 70);
    assert forall|k: int| 0 <= k < events.len() implies events[k] == facts_between(
        activity,
        0,
        total,
    )[k] by {
        assert(events[k] == crate::records::record(activity, 70, k));
    }
    assert(events =~= facts_between(activity, 0, total));
    assert(rows.contains(rows[i]));
    assert(ledger.contains(rows[i]));
    let k = choose|k: int| 0 <= k < ledger.len() && ledger[k] == rows[i];
    lemma_row_counts_its_days(
        ledger,
        events,
        build.evidence.windows_days@,
        build.evidence.as_of_epoch as int,
        k,
    );
}

/// A ranking lists shorter windows first, in a window all kinds before every
/// kind and smaller kinds before larger, and for a kind more events before
/// fewer, where equal counts go by the smaller publisher key.
pub proof fn lemma_more_events_rank_first(
    rows: Seq<PublisherRankingRow>,
    ledger: Seq<PublisherRankingRow>,
    limit: int,
    i: int,
    j: int,
)
    requires
        is_top(rows, ledger, limit),
        0 <= i < j < rows.len(),
    ensures
        rows[i].days <= rows[j].days,
        rows[i].days == rows[j].days ==> (rows[i].kind is None || (rows[j].kind is Some
            && rows[i].kind->0 <= rows[j].kind->0)),
        rows[i].days == rows[j].days && rows[i].kind == rows[j].kind ==> rows[i].event_count
            >= rows[j].event_count,
        rows[i].days == rows[j].days && rows[i].kind == rows[j].kind && rows[i].event_count
            == rows[j].event_count ==> lex_less(rows[i].pubkey@, rows[j].pubkey@),
{
    assert(ranking_before(rows[i], rows[j]));
}

/// A row that a ranking leaves out has at least `limit` rows of its window and
/// kind in the ledger before it, each with at least as many events; and every
/// row that the ranking holds is one of the ledger.
pub proof fn lemma_only_lower_ranks_are_left_out(
    rows: Seq<PublisherRankingRow>,
    ledger: Seq<PublisherRankingRow>,
    limit: int,
    row: PublisherRankingRow,
)
    requires
        is_top(rows, ledger, limit),
        0 < limit,
    ensures
        rows.contains(row) ==> ledger.contains(row),
        ledger.contains(row) && !rows.contains(row) ==> beaters(ledger, row).len() >= limit,
        forall|other: PublisherRankingRow| #[trigger]
            beaters(ledger, row).contains(other) ==> ledger.contains(other) && other.days
                == row.days && other.kind == row.kind && other.event_count >= row.event_count,
        ledger.contains(row) && (forall|other: PublisherRankingRow|
            ledger.contains(other) && #[trigger] same_group(other, row) ==> other.event_count
                < row.event_count || other == row) ==> rows.contains(row),
{
    if ledger.contains(row) && (forall|other: PublisherRankingRow|
        ledger.contains(other) && #[trigger] same_group(other, row) ==> other.event_count
            < row.event_count || other == row) {
        assert forall|other: PublisherRankingRow| !beaters(ledger, row).contains(other) by {
            lemma_ranking_order(other, row, row);
            lemma_ranking_order(row, row, row);
            if beaters(ledger, row).contains(other) {
                assert(same_group(other, row));
            }
        }
        assert(beaters(ledger, row) =~= Set::empty());
    }
}

} // verus!
