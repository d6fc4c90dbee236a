//! What the served tables say of the events.
//!
//! An event fact is 42 bytes: the event ID in the first 32, the second of its
//! creation in the next eight, and its kind in the last two. A content fact is
//! 40 bytes: the event ID, and the UTF-8 bytes of the content in the last eight.

use vstd::prelude::*;

use crate::activity::publisher;
use crate::activity_laws::{authors, whole};
use crate::bytes::{lemma_be_limits, lemma_be_nat_bound};
use crate::kind_publishers::has_event_kind;
use crate::publishers::publishers_where;
use crate::serving_compact::{
    content_of_kind, in_hour, is_served, of_kind, served_events, streams_join, sum_events,
    ServedEvent, TimestampBounds,
};
use crate::serving_facts::{kinds_table, lists_kind, serves_kind};
use crate::serving_records::{
    content_record, event_record, hourly_record, kind_key, ContentFact, EventFact,
    ServingHourlyRow, ServingKindRow,
};
use crate::serving_tables::{counts_hourly_row, hourly_rank, hourly_sum, hourly_table, kind_sum};
use crate::words::{
    cut, lemma_big_endian, lemma_records_are_cut, lemma_written_big_endian, word16, word32, word64,
};

verus! {

/// The event was created between the start of the network and the boundary, and
/// no later than the API can say.
pub open spec fn counts(event: ServedEvent, as_of: u64, bounds: TimestampBounds) -> bool {
    &&& bounds.genesis <= event.created_at
    &&& event.created_at <= as_of
    &&& event.created_at <= bounds.api_max
}

/// The event counts in the hour: the hour is over at the boundary, and the
/// event was created in it and has the kind, where one is given.
pub open spec fn counts_in_hour(
    as_of: u64,
    bounds: TimestampBounds,
    hour: u32,
    kind: Option<u16>,
) -> spec_fn(ServedEvent) -> bool {
    |event: ServedEvent|
        {
            &&& counts(event, as_of, bounds)
            &&& hour * 3_600 <= event.created_at
            &&& event.created_at < hour * 3_600 + 3_600
            &&& hour * 3_600 + 3_600 <= as_of
            &&& kind matches Some(own) ==> event.kind == own
        }
}

/// The event counts and has the kind.
pub open spec fn counts_as_kind(as_of: u64, bounds: TimestampBounds, kind: u16) -> spec_fn(
    ServedEvent,
) -> bool {
    |event: ServedEvent| counts(event, as_of, bounds) && event.kind == kind
}

/// A measure of ones counts a filter.
proof fn lemma_sum_counts(
    events: Seq<ServedEvent>,
    measure: spec_fn(ServedEvent) -> int,
    keep: spec_fn(ServedEvent) -> bool,
)
    requires
        forall|event: ServedEvent| #[trigger]
            measure(event) == if keep(event) {
                1int
            } else {
                0int
            },
    ensures
        sum_events(events, measure) == events.filter(keep).len(),
    decreases events.len(),
{
    reveal(Seq::filter);
    if events.len() > 0 {
        lemma_sum_counts(events.drop_last(), measure, keep);
        assert(measure(events.last()) == if keep(events.last()) {
            1int
        } else {
            0int
        });
    }
}

proof fn lemma_hour_counts(
    events: Seq<ServedEvent>,
    as_of: u64,
    bounds: TimestampBounds,
    hour: u32,
    kind: Option<u16>,
)
    ensures
        sum_events(events, in_hour(as_of, bounds, hour as int, kind_key(kind) as int))
            == events.filter(counts_in_hour(as_of, bounds, hour, kind)).len(),
{
    let measure = in_hour(as_of, bounds, hour as int, kind_key(kind) as int);
    let keep = counts_in_hour(as_of, bounds, hour, kind);
    assert forall|event: ServedEvent| #[trigger]
        measure(event) == if keep(event) {
            1int
        } else {
            0int
        } by {
        let floor = as_of - as_of % 3_600;
        assert(floor % 3_600 == 0);
    }
    lemma_sum_counts(events, measure, keep);
}

/// An hourly row counts the events of its hour, of its kind or of all kinds. It
/// is an hour that is over at the boundary.
pub proof fn lemma_hour_row_counts_its_hour(
    rows: Seq<ServingHourlyRow>,
    events: Seq<ServedEvent>,
    as_of: u64,
    bounds: TimestampBounds,
    i: int,
)
    requires
        hourly_table(rows, events, as_of, bounds),
        0 <= i < rows.len(),
    ensures
        rows[i].event_count == events.filter(
            counts_in_hour(as_of, bounds, rows[i].hour_epoch, rows[i].kind),
        ).len(),
        rows[i].event_count > 0,
        rows[i].hour_epoch * 3_600 + 3_600 <= as_of,
{
    let row = rows[i];
    assert(counts_hourly_row(row, events, as_of, bounds));
    lemma_hour_counts(events, as_of, bounds, row.hour_epoch, row.kind);
    let keep = counts_in_hour(as_of, bounds, row.hour_epoch, row.kind);
    let kept = events.filter(keep);
    assert(keep(kept[0]));
}

/// Every event of an hour that is over has a row for all kinds and a row for its
/// kind; rows go by hour, and in an hour all kinds come first.
pub proof fn lemma_event_has_its_hour_rows(
    rows: Seq<ServingHourlyRow>,
    events: Seq<ServedEvent>,
    as_of: u64,
    bounds: TimestampBounds,
    k: int,
    hour: u32,
    kind: Option<u16>,
)
    requires
        hourly_table(rows, events, as_of, bounds),
        events.len() <= u64::MAX,
        0 <= k < events.len(),
        counts_in_hour(as_of, bounds, hour, kind)(events[k]),
    ensures
        exists|i: int|
            0 <= i < rows.len() && (#[trigger] rows[i]).hour_epoch == hour && rows[i].kind == kind,
        forall|a: int, b: int|
            0 <= a < b < rows.len() ==> (#[trigger] rows[a]).hour_epoch < (
            #[trigger] rows[b]).hour_epoch || (rows[a].hour_epoch == rows[b].hour_epoch && (
            rows[b].kind is Some && (rows[a].kind is None || rows[a].kind->0 < rows[b].kind->0))),
{
    let keep = counts_in_hour(as_of, bounds, hour, kind);
    lemma_hour_counts(events, as_of, bounds, hour, kind);
    assert(events.filter(keep).contains(events[k]));
    let row = ServingHourlyRow {
        hour_epoch: hour,
        kind,
        event_count: events.filter(keep).len() as u64,
    };
    assert(counts_hourly_row(row, events, as_of, bounds));
    assert(rows.contains(row));
    let i = choose|i: int| 0 <= i < rows.len() && rows[i] == row;
    assert(rows[i].hour_epoch == hour && rows[i].kind == kind);
    assert forall|a: int, b: int| 0 <= a < b < rows.len() implies (#[trigger] rows[a]).hour_epoch
        < (#[trigger] rows[b]).hour_epoch || (rows[a].hour_epoch == rows[b].hour_epoch && (
    rows[b].kind is Some && (rows[a].kind is None || rows[a].kind->0 < rows[b].kind->0))) by {
        assert(hourly_rank(rows[a]) < hourly_rank(rows[b]));
    }
}

/// Content bytes of the events of a kind.
pub open spec fn bytes_of_kind(
    events: Seq<ServedEvent>,
    as_of: u64,
    bounds: TimestampBounds,
    kind: u16,
) -> int
    decreases events.len(),
{
    if events.len() == 0 {
        0
    } else {
        bytes_of_kind(events.drop_last(), as_of, bounds, kind) + if counts_as_kind(
            as_of,
            bounds,
            kind,
        )(events.last()) {
            events.last().content_bytes as int
        } else {
            0
        }
    }
}

proof fn lemma_bytes_of_kind(
    events: Seq<ServedEvent>,
    as_of: u64,
    bounds: TimestampBounds,
    kind: u16,
)
    ensures
        sum_events(events, content_of_kind(as_of, bounds, kind as int)) == bytes_of_kind(
            events,
            as_of,
            bounds,
            kind,
        ),
    decreases events.len(),
{
    if events.len() > 0 {
        lemma_bytes_of_kind(events.drop_last(), as_of, bounds, kind);
    }
}

/// A kind row counts the events of its kind up to the boundary, adds up their
/// content bytes, tells their first and last second, and counts the publishers
/// with an activity record of the kind.
pub proof fn lemma_kind_row_counts_its_kind(
    rows: Seq<ServingKindRow>,
    events: Seq<ServedEvent>,
    facts: Seq<Seq<u8>>,
    as_of: u64,
    bounds: TimestampBounds,
    i: int,
)
    requires
        kinds_table(rows, events, facts, as_of, bounds),
        whole(facts),
        0 <= i < rows.len(),
    ensures
        ({
            let row = rows[i];
            let keep = counts_as_kind(as_of, bounds, row.kind);
            &&& row.event_count == events.filter(keep).len()
            &&& row.event_count > 0
            &&& row.content_rows == row.event_count
            &&& row.content_bytes == bytes_of_kind(events, as_of, bounds, row.kind)
            &&& row.unique_pubkeys == authors(
                facts,
                |fact: Seq<u8>| word16(fact, 36) == row.kind,
            ).len()
            &&& forall|k: int|
                0 <= k < events.len() && keep(#[trigger] events[k]) ==> row.first_seen
                    <= events[k].created_at <= row.last_seen
            &&& exists|k: int|
                0 <= k < events.len() && keep(#[trigger] events[k]) && events[k].created_at
                    == row.first_seen
            &&& exists|k: int|
                0 <= k < events.len() && keep(#[trigger] events[k]) && events[k].created_at
                    == row.last_seen
        }),
{
    let row = rows[i];
    let keep = counts_as_kind(as_of, bounds, row.kind);
    assert(serves_kind(row, events, facts, as_of, bounds));
    lemma_sum_counts(events, of_kind(as_of, bounds, row.kind as int), keep);
    lemma_bytes_of_kind(events, as_of, bounds, row.kind);
    let said = |fact: Seq<u8>| word16(fact, 36) == row.kind;
    assert forall|who: Seq<u8>| publishers_where(
        facts,
        has_event_kind(row.kind as int),
    ).contains(who) <==> authors(facts, said).contains(who) by {
        if publishers_where(facts, has_event_kind(row.kind as int)).contains(who) {
            let k = choose|k: int|
                0 <= k < facts.len() && publisher(#[trigger] facts[k]) == who && has_event_kind(
                    row.kind as int,
                )(facts[k]);
            lemma_big_endian(facts[k], 36);
            assert(facts[k].subrange(0, 32) == who && said(facts[k]));
        }
        if authors(facts, said).contains(who) {
            let k = choose|k: int|
                0 <= k < facts.len() && (#[trigger] facts[k]).subrange(0, 32) == who && said(
                    facts[k],
                );
            lemma_big_endian(facts[k], 36);
            assert(publisher(facts[k]) == who && has_event_kind(row.kind as int)(facts[k]));
        }
    }
    assert(publishers_where(facts, has_event_kind(row.kind as int)) =~= authors(facts, said));
    let first = choose|k: int|
        0 <= k < events.len() && is_served(#[trigger] events[k], as_of, bounds) && events[k].kind
            == row.kind && events[k].created_at == row.first_seen;
    assert(keep(events[first]));
    let last = choose|k: int|
        0 <= k < events.len() && is_served(#[trigger] events[k], as_of, bounds) && events[k].kind
            == row.kind && events[k].created_at == row.last_seen;
    assert(keep(events[last]));
}

/// Every event up to the boundary has a row of its kind.
pub proof fn lemma_event_has_its_kind_row(
    rows: Seq<ServingKindRow>,
    events: Seq<ServedEvent>,
    facts: Seq<Seq<u8>>,
    as_of: u64,
    bounds: TimestampBounds,
    k: int,
)
    requires
        kinds_table(rows, events, facts, as_of, bounds),
        0 <= k < events.len(),
        counts(events[k], as_of, bounds),
    ensures
        exists|i: int| 0 <= i < rows.len() && (#[trigger] rows[i]).kind == events[k].kind,
        forall|a: int, b: int|
            0 <= a < b < rows.len() ==> (#[trigger] rows[a]).kind < (#[trigger] rows[b]).kind,
{
    let kind = events[k].kind;
    let keep = counts_as_kind(as_of, bounds, kind);
    lemma_sum_counts(events, of_kind(as_of, bounds, kind as int), keep);
    assert(keep(events[k]));
    assert(events.filter(keep).contains(events[k]));
    assert(sum_events(events, of_kind(as_of, bounds, kind as int)) > 0);
    assert(lists_kind(rows, kind));
}

/// Events are read from the two streams side by side.
pub proof fn lemma_streams_are_read_together(
    events: Seq<u8>,
    content: Seq<u8>,
    rows: int,
    i: int,
)
    requires
        streams_join(events, content, rows),
        0 <= i < rows,
    ensures
        rows == cut(events, 42).len(),
        rows == cut(content, 40).len(),
        cut(events, 42)[i].subrange(0, 32) == cut(content, 40)[i].subrange(0, 32),
        served_events(events, content, rows)[i].created_at == word64(cut(events, 42)[i], 32),
        served_events(events, content, rows)[i].kind == word16(cut(events, 42)[i], 40),
        served_events(events, content, rows)[i].content_bytes == word64(cut(content, 40)[i], 32),
{
    lemma_records_are_cut(events, 42);
    lemma_records_are_cut(content, 40);
    assert(crate::serving_compact::same_id(events, content, i));
    let e = cut(events, 42)[i];
    let c = cut(content, 40)[i];
    assert(e == crate::records::record(events, 42, i));
    assert(c == crate::records::record(content, 40, i));
    lemma_big_endian(e, 32);
    lemma_big_endian(e, 40);
    lemma_big_endian(c, 32);
    lemma_be_limits();
    lemma_be_nat_bound(e.subrange(32, 40));
    lemma_be_nat_bound(e.subrange(40, 42));
    lemma_be_nat_bound(c.subrange(32, 40));
}

/// A content fact is written as its ID and the bytes of its content, an event
/// fact as its ID, its second and its kind.
pub proof fn lemma_fact_layout(content: ContentFact, event: EventFact)
    ensures
        content_record(content).len() == 40,
        content_record(content).subrange(0, 32) == content.id@,
        word64(content_record(content), 32) == content.content_bytes,
        event_record(event).len() == 42,
        event_record(event).subrange(0, 32) == event.id@,
        word64(event_record(event), 32) == event.created_at,
        word16(event_record(event), 40) == event.kind,
{
    lemma_written_big_endian(content.content_bytes as nat);
    lemma_written_big_endian(event.created_at as nat);
    lemma_written_big_endian(event.kind as nat);
    assert(content_record(content).subrange(0, 32) =~= content.id@);
    assert(event_record(event).subrange(0, 32) =~= event.id@);
}

/// An hourly row is written as its hour, its kind key and its count; the key is
/// zero for all kinds and one more than the kind else.
pub proof fn lemma_hourly_layout(row: ServingHourlyRow)
    ensures
        hourly_record(row).len() == 16,
        word32(hourly_record(row), 0) == row.hour_epoch,
        row.kind is None ==> word32(hourly_record(row), 4) == 0,
        row.kind is Some ==> word32(hourly_record(row), 4) == row.kind->0 + 1,
        word64(hourly_record(row), 8) == row.event_count,
{
    lemma_written_big_endian(row.hour_epoch as nat);
    lemma_written_big_endian(kind_key(row.kind));
    lemma_written_big_endian(row.event_count as nat);
    let a = crate::bytes::be_bytes(row.hour_epoch as nat, 4);
    let b = crate::bytes::be_bytes(kind_key(row.kind), 4);
    let c = crate::bytes::be_bytes(row.event_count as nat, 8);
    let all = hourly_record(row);
    assert(forall|k: int| 0 <= k < 4 ==> #[trigger] all[4 + k] == b[k]);
    assert(forall|k: int| 0 <= k < 8 ==> #[trigger] all[8 + k] == c[k]);
    assert(all[4] == b[0] && all[5] == b[1] && all[6] == b[2] && all[7] == b[3]);
    assert(all[8] == c[0] && all[9] == c[1] && all[10] == c[2] && all[11] == c[3]);
    assert(all[12] == c[4] && all[13] == c[5] && all[14] == c[6] && all[15] == c[7]);
}

/// The events of rows for all kinds are added up, or those of rows for a kind;
/// of kind rows either the events or the content bytes.
pub proof fn lemma_sums_add_rows(
    hours: Seq<ServingHourlyRow>,
    hour: ServingHourlyRow,
    kinds: Seq<ServingKindRow>,
    kind: ServingKindRow,
)
    ensures
        hourly_sum(Seq::empty(), true) == 0,
        hourly_sum(Seq::empty(), false) == 0,
        hourly_sum(hours.push(hour), true) == hourly_sum(hours, true) + if hour.kind is None {
            hour.event_count as int
        } else {
            0
        },
        hourly_sum(hours.push(hour), false) == hourly_sum(hours, false) + if hour.kind is Some {
            hour.event_count as int
        } else {
            0
        },
        kind_sum(Seq::empty(), true) == 0,
        kind_sum(Seq::empty(), false) == 0,
        kind_sum(kinds.push(kind), true) == kind_sum(kinds, true) + kind.content_bytes,
        kind_sum(kinds.push(kind), false) == kind_sum(kinds, false) + kind.event_count,
{
    assert(hours.push(hour).drop_last() =~= hours);
    assert(kinds.push(kind).drop_last() =~= kinds);
}

} // verus!
