//! Compact hourly and kind counts derived from event and content facts.

use std::collections::BTreeMap;
use vstd::prelude::*;

use crate::bytes::{be_nat, bytes_equal};
use crate::calendar::floor_hour;
use crate::error::{checked_add, Error, Result};
use crate::ordered::{list, lists_map, store, value_or};
use crate::period_counter::counted;
use crate::records::{record, record_count, sorted_stream};
use crate::rollups::one_if;
use crate::serving_records::{ContentFact, ContentFactReader, EventFact, EventFactReader};

verus! {

/// Earliest and latest timestamp that the API represents.
#[derive(Clone, Copy, Debug, PartialEq, Eq, Structural)]
pub struct TimestampBounds {
    /// Start of the network.
    pub genesis: u32,
    /// Latest timestamp of the API.
    pub api_max: u64,
}

/// What one event contributes.
#[derive(Clone, Copy, Debug, PartialEq, Eq, Structural)]
pub struct ServedEvent {
    /// Event timestamp.
    pub created_at: u64,
    /// Event kind.
    pub kind: u16,
    /// UTF-8 content bytes.
    pub content_bytes: u64,
}

/// Event number `index` of the two streams.
pub open spec fn served_event(events: Seq<u8>, content: Seq<u8>, index: int) -> ServedEvent {
    ServedEvent {
        created_at: be_nat(record(events, 42, index).subrange(32, 40)) as u64,
        kind: be_nat(record(events, 42, index).subrange(40, 42)) as u16,
        content_bytes: be_nat(record(content, 40, index).subrange(32, 40)) as u64,
    }
}

/// The first `count` events of the two streams.
pub open spec fn served_events(events: Seq<u8>, content: Seq<u8>, count: int) -> Seq<ServedEvent> {
    Seq::new(count as nat, |i: int| served_event(events, content, i))
}

/// The IDs of both streams agree at `index`.
pub open spec fn same_id(events: Seq<u8>, content: Seq<u8>, index: int) -> bool {
    record(events, 42, index).subrange(0, 32) == record(content, 40, index).subrange(0, 32)
}

/// Both streams are whole, the content is sorted, and they hold the same
/// `rows` events in the same order.
pub open spec fn streams_join(events: Seq<u8>, content: Seq<u8>, rows: int) -> bool {
    &&& events.len() % 42 == 0
    &&& sorted_stream(content, 40, 32)
    &&& record_count(events, 42) == rows
    &&& record_count(content, 40) == rows
    &&& forall|i: int| 0 <= i < rows ==> #[trigger] same_id(events, content, i)
}

/// The event lies between the bounds and is not later than `as_of`.
pub open spec fn is_served(event: ServedEvent, as_of: u64, bounds: TimestampBounds) -> bool {
    &&& bounds.genesis <= event.created_at
    &&& event.created_at <= as_of
    &&& event.created_at <= bounds.api_max
}

/// Sum of a measure over events.
pub open spec fn sum_events(
    events: Seq<ServedEvent>,
    measure: spec_fn(ServedEvent) -> int,
) -> int
    decreases events.len(),
{
    if events.len() == 0 {
        0
    } else {
        sum_events(events.drop_last(), measure) + measure(events.last())
    }
}

/// One more event adds its measure.
proof fn lemma_events_push(
    events: Seq<ServedEvent>,
    event: ServedEvent,
    measure: spec_fn(ServedEvent) -> int,
)
    ensures
        sum_events(events.push(event), measure) == sum_events(events, measure) + measure(event),
{
    assert(events.push(event).drop_last() =~= events);
}

/// A measure of at most one sums to at most the number of events.
proof fn lemma_events_count(events: Seq<ServedEvent>, measure: spec_fn(ServedEvent) -> int)
    requires
        forall|e: ServedEvent| 0 <= #[trigger] measure(e) <= 1,
    ensures
        0 <= sum_events(events, measure) <= events.len(),
    decreases events.len(),
{
    if events.len() > 0 {
        lemma_events_count(events.drop_last(), measure);
        assert(measure(events.last()) <= 1);
    }
}

/// A measure that is never negative only grows.
proof fn lemma_events_grow(
    events: Seq<ServedEvent>,
    count: int,
    measure: spec_fn(ServedEvent) -> int,
)
    requires
        0 <= count <= events.len(),
        forall|e: ServedEvent| 0 <= #[trigger] measure(e),
    ensures
        sum_events(events.take(count), measure) <= sum_events(events, measure),
    decreases events.len() - count,
{
    if count < events.len() {
        lemma_events_grow(events, count + 1, measure);
        assert(events.take(count + 1) =~= events.take(count).push(events[count]));
        lemma_events_push(events.take(count), events[count], measure);
        assert(0 <= measure(events[count]));
    } else {
        assert(events.take(count) =~= events);
    }
}

/// One for a served event of a complete hour, of one kind or (key zero) of all.
pub open spec fn in_hour(
    as_of: u64,
    bounds: TimestampBounds,
    hour: int,
    key: int,
) -> spec_fn(ServedEvent) -> int {
    |e: ServedEvent|
        one_if(
            is_served(e, as_of, bounds) && e.created_at < as_of - as_of % 3_600 && e.created_at
                as int / 3_600 == hour && (key == 0 || e.kind + 1 == key),
        )
}

/// One for a served event of the kind.
pub open spec fn of_kind(as_of: u64, bounds: TimestampBounds, kind: int) -> spec_fn(
    ServedEvent,
) -> int {
    |e: ServedEvent| one_if(is_served(e, as_of, bounds) && e.kind == kind)
}

/// The content bytes of a served event of the kind.
pub open spec fn content_of_kind(as_of: u64, bounds: TimestampBounds, kind: int) -> spec_fn(
    ServedEvent,
) -> int {
    |e: ServedEvent|
        if is_served(e, as_of, bounds) && e.kind == kind {
            e.content_bytes as int
        } else {
            0
        }
}

/// Counters of one kind.
#[derive(Clone, Copy, Debug, PartialEq, Eq, Structural)]
pub struct KindAccumulator {
    /// Served events.
    pub event_count: u64,
    /// Earliest timestamp.
    pub first_seen: u32,
    /// Latest timestamp.
    pub last_seen: u32,
    /// Sum of content bytes.
    pub content_bytes: u64,
    /// Events in the content sum.
    pub content_rows: u64,
}

/// The counters hold the summary of a kind.
pub open spec fn summarizes_kind(
    row: KindAccumulator,
    events: Seq<ServedEvent>,
    as_of: u64,
    bounds: TimestampBounds,
    kind: int,
) -> bool {
    &&& row.event_count == sum_events(events, of_kind(as_of, bounds, kind))
    &&& row.content_rows == row.event_count
    &&& row.content_bytes == sum_events(events, content_of_kind(as_of, bounds, kind))
    &&& row.event_count == 0 ==> row.first_seen == 0 && row.last_seen == 0
    &&& row.event_count > 0 ==> {
        &&& is_range(events, as_of, bounds, kind, row.first_seen as int, row.last_seen as int)
    }
}

/// `first` and `last` are the earliest and latest timestamps of the kind.
pub open spec fn is_range(
    events: Seq<ServedEvent>,
    as_of: u64,
    bounds: TimestampBounds,
    kind: int,
    first: int,
    last: int,
) -> bool {
    &&& forall|i: int|
        0 <= i < events.len() && is_served(#[trigger] events[i], as_of, bounds) && events[i].kind
            == kind ==> first <= events[i].created_at <= last
    &&& exists|i: int|
        0 <= i < events.len() && is_served(#[trigger] events[i], as_of, bounds) && events[i].kind
            == kind && events[i].created_at == first
    &&& exists|i: int|
        0 <= i < events.len() && is_served(#[trigger] events[i], as_of, bounds) && events[i].kind
            == kind && events[i].created_at == last
}

/// The counters hold every hour and kind key, and there is none at zero.
pub open spec fn counts_hours(
    map: Map<u64, u64>,
    events: Seq<ServedEvent>,
    as_of: u64,
    bounds: TimestampBounds,
) -> bool {
    &&& forall|hour: u32, key: u32|
        counted(map, #[trigger] hour_key(hour as int, key as int)) == sum_events(
            events,
            in_hour(as_of, bounds, hour as int, key as int),
        )
    &&& forall|key: u64| #[trigger] map.contains_key(key) ==> map[key] > 0
}

/// Key of an hour and a kind key; keys sort as (hour, kind key).
pub open spec fn hour_key(hour: int, key: int) -> int {
    hour * 0x1_0000_0000 + key
}

/// Every served event has a `u32` timestamp, and the content of every kind fits
/// its counter.
pub open spec fn events_fit(
    events: Seq<ServedEvent>,
    as_of: u64,
    bounds: TimestampBounds,
) -> bool {
    &&& forall|i: int|
        0 <= i < events.len() && is_served(#[trigger] events[i], as_of, bounds)
            ==> events[i].created_at <= u32::MAX
    &&& forall|kind: u16|
        #[trigger] sum_events(events, content_of_kind(as_of, bounds, kind as int)) <= u64::MAX
}

/// Compact counts of one event stream.
pub struct DerivedCompact {
    /// Counters by hour and kind key.
    pub hourly: BTreeMap<u64, u64>,
    /// Counters of every kind.
    pub kinds: Vec<KindAccumulator>,
    /// Events read.
    pub rows: u64,
}

impl DerivedCompact {
    /// Counters by hour and kind key.
    pub open spec fn hours(&self) -> Map<u64, u64> {
        self.hourly@
    }

    /// The counts are those of the events.
    pub open spec fn derives(
        &self,
        events: Seq<ServedEvent>,
        as_of: u64,
        bounds: TimestampBounds,
    ) -> bool {
        &&& counts_hours(self.hours(), events, as_of, bounds)
        &&& self.kinds@.len() == 65_536
        &&& forall|kind: int|
            0 <= kind < 65_536 ==> summarizes_kind(
                #[trigger] self.kinds@[kind],
                events,
                as_of,
                bounds,
                kind,
            )
    }

    /// The hourly counters by increasing hour and kind key.
    pub fn hourly_rows(&self) -> (rows: Vec<(u64, u64)>)
        ensures
            lists_map(rows@, self.hours()),
    {
        list(&self.hourly)
    }

    /// Number of hourly counters.
    pub fn hourly_len(&self) -> (count: usize)
        ensures
            count == self.hours().dom().len(),
    {
        crate::ordered::key_count(&self.hourly)
    }

    /// Count of an hour and kind key.
    pub fn hour_count(&self, hour: u32, key: u32) -> (count: u64)
        ensures
            count == counted(self.hours(), hour_key(hour as int, key as int)),
    {
        value_or(&self.hourly, hour as u64 * 0x1_0000_0000 + key as u64, 0)
    }
}

/// Raise one hourly counter.
fn count_hour(
    map: &mut BTreeMap<u64, u64>,
    hour: u32,
    key: u32,
    Ghost(total): Ghost<int>,
)
    requires
        counted(old(map)@, hour_key(hour as int, key as int)) == total,
        total < u64::MAX,
    ensures
        final(map)@ == old(map)@.insert(
            hour_key(hour as int, key as int) as u64,
            (total + 1) as u64,
        ),
{
    let place: u64 = hour as u64 * 0x1_0000_0000 + key as u64;
    let count: u64 = value_or(map, place, 0);
    store(map, place, count + 1);
}

/// One more event keeps the hourly counters exact.
proof fn lemma_hours_step(
    before: Map<u64, u64>,
    after: Map<u64, u64>,
    events: Seq<ServedEvent>,
    event: ServedEvent,
    as_of: u64,
    bounds: TimestampBounds,
)
    requires
        counts_hours(before, events, as_of, bounds),
        events.len() < u64::MAX,
        is_served(event, as_of, bounds) ==> event.created_at <= u32::MAX,
        if is_served(event, as_of, bounds) && event.created_at < as_of - as_of % 3_600 {
            let hour = event.created_at as int / 3_600;
            let all = hour_key(hour, 0);
            let one = hour_key(hour, event.kind + 1);
            after == before.insert(all as u64, (counted(before, all) + 1) as u64).insert(
                one as u64,
                (counted(before, one) + 1) as u64,
            )
        } else {
            after == before
        },
    ensures
        counts_hours(after, events.push(event), as_of, bounds),
{
    let more = events.push(event);
    let counts = is_served(event, as_of, bounds) && event.created_at < as_of - as_of % 3_600;
    let own = event.created_at as int / 3_600;
    assert forall|hour: u32, key: u32|
        counted(after, #[trigger] hour_key(hour as int, key as int)) == sum_events(
            more,
            in_hour(as_of, bounds, hour as int, key as int),
        ) by {
        let measure = in_hour(as_of, bounds, hour as int, key as int);
        lemma_events_push(events, event, measure);
        lemma_events_count(events, measure);
        let place = hour_key(hour as int, key as int);
        assert(counted(before, place) == sum_events(events, measure));
        if counts {
            let all = hour_key(own, 0);
            let one = hour_key(own, event.kind + 1);
            let own32 = own as u32;
            let key32 = (event.kind + 1) as u32;
            assert(hour_key(own32 as int, 0u32 as int) == all);
            assert(hour_key(own32 as int, key32 as int) == one);
            lemma_events_count(events, in_hour(as_of, bounds, own, 0));
            lemma_events_count(events, in_hour(as_of, bounds, own, event.kind + 1));
            assert(0 <= all <= u64::MAX && 0 <= one <= u64::MAX && 0 <= place <= u64::MAX);
            if hour == own && key == 0 {
                assert(place == all);
            } else if hour == own && key == event.kind + 1 {
                assert(place == one);
            } else {
                assert(place != all && place != one);
            }
        }
    }
    assert forall|key: u64| #[trigger] after.contains_key(key) implies after[key] > 0 by {
        if counts {
            let all = hour_key(own, 0);
            let one = hour_key(own, event.kind + 1);
            let own32 = own as u32;
            let key32 = (event.kind + 1) as u32;
            assert(hour_key(own32 as int, 0u32 as int) == all);
            assert(hour_key(own32 as int, key32 as int) == one);
            lemma_events_count(events, in_hour(as_of, bounds, own, 0));
            lemma_events_count(events, in_hour(as_of, bounds, own, event.kind + 1));
            if key != all as u64 && key != one as u64 {
                assert(before.contains_key(key));
            }
        }
    }
}

/// Counters of a kind after one more of its events.
fn add_to_kind(row: KindAccumulator, created_at: u32, content_bytes: u64) -> (next: Result<
    KindAccumulator,
>)
    requires
        row.event_count < u64::MAX,
        row.content_rows == row.event_count,
    ensures
        match next {
            Ok(after) => {
                &&& after.event_count == row.event_count + 1
                &&& after.content_rows == after.event_count
                &&& after.content_bytes == row.content_bytes + content_bytes
                &&& after.first_seen == if row.event_count == 0 || created_at < row.first_seen {
                    created_at
                } else {
                    row.first_seen
                }
                &&& after.last_seen == if row.event_count == 0 || created_at > row.last_seen {
                    created_at
                } else {
                    row.last_seen
                }
            },
            Err(error) => row.content_bytes + content_bytes > u64::MAX && error == Error::Invalid(
                "kind content bytes overflowed",
            ),
        },
{
    match checked_add(row.content_bytes, content_bytes, "kind content bytes overflowed") {
        Err(error) => Err(error),
        Ok(total) => {
            let first: u32 = if row.event_count == 0 || created_at < row.first_seen {
                created_at
            } else {
                row.first_seen
            };
            let last: u32 = if row.event_count == 0 || created_at > row.last_seen {
                created_at
            } else {
                row.last_seen
            };
            Ok(
                KindAccumulator {
                    event_count: row.event_count + 1,
                    first_seen: first,
                    last_seen: last,
                    content_bytes: total,
                    content_rows: row.content_rows + 1,
                },
            )
        },
    }
}

/// A kind with no served event so far has none in the list.
proof fn lemma_no_events(
    events: Seq<ServedEvent>,
    as_of: u64,
    bounds: TimestampBounds,
    kind: int,
)
    requires
        sum_events(events, of_kind(as_of, bounds, kind)) == 0,
    ensures
        forall|i: int|
            0 <= i < events.len() ==> !(is_served(#[trigger] events[i], as_of, bounds)
                && events[i].kind == kind),
    decreases events.len(),
{
    if events.len() > 0 {
        lemma_events_count(events.drop_last(), of_kind(as_of, bounds, kind));
        lemma_no_events(events.drop_last(), as_of, bounds, kind);
        assert forall|i: int| 0 <= i < events.len() implies !(is_served(
            #[trigger] events[i],
            as_of,
            bounds,
        ) && events[i].kind == kind) by {
            if i < events.len() - 1 {
                assert(events.drop_last()[i] == events[i]);
            } else {
                assert(of_kind(as_of, bounds, kind)(events.last()) == 0);
            }
        }
    }
}

/// The counters of the event's own kind after it.
proof fn lemma_own_kind(
    row: KindAccumulator,
    next: KindAccumulator,
    events: Seq<ServedEvent>,
    event: ServedEvent,
    as_of: u64,
    bounds: TimestampBounds,
)
    requires
        summarizes_kind(row, events, as_of, bounds, event.kind as int),
        is_served(event, as_of, bounds),
        event.created_at <= u32::MAX,
        next.event_count == row.event_count + 1,
        next.content_rows == next.event_count,
        next.content_bytes == row.content_bytes + event.content_bytes,
        next.first_seen == if row.event_count == 0 || event.created_at < row.first_seen {
            event.created_at as u32
        } else {
            row.first_seen
        },
        next.last_seen == if row.event_count == 0 || event.created_at > row.last_seen {
            event.created_at as u32
        } else {
            row.last_seen
        },
    ensures
        summarizes_kind(next, events.push(event), as_of, bounds, event.kind as int),
{
    let kind = event.kind as int;
    let more = events.push(event);
    let n = events.len() as int;
    lemma_events_push(events, event, of_kind(as_of, bounds, kind));
    lemma_events_push(events, event, content_of_kind(as_of, bounds, kind));
    assert(more[n] == event);
    if row.event_count == 0 {
        lemma_no_events(events, as_of, bounds, kind);
        assert forall|i: int|
            0 <= i < more.len() && is_served(#[trigger] more[i], as_of, bounds) && more[i].kind
                == kind implies next.first_seen <= more[i].created_at <= next.last_seen by {
            if i < n {
                assert(more[i] == events[i]);
            }
        }
    } else {
        let a = choose|i: int|
            0 <= i < events.len() && is_served(#[trigger] events[i], as_of, bounds)
                && events[i].kind == kind && events[i].created_at == row.first_seen;
        let b = choose|i: int|
            0 <= i < events.len() && is_served(#[trigger] events[i], as_of, bounds)
                && events[i].kind == kind && events[i].created_at == row.last_seen;
        assert(more[a] == events[a]);
        assert(more[b] == events[b]);
        assert forall|i: int|
            0 <= i < more.len() && is_served(#[trigger] more[i], as_of, bounds) && more[i].kind
                == kind implies next.first_seen <= more[i].created_at <= next.last_seen by {
            if i < n {
                assert(more[i] == events[i]);
            }
        }
    }
}

/// The counters of another kind, or after an event that is not served.
proof fn lemma_other_kind(
    row: KindAccumulator,
    events: Seq<ServedEvent>,
    event: ServedEvent,
    as_of: u64,
    bounds: TimestampBounds,
    kind: int,
)
    requires
        summarizes_kind(row, events, as_of, bounds, kind),
        !is_served(event, as_of, bounds) || event.kind != kind,
    ensures
        summarizes_kind(row, events.push(event), as_of, bounds, kind),
{
    let more = events.push(event);
    let n = events.len() as int;
    lemma_events_push(events, event, of_kind(as_of, bounds, kind));
    lemma_events_push(events, event, content_of_kind(as_of, bounds, kind));
    if row.event_count > 0 {
        let a = choose|i: int|
            0 <= i < events.len() && is_served(#[trigger] events[i], as_of, bounds)
                && events[i].kind == kind && events[i].created_at == row.first_seen;
        let b = choose|i: int|
            0 <= i < events.len() && is_served(#[trigger] events[i], as_of, bounds)
                && events[i].kind == kind && events[i].created_at == row.last_seen;
        assert(more[a] == events[a]);
        assert(more[b] == events[b]);
        assert forall|i: int|
            0 <= i < more.len() && is_served(#[trigger] more[i], as_of, bounds) && more[i].kind
                == kind implies row.first_seen <= more[i].created_at <= row.last_seen by {
            if i < n {
                assert(more[i] == events[i]);
            }
        }
    }
}

/// A kind key with an event in the hour is all kinds or a kind.
pub proof fn lemma_hour_event(
    events: Seq<ServedEvent>,
    as_of: u64,
    bounds: TimestampBounds,
    hour: int,
    key: int,
)
    ensures
        sum_events(events, in_hour(as_of, bounds, hour, key)) > 0 ==> 0 <= key <= 65_536,
    decreases events.len(),
{
    if events.len() > 0 {
        lemma_hour_event(events.drop_last(), as_of, bounds, hour, key);
        lemma_events_count(events.drop_last(), in_hour(as_of, bounds, hour, key));
    }
}

/// No events of any kind.
fn empty_kinds() -> (kinds: Vec<KindAccumulator>)
    ensures
        kinds@.len() == 65_536,
        forall|i: int|
            0 <= i < 65_536 ==> #[trigger] kinds@[i] == (KindAccumulator {
                event_count: 0,
                first_seen: 0,
                last_seen: 0,
                content_bytes: 0,
                content_rows: 0,
            }),
{
    let mut kinds: Vec<KindAccumulator> = Vec::new();
    while kinds.len() < 65_536
        invariant
            kinds@.len() <= 65_536,
            forall|i: int|
                0 <= i < kinds@.len() ==> #[trigger] kinds@[i] == (KindAccumulator {
                    event_count: 0,
                    first_seen: 0,
                    last_seen: 0,
                    content_bytes: 0,
                    content_rows: 0,
                }),
        decreases 65_536 - kinds@.len(),
    {
        kinds.push(
            KindAccumulator {
                event_count: 0,
                first_seen: 0,
                last_seen: 0,
                content_bytes: 0,
                content_rows: 0,
            },
        );
    }
    kinds
}

impl DerivedCompact {
    /// Nothing read yet.
    fn start(as_of: u64, bounds: TimestampBounds) -> (derived: Self)
        ensures
            derived.derives(Seq::empty(), as_of, bounds),
            derived.rows == 0,
    {
        let derived = DerivedCompact { hourly: BTreeMap::new(), kinds: empty_kinds(), rows: 0 };
        proof {
            let none = Seq::<ServedEvent>::empty();
            assert forall|kind: int| 0 <= kind < 65_536 implies summarizes_kind(
                #[trigger] derived.kinds@[kind],
                none,
                as_of,
                bounds,
                kind,
            ) by {}
        }
        derived
    }

    /// Count one more event.
    fn add_event(
        &mut self,
        event: ServedEvent,
        as_of: u64,
        bounds: TimestampBounds,
        Ghost(events): Ghost<Seq<ServedEvent>>,
    ) -> (outcome: Result<()>)
        requires
            old(self).derives(events, as_of, bounds),
            events.len() < u64::MAX,
        ensures
            outcome is Ok ==> final(self).derives(events.push(event), as_of, bounds),
            outcome is Err ==> !events_fit(events.push(event), as_of, bounds),
            outcome is Err ==> outcome->Err_0 is Invalid,
            final(self).rows == old(self).rows,
    {
        let ghost more = events.push(event);
        let ghost before = *self;
        if event.created_at < bounds.genesis as u64 || event.created_at > as_of || event.created_at
            > bounds.api_max {
            proof {
                lemma_hours_step(before.hours(), self.hours(), events, event, as_of, bounds);
                assert forall|kind: int| 0 <= kind < 65_536 implies summarizes_kind(
                    #[trigger] self.kinds@[kind],
                    more,
                    as_of,
                    bounds,
                    kind,
                ) by {
                    lemma_other_kind(before.kinds@[kind], events, event, as_of, bounds, kind);
                }
            }
            return Ok(());
        }
        assert(is_served(event, as_of, bounds));
        assert(more[events.len() as int] == event);
        if event.created_at > u32::MAX as u64 {
            return Err(Error::Invalid("eligible timestamp exceeds u32"));
        }
        let created_at: u32 = event.created_at as u32;
        let place: usize = event.kind as usize;
        let row: KindAccumulator = self.kinds[place];
        proof {
            assert(summarizes_kind(before.kinds@[place as int], events, as_of, bounds, place as int));
            lemma_events_count(events, of_kind(as_of, bounds, place as int));
            lemma_events_push(events, event, content_of_kind(as_of, bounds, place as int));
        }
        let next: KindAccumulator = match add_to_kind(row, created_at, event.content_bytes) {
            Ok(next) => next,
            Err(error) => {
                assert(sum_events(more, content_of_kind(as_of, bounds, event.kind as int))
                    > u64::MAX);
                return Err(error);
            },
        };
        self.kinds.set(place, next);
        let complete_through: u64 = floor_hour(as_of);
        if event.created_at < complete_through {
            let hour: u32 = (event.created_at / 3_600) as u32;
            let key: u32 = event.kind as u32 + 1;
            proof {
                lemma_events_count(events, in_hour(as_of, bounds, hour as int, 0));
                lemma_events_count(events, in_hour(as_of, bounds, hour as int, key as int));
                assert(counted(before.hours(), hour_key(hour as int, 0u32 as int)) == sum_events(
                    events,
                    in_hour(as_of, bounds, hour as int, 0u32 as int),
                ));
                assert(counted(before.hours(), hour_key(hour as int, key as int)) == sum_events(
                    events,
                    in_hour(as_of, bounds, hour as int, key as int),
                ));
                assert(hour_key(hour as int, 0) != hour_key(hour as int, key as int));
            }
            count_hour(
                &mut self.hourly,
                hour,
                0,
                Ghost(counted(before.hours(), hour_key(hour as int, 0))),
            );
            count_hour(
                &mut self.hourly,
                hour,
                key,
                Ghost(counted(before.hours(), hour_key(hour as int, key as int))),
            );
        }
        proof {
            lemma_hours_step(before.hours(), self.hours(), events, event, as_of, bounds);
            assert forall|kind: int| 0 <= kind < 65_536 implies summarizes_kind(
                #[trigger] self.kinds@[kind],
                more,
                as_of,
                bounds,
                kind,
            ) by {
                if kind == place {
                    lemma_own_kind(row, next, events, event, as_of, bounds);
                } else {
                    lemma_other_kind(before.kinds@[kind], events, event, as_of, bounds, kind);
                }
            }
        }
        Ok(())
    }
}

/// Join the event and content streams and derive the compact counts.
///
/// Every event is read; events outside the bounds, and those of the hour that
/// is not complete at `as_of_epoch`, are left out of the counts that they do
/// not belong to.
pub fn derive_compact_rows(
    events: &[u8],
    expected_rows: u64,
    content: &[u8],
    as_of_epoch: u64,
    bounds: TimestampBounds,
) -> (outcome: Result<DerivedCompact>)
    ensures
        ({
            let served = served_events(events@, content@, expected_rows as int);
            &&& outcome is Ok <==> streams_join(events@, content@, expected_rows as int)
                && events_fit(served, as_of_epoch, bounds)
            &&& match outcome {
                Ok(derived) => derived.derives(served, as_of_epoch, bounds) && derived.rows
                    == expected_rows,
                Err(error) => error is Invalid,
            }
        }),
{
    let mut event_reader: EventFactReader = EventFactReader::open(events);
    let mut content_reader: ContentFactReader = ContentFactReader::open(content);
    let mut derived: DerivedCompact = DerivedCompact::start(as_of_epoch, bounds);
    let ghost total = record_count(events@, 42);
    let ghost wanted = expected_rows as int;
    let ghost mut served = Seq::<ServedEvent>::empty();
    loop
        invariant
            total == record_count(events@, 42),
            wanted == expected_rows,
            event_reader.wf(),
            event_reader.source() == events@,
            content_reader.wf(),
            content_reader.source() == content@,
            0 <= event_reader.position() <= total,
            event_reader.position() == content_reader.position(),
            content_reader.position() <= record_count(content@, 40),
            derived.rows == event_reader.position(),
            served == served_events(events@, content@, event_reader.position()),
            derived.derives(served, as_of_epoch, bounds),
            forall|i: int|
                0 <= i < event_reader.position() ==> #[trigger] same_id(events@, content@, i),
        ensures
            event_reader.position() == total,
            content_reader.position() == record_count(content@, 40),
            events@.len() % 42 == 0,
            sorted_stream(content@, 40, 32),
        decreases total - event_reader.position(),
    {
        let ghost index = event_reader.position();
        proof {
            event_reader.lemma_position();
            content_reader.lemma_position();
        }
        let event: Option<EventFact> = match event_reader.read_next() {
            Ok(event) => event,
            Err(error) => {
                return Err(error);
            },
        };
        let body: Option<ContentFact> = match content_reader.next() {
            Ok(body) => body,
            Err(error) => {
                return Err(error);
            },
        };
        match (event, body) {
            (None, None) => {
                break ;
            },
            (Some(event), Some(body)) => {
                if !bytes_equal(event.id.as_slice(), body.id.as_slice()) {
                    assert(!same_id(events@, content@, index));
                    return Err(Error::Invalid("event/content fact identity mismatch"));
                }
                assert(same_id(events@, content@, index));
                proof {
                    event_reader.lemma_position();
                    content_reader.lemma_position();
                }
                derived.rows = derived.rows + 1;
                let one: ServedEvent = ServedEvent {
                    created_at: event.created_at,
                    kind: event.kind,
                    content_bytes: body.content_bytes,
                };
                let ghost more = served_events(events@, content@, index + 1);
                assert(one == served_event(events@, content@, index));
                assert(more =~= served.push(one));
                match derived.add_event(one, as_of_epoch, bounds, Ghost(served)) {
                    Ok(()) => {},
                    Err(error) => {
                        proof {
                            let full = served_events(events@, content@, wanted);
                            if streams_join(events@, content@, wanted) && events_fit(
                                full,
                                as_of_epoch,
                                bounds,
                            ) {
                                assert(full.take(index + 1) =~= more);
                                lemma_prefix_fits(full, index + 1, as_of_epoch, bounds);
                            }
                        }
                        return Err(error);
                    },
                }
                proof {
                    served = more;
                }
            },
            _ => {
                return Err(Error::Invalid("event/content fact streams have different lengths"));
            },
        }
    }
    if derived.rows != expected_rows {
        return Err(Error::Invalid("serving finalization did not consume every canonical event"));
    }
    proof {
        lemma_derived_fits(derived, served, as_of_epoch, bounds);
    }
    Ok(derived)
}

/// Fewer events fit as well.
proof fn lemma_prefix_fits(
    events: Seq<ServedEvent>,
    count: int,
    as_of: u64,
    bounds: TimestampBounds,
)
    requires
        0 <= count <= events.len(),
        events_fit(events, as_of, bounds),
    ensures
        events_fit(events.take(count), as_of, bounds),
{
    let less = events.take(count);
    assert forall|i: int|
        0 <= i < less.len() && is_served(#[trigger] less[i], as_of, bounds) implies less[i].created_at
        <= u32::MAX by {
        assert(less[i] == events[i]);
    }
    assert forall|kind: u16|
        #[trigger] sum_events(less, content_of_kind(as_of, bounds, kind as int)) <= u64::MAX by {
        lemma_events_grow(events, count, content_of_kind(as_of, bounds, kind as int));
        assert(sum_events(events, content_of_kind(as_of, bounds, kind as int)) <= u64::MAX);
    }
}

/// Derived counts show that the events fit.
proof fn lemma_derived_fits(
    derived: DerivedCompact,
    events: Seq<ServedEvent>,
    as_of: u64,
    bounds: TimestampBounds,
)
    requires
        derived.derives(events, as_of, bounds),
    ensures
        events_fit(events, as_of, bounds),
{
    assert forall|i: int|
        0 <= i < events.len() && is_served(#[trigger] events[i], as_of, bounds) implies events[i].created_at
        <= u32::MAX by {
        let kind = events[i].kind as int;
        let row = derived.kinds@[kind];
        assert(summarizes_kind(row, events, as_of, bounds, kind));
        if row.event_count == 0 {
            lemma_no_events(events, as_of, bounds, kind);
        }
    }
    assert forall|kind: u16|
        #[trigger] sum_events(events, content_of_kind(as_of, bounds, kind as int)) <= u64::MAX by {
        assert(summarizes_kind(derived.kinds@[kind as int], events, as_of, bounds, kind as int));
    }
}

} // verus!
