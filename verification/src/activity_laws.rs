//! What the tables of fixed activity say of the events.
//!
//! An event is 70 bytes: the publisher key in the first 32, the second of its
//! creation in the next four, and its kind in the two behind.

use vstd::prelude::*;

use crate::activity::{
    activity_fact, created_at, eligible, eligible_facts, event_day, event_kind, grouped, publisher,
};
use crate::activity_tables::{
    active_table, describes_period, describes_scope, distinct_table, lists_periods, lists_scopes,
    ActiveUsersPeriod, DistinctPubkeysPeriod,
};
use crate::bytes::{lemma_be_limits, lemma_be_nat_bound};
use crate::calendar::{civil_day, day_text, lemma_date_of, lemma_date_on, lemma_has_date};
use crate::calendar_laws::{last_of_month, lemma_day_lies_in_its_month, lemma_day_lies_in_its_week};
use crate::period_counter::{
    active_in, active_publishers, counts_active, distinct_publishers, flag_byte, flagged, in_scope,
    period_of, Grain,
};
use crate::publisher_flags::{flag_record, has_kind, lemma_flags_mean_kinds};
use crate::publishers::{
    events_where, lemma_publisher_order, lemma_publishers_finite, publisher_order,
    publishers_where,
};
use crate::records::{record, record_count};
use crate::words::{cut, lemma_big_endian, lemma_records_are_cut, word16, word32};

verus! {

/// Every event has 70 bytes.
pub open spec fn whole(events: Seq<Seq<u8>>) -> bool {
    forall|i: int| 0 <= i < events.len() ==> (#[trigger] events[i]).len() == 70
}

/// The month starts with the day numbered `start`.
pub open spec fn starts_month(year: int, month: int, start: int) -> bool {
    &&& -262_143 <= year <= 262_142
    &&& 1 <= month <= 12
    &&& start == civil_day((year, month, 1))
}

/// The event was created in the period: a day of 86400 seconds, seven days from
/// a Monday on, or a month from its first day to its last.
pub open spec fn created_in(grain: Grain, start: int) -> spec_fn(Seq<u8>) -> bool {
    |event: Seq<u8>|
        {
            let second = word32(event, 32);
            match grain {
                Grain::Day => start * 86_400 <= second < (start + 1) * 86_400,
                Grain::Week => {
                    &&& (start - 4) % 7 == 0
                    &&& start * 86_400 <= second < (start + 7) * 86_400
                },
                Grain::Month => exists|year: int, month: int| #[trigger]
                    starts_month(year, month, start) && start * 86_400 <= second < (start
                        + last_of_month(year, month)) * 86_400,
            }
        }
}

/// The publishers of the events that `keep` holds of.
pub open spec fn authors(events: Seq<Seq<u8>>, keep: spec_fn(Seq<u8>) -> bool) -> Set<Seq<u8>> {
    Set::new(
        |who: Seq<u8>|
            exists|i: int|
                0 <= i < events.len() && (#[trigger] events[i]).subrange(0, 32) == who && keep(
                    events[i],
                ),
    )
}

/// The event was created in the period and is neither of kind 445 nor of 1059.
pub open spec fn counts_in(grain: Grain, start: int) -> spec_fn(Seq<u8>) -> bool {
    |event: Seq<u8>|
        created_in(grain, start)(event) && word16(event, 36) != 445 && word16(event, 36) != 1_059
}

/// The event was created in the period and is of kind 445 or 1059.
pub open spec fn skipped_in(grain: Grain, start: int) -> spec_fn(Seq<u8>) -> bool {
    |event: Seq<u8>|
        created_in(grain, start)(event) && (word16(event, 36) == 445 || word16(event, 36) == 1_059)
}

/// The event was created in the period and has the kind.
pub open spec fn of_kind_in(grain: Grain, start: int, kind: u16) -> spec_fn(Seq<u8>) -> bool {
    |event: Seq<u8>| created_in(grain, start)(event) && word16(event, 36) == kind
}

/// The publisher has an event of the kind.
pub open spec fn ever_published(events: Seq<Seq<u8>>, who: Seq<u8>, kind: int) -> bool {
    exists|i: int|
        0 <= i < events.len() && (#[trigger] events[i]).subrange(0, 32) == who && word16(
            events[i],
            36,
        ) == kind
}

/// What a whole event says.
proof fn lemma_event(event: Seq<u8>)
    requires
        event.len() == 70,
    ensures
        publisher(event) == event.subrange(0, 32),
        created_at(event) == word32(event, 32),
        event_kind(event) == word16(event, 36),
        word16(event, 36) <= u16::MAX,
        0 <= word32(event, 32) <= u32::MAX,
{
    lemma_big_endian(event, 32);
    lemma_big_endian(event, 36);
    lemma_be_limits();
    lemma_be_nat_bound(event.subrange(36, 38));
    lemma_be_nat_bound(event.subrange(32, 36));
}

/// The period of an event is the one in which it was created.
pub proof fn lemma_event_lies_in_its_period(event: Seq<u8>, grain: Grain, start: int)
    requires
        event.len() == 70,
    ensures
        period_of(grain, event) == Some(start) <==> created_in(grain, start)(event),
{
    lemma_event(event);
    let second = word32(event, 32);
    let day = event_day(event);
    assert(day == second / 86_400);
    lemma_has_date(day);
    match grain {
        Grain::Day => {},
        Grain::Week => {
            lemma_day_lies_in_its_week(day, start);
        },
        Grain::Month => {
            if created_in(grain, start)(event) {
                let (year, month) = choose|year: int, month: int| #[trigger]
                    starts_month(year, month, start) && start * 86_400 <= second < (start
                        + last_of_month(year, month)) * 86_400;
                lemma_day_lies_in_its_month(day, (year, month, 1));
            }
            if period_of(grain, event) == Some(start) {
                assert(day * 86_400 / 86_400 == day);
                let date = lemma_date_on(day);
                lemma_date_of(day * 86_400, date);
                assert(starts_month(date.0, date.1, start));
                lemma_day_lies_in_its_month(day, date);
                assert(start * 86_400 <= second < (start + last_of_month(date.0, date.1))
                    * 86_400);
            }
        },
    }
}

/// Counting events by a filter.
proof fn lemma_counted(
    events: Seq<Seq<u8>>,
    keep: spec_fn(Seq<u8>) -> bool,
    said: spec_fn(Seq<u8>) -> bool,
)
    requires
        forall|i: int| 0 <= i < events.len() ==> keep(#[trigger] events[i]) == said(events[i]),
    ensures
        events_where(events, keep) == events.filter(said).len(),
    decreases events.len(),
{
    reveal(Seq::filter);
    if events.len() > 0 {
        let fewer = events.drop_last();
        assert forall|i: int| 0 <= i < fewer.len() implies keep(#[trigger] fewer[i]) == said(
            fewer[i],
        ) by {
            assert(fewer[i] == events[i]);
        }
        lemma_counted(fewer, keep, said);
        assert(events.last() == events[events.len() - 1]);
    }
}

/// Publishers by a filter.
proof fn lemma_authors(
    events: Seq<Seq<u8>>,
    keep: spec_fn(Seq<u8>) -> bool,
    said: spec_fn(Seq<u8>) -> bool,
)
    requires
        whole(events),
        forall|i: int| 0 <= i < events.len() ==> keep(#[trigger] events[i]) == said(events[i]),
    ensures
        publishers_where(events, keep) == authors(events, said),
{
    assert forall|who: Seq<u8>| publishers_where(events, keep).contains(who) <==> authors(
        events,
        said,
    ).contains(who) by {
        if publishers_where(events, keep).contains(who) {
            let i = choose|i: int|
                0 <= i < events.len() && publisher(#[trigger] events[i]) == who && keep(events[i]);
            assert(events[i].subrange(0, 32) == who && said(events[i]));
        }
        if authors(events, said).contains(who) {
            let i = choose|i: int|
                0 <= i < events.len() && (#[trigger] events[i]).subrange(0, 32) == who && said(
                    events[i],
                );
            assert(publisher(events[i]) == who && keep(events[i]));
        }
    }
    assert(publishers_where(events, keep) =~= authors(events, said));
}

/// Two filters that part a third share out what it keeps.
proof fn lemma_parted(
    events: Seq<Seq<u8>>,
    a: spec_fn(Seq<u8>) -> bool,
    b: spec_fn(Seq<u8>) -> bool,
    all: spec_fn(Seq<u8>) -> bool,
)
    requires
        forall|event: Seq<u8>| #[trigger] all(event) == (a(event) || b(event)),
        forall|event: Seq<u8>| !(#[trigger] a(event) && b(event)),
    ensures
        events.filter(a).len() + events.filter(b).len() == events.filter(all).len(),
    decreases events.len(),
{
    reveal(Seq::filter);
    if events.len() > 0 {
        lemma_parted(events.drop_last(), a, b, all);
        let event = events.last();
        assert(all(event) == (a(event) || b(event)));
        assert(!(a(event) && b(event)));
    }
}

/// The active users of a period are the publishers with an event in it of any
/// kind but 445 and 1059, and the events of the period are counted but for
/// those of the two kinds.
pub proof fn lemma_two_kinds_do_not_count(
    row: crate::period_counter::ActiveAccumulator,
    events: Seq<Seq<u8>>,
    flags: Seq<u8>,
    grain: Grain,
    start: int,
)
    requires
        counts_active(row, events, flags, grain, start),
        whole(events),
        grouped(events),
    ensures
        row.total_events == events.filter(counts_in(grain, start)).len(),
        row.total_events + events.filter(skipped_in(grain, start)).len() == events.filter(
            created_in(grain, start),
        ).len(),
        row.active_users == authors(events, counts_in(grain, start)).len(),
        authors(events, counts_in(grain, start)).finite(),
        forall|i: int|
            0 <= i < events.len() && created_in(grain, start)(#[trigger] events[i]) && word16(
                events[i],
                36,
            ) != 445 && word16(events[i], 36) != 1_059 ==> row.active_users > 0
                && row.total_events > 0,
{
    let keep = active_in(grain, start);
    let said = counts_in(grain, start);
    assert forall|i: int| 0 <= i < events.len() implies keep(#[trigger] events[i]) == said(
        events[i],
    ) by {
        lemma_event(events[i]);
        lemma_event_lies_in_its_period(events[i], grain, start);
    }
    lemma_counted(events, keep, said);
    lemma_authors(events, keep, said);
    lemma_publishers_finite(events, keep);
    lemma_publisher_order(events);
    let all = publishers_where(events, keep);
    let active = active_publishers(events, flags, grain, start, 0);
    assert forall|who: Seq<u8>| all.contains(who) implies flagged(events, flags, 0, who) by {
        let i = choose|i: int|
            0 <= i < events.len() && publisher(#[trigger] events[i]) == who && keep(events[i]);
        let order = publisher_order(events);
        assert(order.contains(who));
        let k = choose|k: int| 0 <= k < order.len() && order[k] == who;
        let byte = flag_byte(flags, k);
        assert(byte & 0 == 0) by (bit_vector);
        assert(order[k] == who);
    }
    assert(active =~= all);
    lemma_parted(events, said, skipped_in(grain, start), created_in(grain, start));
    assert forall|i: int|
        0 <= i < events.len() && created_in(grain, start)(#[trigger] events[i]) && word16(
            events[i],
            36,
        ) != 445 && word16(events[i], 36) != 1_059 implies row.active_users > 0
        && row.total_events > 0 by {
        let who = events[i].subrange(0, 32);
        assert(said(events[i]));
        assert(authors(events, said).contains(who));
        if authors(events, said).len() == 0 {
            assert(authors(events, said) =~= Set::empty());
        }
        assert(events.filter(said).contains(events[i]));
    }
}

/// Of the active users, those with an event of kind 0 at any time have a
/// profile, and those with one of kind 3 a follows list.
pub proof fn lemma_profiles_and_follows(
    row: crate::period_counter::ActiveAccumulator,
    events: Seq<Seq<u8>>,
    flags: Seq<u8>,
    grain: Grain,
    start: int,
)
    requires
        counts_active(row, events, flags, grain, start),
        whole(events),
        grouped(events),
        forall|k: int|
            0 <= k < publisher_order(events).len() ==> #[trigger] record(flags, 33, k)
                == flag_record(events, k),
    ensures
        row.has_profile == authors(events, counts_in(grain, start)).filter(
            |who: Seq<u8>| ever_published(events, who, 0),
        ).len(),
        row.has_follows_list == authors(events, counts_in(grain, start)).filter(
            |who: Seq<u8>| ever_published(events, who, 3),
        ).len(),
        row.has_both == authors(events, counts_in(grain, start)).filter(
            |who: Seq<u8>| ever_published(events, who, 0) && ever_published(events, who, 3),
        ).len(),
        row.has_both <= row.has_profile <= row.active_users,
        row.has_both <= row.has_follows_list <= row.active_users,
{
    let keep = active_in(grain, start);
    let said = counts_in(grain, start);
    lemma_two_kinds_do_not_count(row, events, flags, grain, start);
    assert forall|i: int| 0 <= i < events.len() implies keep(#[trigger] events[i]) == said(
        events[i],
    ) by {
        lemma_event(events[i]);
        lemma_event_lies_in_its_period(events[i], grain, start);
    }
    lemma_authors(events, keep, said);
    let all = authors(events, said);
    assert forall|who: Seq<u8>, kind: int| #[trigger]
        ever_published(events, who, kind) == has_kind(events, who, kind) by {
        if ever_published(events, who, kind) {
            let i = choose|i: int|
                0 <= i < events.len() && (#[trigger] events[i]).subrange(0, 32) == who && word16(
                    events[i],
                    36,
                ) == kind;
            lemma_event(events[i]);
            assert(publisher(events[i]) == who);
        }
        if has_kind(events, who, kind) {
            let i = choose|i: int|
                0 <= i < events.len() && publisher(#[trigger] events[i]) == who && event_kind(
                    events[i],
                ) == kind;
            lemma_event(events[i]);
            assert(events[i].subrange(0, 32) == who);
        }
    }
    assert forall|who: Seq<u8>|
        #![trigger ever_published(events, who, 0)]
        #![trigger ever_published(events, who, 3)]
        {
            &&& flagged(events, flags, 1, who) == ever_published(events, who, 0)
            &&& flagged(events, flags, 2, who) == ever_published(events, who, 3)
            &&& flagged(events, flags, 3, who) == (ever_published(events, who, 0)
                && ever_published(events, who, 3))
        } by {
        lemma_flags_mean_kinds(events, flags, who);
    }
    let profiles = all.filter(|who: Seq<u8>| ever_published(events, who, 0));
    let follows = all.filter(|who: Seq<u8>| ever_published(events, who, 3));
    let both = all.filter(
        |who: Seq<u8>| ever_published(events, who, 0) && ever_published(events, who, 3),
    );
    assert(active_publishers(events, flags, grain, start, 1) =~= profiles);
    assert(active_publishers(events, flags, grain, start, 2) =~= follows);
    assert(active_publishers(events, flags, grain, start, 3) =~= both);
    vstd::set_lib::lemma_len_subset(profiles, all);
    vstd::set_lib::lemma_len_subset(follows, all);
    vstd::set_lib::lemma_len_subset(both, profiles);
    vstd::set_lib::lemma_len_subset(both, follows);
}

/// The distinct publishers of a period are those with an event in it, of the
/// kind where one is given.
pub proof fn lemma_distinct_publishers(events: Seq<Seq<u8>>, grain: Grain, start: int)
    requires
        whole(events),
    ensures
        distinct_publishers(events, grain, start, None) == authors(
            events,
            created_in(grain, start),
        ).len(),
        forall|kind: u16| #[trigger]
            distinct_publishers(events, grain, start, Some(kind)) == authors(
                events,
                of_kind_in(grain, start, kind),
            ).len(),
        forall|kind: u16| #[trigger]
            distinct_publishers(events, grain, start, Some(kind)) <= distinct_publishers(
                events,
                grain,
                start,
                None,
            ),
{
    assert forall|i: int| 0 <= i < events.len() implies in_scope(grain, start, None)(
        #[trigger] events[i],
    ) == created_in(grain, start)(events[i]) by {
        lemma_event_lies_in_its_period(events[i], grain, start);
    }
    lemma_authors(events, in_scope(grain, start, None), created_in(grain, start));
    assert forall|kind: u16| #[trigger]
        distinct_publishers(events, grain, start, Some(kind)) == authors(
            events,
            of_kind_in(grain, start, kind),
        ).len() && distinct_publishers(events, grain, start, Some(kind)) <= distinct_publishers(
            events,
            grain,
            start,
            None,
        ) by {
        assert forall|i: int| 0 <= i < events.len() implies in_scope(grain, start, Some(kind))(
            #[trigger] events[i],
        ) == of_kind_in(grain, start, kind)(events[i]) by {
            lemma_event(events[i]);
            lemma_event_lies_in_its_period(events[i], grain, start);
        }
        lemma_authors(events, in_scope(grain, start, Some(kind)), of_kind_in(grain, start, kind));
        let some = publishers_where(events, in_scope(grain, start, Some(kind)));
        let all = publishers_where(events, in_scope(grain, start, None));
        lemma_publishers_finite(events, in_scope(grain, start, None));
        assert(some.subset_of(all)) by {
            assert forall|who: Seq<u8>| some.contains(who) implies all.contains(who) by {
                let i = choose|i: int|
                    0 <= i < events.len() && publisher(#[trigger] events[i]) == who && in_scope(
                        grain,
                        start,
                        Some(kind),
                    )(events[i]);
                assert(in_scope(grain, start, None)(events[i]));
            }
        }
        vstd::set_lib::lemma_len_subset(some, all);
    }
}

/// The day, week or month of an event has a row of active users, unless the
/// event is of kind 445 or 1059. The row has the name of the grain and the text
/// of the first day, and counts the event and its publisher.
pub proof fn lemma_event_has_its_active_rows(
    rows: Seq<ActiveUsersPeriod>,
    events: Seq<Seq<u8>>,
    flags: Seq<u8>,
    k: int,
    grain: Grain,
    start: u32,
)
    requires
        active_table(rows, events, flags),
        whole(events),
        grouped(events),
        0 <= k < events.len(),
        word16(events[k], 36) != 445,
        word16(events[k], 36) != 1_059,
        created_in(grain, start as int)(events[k]),
    ensures
        exists|r: int|
            {
                &&& 0 <= r < rows.len()
                &&& (#[trigger] rows[r]).grain@ == (match grain {
                    Grain::Day => "day"@,
                    Grain::Week => "week"@,
                    Grain::Month => "month"@,
                })
                &&& day_text(start as int) == Some(rows[r].period_start@)
                &&& rows[r].total_events == events.filter(counts_in(grain, start as int)).len()
                &&& rows[r].active_users == authors(
                    events,
                    counts_in(grain, start as int),
                ).len()
                &&& rows[r].active_users > 0
            },
{
    let periods = choose|periods: Seq<(Grain, u32)>| #[trigger]
        lists_periods(rows, periods, events, flags);
    let period = (grain, start);
    lemma_count_of(events, flags, grain, start as int);
    assert(authors(events, counts_in(grain, start as int)).contains(events[k].subrange(0, 32)));
    if authors(events, counts_in(grain, start as int)).len() == 0 {
        assert(authors(events, counts_in(grain, start as int)) =~= Set::empty());
    }
    assert(periods.contains(period));
    let r = choose|r: int| 0 <= r < periods.len() && periods[r] == period;
    assert(describes_period(rows[r], periods[r], events, flags));
    lemma_two_kinds_do_not_count(rows[r]@.2, events, flags, grain, start as int);
}

/// The active publishers of a period are its authors.
proof fn lemma_count_of(events: Seq<Seq<u8>>, flags: Seq<u8>, grain: Grain, start: int)
    requires
        whole(events),
        grouped(events),
    ensures
        active_publishers(events, flags, grain, start, 0) == authors(
            events,
            counts_in(grain, start),
        ),
        authors(events, counts_in(grain, start)).finite(),
{
    let keep = active_in(grain, start);
    let said = counts_in(grain, start);
    assert forall|i: int| 0 <= i < events.len() implies keep(#[trigger] events[i]) == said(
        events[i],
    ) by {
        lemma_event(events[i]);
        lemma_event_lies_in_its_period(events[i], grain, start);
    }
    lemma_authors(events, keep, said);
    lemma_publishers_finite(events, keep);
    lemma_publisher_order(events);
    let all = publishers_where(events, keep);
    assert forall|who: Seq<u8>| all.contains(who) implies flagged(events, flags, 0, who) by {
        let i = choose|i: int|
            0 <= i < events.len() && publisher(#[trigger] events[i]) == who && keep(events[i]);
        let order = publisher_order(events);
        assert(order.contains(who));
        let k = choose|k: int| 0 <= k < order.len() && order[k] == who;
        let byte = flag_byte(flags, k);
        assert(byte & 0 == 0) by (bit_vector);
        assert(order[k] == who);
    }
    assert(active_publishers(events, flags, grain, start, 0) =~= all);
}

/// The day, week or month of an event has a row of distinct publishers for all
/// kinds and one for the kind of the event.
pub proof fn lemma_event_has_its_distinct_rows(
    rows: Seq<DistinctPubkeysPeriod>,
    events: Seq<Seq<u8>>,
    k: int,
    grain: Grain,
    start: u32,
    kind: Option<u16>,
)
    requires
        distinct_table(rows, events),
        whole(events),
        0 <= k < events.len(),
        created_in(grain, start as int)(events[k]),
        kind matches Some(own) ==> word16(events[k], 36) == own,
    ensures
        exists|r: int|
            {
                &&& 0 <= r < rows.len()
                &&& (#[trigger] rows[r]).grain@ == (match grain {
                    Grain::Day => "day"@,
                    Grain::Week => "week"@,
                    Grain::Month => "month"@,
                })
                &&& day_text(start as int) == Some(rows[r].period_start@)
                &&& rows[r].kind == kind
                &&& rows[r].unique_pubkeys == match kind {
                    None => authors(events, created_in(grain, start as int)).len(),
                    Some(own) => authors(events, of_kind_in(grain, start as int, own)).len(),
                }
                &&& rows[r].unique_pubkeys > 0
            },
{
    let scopes = choose|scopes: Seq<(Grain, u32, Option<u16>)>| #[trigger]
        lists_scopes(rows, scopes, events);
    let scope = (grain, start, kind);
    lemma_distinct_publishers(events, grain, start as int);
    lemma_publishers_finite(events, in_scope(grain, start as int, kind));
    lemma_event(events[k]);
    lemma_event_lies_in_its_period(events[k], grain, start as int);
    let found = publishers_where(events, in_scope(grain, start as int, kind));
    assert(found.contains(publisher(events[k])));
    if found.len() == 0 {
        assert(found =~= Set::empty());
    }
    assert(distinct_publishers(events, grain, start as int, kind) > 0);
    assert(scopes.contains(scope));
    let r = choose|r: int| 0 <= r < scopes.len() && scopes[r] == scope;
    assert(describes_scope(rows[r], scopes[r], events));
}

/// The events that count are those of the artifact up to `as_of`, this second
/// included.
pub proof fn lemma_eligible_are_up_to_as_of(activity: Seq<u8>, as_of: int)
    ensures
        eligible(activity, as_of) == cut(activity, 70).filter(
            |event: Seq<u8>| word32(event, 32) <= as_of,
        ),
        whole(eligible(activity, as_of)),
{
    lemma_records_are_cut(activity, 70);
    let total = record_count(activity, 70);
    lemma_eligible_prefix(activity, as_of, total);
    assert(cut(activity, 70).take(total) =~= cut(activity, 70));
    crate::publisher_flags::lemma_eligible_lens(activity, as_of, total);
}

proof fn lemma_eligible_prefix(activity: Seq<u8>, as_of: int, count: int)
    requires
        0 <= count <= cut(activity, 70).len(),
    ensures
        eligible_facts(activity, as_of, count) == cut(activity, 70).take(count).filter(
            |event: Seq<u8>| word32(event, 32) <= as_of,
        ),
    decreases count,
{
    reveal(Seq::filter);
    lemma_records_are_cut(activity, 70);
    let events = cut(activity, 70);
    if count > 0 {
        lemma_eligible_prefix(activity, as_of, count - 1);
        assert(events.take(count).drop_last() =~= events.take(count - 1));
        assert(events.take(count).last() == events[count - 1]);
        assert(events[count - 1] == activity_fact(activity, count - 1));
        lemma_big_endian(events[count - 1], 32);
    }
}

} // verus!
