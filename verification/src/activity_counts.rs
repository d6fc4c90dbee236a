//! Exact counts of an activity stream for days, weeks and months.

use vstd::prelude::*;

use crate::activity::{created_at, event_day, event_kind, grouped, publisher};
use crate::calendar::{first_of_month, monday, month_start, week_start};
use crate::error::Result;
use crate::activity_tables::{
    active_rows, active_table, distinct_rows, distinct_table, ActiveUsersPeriod,
    DistinctPubkeysPeriod,
};
use crate::period_counter::{
    flag_byte, largest_kind_set, period_of, periods_advance, Grain, PeriodCounter,
};
use crate::publishers::{lemma_grouped_prefix, publisher_order, starts_group};

verus! {

/// Exact counts of every grain.
pub struct ActivityCounts {
    day: PeriodCounter,
    week: PeriodCounter,
    month: PeriodCounter,
}

impl ActivityCounts {
    /// The counters hold the exact counts of `facts`.
    pub closed spec fn counts(&self, facts: Seq<Seq<u8>>, flags: Seq<u8>) -> bool {
        &&& self.day.grain() == Grain::Day
        &&& self.week.grain() == Grain::Week
        &&& self.month.grain() == Grain::Month
        &&& self.day.counts(facts, flags)
        &&& self.week.counts(facts, flags)
        &&& self.month.counts(facts, flags)
    }

    /// The state of the current publisher matches the last record, every period
    /// of `facts` is known, and those of one publisher run forward.
    pub closed spec fn tracks(&self, facts: Seq<Seq<u8>>) -> bool {
        &&& self.day.tracks(facts)
        &&& self.week.tracks(facts)
        &&& self.month.tracks(facts)
        &&& periods_advance(Grain::Day, facts)
        &&& periods_advance(Grain::Week, facts)
        &&& periods_advance(Grain::Month, facts)
        &&& forall|i: int|
            0 <= i < facts.len() ==> (#[trigger] period_of(Grain::Month, facts[i])) is Some
    }

    /// Start counting.
    pub fn new() -> (counts: Self)
        ensures
            counts.tracks(Seq::empty()),
            forall|flags: Seq<u8>| #[trigger] counts.counts(Seq::empty(), flags),
    {
        ActivityCounts {
            day: PeriodCounter::new(Grain::Day),
            week: PeriodCounter::new(Grain::Week),
            month: PeriodCounter::new(Grain::Month),
        }
    }

    /// The tables and buffer maxima of the counts.
    pub(crate) fn finish(
        &self,
        Ghost(facts): Ghost<Seq<Seq<u8>>>,
        Ghost(flags): Ghost<Seq<u8>>,
    ) -> (finalized: FinalizedActivity)
        requires
            self.counts(facts, flags),
        ensures
            finalized.summarizes(facts, flags),
    {
        FinalizedActivity {
            distinct_pubkeys: distinct_rows(&self.day, &self.week, &self.month, Ghost(facts)),
            active_users: active_rows(
                &self.day,
                &self.week,
                &self.month,
                Ghost(facts),
                Ghost(flags),
            ),
            max_week_kinds_buffered: self.week.largest_kind_count(),
            max_month_kinds_buffered: self.month.largest_kind_count(),
        }
    }

    /// Count one more record.
    pub(crate) fn observe(
        &mut self,
        timestamp: u32,
        kind: u16,
        value: u8,
        new_group: bool,
        Ghost(facts): Ghost<Seq<Seq<u8>>>,
        Ghost(fact): Ghost<Seq<u8>>,
        Ghost(flags): Ghost<Seq<u8>>,
    )
        requires
            old(self).counts(facts, flags),
            old(self).tracks(facts),
            grouped(facts.push(fact)),
            timestamp == created_at(fact),
            345_600 <= timestamp,
            kind == event_kind(fact),
            new_group == starts_group(facts, fact),
            value == flag_byte(flags, publisher_order(facts.push(fact)).len() - 1),
            facts.len() < usize::MAX,
        ensures
            final(self).counts(facts.push(fact), flags),
            final(self).tracks(facts.push(fact)),
    {
        let day: u32 = timestamp / 86_400;
        let week: u32 = week_start(day);
        let start: Result<u32> = month_start(day);
        let month: u32 = match start {
            Ok(first) => first,
            Err(_) => 0,
        };
        let ghost more = facts.push(fact);
        proof {
            lemma_grouped_prefix(facts, fact);
            assert(start is Ok);
            assert(period_of(Grain::Month, fact) == Some(month as int));
            assert forall|i: int|
                0 <= i < facts.len() && publisher(#[trigger] facts[i]) == publisher(
                    fact,
                ) implies {
                &&& event_day(facts[i]) <= event_day(fact)
                &&& monday(event_day(facts[i])) <= monday(event_day(fact))
                &&& period_of(Grain::Month, facts[i])->0 <= month
            } by {
                assert(created_at(facts[i]) <= created_at(fact));
                assert(period_of(Grain::Month, facts[i]) is Some);
                assert(first_of_month(event_day(facts[i])) is Some);
            }
            assert forall|i: int| 0 <= i < more.len() implies (#[trigger] period_of(
                Grain::Month,
                more[i],
            )) is Some by {
                if i < facts.len() {
                    assert(more[i] == facts[i]);
                    assert(period_of(Grain::Month, facts[i]) is Some);
                }
            }
            lemma_advance(Grain::Day, facts, fact);
            lemma_advance(Grain::Week, facts, fact);
            lemma_advance(Grain::Month, facts, fact);
        }
        self.day.observe(kind, day, value, new_group, Ghost(facts), Ghost(fact), Ghost(flags));
        self.week.observe(kind, week, value, new_group, Ghost(facts), Ghost(fact), Ghost(flags));
        self.month.observe(kind, month, value, new_group, Ghost(facts), Ghost(fact), Ghost(flags));
    }
}

/// Serving tables and buffer maxima of one activity stream.
#[derive(Clone, Debug, PartialEq, Eq)]
pub struct FinalizedActivity {
    /// Distinct publishers of every period and kind.
    pub distinct_pubkeys: Vec<DistinctPubkeysPeriod>,
    /// Active users of every period.
    pub active_users: Vec<ActiveUsersPeriod>,
    /// Most kinds held at once for one publisher and week.
    pub max_week_kinds_buffered: usize,
    /// Most kinds held at once for one publisher and month.
    pub max_month_kinds_buffered: usize,
}

impl FinalizedActivity {
    /// The tables are those of `facts`, with the flags of each publisher.
    pub open spec fn summarizes(&self, facts: Seq<Seq<u8>>, flags: Seq<u8>) -> bool {
        &&& distinct_table(self.distinct_pubkeys@, facts)
        &&& active_table(self.active_users@, facts, flags)
        &&& largest_kind_set(facts, Grain::Week, self.max_week_kinds_buffered as int)
        &&& largest_kind_set(facts, Grain::Month, self.max_month_kinds_buffered as int)
    }
}

/// Periods still advance with one more record that is not behind.
proof fn lemma_advance(grain: Grain, facts: Seq<Seq<u8>>, fact: Seq<u8>)
    requires
        periods_advance(grain, facts),
        period_of(grain, fact) is Some,
        forall|i: int|
            0 <= i < facts.len() && publisher(#[trigger] facts[i]) == publisher(fact)
                ==> period_of(grain, facts[i]) is Some && period_of(grain, facts[i])->0
                <= period_of(grain, fact)->0,
    ensures
        periods_advance(grain, facts.push(fact)),
{
    let more = facts.push(fact);
    assert forall|i: int, j: int|
        0 <= i < j < more.len() && publisher(#[trigger] more[i]) == publisher(
            #[trigger] more[j],
        ) implies period_of(grain, more[i]) is Some && period_of(grain, more[j]) is Some
        && period_of(grain, more[i])->0 <= period_of(grain, more[j])->0 by {
        assert(more[i] == facts[i]);
        if j < facts.len() {
            assert(more[j] == facts[j]);
        }
    }
}

} // verus!
