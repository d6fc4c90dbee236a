//! Daily publisher facts: how many publisher days there are, and how many kinds
//! they have.

use std::collections::BTreeSet;
use vstd::prelude::*;

use crate::activity::{
    activity_fact, activity_stream, created_at, eligible, eligible_facts, event_day, event_kind,
    grouped, lemma_eligible_grouped, publisher, ActivityReader,
};
use crate::bytes::bytes_equal;
use crate::error::Result;
use crate::ordered::{insert_member, member_count};
use crate::period_counter::{
    largest_kind_set, lemma_largest_kind_set, lemma_repeated, of_publisher, period_of,
    periods_advance, publisher_kinds, Grain,
};
use crate::publishers::{
    kinds_where, lemma_grouped_prefix, lemma_kinds_finite, lemma_kinds_push, lemma_new_group,
    starts_group,
};
use crate::records::record_count;

verus! {

/// The days on which each publisher has a record.
pub open spec fn publisher_days(facts: Seq<Seq<u8>>) -> Set<(Seq<u8>, int)> {
    Set::new(|pair: (Seq<u8>, int)| on_day(facts, pair.0, pair.1))
}

/// The publisher has a record on the day.
pub open spec fn on_day(facts: Seq<Seq<u8>>, who: Seq<u8>, day: int) -> bool {
    exists|i: int|
        0 <= i < facts.len() && publisher(#[trigger] facts[i]) == who && event_day(facts[i]) == day
}

/// The kinds that each publisher has on each day.
pub open spec fn publisher_day_kinds(facts: Seq<Seq<u8>>) -> Set<(Seq<u8>, int, u16)> {
    Set::new(|triple: (Seq<u8>, int, u16)| of_day_kind(facts, triple.0, triple.1, triple.2))
}

/// The publisher has a record of the kind on the day.
pub open spec fn of_day_kind(facts: Seq<Seq<u8>>, who: Seq<u8>, day: int, kind: u16) -> bool {
    exists|i: int|
        0 <= i < facts.len() && publisher(#[trigger] facts[i]) == who && event_day(facts[i]) == day
            && event_kind(facts[i]) == kind
}

/// The record belongs to the publisher.
pub open spec fn by_publisher(who: Seq<u8>) -> spec_fn(Seq<u8>) -> bool {
    |fact: Seq<u8>| publisher(fact) == who
}

/// `bound` is the largest number of kinds of one publisher.
pub open spec fn largest_publisher_kinds(facts: Seq<Seq<u8>>, bound: int) -> bool {
    &&& forall|i: int|
        0 <= i < facts.len() ==> kinds_where(
            facts,
            by_publisher(publisher(#[trigger] facts[i])),
        ).len() <= bound
    &&& bound == 0 || exists|i: int|
        0 <= i < facts.len() && kinds_where(
            facts,
            by_publisher(publisher(#[trigger] facts[i])),
        ).len() == bound
}

/// Counters of daily publisher facts.
pub struct DayCounter {
    /// Publisher days.
    pub rows: u64,
    /// Publisher days and kinds.
    pub kind_rows: u64,
    /// Most kinds of one publisher on one day.
    pub max_day_kinds: usize,
    /// Most kinds of one publisher.
    pub max_publisher_kinds: usize,
    /// Day of the last record.
    pub last_day: u32,
    /// Kinds of the current publisher on this day.
    pub day_kinds: BTreeSet<u16>,
    /// Kinds of the current publisher.
    pub all_kinds: BTreeSet<u16>,
}

impl DayCounter {
    /// The counters hold the exact counts of the records.
    pub open spec fn counts(&self, facts: Seq<Seq<u8>>) -> bool {
        &&& publisher_days(facts).finite()
        &&& self.rows == publisher_days(facts).len()
        &&& publisher_day_kinds(facts).finite()
        &&& self.kind_rows == publisher_day_kinds(facts).len()
        &&& self.rows <= facts.len()
        &&& self.kind_rows <= facts.len()
        &&& largest_kind_set(facts, Grain::Day, self.max_day_kinds as int)
        &&& largest_publisher_kinds(facts, self.max_publisher_kinds as int)
    }

    /// The state of the current publisher matches the last record.
    pub open spec fn tracks(&self, facts: Seq<Seq<u8>>) -> bool {
        facts.len() > 0 ==> {
            let who = publisher(facts.last());
            &&& event_day(facts.last()) == self.last_day
            &&& self.day_kinds@ == publisher_kinds(facts, Grain::Day, self.last_day as int, who)
            &&& self.all_kinds@ == kinds_where(facts, by_publisher(who))
        }
    }

    /// Start counting.
    pub fn new() -> (counter: Self)
        ensures
            counter.counts(Seq::empty()),
            counter.tracks(Seq::empty()),
    {
        let none: Ghost<Seq<Seq<u8>>> = Ghost(Seq::empty());
        proof {
            assert(publisher_days(none@) =~= Set::empty());
            assert(publisher_day_kinds(none@) =~= Set::empty());
        }
        DayCounter {
            rows: 0,
            kind_rows: 0,
            max_day_kinds: 0,
            max_publisher_kinds: 0,
            last_day: 0,
            day_kinds: BTreeSet::new(),
            all_kinds: BTreeSet::new(),
        }
    }

    /// Count one more record; `new_group` tells whether its publisher is new.
    pub(crate) fn observe(
        &mut self,
        kind: u16,
        day: u32,
        new_group: bool,
        Ghost(facts): Ghost<Seq<Seq<u8>>>,
        Ghost(fact): Ghost<Seq<u8>>,
    )
        requires
            old(self).counts(facts),
            old(self).tracks(facts),
            grouped(facts.push(fact)),
            periods_advance(Grain::Day, facts.push(fact)),
            day == event_day(fact),
            kind == event_kind(fact),
            new_group == starts_group(facts, fact),
            facts.len() < usize::MAX,
        ensures
            final(self).counts(facts.push(fact)),
            final(self).tracks(facts.push(fact)),
    {
        let ghost who = publisher(fact);
        let ghost more = facts.push(fact);
        let ghost day_bound = self.max_day_kinds as int;
        let ghost all_bound = self.max_publisher_kinds as int;
        let ghost period = day as int;
        let repeated: bool = !new_group && self.last_day == day;
        proof {
            lemma_grouped_prefix(facts, fact);
            lemma_repeated(facts, fact, Grain::Day, period);
            lemma_kinds_finite(more, of_publisher(Grain::Day, period, who));
            lemma_kinds_finite(more, by_publisher(who));
            lemma_kinds_push(facts, fact, of_publisher(Grain::Day, period, who));
            lemma_kinds_push(facts, fact, by_publisher(who));
            lemma_days_push(facts, fact);
        }
        if new_group {
            self.all_kinds.clear();
            proof {
                if facts.len() > 0 {
                    lemma_new_group(facts, fact);
                }
                assert(kinds_where(facts, by_publisher(who)) =~= Set::<u16>::empty());
            }
        }
        if !repeated {
            self.day_kinds.clear();
            self.last_day = day;
            self.rows = self.rows + 1;
            proof {
                assert(publisher_kinds(facts, Grain::Day, period, who) =~= Set::<u16>::empty());
                if on_day(facts, who, period) {
                    let i = choose|i: int|
                        0 <= i < facts.len() && publisher(#[trigger] facts[i]) == who && event_day(
                            facts[i],
                        ) == period;
                    assert(period_of(Grain::Day, facts[i]) == Some(period));
                }
            }
        } else {
            proof {
                assert(publisher(facts[facts.len() - 1]) == who);
                assert(on_day(facts, who, period));
            }
        }
        let ghost kinds_before = publisher_kinds(facts, Grain::Day, period, who);
        proof {
            assert(self.day_kinds@ == kinds_before);
            assert(kinds_before.contains(kind) <==> of_day_kind(facts, who, period, kind)) by {
                if kinds_before.contains(kind) {
                    let i = choose|i: int|
                        0 <= i < facts.len() && event_kind(#[trigger] facts[i]) == kind
                            && of_publisher(Grain::Day, period, who)(facts[i]);
                    assert(publisher(facts[i]) == who);
                }
                if of_day_kind(facts, who, period, kind) {
                    let i = choose|i: int|
                        0 <= i < facts.len() && publisher(#[trigger] facts[i]) == who && event_day(
                            facts[i],
                        ) == period && event_kind(facts[i]) == kind;
                    assert(event_kind(facts[i]) == kind);
                    assert(of_publisher(Grain::Day, period, who)(facts[i]));
                }
            }
        }
        let new_kind: bool = insert_member(&mut self.day_kinds, kind);
        if new_kind {
            self.kind_rows = self.kind_rows + 1;
        }
        let day_count: usize = member_count(&self.day_kinds);
        if day_count > self.max_day_kinds {
            self.max_day_kinds = day_count;
        }
        insert_member(&mut self.all_kinds, kind);
        let all_count: usize = member_count(&self.all_kinds);
        if all_count > self.max_publisher_kinds {
            self.max_publisher_kinds = all_count;
        }
        proof {
            assert(more.last() == fact);
            lemma_largest_kind_set(facts, fact, Grain::Day, day_bound, period);
            lemma_largest_publisher(facts, fact, all_bound);
        }
    }
}

/// One more record adds its day and its kind there.
proof fn lemma_days_push(facts: Seq<Seq<u8>>, fact: Seq<u8>)
    requires
        event_kind(fact) <= u16::MAX,
    ensures
        publisher_days(facts.push(fact)) == publisher_days(facts).insert(
            (publisher(fact), event_day(fact)),
        ),
        publisher_day_kinds(facts.push(fact)) == publisher_day_kinds(facts).insert(
            (publisher(fact), event_day(fact), event_kind(fact) as u16),
        ),
{
    let more = facts.push(fact);
    let n = facts.len() as int;
    assert(more[n] == fact);
    let days = publisher_days(facts).insert((publisher(fact), event_day(fact)));
    assert forall|pair: (Seq<u8>, int)| publisher_days(more).contains(pair) <==> days.contains(
        pair,
    ) by {
        if on_day(more, pair.0, pair.1) {
            let i = choose|i: int|
                0 <= i < more.len() && publisher(#[trigger] more[i]) == pair.0 && event_day(more[i])
                    == pair.1;
            if i < n {
                assert(facts[i] == more[i]);
                assert(on_day(facts, pair.0, pair.1));
            }
        }
        if on_day(facts, pair.0, pair.1) {
            let i = choose|i: int|
                0 <= i < facts.len() && publisher(#[trigger] facts[i]) == pair.0 && event_day(
                    facts[i],
                ) == pair.1;
            assert(more[i] == facts[i]);
        }
        if pair == (publisher(fact), event_day(fact)) {
            assert(publisher(more[n]) == pair.0);
        }
    }
    assert(publisher_days(more) =~= days);
    let kinds = publisher_day_kinds(facts).insert(
        (publisher(fact), event_day(fact), event_kind(fact) as u16),
    );
    assert forall|triple: (Seq<u8>, int, u16)| publisher_day_kinds(more).contains(triple)
        <==> kinds.contains(triple) by {
        if of_day_kind(more, triple.0, triple.1, triple.2) {
            let i = choose|i: int|
                0 <= i < more.len() && publisher(#[trigger] more[i]) == triple.0 && event_day(
                    more[i],
                ) == triple.1 && event_kind(more[i]) == triple.2;
            if i < n {
                assert(facts[i] == more[i]);
                assert(of_day_kind(facts, triple.0, triple.1, triple.2));
            }
        }
        if of_day_kind(facts, triple.0, triple.1, triple.2) {
            let i = choose|i: int|
                0 <= i < facts.len() && publisher(#[trigger] facts[i]) == triple.0 && event_day(
                    facts[i],
                ) == triple.1 && event_kind(facts[i]) == triple.2;
            assert(more[i] == facts[i]);
        }
        if triple == (publisher(fact), event_day(fact), event_kind(fact) as u16) {
            assert(publisher(more[n]) == triple.0);
        }
    }
    assert(publisher_day_kinds(more) =~= kinds);
}

/// One more record keeps the largest number of kinds exact.
proof fn lemma_largest_publisher(facts: Seq<Seq<u8>>, fact: Seq<u8>, bound: int)
    requires
        largest_publisher_kinds(facts, bound),
        0 <= bound,
        event_kind(fact) <= u16::MAX,
    ensures
        ({
            let size = kinds_where(facts.push(fact), by_publisher(publisher(fact))).len();
            largest_publisher_kinds(
                facts.push(fact),
                if size > bound {
                    size as int
                } else {
                    bound
                },
            )
        }),
{
    let more = facts.push(fact);
    let n = facts.len() as int;
    let who = publisher(fact);
    let current = kinds_where(more, by_publisher(who));
    let next = if current.len() > bound {
        current.len() as int
    } else {
        bound
    };
    lemma_kinds_finite(more, by_publisher(who));
    lemma_kinds_push(facts, fact, by_publisher(who));
    assert(current.contains(event_kind(fact) as u16));
    assert(current.len() >= 1) by {
        vstd::set::axiom_set_contains_len(current, event_kind(fact) as u16);
    }
    assert(more[n] == fact);
    assert forall|i: int| 0 <= i < more.len() implies kinds_where(
        more,
        by_publisher(publisher(#[trigger] more[i])),
    ).len() <= next by {
        if i < n {
            assert(more[i] == facts[i]);
            lemma_kinds_push(facts, fact, by_publisher(publisher(facts[i])));
        }
    }
    if current.len() > bound {
        assert(kinds_where(more, by_publisher(publisher(more[n]))).len() == next);
    } else {
        let i = choose|i: int|
            0 <= i < facts.len() && kinds_where(
                facts,
                by_publisher(publisher(#[trigger] facts[i])),
            ).len() == bound;
        assert(more[i] == facts[i]);
        let its = publisher(facts[i]);
        lemma_kinds_push(facts, fact, by_publisher(its));
        lemma_kinds_finite(facts, by_publisher(its));
        if its == who {
            assert(kinds_where(more, by_publisher(its)) == current);
            assert(current.len() >= kinds_where(facts, by_publisher(its)).len());
        }
        assert(kinds_where(more, by_publisher(publisher(more[i]))).len() == bound);
    }
}

/// Count the daily publisher facts of the records up to `as_of`.
pub fn count_days(activity: &[u8], as_of: u64) -> (outcome: Result<(DayCounter, u64)>)
    ensures
        outcome is Ok <==> activity_stream(activity@),
        match outcome {
            Ok((counter, records)) => {
                &&& counter.counts(eligible(activity@, as_of as int))
                &&& records == record_count(activity@, 70)
            },
            Err(error) => error is Invalid,
        },
{
    let ghost bytes = activity@;
    let ghost total = record_count(bytes, 70);
    let mut reader: ActivityReader = ActivityReader::open(activity);
    let mut counter: DayCounter = DayCounter::new();
    let mut current: Option<[u8; 32]> = None;
    let mut records: u64 = 0;
    loop
        invariant
            bytes == activity@,
            total == record_count(bytes, 70),
            reader.wf(),
            reader.source() == bytes,
            reader.position() == records,
            0 <= records <= total,
            counter.counts(eligible_facts(bytes, as_of as int, records as int)),
            counter.tracks(eligible_facts(bytes, as_of as int, records as int)),
            periods_advance(Grain::Day, eligible_facts(bytes, as_of as int, records as int)),
            ({
                let facts = eligible_facts(bytes, as_of as int, records as int);
                &&& current is None <==> facts.len() == 0
                &&& facts.len() > 0 ==> current->0@ == publisher(facts.last())
                &&& facts.len() <= records
            }),
        ensures
            records == total,
            activity_stream(bytes),
        decreases total - records,
    {
        let ghost facts = eligible_facts(bytes, as_of as int, records as int);
        proof {
            reader.lemma_position();
        }
        match reader.next() {
            Ok(None) => {
                break ;
            },
            Ok(Some(found)) => {
                let ghost fact = activity_fact(bytes, records as int);
                proof {
                    reader.lemma_position();
                    lemma_eligible_grouped(bytes, as_of as int, records + 1);
                }
                if found.created_at as u64 <= as_of {
                    let new_group: bool = match &current {
                        None => true,
                        Some(pubkey) => !bytes_equal(pubkey.as_slice(), found.pubkey.as_slice()),
                    };
                    let day: u32 = found.created_at / 86_400;
                    proof {
                        assert(eligible_facts(bytes, as_of as int, records + 1) == facts.push(fact));
                        assert(periods_advance(Grain::Day, facts.push(fact))) by {
                            lemma_days_advance(facts, fact);
                        }
                    }
                    counter.observe(found.kind, day, new_group, Ghost(facts), Ghost(fact));
                    current = Some(found.pubkey);
                }
                records = records + 1;
            },
            Err(error) => {
                return Err(error);
            },
        }
    }
    Ok((counter, records))
}

/// Days of a publisher advance with time.
proof fn lemma_days_advance(facts: Seq<Seq<u8>>, fact: Seq<u8>)
    requires
        grouped(facts.push(fact)),
        periods_advance(Grain::Day, facts),
    ensures
        periods_advance(Grain::Day, facts.push(fact)),
{
    let more = facts.push(fact);
    lemma_grouped_prefix(facts, fact);
    assert forall|i: int, j: int|
        0 <= i < j < more.len() && publisher(#[trigger] more[i]) == publisher(
            #[trigger] more[j],
        ) implies period_of(Grain::Day, more[i]) is Some && period_of(Grain::Day, more[j]) is Some
        && period_of(Grain::Day, more[i])->0 <= period_of(Grain::Day, more[j])->0 by {
        assert(more[i] == facts[i]);
        if j < facts.len() {
            assert(more[j] == facts[j]);
        } else {
            assert(created_at(facts[i]) <= created_at(fact));
        }
    }
}

} // verus!
