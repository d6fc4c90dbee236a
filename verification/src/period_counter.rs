//! Exact publisher and event counts for every period of one grain.

use std::collections::{BTreeMap, BTreeSet};
use vstd::prelude::*;

use crate::activity::{event_day, event_kind, grouped, publisher};
use crate::bytes::lemma_lex_antisymmetric;
use crate::calendar::{first_of_month, monday};
use crate::ordered::{insert_member, list, lists_map, member_count, store, value_or};
use crate::publishers::{
    events_where, kinds_where, lemma_events_push, lemma_grouped_prefix, lemma_kinds_finite,
    lemma_kinds_push, lemma_new_group, lemma_publisher_order, lemma_publishers_finite,
    lemma_publishers_push, publisher_order, publishers_where, starts_group,
};
use crate::records::record;

verus! {

/// Flag of a publisher with an observed profile.
pub const PROFILE_FLAG: u8 = 1;

/// Flag of a publisher with an observed follows list.
pub const FOLLOWS_FLAG: u8 = 2;

/// Length of the periods that are counted.
#[derive(Clone, Copy, Debug, PartialEq, Eq, Structural)]
pub enum Grain {
    /// UTC days.
    Day,
    /// Weeks that start on Monday.
    Week,
    /// Calendar months.
    Month,
}

/// First day of the period that holds a day.
pub open spec fn period_of_day(grain: Grain, day: int) -> Option<int> {
    match grain {
        Grain::Day => Some(day),
        Grain::Week => Some(monday(day)),
        Grain::Month => first_of_month(day),
    }
}

/// First day of the period that holds a record.
pub open spec fn period_of(grain: Grain, fact: Seq<u8>) -> Option<int> {
    period_of_day(grain, event_day(fact))
}

/// The record falls in the period and, where a kind is given, has this kind.
pub open spec fn in_scope(grain: Grain, period: int, kind: Option<u16>) -> spec_fn(
    Seq<u8>,
) -> bool {
    |fact: Seq<u8>|
        {
            &&& period_of(grain, fact) == Some(period)
            &&& kind matches Some(k) ==> event_kind(fact) == k
        }
}

/// Kinds 445 and 1059 do not make a publisher active.
pub open spec fn is_active_kind(kind: int) -> bool {
    kind != 445 && kind != 1_059
}

/// The record falls in the period and makes its publisher active there.
pub open spec fn active_in(grain: Grain, period: int) -> spec_fn(Seq<u8>) -> bool {
    |fact: Seq<u8>|
        {
            &&& period_of(grain, fact) == Some(period)
            &&& is_active_kind(event_kind(fact) as int)
        }
}

/// The record belongs to the publisher and falls in the period.
pub open spec fn of_publisher(grain: Grain, period: int, who: Seq<u8>) -> spec_fn(
    Seq<u8>,
) -> bool {
    |fact: Seq<u8>|
        {
            &&& period_of(grain, fact) == Some(period)
            &&& publisher(fact) == who
        }
}

/// Number of distinct publishers in a period, of one kind or of all.
pub open spec fn distinct_publishers(
    facts: Seq<Seq<u8>>,
    grain: Grain,
    period: int,
    kind: Option<u16>,
) -> nat {
    publishers_where(facts, in_scope(grain, period, kind)).len()
}

/// The flag byte of record `index` of a flags artifact.
pub open spec fn flag_byte(flags: Seq<u8>, index: int) -> u8 {
    record(flags, 33, index)[32]
}

/// The publisher's flags, stored at its place in the publisher order, hold all
/// bits of `mask`.
pub open spec fn flagged(facts: Seq<Seq<u8>>, flags: Seq<u8>, mask: u8, who: Seq<u8>) -> bool {
    exists|k: int|
        0 <= k < publisher_order(facts).len() && #[trigger] publisher_order(facts)[k] == who
            && flag_byte(flags, k) & mask == mask
}

/// The publishers active in a period whose flags hold all bits of `mask`.
pub open spec fn active_publishers(
    facts: Seq<Seq<u8>>,
    flags: Seq<u8>,
    grain: Grain,
    period: int,
    mask: u8,
) -> Set<Seq<u8>> {
    publishers_where(facts, active_in(grain, period)).filter(
        |who: Seq<u8>| flagged(facts, flags, mask, who),
    )
}

/// Number of events of active kinds in a period.
pub open spec fn active_events(facts: Seq<Seq<u8>>, grain: Grain, period: int) -> nat {
    events_where(facts, active_in(grain, period))
}

/// The kinds that one publisher used in a period.
pub open spec fn publisher_kinds(
    facts: Seq<Seq<u8>>,
    grain: Grain,
    period: int,
    who: Seq<u8>,
) -> Set<u16> {
    kinds_where(facts, of_publisher(grain, period, who))
}

/// Key of a period and an optional kind; keys sort as (period, kind) with all
/// kinds first.
pub open spec fn scope_key(period: int, kind: Option<u16>) -> int {
    period * 131_072 + match kind {
        None => 0,
        Some(k) => k as int + 1,
    }
}

/// Active-user counters of one period.
#[derive(Clone, Copy, Debug, PartialEq, Eq, Structural)]
pub struct ActiveAccumulator {
    /// Publishers with an event of an active kind.
    pub active_users: u64,
    /// Of these, publishers with a profile.
    pub has_profile: u64,
    /// Of these, publishers with a follows list.
    pub has_follows_list: u64,
    /// Of these, publishers with both.
    pub has_both: u64,
    /// Events of active kinds.
    pub total_events: u64,
}

/// No activity.
pub open spec fn no_activity() -> ActiveAccumulator {
    ActiveAccumulator {
        active_users: 0,
        has_profile: 0,
        has_follows_list: 0,
        has_both: 0,
        total_events: 0,
    }
}

/// The counters hold the active-user counts of a period.
pub open spec fn counts_active(
    row: ActiveAccumulator,
    facts: Seq<Seq<u8>>,
    flags: Seq<u8>,
    grain: Grain,
    period: int,
) -> bool {
    &&& row.active_users == active_publishers(facts, flags, grain, period, 0).len()
    &&& row.has_profile == active_publishers(facts, flags, grain, period, 1).len()
    &&& row.has_follows_list == active_publishers(facts, flags, grain, period, 2).len()
    &&& row.has_both == active_publishers(facts, flags, grain, period, 3).len()
    &&& row.total_events == active_events(facts, grain, period)
}

/// `bound` is the largest number of kinds that one publisher used in one period.
pub open spec fn largest_kind_set(facts: Seq<Seq<u8>>, grain: Grain, bound: int) -> bool {
    &&& forall|i: int|
        0 <= i < facts.len() ==> publisher_kinds(
            facts,
            grain,
            period_of(grain, facts[i])->0,
            publisher(#[trigger] facts[i]),
        ).len() <= bound
    &&& bound == 0 || exists|i: int|
        0 <= i < facts.len() && publisher_kinds(
            facts,
            grain,
            period_of(grain, facts[i])->0,
            publisher(#[trigger] facts[i]),
        ).len() == bound
}

/// Value of a counter, zero where there is none.
pub open spec fn counted(map: Map<u64, u64>, key: int) -> int {
    if map.contains_key(key as u64) {
        map[key as u64] as int
    } else {
        0
    }
}

/// Active-user counters of a period, all zero where there are none.
pub open spec fn active_row(map: Map<u64, ActiveAccumulator>, period: int) -> ActiveAccumulator {
    if map.contains_key(period as u64) {
        map[period as u64]
    } else {
        no_activity()
    }
}

/// Counts of one grain over grouped records.
pub struct PeriodCounter {
    grain: Grain,
    distinct: BTreeMap<u64, u64>,
    active: BTreeMap<u64, ActiveAccumulator>,
    last: u32,
    kinds: BTreeSet<u16>,
    active_last: Option<u32>,
    max_kinds: usize,
}

impl PeriodCounter {
    /// The grain that is counted.
    pub closed spec fn grain(&self) -> Grain {
        self.grain
    }

    /// Distinct-publisher counters by scope key.
    pub closed spec fn distinct(&self) -> Map<u64, u64> {
        self.distinct@
    }

    /// Active-user counters by period.
    pub closed spec fn active(&self) -> Map<u64, ActiveAccumulator> {
        self.active@
    }

    /// Largest number of kinds of one publisher in one period.
    pub closed spec fn max_kinds(&self) -> int {
        self.max_kinds as int
    }

    /// The counters hold the exact counts of `facts`.
    pub open spec fn counts(&self, facts: Seq<Seq<u8>>, flags: Seq<u8>) -> bool {
        &&& exact_distinct(self.distinct(), facts, self.grain())
        &&& exact_active(self.active(), facts, flags, self.grain())
        &&& largest_kind_set(facts, self.grain(), self.max_kinds())
    }

    /// The state of the current publisher matches the last record.
    pub closed spec fn tracks(&self, facts: Seq<Seq<u8>>) -> bool {
        facts.len() > 0 ==> {
            let who = publisher(facts.last());
            &&& period_of(self.grain, facts.last()) == Some(self.last as int)
            &&& self.kinds@ == publisher_kinds(facts, self.grain, self.last as int, who)
            &&& forall|i: int|
                0 <= i < facts.len() && publisher(#[trigger] facts[i]) == who && is_active_kind(
                    event_kind(facts[i]) as int,
                ) ==> self.active_last is Some && (period_of(self.grain, facts[i])->0)
                    <= self.active_last->0
            &&& self.active_last is Some ==> publishers_where(
                facts,
                active_in(self.grain, self.active_last->0 as int),
            ).contains(who)
        }
    }

    /// Start counting.
    pub fn new(grain: Grain) -> (counter: Self)
        ensures
            counter.grain() == grain,
            counter.tracks(Seq::empty()),
            forall|flags: Seq<u8>| #[trigger] counter.counts(Seq::empty(), flags),
    {
        let counter = PeriodCounter {
            grain,
            distinct: BTreeMap::new(),
            active: BTreeMap::new(),
            last: 0,
            kinds: BTreeSet::new(),
            active_last: None,
            max_kinds: 0,
        };
        proof {
            let none = Seq::<Seq<u8>>::empty();
            assert forall|flags: Seq<u8>| #[trigger] counter.counts(none, flags) by {
                assert forall|period: u32, kind: Option<u16>|
                    counted(counter.distinct(), #[trigger] scope_key(period as int, kind))
                        == distinct_publishers(none, grain, period as int, kind) by {
                    lemma_publishers_finite(none, in_scope(grain, period as int, kind));
                }
                assert forall|period: u32| counts_active(
                    #[trigger] active_row(counter.active(), period as int),
                    none,
                    flags,
                    grain,
                    period as int,
                ) by {
                    let all = publishers_where(none, active_in(grain, period as int));
                    lemma_publishers_finite(none, active_in(grain, period as int));
                    assert(all =~= Set::empty());
                    assert(active_publishers(none, flags, grain, period as int, 0)
                        =~= Set::empty());
                    assert(active_publishers(none, flags, grain, period as int, 1)
                        =~= Set::empty());
                    assert(active_publishers(none, flags, grain, period as int, 2)
                        =~= Set::empty());
                    assert(active_publishers(none, flags, grain, period as int, 3)
                        =~= Set::empty());
                }
            }
        }
        counter
    }

    /// The distinct-publisher counters by increasing scope key.
    pub fn distinct_rows(&self) -> (rows: Vec<(u64, u64)>)
        ensures
            lists_map(rows@, self.distinct()),
    {
        list(&self.distinct)
    }

    /// The active-user counters by increasing period.
    pub fn active_rows(&self) -> (rows: Vec<(u64, ActiveAccumulator)>)
        ensures
            lists_map(rows@, self.active()),
    {
        list(&self.active)
    }

    /// Largest number of kinds of one publisher in one period.
    pub fn largest_kind_count(&self) -> (count: usize)
        ensures
            count == self.max_kinds(),
    {
        self.max_kinds
    }

    /// Count one more record of period `period`.
    ///
    /// `value` is the flag byte of its publisher, and `new_group` tells whether
    /// it is the first record of this publisher.
    pub(crate) fn observe(
        &mut self,
        kind: u16,
        period: u32,
        value: u8,
        new_group: bool,
        Ghost(facts): Ghost<Seq<Seq<u8>>>,
        Ghost(fact): Ghost<Seq<u8>>,
        Ghost(flags): Ghost<Seq<u8>>,
    )
        requires
            old(self).counts(facts, flags),
            old(self).tracks(facts),
            grouped(facts.push(fact)),
            periods_advance(old(self).grain(), facts.push(fact)),
            period_of(old(self).grain(), fact) == Some(period as int),
            period <= 49_710,
            kind == event_kind(fact),
            new_group == starts_group(facts, fact),
            value == flag_byte(flags, publisher_order(facts.push(fact)).len() - 1),
            facts.len() < usize::MAX,
        ensures
            final(self).counts(facts.push(fact), flags),
            final(self).tracks(facts.push(fact)),
            final(self).grain() == old(self).grain(),
    {
        let ghost grain = self.grain;
        let ghost who = publisher(fact);
        let ghost more = facts.push(fact);
        let ghost max_before = self.max_kinds as int;
        let ghost earlier = publishers_where(facts, active_in(grain, period as int));
        let repeated: bool = !new_group && self.last == period;
        proof {
            lemma_grouped_prefix(facts, fact);
            lemma_kinds_finite(more, of_publisher(grain, period as int, who));
            lemma_repeated(facts, fact, grain, period as int);
            assert(repeated == publishers_where(
                facts,
                in_scope(grain, period as int, None),
            ).contains(who));
        }
        if new_group {
            self.active_last = None;
        }
        if !repeated {
            self.kinds.clear();
            self.last = period;
        }
        let ghost kinds_before = self.kinds@;
        proof {
            if !repeated {
                assert(publisher_kinds(facts, grain, period as int, who) =~= Set::<u16>::empty());
            }
            assert(kinds_before == publisher_kinds(facts, grain, period as int, who));
            lemma_kinds_push(facts, fact, of_publisher(grain, period as int, who));
        }
        let new_kind: bool = insert_member(&mut self.kinds, kind);
        let kind_count: usize = member_count(&self.kinds);
        if kind_count > self.max_kinds {
            self.max_kinds = kind_count;
        }
        proof {
            assert(self.kinds@ == publisher_kinds(more, grain, period as int, who));
            lemma_largest_kind_set(facts, fact, grain, max_before, period as int);
            assert(largest_kind_set(more, grain, self.max_kinds as int));
            lemma_repeated_kind(facts, fact, grain, period as int, kind);
            assert(!new_kind == publishers_where(
                facts,
                in_scope(grain, period as int, Some(kind)),
            ).contains(who));
        }
        count_distinct(
            &mut self.distinct,
            period,
            kind,
            repeated,
            new_kind,
            Ghost(facts),
            Ghost(fact),
            Ghost(grain),
        );
        let active_repeated: bool = match self.active_last {
            Some(last) => last == period,
            None => false,
        };
        proof {
            assert(active_repeated == earlier.contains(who)) by {
                if earlier.contains(who) {
                    let i = choose|i: int|
                        0 <= i < facts.len() && publisher(#[trigger] facts[i]) == who && active_in(
                            grain,
                            period as int,
                        )(facts[i]);
                    if new_group {
                        lemma_new_group(facts, fact);
                    }
                    assert(self.active_last is Some);
                    let last = self.active_last->0;
                    assert(period <= last);
                    let latest = publishers_where(facts, active_in(grain, last as int));
                    assert(latest.contains(who));
                    let j = choose|j: int|
                        0 <= j < facts.len() && publisher(#[trigger] facts[j]) == who && active_in(
                            grain,
                            last as int,
                        )(facts[j]);
                    assert(more[j] == facts[j]);
                    assert(more[facts.len() as int] == fact);
                }
            }
        }
        count_active(
            &mut self.active,
            period,
            kind,
            value,
            active_repeated,
            Ghost(facts),
            Ghost(fact),
            Ghost(flags),
            Ghost(grain),
        );
        if kind != 445 && kind != 1_059 {
            self.active_last = Some(period);
        }
        proof {
            assert(more.last() == fact);
            assert forall|i: int|
                0 <= i < more.len() && publisher(#[trigger] more[i]) == who && is_active_kind(
                    event_kind(more[i]) as int,
                ) implies self.active_last is Some && (period_of(grain, more[i])->0)
                <= self.active_last->0 by {
                if i < facts.len() {
                    assert(more[i] == facts[i]);
                    if new_group {
                        lemma_new_group(facts, fact);
                    }
                    assert(period_of(grain, more[i])->0 <= period);
                }
            }
            if self.active_last is Some {
                let last = self.active_last->0;
                lemma_publishers_push(facts, fact, active_in(grain, last as int));
            }
            assert(self.tracks(more));
        }
    }
}

/// Count the publisher of one more record in its period, and in its period and
/// kind, where it was not counted there before.
#[verifier::rlimit(30)]
fn count_distinct(
    distinct: &mut BTreeMap<u64, u64>,
    period: u32,
    kind: u16,
    seen: bool,
    new_kind: bool,
    Ghost(facts): Ghost<Seq<Seq<u8>>>,
    Ghost(fact): Ghost<Seq<u8>>,
    Ghost(grain): Ghost<Grain>,
)
    requires
        period_of(grain, fact) == Some(period as int),
        kind == event_kind(fact),
        period <= 49_710,
        facts.len() < usize::MAX,
        seen == publishers_where(facts, in_scope(grain, period as int, None)).contains(
            publisher(fact),
        ),
        new_kind == !publishers_where(
            facts,
            in_scope(grain, period as int, Some(kind)),
        ).contains(publisher(fact)),
        exact_distinct(old(distinct)@, facts, grain),
    ensures
        exact_distinct(final(distinct)@, facts.push(fact), grain),
{
    let ghost before = distinct@;
    let all_kinds: u64 = period as u64 * 131_072;
    let one_kind: u64 = all_kinds + kind as u64 + 1;
    proof {
        lemma_publishers_finite(facts, in_scope(grain, period as int, None));
        lemma_publishers_finite(facts, in_scope(grain, period as int, Some(kind)));
        assert(counted(before, scope_key(period as int, None)) == distinct_publishers(
            facts,
            grain,
            period as int,
            None,
        ));
        assert(counted(before, scope_key(period as int, Some(kind))) == distinct_publishers(
            facts,
            grain,
            period as int,
            Some(kind),
        ));
    }
    proof {
        assert(all_kinds as int / 131_072 == period && all_kinds as int % 131_072 == 0);
        assert(one_kind as int / 131_072 == period && one_kind as int % 131_072 == kind + 1);
    }
    if !seen {
        let count: u64 = value_or(distinct, all_kinds, 0);
        store(distinct, all_kinds, count + 1);
    }
    if new_kind {
        let count: u64 = value_or(distinct, one_kind, 0);
        store(distinct, one_kind, count + 1);
    }
    proof {
        lemma_distinct_step(facts, fact, grain, period, kind, before, distinct@);
        assert forall|key: u64| #[trigger] distinct@.contains_key(key) implies {
            &&& distinct@[key] > 0
            &&& key as int / 131_072 <= 49_710
            &&& key as int % 131_072 <= 65_536
        } by {
            if key != all_kinds && key != one_kind {
                assert(before.contains_key(key));
            }
        }
    }
}

/// Count one more record, and its publisher where it was not active in the
/// period before.
fn count_active(
    active: &mut BTreeMap<u64, ActiveAccumulator>,
    period: u32,
    kind: u16,
    value: u8,
    seen: bool,
    Ghost(facts): Ghost<Seq<Seq<u8>>>,
    Ghost(fact): Ghost<Seq<u8>>,
    Ghost(flags): Ghost<Seq<u8>>,
    Ghost(grain): Ghost<Grain>,
)
    requires
        grouped(facts.push(fact)),
        period_of(grain, fact) == Some(period as int),
        kind == event_kind(fact),
        period <= 49_710,
        facts.len() < usize::MAX,
        value == flag_byte(flags, publisher_order(facts.push(fact)).len() - 1),
        seen == publishers_where(facts, active_in(grain, period as int)).contains(
            publisher(fact),
        ),
        exact_active(old(active)@, facts, flags, grain),
    ensures
        exact_active(final(active)@, facts.push(fact), flags, grain),
{
    let ghost before = active@;
    if kind != 445 && kind != 1_059 {
        let row: ActiveAccumulator = value_or(
            active,
            period as u64,
            ActiveAccumulator {
                active_users: 0,
                has_profile: 0,
                has_follows_list: 0,
                has_both: 0,
                total_events: 0,
            },
        );
        proof {
            assert(row == active_row(before, period as int));
            lemma_active_bound(facts, flags, grain, period as int);
        }
        let next: ActiveAccumulator = add_active(row, !seen, value);
        store(active, period as u64, next);
        proof {
            if seen {
                let who = publisher(fact);
                let earlier = publishers_where(facts, active_in(grain, period as int));
                lemma_grouped_prefix(facts, fact);
                lemma_mask_zero(facts, flags, grain, period as int);
                lemma_publishers_finite(facts, active_in(grain, period as int));
                vstd::set::axiom_set_contains_len(earlier, who);
            }
            assert(next.active_users > 0);
        }
    }
    proof {
        lemma_active_step(facts, fact, flags, grain, period, before, active@, value);
    }
}

/// The counters hold the distinct publishers of every period and kind, there is
/// no counter at zero, and every period starts in the `u32` range of seconds.
pub open spec fn exact_distinct(
    map: Map<u64, u64>,
    facts: Seq<Seq<u8>>,
    grain: Grain,
) -> bool {
    &&& forall|period: u32, kind: Option<u16>|
        counted(map, #[trigger] scope_key(period as int, kind)) == distinct_publishers(
            facts,
            grain,
            period as int,
            kind,
        )
    &&& forall|key: u64| #[trigger]
        map.contains_key(key) ==> {
            &&& map[key] > 0
            &&& key as int / 131_072 <= 49_710
            &&& key as int % 131_072 <= 65_536
        }
}

/// The counters hold the active-user counts of every period, and there are
/// none without an active user.
pub open spec fn exact_active(
    map: Map<u64, ActiveAccumulator>,
    facts: Seq<Seq<u8>>,
    flags: Seq<u8>,
    grain: Grain,
) -> bool {
    &&& forall|period: u32|
        counts_active(
            #[trigger] active_row(map, period as int),
            facts,
            flags,
            grain,
            period as int,
        )
    &&& forall|key: u64| #[trigger]
        map.contains_key(key) ==> map[key].active_users > 0 && key <= 49_710
}

/// Periods of one publisher run forward.
pub open spec fn periods_advance(grain: Grain, facts: Seq<Seq<u8>>) -> bool {
    forall|i: int, j: int|
        0 <= i < j < facts.len() && publisher(#[trigger] facts[i]) == publisher(
            #[trigger] facts[j],
        ) ==> period_of(grain, facts[i]) is Some && period_of(grain, facts[j]) is Some
            && period_of(grain, facts[i])->0 <= period_of(grain, facts[j])->0
}

/// The publisher of a further record was seen in its period exactly where the
/// record before it has the same publisher and period.
pub(crate) proof fn lemma_repeated(facts: Seq<Seq<u8>>, fact: Seq<u8>, grain: Grain, period: int)
    requires
        grouped(facts.push(fact)),
        periods_advance(grain, facts.push(fact)),
        period_of(grain, fact) == Some(period),
    ensures
        publishers_where(facts, in_scope(grain, period, None)).contains(publisher(fact)) <==> (
        !starts_group(facts, fact) && period_of(grain, facts.last()) == Some(period)),
        forall|i: int|
            0 <= i < facts.len() && publisher(#[trigger] facts[i]) == publisher(fact) && period_of(
                grain,
                facts[i],
            ) == Some(period) ==> !starts_group(facts, fact) && period_of(grain, facts.last())
                == Some(period),
{
    let more = facts.push(fact);
    let who = publisher(fact);
    let n = facts.len() as int;
    assert forall|i: int|
        0 <= i < facts.len() && publisher(#[trigger] facts[i]) == who && period_of(grain, facts[i])
            == Some(period) implies !starts_group(facts, fact) && period_of(grain, facts.last())
        == Some(period) by {
        if starts_group(facts, fact) {
            lemma_new_group(facts, fact);
        }
        assert(more[i] == facts[i]);
        assert(more[n - 1] == facts.last());
        assert(more[n] == fact);
        if i < n - 1 {
            assert(publisher(more[i]) == publisher(more[n - 1]));
        }
        assert(publisher(more[n - 1]) == publisher(more[n]));
    }
    if !starts_group(facts, fact) && period_of(grain, facts.last()) == Some(period) {
        assert(publisher(facts[n - 1]) == who);
    }
}

/// The publisher of a further record was seen in its period with its kind
/// exactly where the kind is one that the publisher used there.
proof fn lemma_repeated_kind(
    facts: Seq<Seq<u8>>,
    fact: Seq<u8>,
    grain: Grain,
    period: int,
    kind: u16,
)
    ensures
        publishers_where(facts, in_scope(grain, period, Some(kind))).contains(publisher(fact))
            <==> publisher_kinds(facts, grain, period, publisher(fact)).contains(kind),
{
    let who = publisher(fact);
    let scoped = publishers_where(facts, in_scope(grain, period, Some(kind)));
    let kinds = publisher_kinds(facts, grain, period, who);
    if scoped.contains(who) {
        let i = choose|i: int|
            0 <= i < facts.len() && publisher(#[trigger] facts[i]) == who && in_scope(
                grain,
                period,
                Some(kind),
            )(facts[i]);
        assert(event_kind(facts[i]) == kind);
    }
    if kinds.contains(kind) {
        let i = choose|i: int|
            0 <= i < facts.len() && event_kind(#[trigger] facts[i]) == kind && of_publisher(
                grain,
                period,
                who,
            )(facts[i]);
        assert(publisher(facts[i]) == who);
    }
}

/// One more record keeps the distinct-publisher counters exact.
proof fn lemma_distinct_step(
    facts: Seq<Seq<u8>>,
    fact: Seq<u8>,
    grain: Grain,
    period: u32,
    kind: u16,
    before: Map<u64, u64>,
    after: Map<u64, u64>,
)
    requires
        period_of(grain, fact) == Some(period as int),
        kind == event_kind(fact),
        facts.len() < u64::MAX,
        forall|p: u32, k: Option<u16>|
            counted(before, #[trigger] scope_key(p as int, k)) == distinct_publishers(
                facts,
                grain,
                p as int,
                k,
            ),
        ({
            let who = publisher(fact);
            let seen = publishers_where(facts, in_scope(grain, period as int, None)).contains(who);
            let seen_kind = publishers_where(
                facts,
                in_scope(grain, period as int, Some(kind)),
            ).contains(who);
            let all_kinds = scope_key(period as int, None);
            let one_kind = scope_key(period as int, Some(kind));
            let first = if seen {
                before
            } else {
                before.insert(all_kinds as u64, (counted(before, all_kinds) + 1) as u64)
            };
            after == if seen_kind {
                first
            } else {
                first.insert(one_kind as u64, (counted(before, one_kind) + 1) as u64)
            }
        }),
    ensures
        forall|p: u32, k: Option<u16>|
            counted(after, #[trigger] scope_key(p as int, k)) == distinct_publishers(
                facts.push(fact),
                grain,
                p as int,
                k,
            ),
{
    let more = facts.push(fact);
    let who = publisher(fact);
    assert forall|p: u32, k: Option<u16>|
        counted(after, #[trigger] scope_key(p as int, k)) == distinct_publishers(
            more,
            grain,
            p as int,
            k,
        ) by {
        let keep = in_scope(grain, p as int, k);
        lemma_publishers_push(facts, fact, keep);
        lemma_publishers_finite(facts, keep);
        let key = scope_key(p as int, k);
        assert(counted(before, key) == distinct_publishers(facts, grain, p as int, k));
        assert(0 <= key <= u64::MAX);
        let all_kinds = scope_key(period as int, None);
        let one_kind = scope_key(period as int, Some(kind));
        assert(counted(before, all_kinds) == distinct_publishers(
            facts,
            grain,
            period as int,
            None,
        ));
        assert(counted(before, one_kind) == distinct_publishers(
            facts,
            grain,
            period as int,
            Some(kind),
        ));
        lemma_publishers_finite(facts, in_scope(grain, period as int, None));
        lemma_publishers_finite(facts, in_scope(grain, period as int, Some(kind)));
        if keep(fact) {
            assert(p == period);
            assert(k is None || k == Some(kind));
        } else {
            assert(key != all_kinds);
            assert(key != one_kind);
        }
    }
}

/// One more record keeps the largest kind set exact.
pub(crate) proof fn lemma_largest_kind_set(
    facts: Seq<Seq<u8>>,
    fact: Seq<u8>,
    grain: Grain,
    bound: int,
    period: int,
)
    requires
        largest_kind_set(facts, grain, bound),
        0 <= bound,
        period_of(grain, fact) == Some(period),
        event_kind(fact) <= u16::MAX,
        publisher_kinds(facts.push(fact), grain, period, publisher(fact)).finite(),
    ensures
        ({
            let size = publisher_kinds(facts.push(fact), grain, period, publisher(fact)).len();
            largest_kind_set(
                facts.push(fact),
                grain,
                if size > bound {
                    size as int
                } else {
                    bound
                },
            )
        }),
{
    let more = facts.push(fact);
    let who = publisher(fact);
    let n = facts.len() as int;
    let current = publisher_kinds(more, grain, period, who);
    let size = current.len();
    let next = if size > bound {
        size as int
    } else {
        bound
    };
    lemma_kinds_push(facts, fact, of_publisher(grain, period, who));
    assert(current.contains(event_kind(fact) as u16));
    assert(size >= 1) by {
        vstd::set::axiom_set_contains_len(current, event_kind(fact) as u16);
    }
    assert(more[n] == fact);
    assert forall|i: int| 0 <= i < more.len() implies publisher_kinds(
        more,
        grain,
        period_of(grain, more[i])->0,
        publisher(#[trigger] more[i]),
    ).len() <= next by {
        if i < n {
            assert(more[i] == facts[i]);
            let its = period_of(grain, facts[i])->0;
            lemma_kinds_push(facts, fact, of_publisher(grain, its, publisher(facts[i])));
            if of_publisher(grain, its, publisher(facts[i]))(fact) {
                assert(its == period);
            }
        }
    }
    if size > bound {
        assert(publisher_kinds(more, grain, period_of(grain, more[n])->0, publisher(more[n])).len()
            == next);
    } else if bound > 0 {
        let i = choose|i: int|
            0 <= i < facts.len() && publisher_kinds(
                facts,
                grain,
                period_of(grain, facts[i])->0,
                publisher(#[trigger] facts[i]),
            ).len() == bound;
        assert(more[i] == facts[i]);
        let its = period_of(grain, facts[i])->0;
        lemma_kinds_push(facts, fact, of_publisher(grain, its, publisher(facts[i])));
        if of_publisher(grain, its, publisher(facts[i]))(fact) {
            assert(its == period);
            let old_kinds = publisher_kinds(facts, grain, period, who);
            assert(old_kinds.subset_of(current));
            vstd::set_lib::lemma_len_subset(old_kinds, current);
        }
        assert(publisher_kinds(more, grain, period_of(grain, more[i])->0, publisher(more[i])).len()
            == next);
    }
}

/// Every active publisher holds all bits of the empty mask.
proof fn lemma_mask_zero(facts: Seq<Seq<u8>>, flags: Seq<u8>, grain: Grain, period: int)
    requires
        grouped(facts),
    ensures
        active_publishers(facts, flags, grain, period, 0) == publishers_where(
            facts,
            active_in(grain, period),
        ),
{
    lemma_publisher_order(facts);
    let all = publishers_where(facts, active_in(grain, period));
    let masked = active_publishers(facts, flags, grain, period, 0);
    assert forall|who: Seq<u8>| all.contains(who) implies masked.contains(who) by {
        let i = choose|i: int|
            0 <= i < facts.len() && publisher(#[trigger] facts[i]) == who && active_in(
                grain,
                period,
            )(facts[i]);
        assert(publisher_order(facts).contains(publisher(facts[i])));
        let k = choose|k: int|
            0 <= k < publisher_order(facts).len() && publisher_order(facts)[k] == publisher(
                facts[i],
            );
        let byte = flag_byte(flags, k);
        assert(byte & 0u8 == 0u8) by (bit_vector);
        assert(publisher_order(facts)[k] == who);
    }
    assert(masked =~= all);
}

/// No active-user counter exceeds the number of records.
proof fn lemma_active_bound(facts: Seq<Seq<u8>>, flags: Seq<u8>, grain: Grain, period: int)
    ensures
        active_publishers(facts, flags, grain, period, 0).len() <= facts.len(),
        active_publishers(facts, flags, grain, period, 1).len() <= facts.len(),
        active_publishers(facts, flags, grain, period, 2).len() <= facts.len(),
        active_publishers(facts, flags, grain, period, 3).len() <= facts.len(),
        active_events(facts, grain, period) <= facts.len(),
{
    let keep = active_in(grain, period);
    lemma_publishers_finite(facts, keep);
    lemma_events_push(facts, Seq::empty(), keep);
    let all = publishers_where(facts, keep);
    vstd::set_lib::lemma_len_subset(active_publishers(facts, flags, grain, period, 0), all);
    vstd::set_lib::lemma_len_subset(active_publishers(facts, flags, grain, period, 1), all);
    vstd::set_lib::lemma_len_subset(active_publishers(facts, flags, grain, period, 2), all);
    vstd::set_lib::lemma_len_subset(active_publishers(facts, flags, grain, period, 3), all);
}

/// What one more record adds to the active publishers with a mask.
proof fn lemma_active_publishers_push(
    facts: Seq<Seq<u8>>,
    fact: Seq<u8>,
    flags: Seq<u8>,
    grain: Grain,
    period: int,
    mask: u8,
)
    requires
        grouped(facts.push(fact)),
    ensures
        ({
            let more = facts.push(fact);
            let keep = active_in(grain, period);
            let value = flag_byte(flags, publisher_order(more).len() - 1);
            let adds = keep(fact) && !publishers_where(facts, keep).contains(publisher(fact))
                && value & mask == mask;
            active_publishers(more, flags, grain, period, mask).len() == active_publishers(
                facts,
                flags,
                grain,
                period,
                mask,
            ).len() + if adds {
                1int
            } else {
                0int
            }
        }),
{
    let more = facts.push(fact);
    let who = publisher(fact);
    let keep = active_in(grain, period);
    let before = publishers_where(facts, keep);
    let after = publishers_where(more, keep);
    let order = publisher_order(facts);
    let order_after = publisher_order(more);
    let value = flag_byte(flags, order_after.len() - 1);
    lemma_grouped_prefix(facts, fact);
    lemma_publishers_push(facts, fact, keep);
    lemma_publisher_order(more);
    lemma_publisher_order(facts);
    assert(more.drop_last() =~= facts);
    assert(more.last() == fact);
    assert(order_after.last() == who);
    assert forall|q: Seq<u8>| #[trigger]
        flagged(more, flags, mask, q) == if q == who {
            value & mask == mask
        } else {
            flagged(facts, flags, mask, q)
        } by {
        if q == who {
            assert(order_after[order_after.len() - 1] == who);
            if flagged(more, flags, mask, q) {
                let k = choose|k: int|
                    0 <= k < order_after.len() && #[trigger] order_after[k] == q && flag_byte(
                        flags,
                        k,
                    ) & mask == mask;
                if k < order_after.len() - 1 {
                    lemma_lex_antisymmetric(order_after[k], order_after[order_after.len() - 1]);
                }
            }
        } else {
            if flagged(more, flags, mask, q) {
                let k = choose|k: int|
                    0 <= k < order_after.len() && #[trigger] order_after[k] == q && flag_byte(
                        flags,
                        k,
                    ) & mask == mask;
                assert(k < order.len());
                assert(order[k] == q);
            }
            if flagged(facts, flags, mask, q) {
                let k = choose|k: int|
                    0 <= k < order.len() && #[trigger] order[k] == q && flag_byte(flags, k) & mask
                        == mask;
                assert(order_after[k] == q);
            }
        }
    }
    let set_before = active_publishers(facts, flags, grain, period, mask);
    let set_after = active_publishers(more, flags, grain, period, mask);
    vstd::set_lib::lemma_len_subset(set_before, before);
    if before.contains(who) {
        let i = choose|i: int|
            0 <= i < facts.len() && publisher(#[trigger] facts[i]) == who && keep(facts[i]);
        if starts_group(facts, fact) {
            lemma_new_group(facts, fact);
        }
        assert(order_after == order);
        assert forall|q: Seq<u8>| flagged(more, flags, mask, q) == #[trigger] flagged(
            facts,
            flags,
            mask,
            q,
        ) by {}
        assert(set_after =~= set_before);
    } else if keep(fact) && value & mask == mask {
        assert(flagged(more, flags, mask, who));
        assert(set_after =~= set_before.insert(who));
        assert(!set_before.contains(who));
    } else {
        assert(set_after =~= set_before);
    }
}

/// `row` with one more event, and one more publisher where `add_publisher`.
fn add_active(row: ActiveAccumulator, add_publisher: bool, value: u8) -> (next: ActiveAccumulator)
    requires
        row.active_users < u64::MAX,
        row.has_profile < u64::MAX,
        row.has_follows_list < u64::MAX,
        row.has_both < u64::MAX,
        row.total_events < u64::MAX,
    ensures
        next.total_events == row.total_events + 1,
        next.active_users == row.active_users + adds(add_publisher, value, 0),
        add_publisher ==> next.active_users > 0,
        next.has_profile == row.has_profile + adds(add_publisher, value, 1),
        next.has_follows_list == row.has_follows_list + adds(add_publisher, value, 2),
        next.has_both == row.has_both + adds(add_publisher, value, 3),
{
    let mut next: ActiveAccumulator = row;
    next.total_events = row.total_events + 1;
    proof {
        assert(value & 0u8 == 0u8) by (bit_vector);
        assert((value & 1u8 != 0u8) == (value & 1u8 == 1u8)) by (bit_vector);
        assert((value & 2u8 != 0u8) == (value & 2u8 == 2u8)) by (bit_vector);
        assert(1u8 | 2u8 == 3u8) by (bit_vector);
    }
    if add_publisher {
        next.active_users = row.active_users + 1;
        if value & PROFILE_FLAG != 0 {
            next.has_profile = row.has_profile + 1;
        }
        if value & FOLLOWS_FLAG != 0 {
            next.has_follows_list = row.has_follows_list + 1;
        }
        if value & (PROFILE_FLAG | FOLLOWS_FLAG) == PROFILE_FLAG | FOLLOWS_FLAG {
            next.has_both = row.has_both + 1;
        }
    }
    next
}

/// One where a publisher is added and its flags hold all bits of `mask`.
spec fn adds(add_publisher: bool, value: u8, mask: u8) -> int {
    if add_publisher && value & mask == mask {
        1
    } else {
        0
    }
}

/// One more record keeps the active-user counters exact.
proof fn lemma_active_step(
    facts: Seq<Seq<u8>>,
    fact: Seq<u8>,
    flags: Seq<u8>,
    grain: Grain,
    period: u32,
    before: Map<u64, ActiveAccumulator>,
    after: Map<u64, ActiveAccumulator>,
    value: u8,
)
    requires
        grouped(facts.push(fact)),
        period_of(grain, fact) == Some(period as int),
        value == flag_byte(flags, publisher_order(facts.push(fact)).len() - 1),
        forall|p: u32|
            counts_active(#[trigger] active_row(before, p as int), facts, flags, grain, p as int),
        ({
            let who = publisher(fact);
            let seen = publishers_where(facts, active_in(grain, period as int)).contains(who);
            let row = active_row(before, period as int);
            if is_active_kind(event_kind(fact) as int) {
                &&& after == before.insert(period as u64, after[period as u64])
                &&& after[period as u64].total_events == row.total_events + 1
                &&& after[period as u64].active_users == row.active_users + adds(!seen, value, 0)
                &&& after[period as u64].has_profile == row.has_profile + adds(!seen, value, 1)
                &&& after[period as u64].has_follows_list == row.has_follows_list + adds(
                    !seen,
                    value,
                    2,
                )
                &&& after[period as u64].has_both == row.has_both + adds(!seen, value, 3)
            } else {
                after == before
            }
        }),
    ensures
        forall|p: u32|
            counts_active(
                #[trigger] active_row(after, p as int),
                facts.push(fact),
                flags,
                grain,
                p as int,
            ),
{
    let more = facts.push(fact);
    assert forall|p: u32| counts_active(
        #[trigger] active_row(after, p as int),
        more,
        flags,
        grain,
        p as int,
    ) by {
        let keep = active_in(grain, p as int);
        lemma_active_publishers_push(facts, fact, flags, grain, p as int, 0);
        lemma_active_publishers_push(facts, fact, flags, grain, p as int, 1);
        lemma_active_publishers_push(facts, fact, flags, grain, p as int, 2);
        lemma_active_publishers_push(facts, fact, flags, grain, p as int, 3);
        lemma_events_push(facts, fact, keep);
        assert(counts_active(active_row(before, p as int), facts, flags, grain, p as int));
        if keep(fact) {
            assert(p == period);
            assert(active_row(after, p as int) == after[period as u64]);
        } else {
            assert(active_row(after, p as int) == active_row(before, p as int));
        }
    }
}

} // verus!
