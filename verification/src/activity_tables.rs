//! Serving tables of the fixed-grain activity products.

use vstd::prelude::*;

use crate::calendar::{day_string, day_text};
use crate::error::Result;
use crate::ordered::lists_map;
use crate::period_counter::{
    active_publishers, active_row, counted, counts_active, distinct_publishers, exact_active,
    exact_distinct, scope_key, ActiveAccumulator, Grain, PeriodCounter,
};
use crate::text::text_equal;

verus! {

/// Exact distinct publishers for one fixed period, optionally scoped to a kind.
#[derive(Clone, Debug, PartialEq, Eq)]
pub struct DistinctPubkeysPeriod {
    /// `day`, `week`, or `month`.
    pub grain: String,
    /// ISO 8601 UTC period start.
    pub period_start: String,
    /// Event kind, or `None` for all kinds.
    pub kind: Option<u16>,
    /// Exact distinct publishers.
    pub unique_pubkeys: u64,
}

/// Exact active-user metrics for one fixed period.
#[derive(Clone, Debug, PartialEq, Eq)]
pub struct ActiveUsersPeriod {
    /// `day`, `week`, or `month`.
    pub grain: String,
    /// ISO 8601 UTC period start.
    pub period_start: String,
    /// Publishers with at least one event other than kinds 445 and 1059.
    pub active_users: u64,
    /// Active publishers with an ever-observed kind-0 event.
    pub has_profile: u64,
    /// Active publishers with an ever-observed kind-3 event.
    pub has_follows_list: u64,
    /// Active publishers with both flags.
    pub has_profile_and_follows_list: u64,
    /// Eligible events produced by active publishers.
    pub total_events: u64,
}

impl View for DistinctPubkeysPeriod {
    type V = (Seq<char>, Seq<char>, Option<u16>, u64);

    open spec fn view(&self) -> Self::V {
        (self.grain@, self.period_start@, self.kind, self.unique_pubkeys)
    }
}

impl View for ActiveUsersPeriod {
    type V = (Seq<char>, Seq<char>, ActiveAccumulator);

    open spec fn view(&self) -> Self::V {
        (
            self.grain@,
            self.period_start@,
            ActiveAccumulator {
                active_users: self.active_users,
                has_profile: self.has_profile,
                has_follows_list: self.has_follows_list,
                has_both: self.has_profile_and_follows_list,
                total_events: self.total_events,
            },
        )
    }
}

/// Name of a grain.
pub open spec fn grain_text(grain: Grain) -> Seq<char> {
    match grain {
        Grain::Day => "day"@,
        Grain::Week => "week"@,
        Grain::Month => "month"@,
    }
}

/// Place of a grain in the tables.
pub open spec fn grain_rank(grain: Grain) -> int {
    match grain {
        Grain::Day => 0,
        Grain::Week => 1,
        Grain::Month => 2,
    }
}

/// Name of a grain.
pub fn grain_name(grain: Grain) -> (name: &'static str)
    ensures
        name@ == grain_text(grain),
{
    match grain {
        Grain::Day => "day",
        Grain::Week => "week",
        Grain::Month => "month",
    }
}

/// Place of a scope in the distinct table: grain, period, all kinds, kind.
pub open spec fn scope_rank(scope: (Grain, u32, Option<u16>)) -> int {
    grain_rank(scope.0) * 0x10_0000_0000_0000 + scope_key(scope.1 as int, scope.2)
}

/// Place of a period in the active-user table: grain, period.
pub open spec fn period_rank(period: (Grain, u32)) -> int {
    grain_rank(period.0) * 0x1_0000_0000 + period.1
}

/// The row holds the distinct publishers of the scope.
pub open spec fn describes_scope(
    row: DistinctPubkeysPeriod,
    scope: (Grain, u32, Option<u16>),
    facts: Seq<Seq<u8>>,
) -> bool {
    &&& row.grain@ == grain_text(scope.0)
    &&& day_text(scope.1 as int) == Some(row.period_start@)
    &&& row.kind == scope.2
    &&& row.unique_pubkeys == distinct_publishers(facts, scope.0, scope.1 as int, scope.2)
}

/// The row holds the active-user counts of the period.
pub open spec fn describes_period(
    row: ActiveUsersPeriod,
    period: (Grain, u32),
    facts: Seq<Seq<u8>>,
    flags: Seq<u8>,
) -> bool {
    &&& row.grain@ == grain_text(period.0)
    &&& day_text(period.1 as int) == Some(row.period_start@)
    &&& counts_active(row@.2, facts, flags, period.0, period.1 as int)
}

/// `rows` lists exactly the scopes with a publisher, in order.
pub open spec fn lists_scopes(
    rows: Seq<DistinctPubkeysPeriod>,
    scopes: Seq<(Grain, u32, Option<u16>)>,
    facts: Seq<Seq<u8>>,
) -> bool {
    &&& rows.len() == scopes.len()
    &&& forall|i: int, j: int|
        0 <= i < j < scopes.len() ==> #[trigger] scope_rank(scopes[i]) < #[trigger] scope_rank(
            scopes[j],
        )
    &&& forall|i: int|
        0 <= i < rows.len() ==> #[trigger] describes_scope(rows[i], scopes[i], facts)
    &&& forall|scope: (Grain, u32, Option<u16>)| #[trigger]
        scopes.contains(scope) <==> distinct_publishers(facts, scope.0, scope.1 as int, scope.2)
            > 0
}

/// `rows` lists exactly the periods with an active user, in order.
pub open spec fn lists_periods(
    rows: Seq<ActiveUsersPeriod>,
    periods: Seq<(Grain, u32)>,
    facts: Seq<Seq<u8>>,
    flags: Seq<u8>,
) -> bool {
    &&& rows.len() == periods.len()
    &&& forall|i: int, j: int|
        0 <= i < j < periods.len() ==> #[trigger] period_rank(periods[i]) < #[trigger] period_rank(
            periods[j],
        )
    &&& forall|i: int|
        0 <= i < rows.len() ==> #[trigger] describes_period(rows[i], periods[i], facts, flags)
    &&& forall|period: (Grain, u32)| #[trigger]
        periods.contains(period) <==> active_publishers(
            facts,
            flags,
            period.0,
            period.1 as int,
            0,
        ).len() > 0
}

/// The table of distinct publishers of every period and kind.
pub open spec fn distinct_table(rows: Seq<DistinctPubkeysPeriod>, facts: Seq<Seq<u8>>) -> bool {
    exists|scopes: Seq<(Grain, u32, Option<u16>)>| #[trigger] lists_scopes(rows, scopes, facts)
}

/// The table of active users of every period.
pub open spec fn active_table(
    rows: Seq<ActiveUsersPeriod>,
    facts: Seq<Seq<u8>>,
    flags: Seq<u8>,
) -> bool {
    exists|periods: Seq<(Grain, u32)>| #[trigger] lists_periods(rows, periods, facts, flags)
}

/// Two increasing sequences with the same members are the same.
pub proof fn lemma_increasing_unique(a: Seq<int>, b: Seq<int>)
    requires
        forall|i: int, j: int| 0 <= i < j < a.len() ==> a[i] < a[j],
        forall|i: int, j: int| 0 <= i < j < b.len() ==> b[i] < b[j],
        forall|x: int| a.contains(x) <==> b.contains(x),
    ensures
        a == b,
{
    if a.len() > 0 || b.len() > 0 {
        lemma_increasing_unique_upto(a, b, if a.len() < b.len() { a.len() as int } else { b.len() as int });
        if a.len() < b.len() {
            let x = b[a.len() as int];
            assert(b.contains(x));
            let i = choose|i: int| 0 <= i < a.len() && a[i] == x;
            assert(b[i] == x);
            assert(false);
        }
        if b.len() < a.len() {
            let x = a[b.len() as int];
            assert(a.contains(x));
            let i = choose|i: int| 0 <= i < b.len() && b[i] == x;
            assert(a[i] == x);
            assert(false);
        }
    }
    assert(a =~= b);
}

proof fn lemma_increasing_unique_upto(a: Seq<int>, b: Seq<int>, n: int)
    requires
        forall|i: int, j: int| 0 <= i < j < a.len() ==> a[i] < a[j],
        forall|i: int, j: int| 0 <= i < j < b.len() ==> b[i] < b[j],
        forall|x: int| a.contains(x) <==> b.contains(x),
        0 <= n <= a.len(),
        n <= b.len(),
    ensures
        forall|i: int| 0 <= i < n ==> a[i] == b[i],
    decreases n,
{
    if n > 0 {
        lemma_increasing_unique_upto(a, b, n - 1);
        assert(a.contains(a[n - 1]));
        let j = choose|j: int| 0 <= j < b.len() && b[j] == a[n - 1];
        assert(b.contains(b[n - 1]));
        let k = choose|k: int| 0 <= k < a.len() && a[k] == b[n - 1];
        if j < n - 1 {
            assert(a[j] == b[j]);
        }
        if k < n - 1 {
            assert(a[k] == b[k]);
        }
    }
}

/// Scopes with the same rank are the same.
proof fn lemma_scope_rank(a: (Grain, u32, Option<u16>), b: (Grain, u32, Option<u16>))
    ensures
        scope_rank(a) == scope_rank(b) ==> a == b,
{
}

/// The table of distinct publishers is unique.
pub proof fn lemma_distinct_table_unique(
    left: Seq<DistinctPubkeysPeriod>,
    right: Seq<DistinctPubkeysPeriod>,
    facts: Seq<Seq<u8>>,
)
    requires
        distinct_table(left, facts),
    ensures
        distinct_table(right, facts) <==> same_distinct(left, right),
{
    let a = choose|scopes: Seq<(Grain, u32, Option<u16>)>| #[trigger]
        lists_scopes(left, scopes, facts);
    if distinct_table(right, facts) {
        let b = choose|scopes: Seq<(Grain, u32, Option<u16>)>| #[trigger]
            lists_scopes(right, scopes, facts);
        let ra = a.map_values(|s: (Grain, u32, Option<u16>)| scope_rank(s));
        let rb = b.map_values(|s: (Grain, u32, Option<u16>)| scope_rank(s));
        assert forall|x: int| ra.contains(x) <==> rb.contains(x) by {
            if ra.contains(x) {
                let i = choose|i: int| 0 <= i < ra.len() && ra[i] == x;
                assert(a.contains(a[i]));
                assert(b.contains(a[i]));
                let j = choose|j: int| 0 <= j < b.len() && b[j] == a[i];
                assert(rb[j] == x);
            }
            if rb.contains(x) {
                let i = choose|i: int| 0 <= i < rb.len() && rb[i] == x;
                assert(b.contains(b[i]));
                assert(a.contains(b[i]));
                let j = choose|j: int| 0 <= j < a.len() && a[j] == b[i];
                assert(ra[j] == x);
            }
        }
        lemma_increasing_unique(ra, rb);
        assert(ra.len() == rb.len());
        assert forall|i: int| 0 <= i < left.len() implies (#[trigger] left[i])@ == right[i]@ by {
            assert(ra[i] == rb[i]);
            lemma_scope_rank(a[i], b[i]);
            assert(describes_scope(left[i], a[i], facts));
            assert(describes_scope(right[i], b[i], facts));
        }
    }
    if same_distinct(left, right) {
        assert forall|i: int| 0 <= i < right.len() implies #[trigger] describes_scope(
            right[i],
            a[i],
            facts,
        ) by {
            assert(left[i]@ == right[i]@);
            assert(describes_scope(left[i], a[i], facts));
        }
        assert(lists_scopes(right, a, facts));
    }
}

/// The table of active users is unique.
pub proof fn lemma_active_table_unique(
    left: Seq<ActiveUsersPeriod>,
    right: Seq<ActiveUsersPeriod>,
    facts: Seq<Seq<u8>>,
    flags: Seq<u8>,
)
    requires
        active_table(left, facts, flags),
    ensures
        active_table(right, facts, flags) <==> same_active(left, right),
{
    let a = choose|periods: Seq<(Grain, u32)>| #[trigger]
        lists_periods(left, periods, facts, flags);
    if active_table(right, facts, flags) {
        let b = choose|periods: Seq<(Grain, u32)>| #[trigger]
            lists_periods(right, periods, facts, flags);
        let ra = a.map_values(|s: (Grain, u32)| period_rank(s));
        let rb = b.map_values(|s: (Grain, u32)| period_rank(s));
        assert forall|x: int| ra.contains(x) <==> rb.contains(x) by {
            if ra.contains(x) {
                let i = choose|i: int| 0 <= i < ra.len() && ra[i] == x;
                assert(a.contains(a[i]));
                assert(b.contains(a[i]));
                let j = choose|j: int| 0 <= j < b.len() && b[j] == a[i];
                assert(rb[j] == x);
            }
            if rb.contains(x) {
                let i = choose|i: int| 0 <= i < rb.len() && rb[i] == x;
                assert(b.contains(b[i]));
                assert(a.contains(b[i]));
                let j = choose|j: int| 0 <= j < a.len() && a[j] == b[i];
                assert(ra[j] == x);
            }
        }
        lemma_increasing_unique(ra, rb);
        assert(ra.len() == rb.len());
        assert forall|i: int| 0 <= i < left.len() implies (#[trigger] left[i])@ == right[i]@ by {
            assert(ra[i] == rb[i]);
            assert(a[i] == b[i]);
            assert(describes_period(left[i], a[i], facts, flags));
            assert(describes_period(right[i], b[i], facts, flags));
        }
    }
    if same_active(left, right) {
        assert forall|i: int| 0 <= i < right.len() implies #[trigger] describes_period(
            right[i],
            a[i],
            facts,
            flags,
        ) by {
            assert(left[i]@ == right[i]@);
            assert(describes_period(left[i], a[i], facts, flags));
        }
        assert(lists_periods(right, a, facts, flags));
    }
}

/// Append the distinct-publisher rows of one grain.
///
/// `scopes` lists the rows that `out` already has, all of earlier grains.
fn push_distinct_rows(
    out: &mut Vec<DistinctPubkeysPeriod>,
    counter: &PeriodCounter,
    grain: Grain,
    Ghost(facts): Ghost<Seq<Seq<u8>>>,
    Ghost(scopes): Ghost<Seq<(Grain, u32, Option<u16>)>>,
) -> (listed: Ghost<Seq<(Grain, u32, Option<u16>)>>)
    requires
        counter.grain() == grain,
        exact_distinct(counter.distinct(), facts, grain),
        lists_grains(old(out)@, scopes, facts, grain_rank(grain)),
    ensures
        lists_grains(final(out)@, listed@, facts, grain_rank(grain) + 1),
{
    let ghost base = scopes;
    let ghost mut listed = scopes;
    let rows: Vec<(u64, u64)> = counter.distinct_rows();
    let ghost map = counter.distinct();
    let mut i: usize = 0;
    while i < rows.len()
        invariant
            i <= rows.len(),
            map == counter.distinct(),
            exact_distinct(map, facts, grain),
            lists_map(rows@, map),
            out@.len() == listed.len(),
            listed.len() == base.len() + i,
            lists_grains(out@.take(base.len() as int), base, facts, grain_rank(grain)),
            forall|j: int| 0 <= j < base.len() ==> listed[j] == base[j],
            forall|j: int|
                0 <= j < i ==> (#[trigger] listed[base.len() + j]).0 == grain && scope_key(
                    listed[base.len() + j].1 as int,
                    listed[base.len() + j].2,
                ) == rows@[j].0,
            forall|j: int|
                0 <= j < out@.len() ==> #[trigger] describes_scope(out@[j], listed[j], facts),
        decreases rows.len() - i,
    {
        let key: u64 = rows[i].0;
        let count: u64 = rows[i].1;
        proof {
            assert(map.contains_key(rows@[i as int].0));
            assert(key as int / 131_072 <= 49_710);
        }
        let period: u32 = (key / 131_072) as u32;
        let code: u64 = key % 131_072;
        let kind: Option<u16> = if code == 0 {
            None
        } else {
            Some((code - 1) as u16)
        };
        proof {
            assert(scope_key(period as int, kind) == key);
            assert(counted(map, scope_key(period as int, kind)) == count);
        }
        let start: Result<String> = day_string(period);
        assert(start is Ok);
        if let Ok(period_start) = start {
            let row: DistinctPubkeysPeriod = DistinctPubkeysPeriod {
                grain: grain_name(grain).to_owned(),
                period_start,
                kind,
                unique_pubkeys: count,
            };
            let ghost before = out@;
            out.push(row);
            proof {
                listed = listed.push((grain, period, kind));
                assert(out@.take(base.len() as int) =~= before.take(base.len() as int));
                assert(describes_scope(row, (grain, period, kind), facts));
            }
        }
        i += 1;
    }
    proof {
        lemma_grain_complete(out@, base, listed, rows@, map, facts, grain);
    }
    Ghost(listed)
}

/// `rows` lists the scopes of the first `grains` grains.
pub open spec fn lists_grains(
    rows: Seq<DistinctPubkeysPeriod>,
    scopes: Seq<(Grain, u32, Option<u16>)>,
    facts: Seq<Seq<u8>>,
    grains: int,
) -> bool {
    &&& rows.len() == scopes.len()
    &&& forall|i: int, j: int|
        0 <= i < j < scopes.len() ==> #[trigger] scope_rank(scopes[i]) < #[trigger] scope_rank(
            scopes[j],
        )
    &&& forall|i: int|
        0 <= i < rows.len() ==> #[trigger] describes_scope(rows[i], scopes[i], facts)
    &&& forall|scope: (Grain, u32, Option<u16>)| #[trigger]
        scopes.contains(scope) <==> (grain_rank(scope.0) < grains && distinct_publishers(
            facts,
            scope.0,
            scope.1 as int,
            scope.2,
        ) > 0)
}

/// Rows that follow a counter complete the table with its grain.
proof fn lemma_grain_complete(
    out: Seq<DistinctPubkeysPeriod>,
    base: Seq<(Grain, u32, Option<u16>)>,
    listed: Seq<(Grain, u32, Option<u16>)>,
    rows: Seq<(u64, u64)>,
    map: Map<u64, u64>,
    facts: Seq<Seq<u8>>,
    grain: Grain,
)
    requires
        exact_distinct(map, facts, grain),
        lists_map(rows, map),
        out.len() == listed.len(),
        listed.len() == base.len() + rows.len(),
        lists_grains(out.take(base.len() as int), base, facts, grain_rank(grain)),
        forall|j: int| 0 <= j < base.len() ==> listed[j] == base[j],
        forall|j: int|
            0 <= j < rows.len() ==> (#[trigger] listed[base.len() + j]).0 == grain && scope_key(
                listed[base.len() + j].1 as int,
                listed[base.len() + j].2,
            ) == rows[j].0,
        forall|j: int| 0 <= j < out.len() ==> #[trigger] describes_scope(out[j], listed[j], facts),
    ensures
        lists_grains(out, listed, facts, grain_rank(grain) + 1),
{
    let n = base.len() as int;
    assert forall|i: int, j: int| 0 <= i < j < listed.len() implies #[trigger] scope_rank(listed[i])
        < #[trigger] scope_rank(listed[j]) by {
        if j < n {
            assert(scope_rank(base[i]) < scope_rank(base[j]));
        } else {
            assert(listed[n + (j - n)].0 == grain);
            if i < n {
                assert(base.contains(base[i]));
                assert(grain_rank(listed[i].0) < grain_rank(grain));
            } else {
                assert(listed[n + (i - n)].0 == grain);
                assert(rows[i - n].0 < rows[j - n].0);
            }
        }
    }
    assert forall|scope: (Grain, u32, Option<u16>)| #[trigger]
        listed.contains(scope) <==> (grain_rank(scope.0) < grain_rank(grain) + 1
            && distinct_publishers(facts, scope.0, scope.1 as int, scope.2) > 0) by {
        let key = scope_key(scope.1 as int, scope.2);
        if listed.contains(scope) {
            let j = choose|j: int| 0 <= j < listed.len() && listed[j] == scope;
            if j < n {
                assert(base.contains(base[j]));
            } else {
                assert(listed[n + (j - n)].0 == grain);
                assert(map.contains_key(rows[j - n].0));
                assert(counted(map, key) == distinct_publishers(
                    facts,
                    grain,
                    scope.1 as int,
                    scope.2,
                ));
            }
        }
        if grain_rank(scope.0) < grain_rank(grain) && distinct_publishers(
            facts,
            scope.0,
            scope.1 as int,
            scope.2,
        ) > 0 {
            assert(base.contains(scope));
            let j = choose|j: int| 0 <= j < base.len() && base[j] == scope;
            assert(listed[j] == scope);
        }
        if scope.0 == grain && distinct_publishers(facts, scope.0, scope.1 as int, scope.2) > 0 {
            assert(counted(map, key) == distinct_publishers(
                facts,
                grain,
                scope.1 as int,
                scope.2,
            ));
            assert(map.contains_key(key as u64));
            let j = choose|j: int| 0 <= j < rows.len() && #[trigger] rows[j].0 == key as u64;
            let found = listed[n + j];
            assert(found.0 == grain && scope_key(found.1 as int, found.2) == rows[j].0);
            lemma_scope_rank(found, scope);
            assert(found == scope);
        }
    }
}

/// Append the active-user rows of one grain.
///
/// `periods` lists the rows that `out` already has, all of earlier grains.
fn push_active_rows(
    out: &mut Vec<ActiveUsersPeriod>,
    counter: &PeriodCounter,
    grain: Grain,
    Ghost(facts): Ghost<Seq<Seq<u8>>>,
    Ghost(flags): Ghost<Seq<u8>>,
    Ghost(periods): Ghost<Seq<(Grain, u32)>>,
) -> (listed: Ghost<Seq<(Grain, u32)>>)
    requires
        counter.grain() == grain,
        exact_active(counter.active(), facts, flags, grain),
        lists_active_grains(old(out)@, periods, facts, flags, grain_rank(grain)),
    ensures
        lists_active_grains(final(out)@, listed@, facts, flags, grain_rank(grain) + 1),
{
    let ghost base = periods;
    let ghost mut listed = periods;
    let rows: Vec<(u64, ActiveAccumulator)> = counter.active_rows();
    let ghost map = counter.active();
    let mut i: usize = 0;
    while i < rows.len()
        invariant
            i <= rows.len(),
            map == counter.active(),
            exact_active(map, facts, flags, grain),
            lists_map(rows@, map),
            out@.len() == listed.len(),
            listed.len() == base.len() + i,
            lists_active_grains(out@.take(base.len() as int), base, facts, flags, grain_rank(grain)),
            forall|j: int| 0 <= j < base.len() ==> listed[j] == base[j],
            forall|j: int|
                0 <= j < i ==> (#[trigger] listed[base.len() + j]) == (grain, rows@[j].0 as u32),
            forall|j: int|
                0 <= j < out@.len() ==> #[trigger] describes_period(
                    out@[j],
                    listed[j],
                    facts,
                    flags,
                ),
        decreases rows.len() - i,
    {
        let key: u64 = rows[i].0;
        let counts: ActiveAccumulator = rows[i].1;
        proof {
            assert(map.contains_key(rows@[i as int].0));
        }
        let period: u32 = key as u32;
        proof {
            assert(active_row(map, period as int) == counts);
        }
        let start: Result<String> = day_string(period);
        assert(start is Ok);
        if let Ok(period_start) = start {
            let row: ActiveUsersPeriod = ActiveUsersPeriod {
                grain: grain_name(grain).to_owned(),
                period_start,
                active_users: counts.active_users,
                has_profile: counts.has_profile,
                has_follows_list: counts.has_follows_list,
                has_profile_and_follows_list: counts.has_both,
                total_events: counts.total_events,
            };
            let ghost before = out@;
            out.push(row);
            proof {
                listed = listed.push((grain, period));
                assert(out@.take(base.len() as int) =~= before.take(base.len() as int));
                assert(row@.2 == counts);
                assert(describes_period(row, (grain, period), facts, flags));
            }
        }
        i += 1;
    }
    proof {
        lemma_active_grain_complete(out@, base, listed, rows@, map, facts, flags, grain);
    }
    Ghost(listed)
}

/// `rows` lists the active periods of the first `grains` grains.
pub open spec fn lists_active_grains(
    rows: Seq<ActiveUsersPeriod>,
    periods: Seq<(Grain, u32)>,
    facts: Seq<Seq<u8>>,
    flags: Seq<u8>,
    grains: int,
) -> bool {
    &&& rows.len() == periods.len()
    &&& forall|i: int, j: int|
        0 <= i < j < periods.len() ==> #[trigger] period_rank(periods[i]) < #[trigger] period_rank(
            periods[j],
        )
    &&& forall|i: int|
        0 <= i < rows.len() ==> #[trigger] describes_period(rows[i], periods[i], facts, flags)
    &&& forall|period: (Grain, u32)| #[trigger]
        periods.contains(period) <==> (grain_rank(period.0) < grains && active_publishers(
            facts,
            flags,
            period.0,
            period.1 as int,
            0,
        ).len() > 0)
}

/// Rows that follow a counter complete the table with its grain.
proof fn lemma_active_grain_complete(
    out: Seq<ActiveUsersPeriod>,
    base: Seq<(Grain, u32)>,
    listed: Seq<(Grain, u32)>,
    rows: Seq<(u64, ActiveAccumulator)>,
    map: Map<u64, ActiveAccumulator>,
    facts: Seq<Seq<u8>>,
    flags: Seq<u8>,
    grain: Grain,
)
    requires
        exact_active(map, facts, flags, grain),
        lists_map(rows, map),
        out.len() == listed.len(),
        listed.len() == base.len() + rows.len(),
        lists_active_grains(out.take(base.len() as int), base, facts, flags, grain_rank(grain)),
        forall|j: int| 0 <= j < base.len() ==> listed[j] == base[j],
        forall|j: int|
            0 <= j < rows.len() ==> (#[trigger] listed[base.len() + j]) == (
                grain,
                rows[j].0 as u32,
            ),
        forall|j: int|
            0 <= j < out.len() ==> #[trigger] describes_period(out[j], listed[j], facts, flags),
    ensures
        lists_active_grains(out, listed, facts, flags, grain_rank(grain) + 1),
{
    let n = base.len() as int;
    assert forall|i: int, j: int| 0 <= i < j < listed.len() implies #[trigger] period_rank(
        listed[i],
    ) < #[trigger] period_rank(listed[j]) by {
        if j < n {
            assert(period_rank(base[i]) < period_rank(base[j]));
        } else {
            assert(listed[n + (j - n)].0 == grain);
            assert(map.contains_key(rows[j - n].0));
            if i < n {
                assert(base.contains(base[i]));
                assert(grain_rank(listed[i].0) < grain_rank(grain));
            } else {
                assert(listed[n + (i - n)].0 == grain);
                assert(map.contains_key(rows[i - n].0));
                assert(rows[i - n].0 < rows[j - n].0);
            }
        }
    }
    assert forall|period: (Grain, u32)| #[trigger]
        listed.contains(period) <==> (grain_rank(period.0) < grain_rank(grain) + 1
            && active_publishers(facts, flags, period.0, period.1 as int, 0).len() > 0) by {
        let users = active_publishers(facts, flags, period.0, period.1 as int, 0).len();
        if listed.contains(period) {
            let j = choose|j: int| 0 <= j < listed.len() && listed[j] == period;
            if j < n {
                assert(base.contains(base[j]));
            } else {
                assert(listed[n + (j - n)].0 == grain);
                assert(map.contains_key(rows[j - n].0));
                assert(counts_active(
                    active_row(map, period.1 as int),
                    facts,
                    flags,
                    grain,
                    period.1 as int,
                ));
            }
        }
        if grain_rank(period.0) < grain_rank(grain) && users > 0 {
            assert(base.contains(period));
            let j = choose|j: int| 0 <= j < base.len() && base[j] == period;
            assert(listed[j] == period);
        }
        if period.0 == grain && users > 0 {
            assert(counts_active(
                active_row(map, period.1 as int),
                facts,
                flags,
                grain,
                period.1 as int,
            ));
            assert(map.contains_key(period.1 as u64));
            let j = choose|j: int| 0 <= j < rows.len() && #[trigger] rows[j].0 == period.1 as u64;
            assert(listed[n + j] == (grain, rows[j].0 as u32));
        }
    }
}

/// The distinct-publisher table of the three grains.
pub(crate) fn distinct_rows(
    day: &PeriodCounter,
    week: &PeriodCounter,
    month: &PeriodCounter,
    Ghost(facts): Ghost<Seq<Seq<u8>>>,
) -> (rows: Vec<DistinctPubkeysPeriod>)
    requires
        day.grain() == Grain::Day,
        week.grain() == Grain::Week,
        month.grain() == Grain::Month,
        exact_distinct(day.distinct(), facts, Grain::Day),
        exact_distinct(week.distinct(), facts, Grain::Week),
        exact_distinct(month.distinct(), facts, Grain::Month),
    ensures
        distinct_table(rows@, facts),
{
    let mut rows: Vec<DistinctPubkeysPeriod> = Vec::new();
    let none: Ghost<Seq<(Grain, u32, Option<u16>)>> = Ghost(Seq::empty());
    let days: Ghost<Seq<(Grain, u32, Option<u16>)>> = push_distinct_rows(
        &mut rows,
        day,
        Grain::Day,
        Ghost(facts),
        none,
    );
    let weeks: Ghost<Seq<(Grain, u32, Option<u16>)>> = push_distinct_rows(
        &mut rows,
        week,
        Grain::Week,
        Ghost(facts),
        days,
    );
    let months: Ghost<Seq<(Grain, u32, Option<u16>)>> = push_distinct_rows(
        &mut rows,
        month,
        Grain::Month,
        Ghost(facts),
        weeks,
    );
    assert(lists_scopes(rows@, months@, facts));
    rows
}

/// The active-user table of the three grains.
pub(crate) fn active_rows(
    day: &PeriodCounter,
    week: &PeriodCounter,
    month: &PeriodCounter,
    Ghost(facts): Ghost<Seq<Seq<u8>>>,
    Ghost(flags): Ghost<Seq<u8>>,
) -> (rows: Vec<ActiveUsersPeriod>)
    requires
        day.grain() == Grain::Day,
        week.grain() == Grain::Week,
        month.grain() == Grain::Month,
        exact_active(day.active(), facts, flags, Grain::Day),
        exact_active(week.active(), facts, flags, Grain::Week),
        exact_active(month.active(), facts, flags, Grain::Month),
    ensures
        active_table(rows@, facts, flags),
{
    let mut rows: Vec<ActiveUsersPeriod> = Vec::new();
    let none: Ghost<Seq<(Grain, u32)>> = Ghost(Seq::empty());
    let days: Ghost<Seq<(Grain, u32)>> = push_active_rows(
        &mut rows,
        day,
        Grain::Day,
        Ghost(facts),
        Ghost(flags),
        none,
    );
    let weeks: Ghost<Seq<(Grain, u32)>> = push_active_rows(
        &mut rows,
        week,
        Grain::Week,
        Ghost(facts),
        Ghost(flags),
        days,
    );
    let months: Ghost<Seq<(Grain, u32)>> = push_active_rows(
        &mut rows,
        month,
        Grain::Month,
        Ghost(facts),
        Ghost(flags),
        weeks,
    );
    assert(lists_periods(rows@, months@, facts, flags));
    rows
}

/// The rows hold the same values.
pub open spec fn same_distinct(
    left: Seq<DistinctPubkeysPeriod>,
    right: Seq<DistinctPubkeysPeriod>,
) -> bool {
    &&& left.len() == right.len()
    &&& forall|i: int| 0 <= i < left.len() ==> (#[trigger] left[i])@ == right[i]@
}

/// The rows hold the same values.
pub open spec fn same_active(left: Seq<ActiveUsersPeriod>, right: Seq<ActiveUsersPeriod>) -> bool {
    &&& left.len() == right.len()
    &&& forall|i: int| 0 <= i < left.len() ==> (#[trigger] left[i])@ == right[i]@
}

/// Whether the rows hold the same values.
pub fn distinct_rows_equal(
    left: &Vec<DistinctPubkeysPeriod>,
    right: &Vec<DistinctPubkeysPeriod>,
) -> (same: bool)
    ensures
        same == same_distinct(left@, right@),
{
    if left.len() != right.len() {
        return false;
    }
    let mut i: usize = 0;
    while i < left.len()
        invariant
            i <= left.len(),
            left.len() == right.len(),
            forall|j: int| 0 <= j < i ==> (#[trigger] left@[j])@ == right@[j]@,
        decreases left.len() - i,
    {
        let a: &DistinctPubkeysPeriod = &left[i];
        let b: &DistinctPubkeysPeriod = &right[i];
        if !text_equal(a.grain.as_str(), b.grain.as_str()) || !text_equal(
            a.period_start.as_str(),
            b.period_start.as_str(),
        ) || a.kind != b.kind || a.unique_pubkeys != b.unique_pubkeys {
            assert(left@[i as int]@ != right@[i as int]@);
            return false;
        }
        i += 1;
    }
    true
}

/// Whether the rows hold the same values.
pub fn active_rows_equal(
    left: &Vec<ActiveUsersPeriod>,
    right: &Vec<ActiveUsersPeriod>,
) -> (same: bool)
    ensures
        same == same_active(left@, right@),
{
    if left.len() != right.len() {
        return false;
    }
    let mut i: usize = 0;
    while i < left.len()
        invariant
            i <= left.len(),
            left.len() == right.len(),
            forall|j: int| 0 <= j < i ==> (#[trigger] left@[j])@ == right@[j]@,
        decreases left.len() - i,
    {
        let a: &ActiveUsersPeriod = &left[i];
        let b: &ActiveUsersPeriod = &right[i];
        if !text_equal(a.grain.as_str(), b.grain.as_str()) || !text_equal(
            a.period_start.as_str(),
            b.period_start.as_str(),
        ) || a.active_users != b.active_users || a.has_profile != b.has_profile
            || a.has_follows_list != b.has_follows_list || a.has_profile_and_follows_list
            != b.has_profile_and_follows_list || a.total_events != b.total_events {
            assert(left@[i as int]@ != right@[i as int]@);
            return false;
        }
        i += 1;
    }
    true
}

} // verus!
