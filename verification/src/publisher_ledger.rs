//! The exact ledger of publisher activity in rolling windows.
//!
//! For every window, every kind and all kinds together, the ledger holds one
//! row for each publisher with an event there.

use std::collections::BTreeMap;
use vstd::prelude::*;

use crate::activity::{
    activity_fact, activity_stream, created_at, event_kind, follows, lemma_key_order, publisher,
    ActivityRecord,
};
use crate::bytes::{
    lemma_be_limits, lemma_be_nat_bound, lemma_lex_antisymmetric, lemma_lex_transitive, lex_less,
};
use crate::flexible_samples::kind_rank;
use crate::ordered::{key_count, list, lists_map, store, value_or};
use crate::records::{record_count, record_key};

verus! {

/// One exact publisher row of a rolling window.
#[derive(Clone, Copy, Debug, PartialEq, Eq)]
pub struct PublisherRankingRow {
    /// Exact rolling window in days.
    pub days: u32,
    /// Exact kind filter, or all kinds.
    pub kind: Option<u16>,
    /// Publisher key.
    pub pubkey: [u8; 32],
    /// Exact event count.
    pub event_count: u64,
    /// Exact distinct kind count.
    pub kinds_count: u64,
    /// Earliest included timestamp.
    pub first_event: u32,
    /// Latest included timestamp.
    pub last_event: u32,
}

/// The event belongs to the publisher, has the kind, and lies in the interval.
pub open spec fn in_scope(
    fact: Seq<u8>,
    pubkey: Seq<u8>,
    kind: Option<u16>,
    since: int,
    until: int,
) -> bool {
    &&& publisher(fact) == pubkey
    &&& since <= created_at(fact) <= until
    &&& match kind {
        None => true,
        Some(kind) => event_kind(fact) == kind,
    }
}

/// The events in scope, in order.
pub open spec fn hits(
    facts: Seq<Seq<u8>>,
    pubkey: Seq<u8>,
    kind: Option<u16>,
    since: int,
    until: int,
) -> Seq<Seq<u8>>
    decreases facts.len(),
{
    if facts.len() == 0 {
        Seq::empty()
    } else {
        let earlier = hits(facts.drop_last(), pubkey, kind, since, until);
        if in_scope(facts.last(), pubkey, kind, since, until) {
            earlier.push(facts.last())
        } else {
            earlier
        }
    }
}

/// First second of a window.
pub open spec fn window_since(as_of: int, days: int) -> int {
    as_of - days * 86_400
}

/// The events of a publisher in a window.
pub open spec fn window_hits(
    facts: Seq<Seq<u8>>,
    pubkey: Seq<u8>,
    kind: Option<u16>,
    days: int,
    as_of: int,
) -> Seq<Seq<u8>> {
    hits(facts, pubkey, kind, window_since(as_of, days), as_of)
}

/// Kinds of the events of a publisher in an interval.
pub open spec fn kinds_hit(
    facts: Seq<Seq<u8>>,
    pubkey: Seq<u8>,
    since: int,
    until: int,
) -> Set<u64> {
    Set::new(
        |kind: u64|
            kind <= u16::MAX && hits(facts, pubkey, Some(kind as u16), since, until).len() > 0,
    )
}

/// Hits of one more event.
proof fn lemma_hits_push(
    facts: Seq<Seq<u8>>,
    fact: Seq<u8>,
    pubkey: Seq<u8>,
    kind: Option<u16>,
    since: int,
    until: int,
)
    ensures
        hits(facts.push(fact), pubkey, kind, since, until) == if in_scope(
            fact,
            pubkey,
            kind,
            since,
            until,
        ) {
            hits(facts, pubkey, kind, since, until).push(fact)
        } else {
            hits(facts, pubkey, kind, since, until)
        },
        hits(facts, pubkey, kind, since, until).len() <= facts.len(),
    decreases facts.len(),
{
    assert(facts.push(fact).drop_last() =~= facts);
    if facts.len() > 0 {
        assert(facts.drop_last().push(facts.last()) =~= facts);
        lemma_hits_push(facts.drop_last(), facts.last(), pubkey, kind, since, until);
    }
}

/// Hits of two parts.
proof fn lemma_hits_join(
    a: Seq<Seq<u8>>,
    b: Seq<Seq<u8>>,
    pubkey: Seq<u8>,
    kind: Option<u16>,
    since: int,
    until: int,
)
    ensures
        hits(a + b, pubkey, kind, since, until) == hits(a, pubkey, kind, since, until) + hits(
            b,
            pubkey,
            kind,
            since,
            until,
        ),
    decreases b.len(),
{
    if b.len() == 0 {
        assert(a + b =~= a);
        assert(hits(a, pubkey, kind, since, until) + hits(b, pubkey, kind, since, until)
            =~= hits(a, pubkey, kind, since, until));
    } else {
        assert((a + b).drop_last() =~= a + b.drop_last());
        lemma_hits_join(a, b.drop_last(), pubkey, kind, since, until);
        assert(hits(a + b, pubkey, kind, since, until) =~= hits(a, pubkey, kind, since, until)
            + hits(b, pubkey, kind, since, until));
    }
}

/// A publisher without events has no hits.
proof fn lemma_hits_absent(
    facts: Seq<Seq<u8>>,
    pubkey: Seq<u8>,
    kind: Option<u16>,
    since: int,
    until: int,
)
    requires
        forall|i: int| 0 <= i < facts.len() ==> publisher(#[trigger] facts[i]) != pubkey,
    ensures
        hits(facts, pubkey, kind, since, until) == Seq::<Seq<u8>>::empty(),
    decreases facts.len(),
{
    if facts.len() > 0 {
        assert(publisher(facts[facts.len() - 1]) != pubkey);
        lemma_hits_absent(facts.drop_last(), pubkey, kind, since, until);
    }
}

/// A hit is an event of the publisher.
pub(crate) proof fn lemma_hits_witness(
    facts: Seq<Seq<u8>>,
    pubkey: Seq<u8>,
    kind: Option<u16>,
    since: int,
    until: int,
) -> (index: int)
    requires
        hits(facts, pubkey, kind, since, until).len() > 0,
    ensures
        0 <= index < facts.len(),
        in_scope(facts[index], pubkey, kind, since, until),
    decreases facts.len(),
{
    if in_scope(facts.last(), pubkey, kind, since, until) {
        facts.len() - 1
    } else {
        lemma_hits_witness(facts.drop_last(), pubkey, kind, since, until)
    }
}

/// Events of a scope: how many, the first and the last second.
#[derive(Clone, Copy, Debug, PartialEq, Eq, Structural)]
pub struct ScopeCount {
    /// Number of events.
    pub count: u64,
    /// First second.
    pub first: u32,
    /// Last second.
    pub last: u32,
}

/// The count is that of the hits.
pub open spec fn counts_hits(count: ScopeCount, found: Seq<Seq<u8>>) -> bool {
    &&& count.count == found.len()
    &&& found.len() > 0 ==> count.first == created_at(found[0]) && count.last == created_at(
        found.last(),
    )
}

/// Count one more event.
fn observe(count: ScopeCount, created: u32, Ghost(found): Ghost<Seq<Seq<u8>>>, Ghost(fact): Ghost<
    Seq<u8>,
>) -> (more: ScopeCount)
    requires
        counts_hits(count, found),
        count.count < u64::MAX,
        created == created_at(fact),
    ensures
        counts_hits(more, found.push(fact)),
{
    if count.count == 0 {
        ScopeCount { count: 1, first: created, last: created }
    } else {
        ScopeCount { count: count.count + 1, first: count.first, last: created }
    }
}

/// The map holds the counts of every kind.
pub open spec fn counts_kinds(
    map: Map<u64, ScopeCount>,
    facts: Seq<Seq<u8>>,
    pubkey: Seq<u8>,
    since: int,
    until: int,
) -> bool {
    &&& forall|kind: u64| #[trigger]
        map.contains_key(kind) ==> kind <= u16::MAX && map[kind].count > 0 && counts_hits(
            map[kind],
            hits(facts, pubkey, Some(kind as u16), since, until),
        )
    &&& forall|kind: u16|
        (#[trigger] hits(facts, pubkey, Some(kind), since, until)).len() > 0 ==> map.contains_key(
            kind as u64,
        )
}

/// The records are those of the facts.
pub open spec fn decodes_all(group: Seq<ActivityRecord>, facts: Seq<Seq<u8>>) -> bool {
    &&& group.len() == facts.len()
    &&& forall|i: int| 0 <= i < group.len() ==> (#[trigger] group[i]).decodes(facts[i])
}

/// Every fact belongs to the publisher.
pub open spec fn all_of(facts: Seq<Seq<u8>>, pubkey: Seq<u8>) -> bool {
    forall|i: int| 0 <= i < facts.len() ==> publisher(#[trigger] facts[i]) == pubkey
}

/// Count the events of one publisher in an interval, together and by kind.
pub(crate) fn count_interval(
    group: &Vec<ActivityRecord>,
    since: u64,
    until: u64,
    Ghost(facts): Ghost<Seq<Seq<u8>>>,
    Ghost(pubkey): Ghost<Seq<u8>>,
) -> (counts: (ScopeCount, BTreeMap<u64, ScopeCount>))
    requires
        decodes_all(group@, facts),
        all_of(facts, pubkey),
    ensures
        counts_hits(counts.0, hits(facts, pubkey, None, since as int, until as int)),
        counts_kinds(counts.1@, facts, pubkey, since as int, until as int),
        counts.1@.dom() == kinds_hit(facts, pubkey, since as int, until as int),
{
    let ghost a = since as int;
    let ghost b = until as int;
    let empty: ScopeCount = ScopeCount { count: 0, first: 0, last: 0 };
    let mut all: ScopeCount = empty;
    let mut kinds: BTreeMap<u64, ScopeCount> = BTreeMap::new();
    let mut i: usize = 0;
    assert(facts.take(0) =~= Seq::empty());
    while i < group.len()
        invariant
            i <= group@.len(),
            decodes_all(group@, facts),
            all_of(facts, pubkey),
            a == since,
            b == until,
            empty == (ScopeCount { count: 0, first: 0, last: 0 }),
            counts_hits(all, hits(facts.take(i as int), pubkey, None, a, b)),
            counts_kinds(kinds@, facts.take(i as int), pubkey, a, b),
        decreases group.len() - i,
    {
        let found: ActivityRecord = group[i];
        let ghost before = facts.take(i as int);
        let ghost fact = facts[i as int];
        let ghost known = kinds@;
        proof {
            assert(facts.take(i + 1) =~= before.push(fact));
            lemma_hits_push(before, fact, pubkey, None, a, b);
            assert forall|kind: u16| hits(before.push(fact), pubkey, Some(kind), a, b)
                == if in_scope(fact, pubkey, Some(kind), a, b) {
                #[trigger] hits(before, pubkey, Some(kind), a, b).push(fact)
            } else {
                hits(before, pubkey, Some(kind), a, b)
            } && hits(before, pubkey, Some(kind), a, b).len() <= before.len() by {
                lemma_hits_push(before, fact, pubkey, Some(kind), a, b);
            }
            assert(group@[i as int].decodes(fact));
            assert(publisher(facts[i as int]) == pubkey);
        }
        if found.created_at as u64 >= since && found.created_at as u64 <= until {
            let kind: u16 = found.kind;
            all = observe(all, found.created_at, Ghost(hits(before, pubkey, None, a, b)), Ghost(fact));
            let mine: ScopeCount = value_or(&kinds, kind as u64, empty);
            let ghost found_before = hits(before, pubkey, Some(kind), a, b);
            proof {
                if !known.contains_key(kind as u64) {
                    assert(hits(before, pubkey, Some(kind), a, b).len() == 0);
                }
                assert(counts_hits(mine, found_before));
                lemma_hits_push(before, fact, pubkey, Some(kind), a, b);
            }
            let more: ScopeCount = observe(
                mine,
                found.created_at,
                Ghost(found_before),
                Ghost(fact),
            );
            store(&mut kinds, kind as u64, more);
        }
        proof {
            let after = facts.take(i + 1);
            assert forall|kind: u64| #[trigger] kinds@.contains_key(kind) implies kind <= u16::MAX
                && kinds@[kind].count > 0 && counts_hits(
                kinds@[kind],
                hits(after, pubkey, Some(kind as u16), a, b),
            ) by {
                lemma_hits_push(before, fact, pubkey, Some(kind as u16), a, b);
                if kind != found.kind as u64 {
                    assert(known.contains_key(kind));
                }
            }
            assert forall|kind: u16|
                (#[trigger] hits(after, pubkey, Some(kind), a, b)).len() > 0 implies kinds@.contains_key(
                kind as u64,
            ) by {
                lemma_hits_push(before, fact, pubkey, Some(kind), a, b);
                if hits(before, pubkey, Some(kind), a, b).len() > 0 {
                    assert(known.contains_key(kind as u64));
                }
            }
        }
        i += 1;
    }
    proof {
        assert(facts.take(facts.len() as int) =~= facts);
        assert(kinds@.dom() =~= kinds_hit(facts, pubkey, a, b)) by {
            assert forall|kind: u64| kinds@.contains_key(kind) <==> kinds_hit(
                facts,
                pubkey,
                a,
                b,
            ).contains(kind) by {
                if kind <= u16::MAX && hits(facts, pubkey, Some(kind as u16), a, b).len() > 0 {
                    assert(kinds@.contains_key((kind as u16) as u64));
                }
            }
        }
    }
    (all, kinds)
}

/// Row `a` comes before row `b` in the ledger: by publisher, window and kind.
pub open spec fn ledger_before(a: PublisherRankingRow, b: PublisherRankingRow) -> bool {
    ||| lex_less(a.pubkey@, b.pubkey@)
    ||| a.pubkey@ == b.pubkey@ && a.days < b.days
    ||| a.pubkey@ == b.pubkey@ && a.days == b.days && kind_rank(a.kind) < kind_rank(b.kind)
}

/// The rows are in the order of the ledger, each key once.
pub open spec fn ledger_ordered(rows: Seq<PublisherRankingRow>) -> bool {
    forall|i: int, j: int|
        0 <= i < j < rows.len() ==> #[trigger] ledger_before(rows[i], rows[j])
}

/// The row holds the events of its publisher in its window.
pub open spec fn counts_row(
    row: PublisherRankingRow,
    facts: Seq<Seq<u8>>,
    as_of: int,
) -> bool {
    let found = window_hits(facts, row.pubkey@, row.kind, row.days as int, as_of);
    &&& found.len() > 0
    &&& row.event_count == found.len()
    &&& row.first_event == created_at(found[0])
    &&& row.last_event == created_at(found.last())
    &&& row.kinds_count == match row.kind {
        None => kinds_hit(
            facts,
            row.pubkey@,
            window_since(as_of, row.days as int),
            as_of,
        ).len(),
        Some(_) => 1,
    }
}

/// Some row has the key.
pub open spec fn has_row(
    rows: Seq<PublisherRankingRow>,
    pubkey: Seq<u8>,
    kind: Option<u16>,
    days: u32,
) -> bool {
    exists|i: int| 0 <= i < rows.len() && #[trigger] has_key(rows[i], pubkey, kind, days)
}

/// The row has the key.
pub open spec fn has_key(
    row: PublisherRankingRow,
    pubkey: Seq<u8>,
    kind: Option<u16>,
    days: u32,
) -> bool {
    row.pubkey@ == pubkey && row.kind == kind && row.days == days
}

/// The publisher has an event of the kind in the window.
pub open spec fn is_active(
    facts: Seq<Seq<u8>>,
    pubkey: Seq<u8>,
    kind: Option<u16>,
    days: u32,
    as_of: int,
) -> bool {
    window_hits(facts, pubkey, kind, days as int, as_of).len() > 0
}

/// `rows` is the ledger of the events: one row for each window, kind and
/// publisher with an event there.
pub open spec fn lists_ledger(
    rows: Seq<PublisherRankingRow>,
    facts: Seq<Seq<u8>>,
    windows: Seq<u32>,
    as_of: int,
) -> bool {
    &&& ledger_ordered(rows)
    &&& forall|i: int|
        0 <= i < rows.len() ==> counts_row(#[trigger] rows[i], facts, as_of) && windows.contains(
            rows[i].days,
        )
    &&& forall|pubkey: Seq<u8>, kind: Option<u16>, days: u32| #[trigger]
        is_active(facts, pubkey, kind, days, as_of) && windows.contains(days) ==> has_row(
            rows,
            pubkey,
            kind,
            days,
        )
}

/// The rows of one publisher in one window.
fn push_window_rows(
    rows: &mut Vec<PublisherRankingRow>,
    group: &Vec<ActivityRecord>,
    days: u32,
    as_of: u64,
    Ghost(facts): Ghost<Seq<Seq<u8>>>,
    Ghost(windows): Ghost<Seq<u32>>,
)
    requires
        group@.len() > 0,
        decodes_all(group@, facts),
        all_of(facts, publisher(facts[0])),
        days * 86_400 <= as_of,
        lists_ledger(old(rows)@, facts, windows, as_of as int),
        forall|i: int| 0 <= i < windows.len() ==> (#[trigger] windows[i]) < days,
    ensures
        lists_ledger(final(rows)@, facts, windows.push(days), as_of as int),
        old(rows)@.len() <= final(rows)@.len(),
        forall|i: int| 0 <= i < old(rows)@.len() ==> final(rows)@[i] == old(rows)@[i],
{
    let since: u64 = as_of - days as u64 * 86_400;
    let ghost pubkey = publisher(facts[0]);
    let ghost end = as_of as int;
    let ghost base = rows@;
    let (all, kinds) = count_interval(group, since, as_of, Ghost(facts), Ghost(pubkey));
    let key: [u8; 32] = group[0].pubkey;
    let kinds_count: usize = key_count(&kinds);
    proof {
        assert(group@[0].decodes(facts[0]));
        assert(key@ == pubkey);
        assert(since == window_since(end, days as int));
        assert forall|i: int| 0 <= i < base.len() implies (#[trigger] base[i]).days < days
            && base[i].pubkey@ == pubkey by {
            assert(counts_row(base[i], facts, end));
            let k = choose|k: int| 0 <= k < windows.len() && windows[k] == base[i].days;
            assert(windows[k] < days);
            let w = lemma_hits_witness(
                facts,
                base[i].pubkey@,
                base[i].kind,
                window_since(end, base[i].days as int),
                end,
            );
            assert(publisher(facts[w]) == pubkey);
        }
    }
    if all.count != 0 {
        let row: PublisherRankingRow = PublisherRankingRow {
            days,
            kind: None,
            pubkey: key,
            event_count: all.count,
            kinds_count: kinds_count as u64,
            first_event: all.first,
            last_event: all.last,
        };
        rows.push(row);
        assert(counts_row(row, facts, end));
    }
    let ghost after_all = rows@;
    let entries: Vec<(u64, ScopeCount)> = list(&kinds);
    let mut i: usize = 0;
    while i < entries.len()
        invariant
            i <= entries@.len(),
            end == as_of,
            key@ == pubkey,
            since == window_since(end, days as int),
            lists_map(entries@, kinds@),
            counts_kinds(kinds@, facts, pubkey, since as int, end),
            rows@.len() == after_all.len() + i,
            forall|j: int| 0 <= j < after_all.len() ==> rows@[j] == after_all[j],
            forall|j: int|
                0 <= j < i ==> is_kind_row(
                    #[trigger] rows@[after_all.len() + j],
                    entries@[j].0,
                    pubkey,
                    days,
                    facts,
                    end,
                ),
        decreases entries.len() - i,
    {
        let kind: u64 = entries[i].0;
        let found: ScopeCount = entries[i].1;
        proof {
            assert(kinds@.contains_key(entries@[i as int].0));
        }
        let row: PublisherRankingRow = PublisherRankingRow {
            days,
            kind: Some(kind as u16),
            pubkey: key,
            event_count: found.count,
            kinds_count: 1,
            first_event: found.first,
            last_event: found.last,
        };
        rows.push(row);
        assert(counts_row(row, facts, end));
        i += 1;
    }
    proof {
        let done = rows@;
        let n = base.len() as int;
        let m = after_all.len() as int;
        let more = windows.push(days);
        assert forall|x: int| 0 <= x < n implies #[trigger] done[x] == base[x] by {
            assert(after_all[x] == base[x]);
        }
        if m > n {
            assert(done[n] == after_all[n]);
        }
        assert forall|x: int| 0 <= x < done.len() implies counts_row(#[trigger] done[x], facts, end)
            && more.contains(done[x].days) by {
            if x < n {
                assert(done[x] == base[x]);
                let k = choose|k: int| 0 <= k < windows.len() && windows[k] == base[x].days;
                assert(more[k] == base[x].days);
            } else {
                assert(more[windows.len() as int] == days);
                if x >= m {
                    assert(is_kind_row(
                        done[m + (x - m)],
                        entries@[x - m].0,
                        pubkey,
                        days,
                        facts,
                        end,
                    ));
                }
            }
        }
        assert forall|x: int, y: int| 0 <= x < y < done.len() implies #[trigger] ledger_before(
            done[x],
            done[y],
        ) by {
            if y < n {
                assert(ledger_before(base[x], base[y]));
            } else {
                if y >= m {
                    assert(is_kind_row(
                        done[m + (y - m)],
                        entries@[y - m].0,
                        pubkey,
                        days,
                        facts,
                        end,
                    ));
                }
                if x < n {
                    assert(base[x].days < days && base[x].pubkey@ == pubkey);
                } else if x >= m {
                    assert(is_kind_row(
                        done[m + (x - m)],
                        entries@[x - m].0,
                        pubkey,
                        days,
                        facts,
                        end,
                    ));
                    assert(entries@[x - m].0 < entries@[y - m].0);
                    assert(kinds@.contains_key(entries@[y - m].0));
                    assert(kinds@.contains_key(entries@[x - m].0));
                }
            }
        }
        assert forall|who: Seq<u8>, kind: Option<u16>, d: u32| #[trigger]
            is_active(facts, who, kind, d, end) && more.contains(d) implies has_row(
            done,
            who,
            kind,
            d,
        ) by {
            let w = lemma_hits_witness(facts, who, kind, window_since(end, d as int), end);
            assert(publisher(facts[w]) == pubkey);
            if windows.contains(d) {
                assert(has_row(base, who, kind, d));
                let k = choose|k: int| 0 <= k < base.len() && #[trigger] has_key(base[k], who, kind, d);
                assert(has_key(done[k], who, kind, d));
            } else {
                let k = choose|k: int| 0 <= k < more.len() && more[k] == d;
                assert(k == windows.len());
                assert(d == days);
                match kind {
                    None => {
                        assert(has_key(done[n], who, kind, d));
                    },
                    Some(wanted) => {
                        assert(hits(facts, pubkey, Some(wanted), since as int, end).len() > 0);
                        assert(kinds@.contains_key(wanted as u64));
                        let e = choose|e: int|
                            0 <= e < entries@.len() && #[trigger] entries@[e].0 == wanted as u64;
                        assert(is_kind_row(done[m + e], entries@[e].0, pubkey, days, facts, end));
                        assert(has_key(done[m + e], who, kind, d));
                    },
                }
            }
        }
    }
}

/// The row is that of one kind in the window.
spec fn is_kind_row(
    row: PublisherRankingRow,
    kind: u64,
    pubkey: Seq<u8>,
    days: u32,
    facts: Seq<Seq<u8>>,
    as_of: int,
) -> bool {
    &&& row.pubkey@ == pubkey
    &&& row.days == days
    &&& kind <= u16::MAX
    &&& row.kind == Some(kind as u16)
    &&& counts_row(row, facts, as_of)
}

/// The ledger rows of one publisher.
pub(crate) fn publisher_rows(
    group: &Vec<ActivityRecord>,
    windows: &Vec<u32>,
    as_of: u64,
    Ghost(facts): Ghost<Seq<Seq<u8>>>,
) -> (rows: Vec<PublisherRankingRow>)
    requires
        group@.len() > 0,
        decodes_all(group@, facts),
        all_of(facts, publisher(facts[0])),
        forall|i: int| 0 <= i < windows@.len() ==> (#[trigger] windows@[i]) * 86_400 <= as_of,
        forall|i: int, j: int| 0 <= i < j < windows@.len() ==> windows@[i] < windows@[j],
    ensures
        lists_ledger(rows@, facts, windows@, as_of as int),
{
    let mut rows: Vec<PublisherRankingRow> = Vec::new();
    let mut w: usize = 0;
    assert(windows@.take(0) =~= Seq::empty());
    while w < windows.len()
        invariant
            w <= windows@.len(),
            group@.len() > 0,
            decodes_all(group@, facts),
            all_of(facts, publisher(facts[0])),
            forall|i: int| 0 <= i < windows@.len() ==> (#[trigger] windows@[i]) * 86_400 <= as_of,
            forall|i: int, j: int| 0 <= i < j < windows@.len() ==> windows@[i] < windows@[j],
            lists_ledger(rows@, facts, windows@.take(w as int), as_of as int),
        decreases windows.len() - w,
    {
        let days: u32 = windows[w];
        proof {
            assert(windows@[w as int] * 86_400 <= as_of);
            assert(windows@.take(w + 1) =~= windows@.take(w as int).push(days));
        }
        push_window_rows(
            &mut rows,
            group,
            days,
            as_of,
            Ghost(facts),
            Ghost(windows@.take(w as int)),
        );
        w += 1;
    }
    assert(windows@.take(windows@.len() as int) =~= windows@);
    rows
}

/// Records `from` to `to` of an artifact.
pub open spec fn facts_between(bytes: Seq<u8>, from: int, to: int) -> Seq<Seq<u8>> {
    Seq::new((to - from) as nat, |i: int| activity_fact(bytes, from + i))
}

/// No publisher has records on both sides of `at`, where the records are sorted.
pub open spec fn at_boundary(bytes: Seq<u8>, at: int) -> bool {
    ||| at == 0
    ||| at == record_count(bytes, 70)
    ||| publisher(activity_fact(bytes, at - 1)) != publisher(activity_fact(bytes, at))
}

/// Records of a sorted artifact follow each other.
proof fn lemma_follows(bytes: Seq<u8>, i: int, j: int)
    requires
        activity_stream(bytes),
        0 <= i < j < record_count(bytes, 70),
    ensures
        follows(activity_fact(bytes, i), activity_fact(bytes, j)),
{
    crate::activity::lemma_fact_len(bytes, i);
    crate::activity::lemma_fact_len(bytes, j);
    assert(record_key(bytes, 70, 70, i) =~= activity_fact(bytes, i));
    assert(record_key(bytes, 70, 70, j) =~= activity_fact(bytes, j));
    assert(lex_less(record_key(bytes, 70, 70, i), record_key(bytes, 70, 70, j)));
    lemma_key_order(activity_fact(bytes, i), activity_fact(bytes, j));
}

/// A boundary parts smaller from larger publishers.
proof fn lemma_boundary(bytes: Seq<u8>, at: int, i: int, j: int)
    requires
        activity_stream(bytes),
        at_boundary(bytes, at),
        0 <= i < at,
        at <= j < record_count(bytes, 70),
    ensures
        lex_less(publisher(activity_fact(bytes, i)), publisher(activity_fact(bytes, j))),
{
    let a = publisher(activity_fact(bytes, i));
    let b = publisher(activity_fact(bytes, at - 1));
    let c = publisher(activity_fact(bytes, at));
    let d = publisher(activity_fact(bytes, j));
    lemma_follows(bytes, at - 1, at);
    assert(lex_less(b, c));
    if i < at - 1 {
        lemma_follows(bytes, i, at - 1);
        if a != b {
            lemma_lex_transitive(a, b, c);
        }
    }
    assert(lex_less(a, c));
    if at < j {
        lemma_follows(bytes, at, j);
        if c != d {
            lemma_lex_transitive(a, c, d);
        }
    }
}

/// The ledgers of two parts that a boundary separates are the ledger of both.
pub proof fn lemma_ledgers_join(
    bytes: Seq<u8>,
    from: int,
    at: int,
    to: int,
    left: Seq<PublisherRankingRow>,
    right: Seq<PublisherRankingRow>,
    windows: Seq<u32>,
    as_of: int,
)
    requires
        activity_stream(bytes),
        0 <= from <= at <= to <= record_count(bytes, 70),
        at_boundary(bytes, at),
        lists_ledger(left, facts_between(bytes, from, at), windows, as_of),
        lists_ledger(right, facts_between(bytes, at, to), windows, as_of),
    ensures
        lists_ledger(left + right, facts_between(bytes, from, to), windows, as_of),
{
    let a = facts_between(bytes, from, at);
    let b = facts_between(bytes, at, to);
    let both = facts_between(bytes, from, to);
    let rows = left + right;
    assert(both =~= a + b);
    assert forall|i: int| 0 <= i < left.len() implies publishes(a, (#[trigger] left[i]).pubkey@) by {
        assert(counts_row(left[i], a, as_of));
        let k = lemma_hits_witness(
            a,
            left[i].pubkey@,
            left[i].kind,
            window_since(as_of, left[i].days as int),
            as_of,
        );
        assert(publisher(a[k]) == left[i].pubkey@);
    }
    assert forall|i: int| 0 <= i < right.len() implies publishes(
        b,
        (#[trigger] right[i]).pubkey@,
    ) by {
        assert(counts_row(right[i], b, as_of));
        let k = lemma_hits_witness(
            b,
            right[i].pubkey@,
            right[i].kind,
            window_since(as_of, right[i].days as int),
            as_of,
        );
        assert(publisher(b[k]) == right[i].pubkey@);
    }
    assert forall|i: int, j: int| 0 <= i < j < rows.len() implies #[trigger] ledger_before(
        rows[i],
        rows[j],
    ) by {
        if j < left.len() {
            assert(ledger_before(left[i], left[j]));
        } else if i >= left.len() {
            assert(ledger_before(right[i - left.len()], right[j - left.len()]));
        } else {
            let x = left[i];
            let y = right[j - left.len()];
            assert(publishes(a, x.pubkey@));
            assert(publishes(b, y.pubkey@));
            let k = choose|k: int| 0 <= k < a.len() && publisher(#[trigger] a[k]) == x.pubkey@;
            let l = choose|l: int| 0 <= l < b.len() && publisher(#[trigger] b[l]) == y.pubkey@;
            lemma_boundary(bytes, at, from + k, at + l);
        }
    }
    assert forall|i: int| 0 <= i < rows.len() implies counts_row(#[trigger] rows[i], both, as_of)
        && windows.contains(rows[i].days) by {
        if i < left.len() {
            assert(rows[i] == left[i]);
            assert(publishes(a, left[i].pubkey@));
            lemma_other_side(bytes, from, at, to, left[i].pubkey@, true);
            lemma_row_carries(left[i], a, b, as_of, true);
        } else {
            let row = right[i - left.len()];
            assert(publishes(b, row.pubkey@));
            lemma_other_side(bytes, from, at, to, row.pubkey@, false);
            lemma_row_carries(row, a, b, as_of, false);
        }
    }
    assert forall|pubkey: Seq<u8>, kind: Option<u16>, days: u32| #[trigger]
        is_active(both, pubkey, kind, days, as_of) && windows.contains(days) implies has_row(
        rows,
        pubkey,
        kind,
        days,
    ) by {
        lemma_hits_join(a, b, pubkey, kind, window_since(as_of, days as int), as_of);
        if is_active(a, pubkey, kind, days, as_of) {
            let i = choose|i: int|
                0 <= i < left.len() && #[trigger] has_key(left[i], pubkey, kind, days);
            assert(has_key(rows[i], pubkey, kind, days));
        } else {
            assert(is_active(b, pubkey, kind, days, as_of));
            let i = choose|i: int|
                0 <= i < right.len() && #[trigger] has_key(right[i], pubkey, kind, days);
            assert(has_key(rows[left.len() + i], pubkey, kind, days));
        }
    }
}

/// Some record belongs to the publisher.
pub open spec fn publishes(facts: Seq<Seq<u8>>, pubkey: Seq<u8>) -> bool {
    exists|k: int| 0 <= k < facts.len() && publisher(#[trigger] facts[k]) == pubkey
}

/// A publisher on one side of a boundary has no record on the other.
proof fn lemma_other_side(
    bytes: Seq<u8>,
    from: int,
    at: int,
    to: int,
    pubkey: Seq<u8>,
    left: bool,
)
    requires
        activity_stream(bytes),
        0 <= from <= at <= to <= record_count(bytes, 70),
        at_boundary(bytes, at),
        publishes(
            if left {
                facts_between(bytes, from, at)
            } else {
                facts_between(bytes, at, to)
            },
            pubkey,
        ),
    ensures
        !publishes(
            if left {
                facts_between(bytes, at, to)
            } else {
                facts_between(bytes, from, at)
            },
            pubkey,
        ),
{
    let a = facts_between(bytes, from, at);
    let b = facts_between(bytes, at, to);
    if publishes(a, pubkey) && publishes(b, pubkey) {
        let k = choose|k: int| 0 <= k < a.len() && publisher(#[trigger] a[k]) == pubkey;
        let l = choose|l: int| 0 <= l < b.len() && publisher(#[trigger] b[l]) == pubkey;
        lemma_boundary(bytes, at, from + k, at + l);
        lemma_lex_antisymmetric(pubkey, pubkey);
    }
}

/// A row of one side counts the same on both, where the other has no record of
/// its publisher.
proof fn lemma_row_carries(
    row: PublisherRankingRow,
    a: Seq<Seq<u8>>,
    b: Seq<Seq<u8>>,
    as_of: int,
    left: bool,
)
    requires
        counts_row(
            row,
            if left {
                a
            } else {
                b
            },
            as_of,
        ),
        !publishes(
            if left {
                b
            } else {
                a
            },
            row.pubkey@,
        ),
    ensures
        counts_row(row, a + b, as_of),
{
    let since = window_since(as_of, row.days as int);
    let pubkey = row.pubkey@;
    let side = if left {
        a
    } else {
        b
    };
    let other = if left {
        b
    } else {
        a
    };
    assert forall|kind: Option<u16>| #[trigger] hits(a + b, pubkey, kind, since, as_of) == hits(
        side,
        pubkey,
        kind,
        since,
        as_of,
    ) by {
        lemma_hits_join(a, b, pubkey, kind, since, as_of);
        lemma_hits_absent(other, pubkey, kind, since, as_of);
        assert(hits(a + b, pubkey, kind, since, as_of) =~= hits(side, pubkey, kind, since, as_of));
    }
    assert(kinds_hit(a + b, pubkey, since, as_of) =~= kinds_hit(side, pubkey, since, as_of));
}

/// A set of small numbers is finite and small.
proof fn lemma_small_set(set: Set<u64>, bound: nat)
    requires
        forall|x: u64| #[trigger] set.contains(x) ==> x < bound,
    ensures
        set.finite(),
        set.len() <= bound,
    decreases bound,
{
    if bound == 0 {
        assert(set =~= Set::empty());
    } else {
        let last = (bound - 1) as u64;
        let rest = set.remove(last);
        assert forall|x: u64| #[trigger] rest.contains(x) implies x < bound - 1 by {
            assert(set.contains(x));
        }
        lemma_small_set(rest, (bound - 1) as nat);
        if set.contains(last) {
            assert(set =~= rest.insert(last));
        } else {
            assert(set =~= rest);
        }
    }
}

/// An event in scope is a hit.
pub(crate) proof fn lemma_hits_nonempty(
    facts: Seq<Seq<u8>>,
    pubkey: Seq<u8>,
    kind: Option<u16>,
    since: int,
    until: int,
    index: int,
)
    requires
        0 <= index < facts.len(),
        in_scope(facts[index], pubkey, kind, since, until),
    ensures
        hits(facts, pubkey, kind, since, until).len() > 0,
    decreases facts.len(),
{
    if index < facts.len() - 1 {
        lemma_hits_nonempty(facts.drop_last(), pubkey, kind, since, until, index);
    }
}

/// Hits of sorted events run forward in time.
pub(crate) proof fn lemma_hits_forward(
    facts: Seq<Seq<u8>>,
    pubkey: Seq<u8>,
    kind: Option<u16>,
    since: int,
    until: int,
)
    requires
        crate::activity::grouped(facts),
    ensures
        forall|x: int|
            0 <= x < hits(facts, pubkey, kind, since, until).len() ==> facts.contains(
                #[trigger] hits(facts, pubkey, kind, since, until)[x],
            ) && publisher(hits(facts, pubkey, kind, since, until)[x]) == pubkey,
        forall|x: int, y: int|
            0 <= x <= y < hits(facts, pubkey, kind, since, until).len() ==> created_at(
                #[trigger] hits(facts, pubkey, kind, since, until)[x],
            ) <= created_at(#[trigger] hits(facts, pubkey, kind, since, until)[y]),
    decreases facts.len(),
{
    if facts.len() > 0 {
        let less = facts.drop_last();
        let fact = facts.last();
        assert(less.push(fact) =~= facts);
        crate::publishers::lemma_grouped_prefix(less, fact);
        lemma_hits_forward(less, pubkey, kind, since, until);
        let earlier = hits(less, pubkey, kind, since, until);
        let found = hits(facts, pubkey, kind, since, until);
        assert forall|x: int| 0 <= x < found.len() implies facts.contains(#[trigger] found[x])
            && publisher(found[x]) == pubkey by {
            if x < earlier.len() {
                assert(found[x] == earlier[x]);
                assert(less.contains(earlier[x]));
                let i = choose|i: int| 0 <= i < less.len() && less[i] == earlier[x];
                assert(facts[i] == found[x]);
            } else {
                assert(facts[facts.len() - 1] == found[x]);
            }
        }
        assert forall|x: int, y: int| 0 <= x <= y < found.len() implies created_at(
            #[trigger] found[x],
        ) <= created_at(#[trigger] found[y]) by {
            if y < earlier.len() {
                assert(found[x] == earlier[x] && found[y] == earlier[y]);
            } else if x < earlier.len() {
                assert(found[x] == earlier[x]);
                assert(less.contains(earlier[x]));
                let i = choose|i: int| 0 <= i < less.len() && less[i] == earlier[x];
                assert(publisher(less[i]) == publisher(fact));
            }
        }
    }
}

/// The rows of a ledger have possible metrics: events, kinds, and a first
/// second that is no later than the last.
pub proof fn lemma_ledger_metrics(
    row: PublisherRankingRow,
    facts: Seq<Seq<u8>>,
    as_of: int,
)
    requires
        crate::activity::grouped(facts),
        counts_row(row, facts, as_of),
        forall|i: int| 0 <= i < facts.len() ==> (#[trigger] facts[i]).len() == 70,
    ensures
        row.event_count > 0,
        0 < row.kinds_count <= 65_536,
        row.first_event <= row.last_event,
{
    let since = window_since(as_of, row.days as int);
    let found = hits(facts, row.pubkey@, row.kind, since, as_of);
    lemma_hits_forward(facts, row.pubkey@, row.kind, since, as_of);
    assert(created_at(found[0]) <= created_at(found[found.len() - 1]));
    if row.kind is None {
        let kinds = kinds_hit(facts, row.pubkey@, since, as_of);
        lemma_small_set(kinds, 65_536);
        let i = lemma_hits_witness(facts, row.pubkey@, None, since, as_of);
        assert(facts[i].len() == 70);
        lemma_be_limits();
        lemma_be_nat_bound(facts[i].subrange(36, 38));
        let kind = event_kind(facts[i]) as u64;
        lemma_hits_nonempty(facts, row.pubkey@, Some(kind as u16), since, as_of, i);
        assert(kinds.contains(kind));
        if kinds.len() == 0 {
            assert(kinds =~= Set::empty());
        }
    }
}

/// The records of a sorted artifact are grouped.
pub proof fn lemma_stream_grouped(bytes: Seq<u8>, from: int, to: int)
    requires
        activity_stream(bytes),
        0 <= from <= to <= record_count(bytes, 70),
    ensures
        crate::activity::grouped(facts_between(bytes, from, to)),
        forall|i: int| 0 <= i < to - from ==> (#[trigger] facts_between(bytes, from, to)[i]).len() == 70,
{
    let facts = facts_between(bytes, from, to);
    assert forall|i: int, j: int| 0 <= i < j < facts.len() implies #[trigger] follows(
        facts[i],
        facts[j],
    ) by {
        lemma_follows(bytes, from + i, from + j);
    }
    assert forall|i: int| 0 <= i < to - from implies (#[trigger] facts[i]).len() == 70 by {
        crate::activity::lemma_fact_len(bytes, from + i);
    }
}

} // verus!
