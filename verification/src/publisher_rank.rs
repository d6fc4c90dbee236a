//! Exact rankings of the publisher ledger.

use vstd::prelude::*;

use crate::bytes::{
    bytes_less, lemma_lex_antisymmetric, lemma_lex_total, lemma_lex_transitive, lex_less,
};
use crate::error::{Error, Result};
use crate::flexible_samples::kind_rank;
use crate::publisher_ledger::{ledger_before, ledger_ordered, PublisherRankingRow};
use crate::sorting::{in_order, lemma_repeats, lemma_sorts_members, sort_ordered, sorts, Ordered};

verus! {

/// The rows belong to the same window and kind.
pub open spec fn same_group(a: PublisherRankingRow, b: PublisherRankingRow) -> bool {
    a.days == b.days && a.kind == b.kind
}

/// The group of `a` comes before that of `b`.
pub open spec fn group_before(a: PublisherRankingRow, b: PublisherRankingRow) -> bool {
    a.days < b.days || (a.days == b.days && kind_rank(a.kind) < kind_rank(b.kind))
}

/// `a` ranks before `b`: by window and kind, then more events, then the smaller
/// publisher key.
pub open spec fn ranking_before(a: PublisherRankingRow, b: PublisherRankingRow) -> bool {
    ||| group_before(a, b)
    ||| same_group(a, b) && a.event_count > b.event_count
    ||| same_group(a, b) && a.event_count == b.event_count && lex_less(a.pubkey@, b.pubkey@)
}

/// Whether `left` ranks before `right`.
pub fn ranking_precedes(left: &PublisherRankingRow, right: &PublisherRankingRow) -> (before: bool)
    ensures
        before == ranking_before(*left, *right),
{
    if left.days != right.days {
        return left.days < right.days;
    }
    if left.kind != right.kind {
        return match left.kind {
            None => true,
            Some(a) => match right.kind {
                None => false,
                Some(b) => a < b,
            },
        };
    }
    if left.event_count != right.event_count {
        return left.event_count > right.event_count;
    }
    bytes_less(left.pubkey.as_slice(), right.pubkey.as_slice())
}

/// The ranking order is strict and transitive.
pub proof fn lemma_ranking_order(
    a: PublisherRankingRow,
    b: PublisherRankingRow,
    c: PublisherRankingRow,
)
    ensures
        !ranking_before(a, a),
        !(ranking_before(a, b) && ranking_before(b, a)),
        ranking_before(a, b) && ranking_before(b, c) ==> ranking_before(a, c),
        ranking_before(a, b) || ranking_before(b, a) || (same_group(a, b) && a.event_count
            == b.event_count && a.pubkey@ == b.pubkey@),
{
    lemma_lex_antisymmetric(a.pubkey@, b.pubkey@);
    lemma_lex_antisymmetric(a.pubkey@, a.pubkey@);
    lemma_lex_total(a.pubkey@, b.pubkey@);
    if lex_less(a.pubkey@, b.pubkey@) && lex_less(b.pubkey@, c.pubkey@) {
        lemma_lex_transitive(a.pubkey@, b.pubkey@, c.pubkey@);
    }
}

impl Ordered for PublisherRankingRow {
    open spec fn at_most(self, other: Self) -> bool {
        !ranking_before(other, self)
    }

    proof fn lemma_total(a: Self, b: Self) {
        lemma_ranking_order(a, b, a);
    }

    proof fn lemma_transitive(a: Self, b: Self, c: Self) {
        lemma_ranking_order(a, b, c);
        lemma_ranking_order(b, c, a);
        lemma_ranking_order(c, a, b);
        if ranking_before(c, a) {
            lemma_ranking_order(a, b, b);
            if ranking_before(a, b) {
            } else {
                assert(a.event_count == b.event_count && a.pubkey@ == b.pubkey@);
            }
        }
    }

    fn may_precede(&self, other: &Self) -> (before: bool) {
        !ranking_precedes(other, self)
    }
}

/// The rows strictly follow the ranking order.
pub open spec fn strictly_ranked(rows: Seq<PublisherRankingRow>) -> bool {
    forall|i: int, j: int|
        0 <= i < j < rows.len() ==> #[trigger] ranking_before(rows[i], rows[j])
}

/// Any two rows of the ledger rank apart.
pub open spec fn ranks_apart(ledger: Seq<PublisherRankingRow>) -> bool {
    forall|i: int, j: int|
        0 <= i < j < ledger.len() ==> #[trigger] ranking_before(ledger[i], ledger[j])
            || ranking_before(ledger[j], ledger[i])
}

/// The rows of the ledger that a row comes behind in its group.
pub open spec fn beaters(
    ledger: Seq<PublisherRankingRow>,
    row: PublisherRankingRow,
) -> Set<PublisherRankingRow> {
    Set::new(
        |other: PublisherRankingRow|
            ledger.contains(other) && same_group(other, row) && ranking_before(other, row),
    )
}

/// `rows` holds the best `limit` rows of every group, in ranking order.
pub open spec fn is_top(
    rows: Seq<PublisherRankingRow>,
    ledger: Seq<PublisherRankingRow>,
    limit: int,
) -> bool {
    &&& strictly_ranked(rows)
    &&& forall|row: PublisherRankingRow| #[trigger]
        rows.contains(row) <==> ledger.contains(row) && beaters(ledger, row).len() < limit
}

/// The windows and kinds of the ledger.
pub open spec fn ranking_groups(ledger: Seq<PublisherRankingRow>) -> Set<(u32, Option<u16>)> {
    Set::new(|group: (u32, Option<u16>)| has_group(ledger, group))
}

/// Some row has the window and kind.
pub open spec fn has_group(
    ledger: Seq<PublisherRankingRow>,
    group: (u32, Option<u16>),
) -> bool {
    exists|i: int| 0 <= i < ledger.len() && (#[trigger] ledger[i]).days == group.0 && ledger[i].kind == group.1
}

/// A ledger has one row for each key, so its rows rank apart.
pub proof fn lemma_ledger_ranks_apart(ledger: Seq<PublisherRankingRow>)
    requires
        ledger_ordered(ledger),
    ensures
        ranks_apart(ledger),
{
    assert forall|i: int, j: int| 0 <= i < j < ledger.len() implies #[trigger] ranking_before(
        ledger[i],
        ledger[j],
    ) || ranking_before(ledger[j], ledger[i]) by {
        assert(ledger_before(ledger[i], ledger[j]));
        lemma_ranking_order(ledger[i], ledger[j], ledger[i]);
        lemma_lex_antisymmetric(ledger[i].pubkey@, ledger[j].pubkey@);
        if ledger[i].pubkey@ == ledger[j].pubkey@ {
            lemma_lex_antisymmetric(ledger[i].pubkey@, ledger[i].pubkey@);
        }
    }
}

/// The rows before `i` in its group.
proof fn lemma_beaters_step(sorted: Seq<PublisherRankingRow>, i: int)
    requires
        strictly_ranked(sorted),
        0 <= i < sorted.len(),
    ensures
        beaters(sorted, sorted[i]).finite(),
        i == 0 || !same_group(sorted[i - 1], sorted[i]) ==> beaters(sorted, sorted[i]).len() == 0,
        i > 0 && same_group(sorted[i - 1], sorted[i]) ==> beaters(sorted, sorted[i]).len()
            == beaters(sorted, sorted[i - 1]).len() + 1,
    decreases i,
{
    let row = sorted[i];
    let mine = beaters(sorted, row);
    assert forall|other: PublisherRankingRow| mine.contains(other) implies exists|j: int|
        0 <= j < i && #[trigger] sorted[j] == other by {
        let j = choose|j: int| 0 <= j < sorted.len() && sorted[j] == other;
        lemma_ranking_order(other, row, other);
        if j > i {
            assert(ranking_before(sorted[i], sorted[j]));
        }
        assert(j < i);
    }
    if i == 0 || !same_group(sorted[i - 1], sorted[i]) {
        assert forall|other: PublisherRankingRow| !mine.contains(other) by {
            if mine.contains(other) {
                let j = choose|j: int| 0 <= j < i && #[trigger] sorted[j] == other;
                if j < i - 1 {
                    assert(ranking_before(sorted[j], sorted[i - 1]));
                }
                assert(ranking_before(sorted[i - 1], sorted[i]));
                assert(same_group(other, row));
            }
        }
        assert(mine =~= Set::empty());
    } else {
        let previous = sorted[i - 1];
        let earlier = beaters(sorted, previous);
        lemma_beaters_step(sorted, i - 1);
        assert(ranking_before(previous, row));
        lemma_ranking_order(previous, row, previous);
        assert(!earlier.contains(previous));
        assert(mine =~= earlier.insert(previous)) by {
            assert forall|other: PublisherRankingRow| mine.contains(other) <==> earlier.insert(
                previous,
            ).contains(other) by {
                if mine.contains(other) {
                    let j = choose|j: int| 0 <= j < i && #[trigger] sorted[j] == other;
                    if j < i - 1 {
                        assert(ranking_before(sorted[j], sorted[i - 1]));
                    }
                }
                if earlier.contains(other) {
                    lemma_ranking_order(other, previous, row);
                }
                if other == previous {
                    assert(sorted.contains(previous));
                }
            }
        }
    }
}

/// Rows in order that rank apart follow each other strictly.
proof fn lemma_strict(sorted: Seq<PublisherRankingRow>)
    requires
        in_order(sorted),
        forall|i: int|
            0 < i < sorted.len() ==> #[trigger] ranking_before(sorted[i - 1], sorted[i]),
    ensures
        strictly_ranked(sorted),
    decreases sorted.len(),
{
    if sorted.len() > 0 {
        let rest = sorted.drop_last();
        assert(in_order(rest)) by {
            assert forall|i: int, j: int| 0 <= i < j < rest.len() implies #[trigger] rest[i].at_most(
                #[trigger] rest[j],
            ) by {
                assert(sorted[i].at_most(sorted[j]));
            }
        }
        assert forall|i: int| 0 < i < rest.len() implies #[trigger] ranking_before(
            rest[i - 1],
            rest[i],
        ) by {
            assert(ranking_before(sorted[i - 1], sorted[i]));
        }
        lemma_strict(rest);
        let n = sorted.len() - 1;
        assert forall|i: int, j: int| 0 <= i < j < sorted.len() implies #[trigger] ranking_before(
            sorted[i],
            sorted[j],
        ) by {
            if j < n {
                assert(ranking_before(rest[i], rest[j]));
            } else {
                assert(ranking_before(sorted[n - 1], sorted[n]));
                if i < n - 1 {
                    assert(ranking_before(rest[i], rest[n - 1]));
                    lemma_ranking_order(sorted[i], sorted[n - 1], sorted[n]);
                }
            }
        }
    }
}

/// The best rows of every group of the ledger, and the number of groups.
pub fn rank_ledger(ledger: Vec<PublisherRankingRow>, limit: usize) -> (outcome: Result<
    (Vec<PublisherRankingRow>, u64),
>)
    ensures
        outcome is Ok <==> ranks_apart(ledger@),
        match outcome {
            Ok((rows, groups)) => {
                &&& is_top(rows@, ledger@, limit as int)
                &&& groups == ranking_groups(ledger@).len()
                &&& ranking_groups(ledger@).finite()
                &&& rows@.len() <= ledger@.len()
            },
            Err(error) => error is Invalid,
        },
{
    let ghost source = ledger@;
    let sorted: Vec<PublisherRankingRow> = sort_ordered(ledger);
    let ghost all = sorted@;
    proof {
        lemma_sorts_members(all, source);
    }
    let mut i: usize = 1;
    while i < sorted.len()
        invariant
            1 <= i,
            i <= sorted@.len() || sorted@.len() == 0,
            all == sorted@,
            source == ledger@,
            sorts(all, source),
            forall|k: int| 0 < k < i && k < all.len() ==> #[trigger] ranking_before(all[k - 1], all[k]),
        decreases sorted.len() - i,
    {
        if !ranking_precedes(&sorted[i - 1], &sorted[i]) {
            proof {
                lemma_tie_shows(all, source, i as int);
            }
            return Err(Error::Invalid("publisher ledger repeats a key"));
        }
        i += 1;
    }
    proof {
        lemma_strict(all);
        lemma_apart(all, source);
    }
    let mut rows: Vec<PublisherRankingRow> = Vec::new();
    let mut groups: u64 = 0;
    let mut behind: usize = 0;
    let mut at: usize = 0;
    proof {
        assert(ranking_groups(all.take(0)) =~= Set::empty());
    }
    while at < sorted.len()
        invariant
            at <= sorted@.len(),
            all == sorted@,
            strictly_ranked(all),
            at > 0 ==> behind == beaters(all, all[at - 1]).len(),
            behind <= at,
            rows@.len() <= at,
            groups <= at,
            ranking_groups(all.take(at as int)).finite(),
            groups == ranking_groups(all.take(at as int)).len(),
            forall|k: int|
                0 <= k < rows@.len() ==> kept_before(
                    #[trigger] rows@[k],
                    all,
                    limit as int,
                    at as int,
                ),
            forall|x: int, y: int|
                0 <= x < y < rows@.len() ==> #[trigger] ranking_before(rows@[x], rows@[y]),
            forall|k: int|
                0 <= k < at && beaters(all, #[trigger] all[k]).len() < limit ==> rows@.contains(
                    all[k],
                ),
        decreases sorted.len() - at,
    {
        let row: PublisherRankingRow = sorted[at];
        let ghost before = rows@;
        let fresh: bool = at == 0 || sorted[at - 1].days != row.days || sorted[at - 1].kind
            != row.kind;
        proof {
            lemma_beaters_step(all, at as int);
            lemma_group_step(all, at as int);
        }
        if fresh {
            behind = 0;
            groups = groups + 1;
        } else {
            behind = behind + 1;
        }
        if behind < limit {
            proof {
                assert forall|k: int| 0 <= k < before.len() implies ranking_before(
                    #[trigger] before[k],
                    row,
                ) by {
                    assert(kept_before(before[k], all, limit as int, at as int));
                    let j = choose|j: int| 0 <= j < at && #[trigger] all[j] == before[k];
                    assert(ranking_before(all[j], all[at as int]));
                }
            }
            rows.push(row);
            assert(rows@[before.len() as int] == all[at as int]);
        }
        proof {
            assert forall|k: int| 0 <= k < rows@.len() implies kept_before(
                #[trigger] rows@[k],
                all,
                limit as int,
                at + 1,
            ) by {
                if k < before.len() {
                    assert(kept_before(before[k], all, limit as int, at as int));
                    let j = choose|j: int| 0 <= j < at && #[trigger] all[j] == before[k];
                    assert(all[j] == rows@[k]);
                } else {
                    assert(all[at as int] == rows@[k]);
                }
            }
            assert forall|k: int|
                0 <= k < at + 1 && beaters(all, #[trigger] all[k]).len() < limit implies rows@.contains(
                all[k],
            ) by {
                if k < at {
                    assert(before.contains(all[k]));
                    let j = choose|j: int| 0 <= j < before.len() && before[j] == all[k];
                    assert(rows@[j] == all[k]);
                } else {
                    assert(rows@[before.len() as int] == all[k]);
                }
            }
        }
        at += 1;
    }
    proof {
        assert(all.take(all.len() as int) =~= all);
        lemma_same_members(all, source);
        assert forall|row: PublisherRankingRow| #[trigger]
            rows@.contains(row) <==> source.contains(row) && beaters(source, row).len() < limit by {
            if rows@.contains(row) {
                let k = choose|k: int| 0 <= k < rows@.len() && rows@[k] == row;
                assert(kept_before(rows@[k], all, limit as int, all.len() as int));
                let j = choose|j: int| 0 <= j < all.len() && #[trigger] all[j] == row;
                assert(all.contains(row));
            }
            if source.contains(row) && beaters(source, row).len() < limit {
                assert(all.contains(row));
                let j = choose|j: int| 0 <= j < all.len() && all[j] == row;
                assert(beaters(all, all[j]).len() < limit);
            }
        }
    }
    Ok((rows, groups))
}

/// The row is one of the first, and has few enough before it in its group.
spec fn kept_before(
    row: PublisherRankingRow,
    sorted: Seq<PublisherRankingRow>,
    limit: int,
    count: int,
) -> bool {
    &&& exists|j: int| 0 <= j < count && #[trigger] sorted[j] == row
    &&& beaters(sorted, row).len() < limit
}

/// Rows with the same members have the same groups and rankings.
proof fn lemma_same_members(a: Seq<PublisherRankingRow>, b: Seq<PublisherRankingRow>)
    requires
        forall|row: PublisherRankingRow| #[trigger] a.contains(row) <==> b.contains(row),
    ensures
        ranking_groups(a) == ranking_groups(b),
        forall|row: PublisherRankingRow| #[trigger] beaters(a, row) == beaters(b, row),
{
    assert forall|group: (u32, Option<u16>)| has_group(a, group) <==> has_group(b, group) by {
        if has_group(a, group) {
            let i = choose|i: int|
                0 <= i < a.len() && (#[trigger] a[i]).days == group.0 && a[i].kind == group.1;
            assert(a.contains(a[i]));
            let j = choose|j: int| 0 <= j < b.len() && b[j] == a[i];
            assert(b[j].days == group.0);
        }
        if has_group(b, group) {
            let i = choose|i: int|
                0 <= i < b.len() && (#[trigger] b[i]).days == group.0 && b[i].kind == group.1;
            assert(b.contains(b[i]));
            assert(a.contains(b[i]));
            let j = choose|j: int| 0 <= j < a.len() && a[j] == b[i];
            assert(a[j].days == group.0);
        }
    }
    assert(ranking_groups(a) =~= ranking_groups(b));
    assert forall|row: PublisherRankingRow| #[trigger] beaters(a, row) == beaters(b, row) by {
        assert(beaters(a, row) =~= beaters(b, row));
    }
}

/// A row that starts a group adds one.
proof fn lemma_group_step(sorted: Seq<PublisherRankingRow>, i: int)
    requires
        strictly_ranked(sorted),
        0 <= i < sorted.len(),
        ranking_groups(sorted.take(i)).finite(),
    ensures
        ranking_groups(sorted.take(i + 1)).finite(),
        ranking_groups(sorted.take(i + 1)).len() == ranking_groups(sorted.take(i)).len() + if i == 0
            || !same_group(sorted[i - 1], sorted[i]) {
            1int
        } else {
            0int
        },
{
    let before = ranking_groups(sorted.take(i));
    let after = ranking_groups(sorted.take(i + 1));
    let group = (sorted[i].days, sorted[i].kind);
    let less = sorted.take(i);
    let more = sorted.take(i + 1);
    assert(more[i] == sorted[i]);
    assert forall|g: (u32, Option<u16>)| after.contains(g) <==> before.insert(group).contains(g) by {
        if after.contains(g) {
            let k = choose|k: int|
                0 <= k < more.len() && (#[trigger] more[k]).days == g.0 && more[k].kind == g.1;
            if k < i {
                assert(less[k].days == g.0 && less[k].kind == g.1);
            }
        }
        if before.contains(g) {
            let k = choose|k: int|
                0 <= k < less.len() && (#[trigger] less[k]).days == g.0 && less[k].kind == g.1;
            assert(more[k].days == g.0);
        }
        if g == group {
            assert(more[i].days == g.0 && more[i].kind == g.1);
        }
    }
    assert(after =~= before.insert(group));
    if i > 0 && same_group(sorted[i - 1], sorted[i]) {
        assert(less[i - 1].days == group.0 && less[i - 1].kind == group.1);
        assert(before.contains(group));
        assert(after =~= before);
    } else {
        if before.contains(group) {
            let k = choose|k: int|
                0 <= k < less.len() && (#[trigger] less[k]).days == group.0 && less[k].kind
                    == group.1;
            assert(less[k] == sorted[k]);
            if k < i - 1 {
                assert(ranking_before(sorted[k], sorted[i - 1]));
            }
            assert(ranking_before(sorted[i - 1], sorted[i]));
        }
    }
}

/// Neighbours that do not rank apart show that the source repeats a key.
proof fn lemma_tie_shows(
    sorted: Seq<PublisherRankingRow>,
    source: Seq<PublisherRankingRow>,
    i: int,
)
    requires
        sorts(sorted, source),
        0 < i < sorted.len(),
        !ranking_before(sorted[i - 1], sorted[i]),
    ensures
        !ranks_apart(source),
{
    broadcast use vstd::seq_lib::group_to_multiset_ensures;
    let a = sorted[i - 1];
    let b = sorted[i];
    assert(a.at_most(b));
    assert(!ranking_before(b, a));
    lemma_sorts_members(sorted, source);
    assert(sorted.contains(a) && sorted.contains(b));
    let x = choose|x: int| 0 <= x < source.len() && source[x] == a;
    if a != b {
        let y = choose|y: int| 0 <= y < source.len() && source[y] == b;
        if x < y {
            assert(!ranking_before(source[x], source[y]));
        } else {
            assert(!ranking_before(source[y], source[x]));
        }
    } else {
        let (p, q) = lemma_repeats(sorted, source, i - 1, i);
        lemma_ranking_order(a, a, a);
        assert(!ranking_before(source[p], source[q]));
    }
}

/// Rows that follow each other strictly rank apart in any order.
proof fn lemma_apart(sorted: Seq<PublisherRankingRow>, source: Seq<PublisherRankingRow>)
    requires
        sorts(sorted, source),
        strictly_ranked(sorted),
    ensures
        ranks_apart(source),
{
    broadcast use vstd::seq_lib::group_to_multiset_ensures;
    lemma_sorts_members(sorted, source);
    assert forall|i: int, j: int| 0 <= i < j < source.len() implies #[trigger] ranking_before(
        source[i],
        source[j],
    ) || ranking_before(source[j], source[i]) by {
        let a = source[i];
        let b = source[j];
        assert(source.contains(a) && source.contains(b));
        if a == b {
            let (p, q) = lemma_repeats(source, sorted, i, j);
            assert(ranking_before(sorted[p], sorted[q]));
        } else {
            assert(sorted.contains(a) && sorted.contains(b));
            let p = choose|p: int| 0 <= p < sorted.len() && sorted[p] == a;
            let q = choose|q: int| 0 <= q < sorted.len() && sorted[q] == b;
            if p < q {
                assert(ranking_before(sorted[p], sorted[q]));
            } else {
                assert(ranking_before(sorted[q], sorted[p]));
            }
        }
    }
}

/// There is one ranking of a ledger.
pub proof fn lemma_top_unique(
    a: Seq<PublisherRankingRow>,
    b: Seq<PublisherRankingRow>,
    ledger: Seq<PublisherRankingRow>,
    limit: int,
)
    requires
        is_top(a, ledger, limit),
        is_top(b, ledger, limit),
    ensures
        a == b,
{
    assert forall|row: PublisherRankingRow| #[trigger] a.contains(row) <==> b.contains(row) by {}
    let n = if a.len() < b.len() {
        a.len() as int
    } else {
        b.len() as int
    };
    lemma_ranked_prefix(a, b, n);
    if a.len() < b.len() {
        assert(b.contains(b[n]));
        assert(a.contains(b[n]));
        let i = choose|i: int| 0 <= i < a.len() && a[i] == b[n];
        assert(b[i] == b[n]);
        assert(ranking_before(b[i], b[n]));
        lemma_ranking_order(b[n], b[n], b[n]);
    }
    if b.len() < a.len() {
        assert(a.contains(a[n]));
        assert(b.contains(a[n]));
        let i = choose|i: int| 0 <= i < b.len() && b[i] == a[n];
        assert(a[i] == a[n]);
        assert(ranking_before(a[i], a[n]));
        lemma_ranking_order(a[n], a[n], a[n]);
    }
    assert(a =~= b);
}

/// Rankings with the same members agree as far as both reach.
proof fn lemma_ranked_prefix(
    a: Seq<PublisherRankingRow>,
    b: Seq<PublisherRankingRow>,
    n: int,
)
    requires
        strictly_ranked(a),
        strictly_ranked(b),
        forall|row: PublisherRankingRow| #[trigger] a.contains(row) <==> b.contains(row),
        0 <= n <= a.len(),
        n <= b.len(),
    ensures
        forall|i: int| 0 <= i < n ==> a[i] == b[i],
    decreases n,
{
    if n > 0 {
        lemma_ranked_prefix(a, b, n - 1);
        let x = a[n - 1];
        let y = b[n - 1];
        assert(a.contains(x));
        assert(b.contains(x));
        let j = choose|j: int| 0 <= j < b.len() && b[j] == x;
        assert(b.contains(y));
        assert(a.contains(y));
        let k = choose|k: int| 0 <= k < a.len() && a[k] == y;
        if j < n - 1 {
            assert(a[j] == b[j]);
            assert(ranking_before(a[j], a[n - 1]));
            lemma_ranking_order(x, x, x);
        }
        if k < n - 1 {
            assert(a[k] == b[k]);
            assert(ranking_before(b[k], b[n - 1]));
            lemma_ranking_order(y, y, y);
        }
        if x != y {
            assert(j > n - 1);
            assert(k > n - 1);
            assert(ranking_before(b[n - 1], b[j]));
            assert(ranking_before(a[n - 1], a[k]));
            lemma_ranking_order(x, y, x);
        }
    }
}

/// The groups of a ledger are finitely many.
proof fn lemma_groups_finite(ledger: Seq<PublisherRankingRow>)
    ensures
        ranking_groups(ledger).finite(),
{
    let pairs = ledger.map_values(|row: PublisherRankingRow| (row.days, row.kind));
    vstd::seq_lib::seq_to_set_is_finite(pairs);
    assert forall|group: (u32, Option<u16>)| ranking_groups(ledger).contains(group) implies
        pairs.to_set().contains(group) by {
        let i = choose|i: int|
            0 <= i < ledger.len() && (#[trigger] ledger[i]).days == group.0 && ledger[i].kind
                == group.1;
        assert(pairs[i] == group);
    }
    vstd::set_lib::lemma_set_subset_finite(pairs.to_set(), ranking_groups(ledger));
}

/// A row of a ranking comes behind fewer than `limit` rows of the ranking.
proof fn lemma_place_bounded(
    rows: Seq<PublisherRankingRow>,
    ledger: Seq<PublisherRankingRow>,
    limit: int,
    i: int,
)
    requires
        is_top(rows, ledger, limit),
        0 <= i < rows.len(),
    ensures
        beaters(rows, rows[i]).len() < limit,
{
    let row = rows[i];
    assert(rows.contains(row));
    let all = beaters(ledger, row);
    vstd::seq_lib::seq_to_set_is_finite(ledger);
    assert forall|other: PublisherRankingRow| all.contains(other) implies ledger.to_set().contains(
        other,
    ) by {}
    vstd::set_lib::lemma_set_subset_finite(ledger.to_set(), all);
    assert forall|other: PublisherRankingRow| beaters(rows, row).contains(other) implies all.contains(
        other,
    ) by {
        assert(rows.contains(other));
    }
    vstd::set_lib::lemma_len_subset(beaters(rows, row), all);
}

/// The first `count` rows of a ranking fill their groups at most.
proof fn lemma_groups_hold(
    rows: Seq<PublisherRankingRow>,
    ledger: Seq<PublisherRankingRow>,
    limit: int,
    count: int,
)
    requires
        is_top(rows, ledger, limit),
        0 <= count <= rows.len(),
    ensures
        ranking_groups(rows.take(count)).finite(),
        count > 0 ==> count <= (ranking_groups(rows.take(count)).len() - 1) * limit + beaters(
            rows,
            rows[count - 1],
        ).len() + 1,
    decreases count,
{
    lemma_groups_finite(rows.take(count));
    if count > 0 {
        let i = count - 1;
        lemma_groups_hold(rows, ledger, limit, i);
        lemma_group_step(rows, i);
        lemma_beaters_step(rows, i);
        let before = ranking_groups(rows.take(i)).len() as int;
        if i > 0 {
            lemma_place_bounded(rows, ledger, limit, i - 1);
            let place = beaters(rows, rows[i - 1]).len() as int;
            assert((before - 1) * limit + limit == before * limit) by (nonlinear_arith);
            if !same_group(rows[i - 1], rows[i]) {
                assert(i <= before * limit);
            }
        } else {
            assert(ranking_groups(rows.take(0)) =~= Set::empty());
            assert((1 - 1) * limit == 0) by (nonlinear_arith);
        }
    }
}

/// A ranking holds at most `limit` rows for each window and kind of the ledger.
pub proof fn lemma_top_bounded(
    rows: Seq<PublisherRankingRow>,
    ledger: Seq<PublisherRankingRow>,
    limit: int,
)
    requires
        is_top(rows, ledger, limit),
        limit >= 0,
    ensures
        ranking_groups(ledger).finite(),
        rows.len() <= ranking_groups(ledger).len() * limit,
{
    lemma_groups_finite(ledger);
    lemma_groups_hold(rows, ledger, limit, rows.len() as int);
    assert(rows.take(rows.len() as int) =~= rows);
    let mine = ranking_groups(rows);
    let all = ranking_groups(ledger);
    assert forall|group: (u32, Option<u16>)| mine.contains(group) implies all.contains(group) by {
        let i = choose|i: int|
            0 <= i < rows.len() && (#[trigger] rows[i]).days == group.0 && rows[i].kind == group.1;
        assert(rows.contains(rows[i]));
        assert(ledger.contains(rows[i]));
        let j = choose|j: int| 0 <= j < ledger.len() && ledger[j] == rows[i];
        assert(ledger[j].days == group.0);
    }
    vstd::set_lib::lemma_len_subset(mine, all);
    let a = mine.len() as int;
    let b = all.len() as int;
    assert(a * limit <= b * limit) by (nonlinear_arith)
        requires
            a <= b,
            limit >= 0,
    ;
    if rows.len() > 0 {
        lemma_place_bounded(rows, ledger, limit, rows.len() - 1);
        assert((a - 1) * limit + limit == a * limit) by (nonlinear_arith);
    }
}

} // verus!
