//! The best publishers of a bounded list.

use vstd::multiset::Multiset;
use vstd::prelude::*;

use crate::bytes::{bytes_equal, bytes_less, lemma_lex_total, lemma_lex_transitive, lex_less};
use crate::sorting::{in_order, Ordered};

verus! {

/// Exact metrics of one publisher in a ranking.
#[derive(Clone, Copy, Debug, PartialEq, Eq)]
pub struct RankRow {
    /// Publisher key.
    pub pubkey: [u8; 32],
    /// Exact event count.
    pub event_count: u64,
    /// Exact distinct kinds.
    pub kinds_count: u64,
    /// Earliest included second.
    pub first_event: u32,
    /// Latest included second.
    pub last_event: u32,
}

impl Ordered for RankRow {
    /// More events first, then the smaller publisher key.
    open spec fn at_most(self, other: Self) -> bool {
        ||| self.event_count > other.event_count
        ||| {
            &&& self.event_count == other.event_count
            &&& lex_less(self.pubkey@, other.pubkey@) || self.pubkey@ == other.pubkey@
        }
    }

    proof fn lemma_total(a: Self, b: Self) {
        lemma_lex_total(a.pubkey@, b.pubkey@);
    }

    proof fn lemma_transitive(a: Self, b: Self, c: Self) {
        if lex_less(a.pubkey@, b.pubkey@) && lex_less(b.pubkey@, c.pubkey@) {
            lemma_lex_transitive(a.pubkey@, b.pubkey@, c.pubkey@);
        }
    }

    fn may_precede(&self, other: &Self) -> (before: bool) {
        if self.event_count != other.event_count {
            return self.event_count > other.event_count;
        }
        bytes_less(self.pubkey.as_slice(), other.pubkey.as_slice()) || bytes_equal(
            self.pubkey.as_slice(),
            other.pubkey.as_slice(),
        )
    }
}

/// Every value of `rows` may stand before every value of `dropped`.
pub open spec fn beats(rows: Seq<RankRow>, dropped: Multiset<RankRow>) -> bool {
    forall|i: int, row: RankRow|
        0 <= i < rows.len() && dropped.count(row) > 0 ==> #[trigger] rows[i].at_most(row)
}

/// `rows` and `dropped` are the values of `seen`, and `rows` the best of them.
pub open spec fn splits(
    rows: Seq<RankRow>,
    dropped: Multiset<RankRow>,
    seen: Seq<RankRow>,
    limit: int,
) -> bool {
    &&& seen.to_multiset() == rows.to_multiset().add(dropped)
    &&& in_order(rows)
    &&& beats(rows, dropped)
    &&& rows.len() == if seen.len() < limit {
        seen.len() as int
    } else {
        limit
    }
}

/// `rows` holds the best `limit` values of `seen`, best first.
pub open spec fn keeps_top(rows: Seq<RankRow>, seen: Seq<RankRow>, limit: int) -> bool {
    exists|dropped: Multiset<RankRow>| #[trigger] splits(rows, dropped, seen, limit)
}

/// The place of a row among rows in order: behind those that may stand before it.
fn find_place(rows: &Vec<RankRow>, row: &RankRow) -> (place: usize)
    requires
        in_order(rows@),
    ensures
        place <= rows@.len(),
        forall|i: int| 0 <= i < place ==> rows@[i].at_most(*row),
        forall|i: int| place <= i < rows@.len() ==> row.at_most(rows@[i]),
{
    let mut i: usize = 0;
    while i < rows.len() && rows[i].may_precede(row)
        invariant
            i <= rows@.len(),
            forall|j: int| 0 <= j < i ==> rows@[j].at_most(*row),
        decreases rows.len() - i,
    {
        i += 1;
    }
    proof {
        if i < rows@.len() {
            RankRow::lemma_total(rows@[i as int], *row);
            assert(row.at_most(rows@[i as int]));
            assert forall|j: int| i <= j < rows@.len() implies row.at_most(rows@[j]) by {
                if j > i {
                    assert(rows@[i as int].at_most(rows@[j]));
                    RankRow::lemma_transitive(*row, rows@[i as int], rows@[j]);
                }
            }
        }
    }
    i
}

/// Offer a row to a list of the best `limit` rows.
pub fn push_top(rows: &mut Vec<RankRow>, row: RankRow, limit: usize)
    requires
        in_order(old(rows)@),
        old(rows)@.len() <= limit,
    ensures
        in_order(final(rows)@),
        final(rows)@.len() <= limit,
        forall|seen: Seq<RankRow>|
            keeps_top(old(rows)@, seen, limit as int) ==> #[trigger] keeps_top(
                final(rows)@,
                seen.push(row),
                limit as int,
            ),
{
    let ghost before = rows@;
    let full: bool = rows.len() >= limit;
    if full && (rows.len() == 0 || rows[rows.len() - 1].may_precede(&row)) {
        proof {
            assert forall|seen: Seq<RankRow>| keeps_top(before, seen, limit as int) implies
                #[trigger] keeps_top(before, seen.push(row), limit as int) by {
                lemma_turned_away(before, row, seen, limit as int);
            }
        }
        return ;
    }
    let place: usize = find_place(rows, &row);
    rows.insert(place, row);
    let ghost widened = rows@;
    proof {
        assert(widened == before.insert(place as int, row));
        lemma_inserted(before, row, place as int);
    }
    if full {
        proof {
            if place == before.len() {
                assert(before[place - 1].at_most(row));
                assert(!before[before.len() - 1].at_most(row));
            }
            assert(widened.last() == before.last());
        }
        rows.pop();
        proof {
            let kept = rows@;
            assert(kept =~= widened.drop_last());
            assert forall|i: int, j: int| 0 <= i < j < kept.len() implies #[trigger] kept[i].at_most(
                #[trigger] kept[j],
            ) by {
                assert(widened[i].at_most(widened[j]));
            }
            assert forall|seen: Seq<RankRow>| keeps_top(before, seen, limit as int) implies
                #[trigger] keeps_top(kept, seen.push(row), limit as int) by {
                lemma_replaced(before, widened, row, seen, limit as int);
            }
        }
    } else {
        proof {
            assert forall|seen: Seq<RankRow>| keeps_top(before, seen, limit as int) implies
                #[trigger] keeps_top(widened, seen.push(row), limit as int) by {
                lemma_grown(before, widened, row, seen, limit as int);
            }
        }
    }
}

/// A row that comes behind a full list changes nothing.
proof fn lemma_turned_away(rows: Seq<RankRow>, row: RankRow, seen: Seq<RankRow>, limit: int)
    requires
        keeps_top(rows, seen, limit),
        in_order(rows),
        rows.len() >= limit,
        rows.len() == 0 || rows.last().at_most(row),
    ensures
        keeps_top(rows, seen.push(row), limit),
{
    broadcast use vstd::seq_lib::group_to_multiset_ensures;
    let dropped = choose|dropped: Multiset<RankRow>| #[trigger] splits(rows, dropped, seen, limit);
    let rest = dropped.insert(row);
    assert(seen.push(row).to_multiset() =~= rows.to_multiset().add(rest));
    assert forall|i: int, other: RankRow|
        0 <= i < rows.len() && rest.count(other) > 0 implies #[trigger] rows[i].at_most(other) by {
        if dropped.count(other) > 0 {
        } else {
            assert(other == row);
            if i < rows.len() - 1 {
                assert(rows[i].at_most(rows[rows.len() - 1]));
                RankRow::lemma_transitive(rows[i], rows[rows.len() - 1], row);
            }
        }
    }
    assert(splits(rows, rest, seen.push(row), limit));
}

/// A row that comes into a full list drives out the last one.
proof fn lemma_replaced(
    rows: Seq<RankRow>,
    widened: Seq<RankRow>,
    row: RankRow,
    seen: Seq<RankRow>,
    limit: int,
)
    requires
        keeps_top(rows, seen, limit),
        in_order(rows),
        in_order(widened),
        widened.to_multiset() == rows.to_multiset().insert(row),
        0 < rows.len(),
        rows.len() >= limit,
        widened.len() == rows.len() + 1,
        widened.last() == rows.last(),
    ensures
        keeps_top(widened.drop_last(), seen.push(row), limit),
{
    broadcast use vstd::seq_lib::group_to_multiset_ensures;
    let dropped = choose|dropped: Multiset<RankRow>| #[trigger] splits(rows, dropped, seen, limit);
    let kept = widened.drop_last();
    let last = widened.last();
    assert(kept.push(last) =~= widened);
    let rest = dropped.insert(last);
    assert(widened.to_multiset() =~= kept.to_multiset().insert(last));
    assert(seen.push(row).to_multiset() =~= seen.to_multiset().insert(row));
    assert forall|v: RankRow| seen.push(row).to_multiset().count(v) == kept.to_multiset().add(
        rest,
    ).count(v) by {
        assert(widened.to_multiset().count(v) == rows.to_multiset().insert(row).count(v));
        assert(widened.to_multiset().count(v) == kept.to_multiset().insert(last).count(v));
        assert(seen.to_multiset().count(v) == rows.to_multiset().count(v) + dropped.count(v));
    }
    assert(seen.push(row).to_multiset() =~= kept.to_multiset().add(rest));
    assert forall|i: int, j: int| 0 <= i < j < kept.len() implies #[trigger] kept[i].at_most(
        #[trigger] kept[j],
    ) by {
        assert(widened[i].at_most(widened[j]));
    }
    assert forall|i: int, other: RankRow|
        0 <= i < kept.len() && rest.count(other) > 0 implies #[trigger] kept[i].at_most(other) by {
        assert(widened[i].at_most(widened[widened.len() - 1]));
        if dropped.count(other) > 0 {
            assert(rows[rows.len() - 1].at_most(other));
            RankRow::lemma_transitive(kept[i], last, other);
        }
    }
    assert(splits(kept, rest, seen.push(row), limit));
}

/// A list with room takes every row.
proof fn lemma_grown(
    rows: Seq<RankRow>,
    widened: Seq<RankRow>,
    row: RankRow,
    seen: Seq<RankRow>,
    limit: int,
)
    requires
        keeps_top(rows, seen, limit),
        in_order(widened),
        widened.to_multiset() == rows.to_multiset().insert(row),
        rows.len() < limit,
        widened.len() == rows.len() + 1,
    ensures
        keeps_top(widened, seen.push(row), limit),
{
    broadcast use vstd::seq_lib::group_to_multiset_ensures;
    let dropped = choose|dropped: Multiset<RankRow>| #[trigger] splits(rows, dropped, seen, limit);
    assert(seen.to_multiset().len() == rows.to_multiset().len() + dropped.len());
    assert(rows.len() == seen.len());
    assert(dropped.len() == 0);
    assert(dropped =~= Multiset::empty());
    assert(seen.push(row).to_multiset() =~= widened.to_multiset().add(dropped));
    assert(beats(widened, dropped));
    assert(splits(widened, dropped, seen.push(row), limit));
}

/// A row put at its place keeps the order.
proof fn lemma_inserted(rows: Seq<RankRow>, row: RankRow, place: int)
    requires
        in_order(rows),
        0 <= place <= rows.len(),
        forall|i: int| 0 <= i < place ==> rows[i].at_most(row),
        forall|i: int| place <= i < rows.len() ==> row.at_most(rows[i]),
    ensures
        in_order(rows.insert(place, row)),
        rows.insert(place, row).to_multiset() == rows.to_multiset().insert(row),
{
    broadcast use vstd::seq_lib::group_to_multiset_ensures;
    let more = rows.insert(place, row);
    assert(more.remove(place) =~= rows);
    assert(more.to_multiset() =~= rows.to_multiset().insert(row));
    assert forall|i: int, j: int| 0 <= i < j < more.len() implies #[trigger] more[i].at_most(
        #[trigger] more[j],
    ) by {
        let a = if i < place {
            i
        } else {
            i - 1
        };
        let b = if j < place {
            j
        } else {
            j - 1
        };
        if i != place && j != place {
            assert(rows[a].at_most(rows[b]));
        }
    }
}

/// An empty list holds the best of nothing.
pub proof fn lemma_no_rows(limit: int)
    requires
        0 <= limit,
    ensures
        keeps_top(Seq::empty(), Seq::empty(), limit),
{
    broadcast use vstd::seq_lib::group_to_multiset_ensures;
    let none = Seq::<RankRow>::empty();
    assert(none.to_multiset() =~= none.to_multiset().add(Multiset::empty()));
    assert(splits(none, Multiset::empty(), none, limit));
}

} // verus!
