//! Tallies of the publisher ledger: group sizes and the best rows of some groups.

use std::collections::BTreeMap;
use vstd::prelude::*;

use crate::error::{Error, Result};
use crate::ordered::{store, value_or};
use crate::period_counter::{counted, scope_key};
use crate::publisher_ledger::PublisherRankingRow;
use crate::publisher_top::{keeps_top, lemma_no_rows, push_top, RankRow};
use crate::sorting::in_order;

verus! {

/// The row has the window and kind.
pub open spec fn in_group(row: PublisherRankingRow, days: u32, kind: Option<u16>) -> bool {
    row.days == days && row.kind == kind
}

/// Rows of a window and kind.
pub open spec fn group_count(
    ledger: Seq<PublisherRankingRow>,
    days: u32,
    kind: Option<u16>,
) -> int
    decreases ledger.len(),
{
    if ledger.len() == 0 {
        0
    } else {
        group_count(ledger.drop_last(), days, kind) + if in_group(ledger.last(), days, kind) {
            1int
        } else {
            0int
        }
    }
}

/// Rows of a window with a kind filter.
pub open spec fn single_count(ledger: Seq<PublisherRankingRow>, days: u32) -> int
    decreases ledger.len(),
{
    if ledger.len() == 0 {
        0
    } else {
        single_count(ledger.drop_last(), days) + if ledger.last().days == days
            && ledger.last().kind is Some {
            1int
        } else {
            0int
        }
    }
}

/// Rows that a relation of the best `limit` rows of every group has: each group
/// adds its rows until it has `limit`.
pub open spec fn top_count(ledger: Seq<PublisherRankingRow>, limit: int) -> int
    decreases ledger.len(),
{
    if ledger.len() == 0 {
        0
    } else {
        let earlier = ledger.drop_last();
        let row = ledger.last();
        top_count(earlier, limit) + if group_count(earlier, row.days, row.kind) < limit {
            1int
        } else {
            0int
        }
    }
}

/// The metrics of a row.
pub open spec fn rank_of(row: PublisherRankingRow) -> RankRow {
    RankRow {
        pubkey: row.pubkey,
        event_count: row.event_count,
        kinds_count: row.kinds_count,
        first_event: row.first_event,
        last_event: row.last_event,
    }
}

/// The metrics of the rows of a window and kind, in the order of the ledger.
pub open spec fn group_ranks(
    ledger: Seq<PublisherRankingRow>,
    days: u32,
    kind: Option<u16>,
) -> Seq<RankRow>
    decreases ledger.len(),
{
    if ledger.len() == 0 {
        Seq::empty()
    } else {
        let earlier = group_ranks(ledger.drop_last(), days, kind);
        if in_group(ledger.last(), days, kind) {
            earlier.push(rank_of(ledger.last()))
        } else {
            earlier
        }
    }
}

/// Counts never exceed the rows.
proof fn lemma_counts_bounded(ledger: Seq<PublisherRankingRow>, days: u32, kind: Option<u16>, limit: int)
    ensures
        0 <= group_count(ledger, days, kind) <= ledger.len(),
        0 <= single_count(ledger, days) <= ledger.len(),
        0 <= top_count(ledger, limit) <= ledger.len(),
    decreases ledger.len(),
{
    if ledger.len() > 0 {
        lemma_counts_bounded(ledger.drop_last(), days, kind, limit);
    }
}

/// A window and kind.
#[derive(Clone, Copy, Debug, PartialEq, Eq, Structural)]
pub struct RankScope {
    /// Window in days.
    pub days: u32,
    /// Kind, or all kinds.
    pub kind: Option<u16>,
}

/// Running tallies of a ledger.
pub struct PublisherTally {
    /// Rows so far.
    pub ledger_rows: u64,
    /// Rows of every window and kind.
    pub groups: BTreeMap<u64, u64>,
    /// Rows with a kind filter of every window.
    pub singles: BTreeMap<u64, u64>,
    /// Rows of a relation of the best rows of every group.
    pub top_rows: u64,
    /// The best rows of the wanted groups.
    pub tops: Vec<Vec<RankRow>>,
}

impl PublisherTally {
    /// The tallies are those of the ledger.
    pub open spec fn tallies(
        &self,
        ledger: Seq<PublisherRankingRow>,
        scopes: Seq<RankScope>,
        limit: int,
    ) -> bool {
        &&& self.ledger_rows == ledger.len()
        &&& forall|days: u32, kind: Option<u16>|
            counted(self.groups@, #[trigger] scope_key(days as int, kind)) == group_count(
                ledger,
                days,
                kind,
            )
        &&& forall|days: u32|
            counted(self.singles@, days as int) == #[trigger] single_count(ledger, days)
        &&& self.top_rows == top_count(ledger, limit)
        &&& self.tops@.len() == scopes.len()
        &&& forall|j: int|
            0 <= j < scopes.len() ==> #[trigger] keeps_scope(
                self.tops@[j]@,
                ledger,
                scopes[j],
                limit,
            )
    }

    /// Start tallying for the wanted groups.
    pub fn new(scopes: &Vec<RankScope>, limit: usize) -> (tally: Self)
        ensures
            tally.tallies(Seq::empty(), scopes@, limit as int),
    {
        let mut tops: Vec<Vec<RankRow>> = Vec::new();
        let ghost none = Seq::<PublisherRankingRow>::empty();
        let mut i: usize = 0;
        while i < scopes.len()
            invariant
                i <= scopes@.len(),
                none == Seq::<PublisherRankingRow>::empty(),
                tops@.len() == i,
                forall|j: int|
                    0 <= j < i ==> #[trigger] keeps_scope(tops@[j]@, none, scopes@[j], limit as int),
            decreases scopes.len() - i,
        {
            let empty: Vec<RankRow> = Vec::new();
            proof {
                lemma_no_rows(limit as int);
                assert(empty@ =~= Seq::empty());
                assert(keeps_scope(empty@, none, scopes@[i as int], limit as int));
            }
            tops.push(empty);
            i += 1;
        }
        PublisherTally {
            ledger_rows: 0,
            groups: BTreeMap::new(),
            singles: BTreeMap::new(),
            top_rows: 0,
            tops,
        }
    }

    /// Tally one more row of the ledger.
    pub(crate) fn observe(
        &mut self,
        row: PublisherRankingRow,
        scopes: &Vec<RankScope>,
        limit: usize,
        Ghost(ledger): Ghost<Seq<PublisherRankingRow>>,
    ) -> (outcome: Result<()>)
        requires
            old(self).tallies(ledger, scopes@, limit as int),
        ensures
            outcome is Ok <==> ledger.len() < u64::MAX,
            outcome is Ok ==> final(self).tallies(ledger.push(row), scopes@, limit as int),
            outcome is Err ==> outcome == Err::<(), Error>(
                Error::Invalid("publisher ledger rows overflowed"),
            ),
    {
        let ghost more = ledger.push(row);
        let ghost bound = limit as int;
        if self.ledger_rows == u64::MAX {
            return Err(Error::Invalid("publisher ledger rows overflowed"));
        }
        proof {
            assert(more.drop_last() =~= ledger);
            lemma_counts_bounded(ledger, row.days, row.kind, bound);
            assert(counted(self.groups@, scope_key(row.days as int, row.kind)) == group_count(
                ledger,
                row.days,
                row.kind,
            ));
        }
        let code: u64 = match row.kind {
            None => 0,
            Some(kind) => kind as u64 + 1,
        };
        let key: u64 = row.days as u64 * 131_072 + code;
        assert(key == scope_key(row.days as int, row.kind));
        let known: u64 = value_or(&self.groups, key, 0);
        let ghost groups_before = self.groups@;
        store(&mut self.groups, key, known + 1);
        proof {
            assert forall|days: u32, kind: Option<u16>|
                counted(self.groups@, #[trigger] scope_key(days as int, kind)) == group_count(
                    more,
                    days,
                    kind,
                ) by {
                let other = scope_key(days as int, kind);
                assert(counted(groups_before, other) == group_count(ledger, days, kind));
                assert(0 <= other <= u64::MAX);
                if other == key {
                    assert(days == row.days && kind == row.kind);
                }
            }
        }
        let ghost singles_before = self.singles@;
        if row.kind.is_some() {
            let single: u64 = value_or(&self.singles, row.days as u64, 0);
            assert(single == single_count(ledger, row.days));
            store(&mut self.singles, row.days as u64, single + 1);
        }
        proof {
            assert forall|days: u32|
                counted(self.singles@, days as int) == #[trigger] single_count(more, days) by {
                assert(counted(singles_before, days as int) == single_count(ledger, days));
            }
        }
        if known < limit as u64 {
            self.top_rows = self.top_rows + 1;
        }
        self.ledger_rows = self.ledger_rows + 1;
        let rank: RankRow = RankRow {
            pubkey: row.pubkey,
            event_count: row.event_count,
            kinds_count: row.kinds_count,
            first_event: row.first_event,
            last_event: row.last_event,
        };
        let ghost tops_before = self.tops@;
        let mut i: usize = 0;
        while i < scopes.len()
            invariant
                i <= scopes@.len(),
                bound == limit,
                more == ledger.push(row),
                more.drop_last() == ledger,
                rank == rank_of(row),
                self.ledger_rows == more.len(),
                forall|days: u32, kind: Option<u16>|
                    counted(self.groups@, #[trigger] scope_key(days as int, kind)) == group_count(
                        more,
                        days,
                        kind,
                    ),
                forall|days: u32|
                    counted(self.singles@, days as int) == #[trigger] single_count(more, days),
                self.top_rows == top_count(more, bound),
                self.tops@.len() == scopes@.len(),
                tops_before.len() == scopes@.len(),
                forall|j: int|
                    0 <= j < scopes@.len() ==> #[trigger] keeps_scope(
                        tops_before[j]@,
                        ledger,
                        scopes@[j],
                        bound,
                    ),
                forall|j: int| i <= j < scopes@.len() ==> self.tops@[j] == tops_before[j],
                forall|j: int|
                    0 <= j < i ==> #[trigger] keeps_scope(self.tops@[j]@, more, scopes@[j], bound),
            decreases scopes.len() - i,
        {
            let scope: RankScope = scopes[i];
            let ghost before = self.tops@;
            proof {
                assert(keeps_scope(tops_before[i as int]@, ledger, scopes@[i as int], bound));
                assert(self.tops@[i as int] == tops_before[i as int]);
            }
            if scope.days == row.days && scope.kind == row.kind {
                push_top(&mut self.tops[i], rank, limit);
                assert(group_ranks(more, scope.days, scope.kind) == group_ranks(
                    ledger,
                    scope.days,
                    scope.kind,
                ).push(rank));
            }
            proof {
                assert(keeps_scope(self.tops@[i as int]@, more, scopes@[i as int], bound));
                assert forall|j: int| 0 <= j < i + 1 implies #[trigger] keeps_scope(
                    self.tops@[j]@,
                    more,
                    scopes@[j],
                    bound,
                ) by {
                    if j < i {
                        assert(self.tops@[j] == before[j]);
                    }
                }
            }
            i += 1;
        }
        Ok(())
    }
}

/// The rows are the best of a group, best first.
pub open spec fn keeps_scope(
    rows: Seq<RankRow>,
    ledger: Seq<PublisherRankingRow>,
    scope: RankScope,
    limit: int,
) -> bool {
    &&& in_order(rows)
    &&& rows.len() <= limit
    &&& keeps_top(rows, group_ranks(ledger, scope.days, scope.kind), limit)
}

} // verus!
