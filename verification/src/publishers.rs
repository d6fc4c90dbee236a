//! Sets of publishers, kinds and events in an activity stream.

use vstd::prelude::*;

use crate::activity::{event_kind, follows, grouped, publisher};
use crate::bytes::{lemma_lex_antisymmetric, lemma_lex_transitive, lex_less};

verus! {

/// The publishers with a record that `keep` holds of.
pub open spec fn publishers_where(
    facts: Seq<Seq<u8>>,
    keep: spec_fn(Seq<u8>) -> bool,
) -> Set<Seq<u8>> {
    Set::new(
        |p: Seq<u8>|
            exists|i: int|
                0 <= i < facts.len() && publisher(#[trigger] facts[i]) == p && keep(facts[i]),
    )
}

/// The event kinds of the records that `keep` holds of.
pub open spec fn kinds_where(facts: Seq<Seq<u8>>, keep: spec_fn(Seq<u8>) -> bool) -> Set<u16> {
    Set::new(
        |k: u16|
            exists|i: int|
                0 <= i < facts.len() && event_kind(#[trigger] facts[i]) == k && keep(facts[i]),
    )
}

/// The number of records that `keep` holds of.
pub open spec fn events_where(facts: Seq<Seq<u8>>, keep: spec_fn(Seq<u8>) -> bool) -> nat
    decreases facts.len(),
{
    if facts.len() == 0 {
        0
    } else {
        events_where(facts.drop_last(), keep) + if keep(facts.last()) {
            1nat
        } else {
            0nat
        }
    }
}

/// The publishers of grouped records, each once, in order of appearance.
pub open spec fn publisher_order(facts: Seq<Seq<u8>>) -> Seq<Seq<u8>>
    decreases facts.len(),
{
    if facts.len() == 0 {
        Seq::empty()
    } else {
        let earlier = publisher_order(facts.drop_last());
        if starts_group(facts.drop_last(), facts.last()) {
            earlier.push(publisher(facts.last()))
        } else {
            earlier
        }
    }
}

/// `fact` is the first record of another publisher than the last of `facts`.
pub open spec fn starts_group(facts: Seq<Seq<u8>>, fact: Seq<u8>) -> bool {
    facts.len() == 0 || publisher(facts.last()) != publisher(fact)
}

/// One more record adds its publisher where `keep` holds of it.
pub proof fn lemma_publishers_push(
    facts: Seq<Seq<u8>>,
    fact: Seq<u8>,
    keep: spec_fn(Seq<u8>) -> bool,
)
    ensures
        publishers_where(facts.push(fact), keep) == if keep(fact) {
            publishers_where(facts, keep).insert(publisher(fact))
        } else {
            publishers_where(facts, keep)
        },
        publishers_where(facts, keep).finite(),
        publishers_where(facts.push(fact), keep).finite(),
{
    lemma_publishers_finite(facts, keep);
    let more = facts.push(fact);
    let before = publishers_where(facts, keep);
    let after = publishers_where(more, keep);
    assert forall|p: Seq<u8>| after.contains(p) == (before.contains(p) || (keep(fact) && p
        == publisher(fact))) by {
        if before.contains(p) {
            let i = choose|i: int|
                0 <= i < facts.len() && publisher(#[trigger] facts[i]) == p && keep(facts[i]);
            assert(more[i] == facts[i]);
        }
        if keep(fact) && p == publisher(fact) {
            assert(more[facts.len() as int] == fact);
        }
        if after.contains(p) {
            let i = choose|i: int|
                0 <= i < more.len() && publisher(#[trigger] more[i]) == p && keep(more[i]);
            if i < facts.len() {
                assert(facts[i] == more[i]);
            }
        }
    }
    if keep(fact) {
        assert(after =~= before.insert(publisher(fact)));
    } else {
        assert(after =~= before);
    }
}

/// There are finitely many publishers, and none without records.
pub proof fn lemma_publishers_finite(facts: Seq<Seq<u8>>, keep: spec_fn(Seq<u8>) -> bool)
    ensures
        publishers_where(facts, keep).finite(),
        publishers_where(facts, keep).len() <= facts.len(),
    decreases facts.len(),
{
    let set = publishers_where(facts, keep);
    if facts.len() == 0 {
        assert(set =~= Set::empty());
    } else {
        let less = facts.drop_last();
        lemma_publishers_finite(less, keep);
        assert(less.push(facts.last()) =~= facts);
        let before = publishers_where(less, keep);
        assert(set.subset_of(before.insert(publisher(facts.last())))) by {
            assert forall|p: Seq<u8>| set.contains(p) implies before.insert(
                publisher(facts.last()),
            ).contains(p) by {
                let i = choose|i: int|
                    0 <= i < facts.len() && publisher(#[trigger] facts[i]) == p && keep(facts[i]);
                if i < less.len() {
                    assert(less[i] == facts[i]);
                }
            }
        }
        vstd::set_lib::lemma_len_subset(set, before.insert(publisher(facts.last())));
    }
}

/// One more record adds its kind where `keep` holds of it.
pub proof fn lemma_kinds_push(facts: Seq<Seq<u8>>, fact: Seq<u8>, keep: spec_fn(Seq<u8>) -> bool)
    requires
        event_kind(fact) <= u16::MAX,
    ensures
        kinds_where(facts.push(fact), keep) == if keep(fact) {
            kinds_where(facts, keep).insert(event_kind(fact) as u16)
        } else {
            kinds_where(facts, keep)
        },
{
    let more = facts.push(fact);
    let before = kinds_where(facts, keep);
    let after = kinds_where(more, keep);
    assert forall|k: u16| after.contains(k) == (before.contains(k) || (keep(fact) && k
        == event_kind(fact))) by {
        if before.contains(k) {
            let i = choose|i: int|
                0 <= i < facts.len() && event_kind(#[trigger] facts[i]) == k && keep(facts[i]);
            assert(more[i] == facts[i]);
        }
        if keep(fact) && k == event_kind(fact) {
            assert(more[facts.len() as int] == fact);
        }
        if after.contains(k) {
            let i = choose|i: int|
                0 <= i < more.len() && event_kind(#[trigger] more[i]) == k && keep(more[i]);
            if i < facts.len() {
                assert(facts[i] == more[i]);
            }
        }
    }
    if keep(fact) {
        assert(after =~= before.insert(event_kind(fact) as u16));
    } else {
        assert(after =~= before);
    }
}

/// There are finitely many kinds.
pub proof fn lemma_kinds_finite(facts: Seq<Seq<u8>>, keep: spec_fn(Seq<u8>) -> bool)
    ensures
        kinds_where(facts, keep).finite(),
    decreases facts.len(),
{
    let set = kinds_where(facts, keep);
    if facts.len() == 0 {
        assert(set =~= Set::empty());
    } else {
        let less = facts.drop_last();
        lemma_kinds_finite(less, keep);
        let before = kinds_where(less, keep);
        let wider = before.insert(event_kind(facts.last()) as u16);
        assert forall|k: u16| set.contains(k) implies wider.contains(k) by {
            let i = choose|i: int|
                0 <= i < facts.len() && event_kind(#[trigger] facts[i]) == k && keep(facts[i]);
            if i < less.len() {
                assert(less[i] == facts[i]);
            }
        }
        vstd::set_lib::lemma_len_subset(set, wider);
    }
}

/// One more record counts where `keep` holds of it.
pub proof fn lemma_events_push(facts: Seq<Seq<u8>>, fact: Seq<u8>, keep: spec_fn(Seq<u8>) -> bool)
    ensures
        events_where(facts.push(fact), keep) == events_where(facts, keep) + if keep(fact) {
            1nat
        } else {
            0nat
        },
        events_where(facts, keep) <= facts.len(),
    decreases facts.len(),
{
    assert(facts.push(fact).drop_last() =~= facts);
    if facts.len() > 0 {
        assert(facts.drop_last().push(facts.last()) =~= facts);
        lemma_events_push(facts.drop_last(), facts.last(), keep);
    }
}

/// A record that starts a group of grouped records has a new publisher.
pub proof fn lemma_new_group(facts: Seq<Seq<u8>>, fact: Seq<u8>)
    requires
        grouped(facts.push(fact)),
        starts_group(facts, fact),
    ensures
        forall|i: int| 0 <= i < facts.len() ==> publisher(#[trigger] facts[i]) != publisher(fact),
{
    let more = facts.push(fact);
    let n = facts.len() as int;
    assert forall|i: int| 0 <= i < facts.len() implies publisher(#[trigger] facts[i]) != publisher(
        fact,
    ) by {
        assert(follows(more[i], more[n]));
        assert(follows(more[n - 1], more[n]));
        assert(more[n - 1] == facts.last());
        if i < n - 1 {
            assert(follows(more[i], more[n - 1]));
            if publisher(facts[i]) == publisher(fact) {
                lemma_lex_antisymmetric(publisher(facts[i]), publisher(facts.last()));
            }
        }
    }
}

/// A record that continues a group has every earlier record of its publisher
/// at no later time, and no record of a later publisher before it.
pub proof fn lemma_grouped_prefix(facts: Seq<Seq<u8>>, fact: Seq<u8>)
    requires
        grouped(facts.push(fact)),
    ensures
        grouped(facts),
        forall|i: int|
            0 <= i < facts.len() && publisher(#[trigger] facts[i]) == publisher(fact)
                ==> crate::activity::created_at(facts[i]) <= crate::activity::created_at(fact),
{
    let more = facts.push(fact);
    assert forall|i: int, j: int| 0 <= i < j < facts.len() implies #[trigger] follows(
        facts[i],
        facts[j],
    ) by {
        assert(follows(more[i], more[j]));
    }
    assert forall|i: int|
        0 <= i < facts.len() && publisher(#[trigger] facts[i]) == publisher(fact) implies crate::activity::created_at(
        facts[i],
    ) <= crate::activity::created_at(fact) by {
        assert(follows(more[i], more[facts.len() as int]));
        lemma_lex_antisymmetric(publisher(facts[i]), publisher(fact));
    }
}

/// The publishers of grouped records appear in increasing order, each once.
pub proof fn lemma_publisher_order(facts: Seq<Seq<u8>>)
    requires
        grouped(facts),
    ensures
        forall|a: int, b: int|
            0 <= a < b < publisher_order(facts).len() ==> lex_less(
                #[trigger] publisher_order(facts)[a],
                #[trigger] publisher_order(facts)[b],
            ),
        facts.len() > 0 ==> publisher_order(facts).len() > 0 && publisher_order(facts).last()
            == publisher(facts.last()),
        publisher_order(facts).len() <= facts.len(),
        forall|i: int|
            0 <= i < facts.len() ==> publisher_order(facts).contains(
                publisher(#[trigger] facts[i]),
            ),
        forall|a: int|
            0 <= a < publisher_order(facts).len() ==> publishers_where(
                facts,
                |f: Seq<u8>| true,
            ).contains(#[trigger] publisher_order(facts)[a]),
    decreases facts.len(),
{
    if facts.len() > 0 {
        let less = facts.drop_last();
        let fact = facts.last();
        assert(less.push(fact) =~= facts);
        lemma_grouped_prefix(less, fact);
        lemma_publisher_order(less);
        let earlier = publisher_order(less);
        let order = publisher_order(facts);
        let all = |f: Seq<u8>| true;
        assert forall|a: int, b: int| 0 <= a < b < order.len() implies lex_less(
            #[trigger] order[a],
            #[trigger] order[b],
        ) by {
            if b < earlier.len() {
                assert(lex_less(earlier[a], earlier[b]));
            } else {
                let n = less.len() as int;
                assert(follows(facts[n - 1], facts[n]));
                assert(earlier.last() == publisher(less.last()));
                assert(lex_less(earlier.last(), publisher(fact)));
                if a < earlier.len() - 1 {
                    assert(lex_less(earlier[a], earlier[earlier.len() - 1]));
                    lemma_lex_transitive(earlier[a], earlier.last(), publisher(fact));
                }
            }
        }
        assert forall|i: int| 0 <= i < facts.len() implies order.contains(
            publisher(#[trigger] facts[i]),
        ) by {
            if i < less.len() {
                assert(less[i] == facts[i]);
                assert(earlier.contains(publisher(less[i])));
                let a = choose|a: int| 0 <= a < earlier.len() && earlier[a] == publisher(less[i]);
                assert(order[a] == publisher(facts[i]));
            } else {
                assert(order[order.len() - 1] == publisher(fact));
            }
        }
        assert forall|a: int| 0 <= a < order.len() implies publishers_where(facts, all).contains(
            #[trigger] order[a],
        ) by {
            if a < earlier.len() {
                assert(publishers_where(less, all).contains(earlier[a]));
                let i = choose|i: int|
                    0 <= i < less.len() && publisher(#[trigger] less[i]) == earlier[a] && all(
                        less[i],
                    );
                assert(facts[i] == less[i]);
            } else {
                assert(facts[less.len() as int] == fact);
            }
        }
    }
}

} // verus!
