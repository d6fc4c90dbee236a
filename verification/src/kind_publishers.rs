//! Exact distinct publishers of every event kind.

use std::collections::BTreeSet;
use vstd::prelude::*;

use crate::activity::{
    activity_fact, activity_stream, eligible, eligible_facts, event_kind, lemma_eligible_grouped,
    lemma_eligible_members, lemma_fact_len, publisher, ActivityReader,
};
use crate::bytes::bytes_equal;
use crate::error::Result;
use crate::ordered::insert_member;
use crate::publishers::{
    kinds_where, lemma_kinds_push, lemma_new_group, lemma_publishers_finite, lemma_publishers_push,
    publishers_where,
};
use crate::records::record_count;

verus! {

/// The record has the kind.
pub open spec fn has_event_kind(kind: int) -> spec_fn(Seq<u8>) -> bool {
    |fact: Seq<u8>| event_kind(fact) == kind
}

/// The record belongs to the publisher.
pub open spec fn published_by(who: Seq<u8>) -> spec_fn(Seq<u8>) -> bool {
    |fact: Seq<u8>| publisher(fact) == who
}

/// Number of publishers with a record of the kind.
pub open spec fn kind_publishers(facts: Seq<Seq<u8>>, kind: int) -> nat {
    publishers_where(facts, has_event_kind(kind)).len()
}

/// The publisher has a record of the kind exactly where the kind is one of its
/// kinds.
proof fn lemma_kind_seen(facts: Seq<Seq<u8>>, who: Seq<u8>, kind: u16)
    ensures
        publishers_where(facts, has_event_kind(kind as int)).contains(who) <==> kinds_where(
            facts,
            published_by(who),
        ).contains(kind),
{
    let publishers = publishers_where(facts, has_event_kind(kind as int));
    let kinds = kinds_where(facts, published_by(who));
    if publishers.contains(who) {
        let i = choose|i: int|
            0 <= i < facts.len() && publisher(#[trigger] facts[i]) == who && has_event_kind(
                kind as int,
            )(facts[i]);
        assert(event_kind(facts[i]) == kind);
    }
    if kinds.contains(kind) {
        let i = choose|i: int|
            0 <= i < facts.len() && event_kind(#[trigger] facts[i]) == kind && published_by(who)(
                facts[i],
            );
        assert(publisher(facts[i]) == who);
    }
}

/// Count the distinct publishers of every kind among the records of a sorted
/// activity stream that are not later than `as_of_epoch`.
pub fn exact_kind_unique_pubkeys(activity: &[u8], as_of_epoch: u64) -> (outcome: Result<Vec<u64>>)
    ensures
        outcome is Ok <==> activity_stream(activity@),
        match outcome {
            Ok(unique) => {
                &&& unique@.len() == 65_536
                &&& forall|kind: int|
                    0 <= kind < 65_536 ==> #[trigger] unique@[kind] == kind_publishers(
                        eligible(activity@, as_of_epoch as int),
                        kind,
                    )
            },
            Err(error) => error is Invalid,
        },
{
    let ghost as_of = as_of_epoch as int;
    let ghost total = record_count(activity@, 70);
    let mut unique: Vec<u64> = Vec::new();
    while unique.len() < 65_536
        invariant
            unique@.len() <= 65_536,
            forall|i: int| 0 <= i < unique@.len() ==> #[trigger] unique@[i] == 0,
        decreases 65_536 - unique@.len(),
    {
        unique.push(0);
    }
    let mut reader: ActivityReader = ActivityReader::open(activity);
    let mut kinds: BTreeSet<u16> = BTreeSet::new();
    let mut current: Option<[u8; 32]> = None;
    let ghost mut facts = Seq::<Seq<u8>>::empty();
    proof {
        assert forall|kind: int| 0 <= kind < 65_536 implies #[trigger] unique@[kind]
            == kind_publishers(facts, kind) by {
            lemma_publishers_finite(facts, has_event_kind(kind));
        }
    }
    loop
        invariant
            as_of == as_of_epoch,
            total == record_count(activity@, 70),
            reader.wf(),
            reader.source() == activity@,
            0 <= reader.position() <= total,
            facts == eligible_facts(activity@, as_of, reader.position()),
            facts.len() <= reader.position(),
            unique@.len() == 65_536,
            forall|kind: int|
                0 <= kind < 65_536 ==> #[trigger] unique@[kind] == kind_publishers(facts, kind),
            match current {
                None => facts.len() == 0,
                Some(key) => facts.len() > 0 && key@ == publisher(facts.last()) && kinds@
                    == kinds_where(facts, published_by(key@)),
            },
        ensures
            activity_stream(activity@),
            reader.position() == total,
        decreases total - reader.position(),
    {
        let ghost index = reader.position();
        proof {
            reader.lemma_position();
            lemma_eligible_members(activity@, as_of, index);
        }
        let found = match reader.next() {
            Err(error) => {
                return Err(error);
            },
            Ok(None) => {
                break ;
            },
            Ok(Some(found)) => found,
        };
        let ghost fact = activity_fact(activity@, index);
        let ghost more = facts.push(fact);
        let ghost who = publisher(fact);
        proof {
            reader.lemma_position();
            lemma_fact_len(activity@, index);
            lemma_eligible_grouped(activity@, as_of, index + 1);
        }
        if found.created_at as u64 > as_of_epoch {
            assert(eligible_facts(activity@, as_of, index + 1) == facts);
            continue ;
        }
        assert(eligible_facts(activity@, as_of, index + 1) == more);
        let new_group: bool = match &current {
            None => true,
            Some(key) => !bytes_equal(key.as_slice(), found.pubkey.as_slice()),
        };
        if new_group {
            kinds.clear();
            current = Some(found.pubkey);
            proof {
                lemma_new_group(facts, fact);
                assert(kinds_where(facts, published_by(who)) =~= Set::<u16>::empty());
            }
        }
        assert(kinds@ == kinds_where(facts, published_by(who)));
        let new_kind: bool = insert_member(&mut kinds, found.kind);
        let place: usize = found.kind as usize;
        proof {
            lemma_kinds_push(facts, fact, published_by(who));
            lemma_kind_seen(facts, who, found.kind);
            lemma_publishers_finite(facts, has_event_kind(place as int));
        }
        let ghost before = unique@;
        if new_kind {
            let count: u64 = unique[place];
            unique.set(place, count + 1);
        }
        proof {
            assert forall|kind: int| 0 <= kind < 65_536 implies #[trigger] unique@[kind]
                == kind_publishers(more, kind) by {
                lemma_publishers_push(facts, fact, has_event_kind(kind));
                assert(before[kind] == kind_publishers(facts, kind));
            }
            assert(more.last() == fact);
            facts = more;
        }
    }
    Ok(unique)
}

} // verus!
