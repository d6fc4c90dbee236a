//! Ever-observed profile and follows flags of each publisher.

use vstd::prelude::*;

use crate::activity::{
    activity_fact, activity_stream, eligible, eligible_facts, event_kind, grouped,
    lemma_eligible_grouped, lemma_eligible_members, lemma_fact_len, publisher, ActivityReader,
};
use crate::artifact::EncodedRun;
use crate::bytes::{bytes_equal, push_bytes};
use crate::digest::encode_hex;
use crate::error::Result;
use crate::fixed_activity::flags_match;
use crate::period_counter::{flag_byte, flagged, FOLLOWS_FLAG, PROFILE_FLAG};
use crate::publishers::{lemma_new_group, lemma_publisher_order, publisher_order, publishers_where};
use crate::records::{record, record_count};

verus! {

/// The publisher has a record of the kind.
pub open spec fn has_kind(facts: Seq<Seq<u8>>, who: Seq<u8>, kind: int) -> bool {
    exists|i: int|
        0 <= i < facts.len() && publisher(#[trigger] facts[i]) == who && event_kind(facts[i])
            == kind
}

/// Flags of a publisher: one for a kind-0 record, two for a kind-3 record.
pub open spec fn publisher_flags(facts: Seq<Seq<u8>>, who: Seq<u8>) -> u8 {
    ((if has_kind(facts, who, 0) {
        1int
    } else {
        0int
    }) + (if has_kind(facts, who, 3) {
        2int
    } else {
        0int
    })) as u8
}

/// Flags record number `index`.
pub open spec fn flag_record(facts: Seq<Seq<u8>>, index: int) -> Seq<u8> {
    publisher_order(facts)[index].push(publisher_flags(facts, publisher_order(facts)[index]))
}

/// One more record leaves the flags of other publishers alone.
proof fn lemma_flags_push(facts: Seq<Seq<u8>>, fact: Seq<u8>, who: Seq<u8>)
    ensures
        forall|kind: int| #[trigger]
            has_kind(facts.push(fact), who, kind) <==> has_kind(facts, who, kind) || (publisher(
                fact,
            ) == who && event_kind(fact) == kind),
{
    let more = facts.push(fact);
    assert forall|kind: int| #[trigger]
        has_kind(more, who, kind) <==> has_kind(facts, who, kind) || (publisher(fact) == who
            && event_kind(fact) == kind) by {
        if has_kind(facts, who, kind) {
            let i = choose|i: int|
                0 <= i < facts.len() && publisher(#[trigger] facts[i]) == who && event_kind(
                    facts[i],
                ) == kind;
            assert(more[i] == facts[i]);
        }
        if publisher(fact) == who && event_kind(fact) == kind {
            assert(more[facts.len() as int] == fact);
        }
        if has_kind(more, who, kind) {
            let i = choose|i: int|
                0 <= i < more.len() && publisher(#[trigger] more[i]) == who && event_kind(more[i])
                    == kind;
            if i < facts.len() {
                assert(facts[i] == more[i]);
            }
        }
    }
}

/// Append one flags record.
fn push_flags(out: &mut Vec<u8>, owner: &[u8; 32], value: u8, rows: u64)
    requires
        old(out)@.len() == 33 * rows,
    ensures
        final(out)@.len() == 33 * (rows + 1),
        record(final(out)@, 33, rows as int) == owner@.push(value),
        forall|k: int|
            0 <= k < rows ==> #[trigger] record(final(out)@, 33, k) == record(old(out)@, 33, k),
{
    let ghost before = out@;
    push_bytes(out, owner.as_slice());
    out.push(value);
    proof {
        assert(record(out@, 33, rows as int) =~= owner@.push(value));
        assert forall|k: int| 0 <= k < rows implies #[trigger] record(out@, 33, k) == record(
            before,
            33,
            k,
        ) by {
            assert(record(out@, 33, k) =~= record(before, 33, k));
        }
    }
}

/// Derive the flags artifact of a sorted activity stream: one record for each
/// publisher with an event not later than `as_of_epoch`.
pub fn build_flags(activity: &[u8], as_of_epoch: u64) -> (outcome: Result<EncodedRun>)
    ensures
        outcome is Ok <==> activity_stream(activity@),
        match outcome {
            Ok(run) => {
                let facts = eligible(activity@, as_of_epoch as int);
                let order = publisher_order(facts);
                &&& flags_match(facts, run.bytes@)
                &&& run.rows == order.len()
                &&& forall|k: int|
                    0 <= k < order.len() ==> #[trigger] record(run.bytes@, 33, k) == flag_record(
                        facts,
                        k,
                    )
                &&& run.keys_are(
                    order.len() > 0,
                    order[0],
                    order[order.len() - 1],
                )
            },
            Err(error) => error is Invalid,
        },
{
    let ghost as_of = as_of_epoch as int;
    let ghost total = record_count(activity@, 70);
    let mut reader: ActivityReader = ActivityReader::open(activity);
    let mut out: Vec<u8> = Vec::new();
    let mut rows: u64 = 0;
    let mut first: Option<[u8; 32]> = None;
    let mut current: Option<[u8; 32]> = None;
    let mut profile: bool = false;
    let mut follows: bool = false;
    let ghost mut facts = Seq::<Seq<u8>>::empty();
    loop
        invariant
            as_of == as_of_epoch,
            total == record_count(activity@, 70),
            reader.wf(),
            reader.source() == activity@,
            0 <= reader.position() <= total,
            facts == eligible_facts(activity@, as_of, reader.position()),
            grouped(facts),
            out@.len() == 33 * rows,
            match current {
                None => facts.len() == 0 && rows == 0 && first is None,
                Some(key) => {
                    &&& facts.len() > 0
                    &&& key@ == publisher(facts.last())
                    &&& publisher_order(facts).len() == rows + 1
                    &&& profile == has_kind(facts, key@, 0)
                    &&& follows == has_kind(facts, key@, 3)
                    &&& first is Some
                    &&& first->0@ == publisher_order(facts)[0]
                },
            },
            forall|k: int| 0 <= k < rows ==> #[trigger] record(out@, 33, k) == flag_record(facts, k),
        ensures
            activity_stream(activity@),
            reader.position() == total,
        decreases total - reader.position(),
    {
        let ghost index = reader.position();
        proof {
            reader.lemma_position();
            lemma_eligible_members(activity@, as_of, index);
            lemma_publisher_order(facts);
        }
        let found = match reader.next() {
            Err(error) => {
                return Err(error);
            },
            Ok(None) => {
                break ;
            },
            Ok(Some(found)) => found,
        };
        let ghost fact = activity_fact(activity@, index);
        let ghost more = facts.push(fact);
        let ghost order = publisher_order(facts);
        proof {
            reader.lemma_position();
            lemma_fact_len(activity@, index);
            lemma_eligible_grouped(activity@, as_of, index + 1);
        }
        if found.created_at as u64 > as_of_epoch {
            assert(eligible_facts(activity@, as_of, index + 1) == facts);
            continue ;
        }
        assert(eligible_facts(activity@, as_of, index + 1) == more);
        assert(more.drop_last() =~= facts);
        let new_group: bool = match &current {
            None => true,
            Some(key) => !bytes_equal(key.as_slice(), found.pubkey.as_slice()),
        };
        proof {
            lemma_flags_push(facts, fact, publisher(fact));
            assert forall|k: int| 0 <= k < order.len() && order[k] != publisher(fact) implies
                #[trigger] flag_record(more, k) == flag_record(facts, k) by {
                lemma_flags_push(facts, fact, order[k]);
                assert(publisher_order(more)[k] == order[k]);
            }
            if new_group {
                lemma_new_group(facts, fact);
                lemma_new_kinds(facts, publisher(fact));
                assert forall|k: int| 0 <= k < order.len() implies order[k] != publisher(fact) by {
                    lemma_order_member(facts, k);
                }
            } else {
                assert forall|k: int| 0 <= k < order.len() - 1 implies order[k] != publisher(
                    fact,
                ) by {
                    crate::bytes::lemma_lex_antisymmetric(order[k], order[order.len() - 1]);
                }
            }
        }
        if new_group {
            if let Some(owner) = &current {
                let value: u8 = flag_value(profile, follows);
                let ghost before = out@;
                proof {
                    assert(owner@ == order[rows as int]);
                    assert(owner@.push(value) == flag_record(facts, rows as int));
                }
                push_flags(&mut out, owner, value, rows);
                proof {
                    assert forall|k: int| 0 <= k < rows + 1 implies #[trigger] record(out@, 33, k)
                        == flag_record(more, k) by {
                        assert(flag_record(more, k) == flag_record(facts, k));
                        if k < rows {
                            assert(record(before, 33, k) == flag_record(facts, k));
                        }
                    }
                }
                rows = rows + 1;
            }
            profile = false;
            follows = false;
            current = Some(found.pubkey);
            if first.is_none() {
                first = Some(found.pubkey);
            }
        }
        if found.kind == 0 {
            profile = true;
        } else if found.kind == 3 {
            follows = true;
        }
        proof {
            assert forall|k: int| 0 <= k < rows implies #[trigger] record(out@, 33, k)
                == flag_record(more, k) by {
                assert(flag_record(more, k) == flag_record(facts, k));
            }
            facts = more;
        }
    }
    let mut min_key: Option<String> = None;
    let mut max_key: Option<String> = None;
    proof {
        lemma_publisher_order(facts);
        lemma_eligible_members(activity@, as_of, total);
        assert(total <= activity.len());
    }
    if let Some(owner) = &current {
        let value: u8 = flag_value(profile, follows);
        let ghost before = out@;
        let ghost order = publisher_order(facts);
        proof {
            assert(owner@ == order[rows as int]);
            assert(owner@.push(value) == flag_record(facts, rows as int));
        }
        push_flags(&mut out, owner, value, rows);
        proof {
            assert forall|k: int| 0 <= k < rows + 1 implies #[trigger] record(out@, 33, k)
                == flag_record(facts, k) by {
                if k < rows {
                    assert(record(before, 33, k) == flag_record(facts, k));
                }
            }
        }
        rows = rows + 1;
        max_key = Some(encode_hex(owner.as_slice()));
        if let Some(start) = &first {
            min_key = Some(encode_hex(start.as_slice()));
        }
    }
    proof {
        let order = publisher_order(facts);
        assert forall|k: int| 0 <= k < order.len() implies record(out@, 33, k).take(32)
            == #[trigger] order[k] by {
            assert(record(out@, 33, k) == flag_record(facts, k));
            lemma_order_member(facts, k);
            lemma_eligible_lens(activity@, as_of, total);
            assert(flag_record(facts, k).take(32) =~= order[k]);
        }
    }
    Ok(EncodedRun { bytes: out, rows, min_key, max_key })
}

/// The flags that are built for a stream mark exactly the publishers with a
/// kind-0 record as having a profile, those with a kind-3 record as having a
/// follows list, and those with both as having both.
pub proof fn lemma_flags_mean_kinds(facts: Seq<Seq<u8>>, flags: Seq<u8>, who: Seq<u8>)
    requires
        grouped(facts),
        forall|k: int|
            0 <= k < publisher_order(facts).len() ==> #[trigger] record(flags, 33, k)
                == flag_record(facts, k),
        forall|i: int| 0 <= i < facts.len() ==> (#[trigger] facts[i]).len() == 70,
    ensures
        flagged(facts, flags, 1, who) <==> has_kind(facts, who, 0),
        flagged(facts, flags, 2, who) <==> has_kind(facts, who, 3),
        flagged(facts, flags, 3, who) <==> has_kind(facts, who, 0) && has_kind(facts, who, 3),
{
    let order = publisher_order(facts);
    lemma_publisher_order(facts);
    assert forall|k: int| 0 <= k < order.len() && order[k] == who implies {
        let value = #[trigger] flag_byte(flags, k);
        &&& value & 1 == 1 <==> has_kind(facts, who, 0)
        &&& value & 2 == 2 <==> has_kind(facts, who, 3)
        &&& value & 3 == 3 <==> has_kind(facts, who, 0) && has_kind(facts, who, 3)
    } by {
        lemma_order_member(facts, k);
        assert(record(flags, 33, k) == flag_record(facts, k));
        let value = publisher_flags(facts, who);
        assert(order[k].len() == 32);
        assert(flag_byte(flags, k) == value);
        assert(value < 4 ==> ((value & 1 == 1) == (value == 1 || value == 3)) && ((value & 2 == 2)
            == (value == 2 || value == 3)) && ((value & 3 == 3) == (value == 3))) by (bit_vector);
    }
    if has_kind(facts, who, 0) || has_kind(facts, who, 3) {
        let i = choose|i: int| 0 <= i < facts.len() && publisher(#[trigger] facts[i]) == who;
        assert(order.contains(publisher(facts[i])));
        let k = choose|k: int| 0 <= k < order.len() && order[k] == publisher(facts[i]);
        assert(order[k] == who);
        let value = flag_byte(flags, k);
    }
}

/// The flag byte of the two observations.
fn flag_value(profile: bool, follows: bool) -> (value: u8)
    ensures
        value == (if profile {
            1int
        } else {
            0int
        }) + (if follows {
            2int
        } else {
            0int
        }),
{
    let mut value: u8 = 0;
    if profile {
        value = value | PROFILE_FLAG;
    }
    if follows {
        value = value | FOLLOWS_FLAG;
    }
    proof {
        assert(0u8 | 1u8 == 1u8) by (bit_vector);
        assert(0u8 | 2u8 == 2u8) by (bit_vector);
        assert(1u8 | 2u8 == 3u8) by (bit_vector);
    }
    value
}

/// A publisher without records has no kinds.
proof fn lemma_new_kinds(facts: Seq<Seq<u8>>, who: Seq<u8>)
    requires
        forall|i: int| 0 <= i < facts.len() ==> publisher(#[trigger] facts[i]) != who,
    ensures
        forall|kind: int| !#[trigger] has_kind(facts, who, kind),
{
}

/// Every listed publisher has a record.
proof fn lemma_order_member(facts: Seq<Seq<u8>>, k: int)
    requires
        grouped(facts),
        0 <= k < publisher_order(facts).len(),
    ensures
        exists|i: int|
            0 <= i < facts.len() && publisher(#[trigger] facts[i]) == publisher_order(facts)[k],
{
    lemma_publisher_order(facts);
    let all = |f: Seq<u8>| true;
    assert(publishers_where(facts, all).contains(publisher_order(facts)[k]));
}

/// Eligible records are complete.
pub(crate) proof fn lemma_eligible_lens(bytes: Seq<u8>, as_of: int, count: int)
    requires
        0 <= count <= record_count(bytes, 70),
    ensures
        forall|i: int|
            0 <= i < eligible_facts(bytes, as_of, count).len() ==> (#[trigger] eligible_facts(
                bytes,
                as_of,
                count,
            )[i]).len() == 70,
    decreases count,
{
    if count > 0 {
        lemma_eligible_lens(bytes, as_of, count - 1);
        lemma_fact_len(bytes, count - 1);
        let earlier = eligible_facts(bytes, as_of, count - 1);
        let facts = eligible_facts(bytes, as_of, count);
        assert forall|i: int| 0 <= i < facts.len() implies (#[trigger] facts[i]).len() == 70 by {
            if i < earlier.len() {
                assert(facts[i] == earlier[i]);
            }
        }
    }
}

} // verus!
