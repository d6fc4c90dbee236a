//! The sorted activity stream: one record for each event of a publisher.
//!
//! A record holds the publisher's key, the event's timestamp and kind, and the
//! event ID, in this order, so the stream is grouped by publisher and each
//! group runs forward in time.

use vstd::prelude::*;

use crate::bytes::{
    be_nat, lemma_be_order, lemma_lex_antisymmetric, lemma_lex_split, lex_less, read_32, read_u16,
    read_u32,
};
use crate::error::{Error, Result};
use crate::records::{
    keys_increase, record, record_count, record_key, sorted_stream, RecordReader, StreamFault,
};

verus! {

/// Publisher key, exact timestamp, kind, and committed event-ID bytes in each record.
pub const FIXED_ACTIVITY_KEY_BYTES: usize = 32 + 4 + 2 + 32;

/// Every activity record is entirely key material.
pub const FIXED_ACTIVITY_RECORD_BYTES: usize = 70;

/// The publisher of an encoded activity record.
pub open spec fn publisher(fact: Seq<u8>) -> Seq<u8> {
    fact.subrange(0, 32)
}

/// The timestamp of an encoded activity record.
pub open spec fn created_at(fact: Seq<u8>) -> nat {
    be_nat(fact.subrange(32, 36))
}

/// The event kind of an encoded activity record.
pub open spec fn event_kind(fact: Seq<u8>) -> nat {
    be_nat(fact.subrange(36, 38))
}

/// The UTC day of an encoded activity record.
pub open spec fn event_day(fact: Seq<u8>) -> int {
    created_at(fact) as int / 86_400
}

/// Activity record number `index` of an artifact.
pub open spec fn activity_fact(bytes: Seq<u8>, index: int) -> Seq<u8> {
    record(bytes, 70, index)
}

/// Whole records in strict key order.
pub open spec fn activity_stream(bytes: Seq<u8>) -> bool {
    sorted_stream(bytes, 70, 70)
}

/// The first `count` records that are not later than `as_of`, in order.
pub open spec fn eligible_facts(bytes: Seq<u8>, as_of: int, count: int) -> Seq<Seq<u8>>
    decreases count,
{
    if count <= 0 {
        Seq::empty()
    } else {
        let earlier = eligible_facts(bytes, as_of, count - 1);
        let fact = activity_fact(bytes, count - 1);
        if created_at(fact) <= as_of {
            earlier.push(fact)
        } else {
            earlier
        }
    }
}

/// The records of an artifact that are not later than `as_of`.
pub open spec fn eligible(bytes: Seq<u8>, as_of: int) -> Seq<Seq<u8>> {
    eligible_facts(bytes, as_of, record_count(bytes, 70))
}

/// Records grouped by increasing publisher, forward in time within a group.
pub open spec fn grouped(facts: Seq<Seq<u8>>) -> bool {
    forall|i: int, j: int|
        0 <= i < j < facts.len() ==> #[trigger] follows(facts[i], facts[j])
}

/// `b` belongs to a later publisher, or to the same one at no earlier time.
pub open spec fn follows(a: Seq<u8>, b: Seq<u8>) -> bool {
    lex_less(publisher(a), publisher(b)) || (publisher(a) == publisher(b) && created_at(a)
        <= created_at(b))
}

/// `fact` is one of the first `count` records and not later than `as_of`.
pub open spec fn among_first(bytes: Seq<u8>, as_of: int, count: int, fact: Seq<u8>) -> bool {
    exists|k: int|
        0 <= k < count && fact == #[trigger] activity_fact(bytes, k) && created_at(
            activity_fact(bytes, k),
        ) <= as_of
}

/// Every record of `facts` is one of the first `count` of the artifact, and
/// every one of those that is not later than `as_of` is in `facts`.
pub proof fn lemma_eligible_members(bytes: Seq<u8>, as_of: int, count: int)
    requires
        0 <= count,
    ensures
        forall|i: int|
            0 <= i < eligible_facts(bytes, as_of, count).len() ==> among_first(
                bytes,
                as_of,
                count,
                #[trigger] eligible_facts(bytes, as_of, count)[i],
            ),
        forall|k: int|
            0 <= k < count && created_at(#[trigger] activity_fact(bytes, k)) <= as_of
                ==> eligible_facts(bytes, as_of, count).contains(activity_fact(bytes, k)),
        eligible_facts(bytes, as_of, count).len() <= count,
    decreases count,
{
    if count > 0 {
        lemma_eligible_members(bytes, as_of, count - 1);
        let earlier = eligible_facts(bytes, as_of, count - 1);
        let facts = eligible_facts(bytes, as_of, count);
        let fact = activity_fact(bytes, count - 1);
        assert forall|i: int| 0 <= i < facts.len() implies among_first(
            bytes,
            as_of,
            count,
            #[trigger] facts[i],
        ) by {
            if i < earlier.len() {
                assert(facts[i] == earlier[i]);
                assert(among_first(bytes, as_of, count - 1, earlier[i]));
            } else {
                assert(facts[i] == activity_fact(bytes, count - 1));
            }
        }
        assert forall|k: int|
            0 <= k < count && created_at(#[trigger] activity_fact(bytes, k)) <= as_of implies
            facts.contains(activity_fact(bytes, k)) by {
            if k < count - 1 {
                assert(earlier.contains(activity_fact(bytes, k)));
                let i = choose|i: int| 0 <= i < earlier.len() && earlier[i] == activity_fact(
                    bytes,
                    k,
                );
                assert(facts[i] == activity_fact(bytes, k));
            } else {
                assert(facts[facts.len() - 1] == fact);
            }
        }
    }
}

/// A record with a smaller key belongs to an earlier publisher, or to the same
/// one at no later time.
pub proof fn lemma_key_order(a: Seq<u8>, b: Seq<u8>)
    requires
        a.len() == 70,
        b.len() == 70,
        lex_less(a, b),
    ensures
        follows(a, b),
{
    lemma_lex_split(a, b, 32);
    assert(a.take(32) =~= publisher(a));
    assert(b.take(32) =~= publisher(b));
    if publisher(a) == publisher(b) {
        lemma_lex_antisymmetric(publisher(a), publisher(b));
        let rest_a = a.skip(32);
        let rest_b = b.skip(32);
        lemma_lex_split(rest_a, rest_b, 4);
        assert(rest_a.take(4) =~= a.subrange(32, 36));
        assert(rest_b.take(4) =~= b.subrange(32, 36));
        lemma_be_order(a.subrange(32, 36), b.subrange(32, 36));
    }
}

/// The eligible records of a sorted prefix are grouped.
pub proof fn lemma_eligible_grouped(bytes: Seq<u8>, as_of: int, count: int)
    requires
        0 <= count <= record_count(bytes, 70),
        keys_increase(bytes, 70, 70, count),
    ensures
        grouped(eligible_facts(bytes, as_of, count)),
    decreases count,
{
    if count > 0 {
        lemma_eligible_grouped(bytes, as_of, count - 1);
        lemma_eligible_members(bytes, as_of, count - 1);
        let earlier = eligible_facts(bytes, as_of, count - 1);
        let facts = eligible_facts(bytes, as_of, count);
        let fact = activity_fact(bytes, count - 1);
        assert forall|i: int, j: int| 0 <= i < j < facts.len() implies #[trigger] follows(
            facts[i],
            facts[j],
        ) by {
            if j < earlier.len() {
                assert(follows(earlier[i], earlier[j]));
            } else {
                assert(facts[i] == earlier[i]);
                assert(among_first(bytes, as_of, count - 1, earlier[i]));
                let k = choose|k: int|
                    0 <= k < count - 1 && earlier[i] == #[trigger] activity_fact(bytes, k)
                        && created_at(activity_fact(bytes, k)) <= as_of;
                lemma_fact_len(bytes, k);
                lemma_fact_len(bytes, count - 1);
                assert(record_key(bytes, 70, 70, k) =~= activity_fact(bytes, k));
                assert(record_key(bytes, 70, 70, count - 1) =~= fact);
                assert(lex_less(
                    record_key(bytes, 70, 70, k),
                    record_key(bytes, 70, 70, count - 1),
                ));
                lemma_key_order(activity_fact(bytes, k), fact);
            }
        }
    }
}

/// A complete record has 70 bytes.
pub proof fn lemma_fact_len(bytes: Seq<u8>, index: int)
    requires
        0 <= index < record_count(bytes, 70),
    ensures
        activity_fact(bytes, index).len() == 70,
{
}

/// One decoded activity record.
#[derive(Clone, Copy, Debug, PartialEq, Eq)]
pub struct ActivityRecord {
    /// Publisher key.
    pub pubkey: [u8; 32],
    /// Event timestamp.
    pub created_at: u32,
    /// Event kind.
    pub kind: u16,
}

impl ActivityRecord {
    /// The record holds what the encoded one does.
    pub open spec fn decodes(self, fact: Seq<u8>) -> bool {
        &&& self.pubkey@ == publisher(fact)
        &&& self.created_at == created_at(fact)
        &&& self.kind == event_kind(fact)
    }
}

/// Reader of a sorted activity stream.
pub struct ActivityReader<'a> {
    reader: RecordReader<'a>,
}

impl<'a> ActivityReader<'a> {
    /// The bytes that are read.
    pub closed spec fn source(&self) -> Seq<u8> {
        self.reader.source()
    }

    /// Number of records read so far.
    pub closed spec fn position(&self) -> int {
        self.reader.position()
    }

    /// The records read so far are complete and in order.
    pub closed spec fn wf(&self) -> bool {
        self.reader.wf() && self.reader.width() == 70 && self.reader.key() == 70
    }

    /// Start reading `bytes`.
    pub fn open(bytes: &'a [u8]) -> (reader: Self)
        ensures
            reader.wf(),
            reader.source() == bytes@,
            reader.position() == 0,
    {
        ActivityReader {
            reader: RecordReader::new(bytes, FIXED_ACTIVITY_RECORD_BYTES, FIXED_ACTIVITY_KEY_BYTES),
        }
    }

    /// A reader never passes the last complete record.
    pub proof fn lemma_position(&self)
        requires
            self.wf(),
        ensures
            0 <= self.position() <= record_count(self.source(), 70),
            keys_increase(self.source(), 70, 70, self.position()),
            self.position() <= usize::MAX,
    {
        self.reader.lemma_position();
    }

    /// Read the next record; there is none at the end of the stream.
    pub fn next(&mut self) -> (outcome: Result<Option<ActivityRecord>>)
        requires
            old(self).wf(),
        ensures
            final(self).wf(),
            final(self).source() == old(self).source(),
            match outcome {
                Ok(None) => {
                    &&& old(self).position() == record_count(old(self).source(), 70)
                    &&& final(self).position() == old(self).position()
                    &&& activity_stream(old(self).source())
                },
                Ok(Some(found)) => {
                    &&& old(self).position() < record_count(old(self).source(), 70)
                    &&& final(self).position() == old(self).position() + 1
                    &&& found.decodes(activity_fact(old(self).source(), old(self).position()))
                    &&& keys_increase(old(self).source(), 70, 70, final(self).position())
                },
                Err(error) => {
                    ||| {
                        &&& error == Error::Invalid(
                            "fixed-activity artifact ends with a truncated record",
                        )
                        &&& old(self).position() == record_count(old(self).source(), 70)
                        &&& old(self).source().len() as int % 70 != 0
                    }
                    ||| {
                        &&& error == Error::Invalid(
                            "activity state is not strictly sorted and unique",
                        )
                        &&& old(self).position() < record_count(old(self).source(), 70)
                        &&& !keys_increase(old(self).source(), 70, 70, old(self).position() + 1)
                    }
                },
            },
            outcome is Err ==> !activity_stream(old(self).source()),
    {
        match self.reader.next() {
            Ok(None) => Ok(None),
            Ok(Some(found)) => Ok(
                Some(
                    ActivityRecord {
                        pubkey: read_32(found, 0),
                        created_at: read_u32(found, 32),
                        kind: read_u16(found, 36),
                    },
                ),
            ),
            Err(StreamFault::Truncated) => Err(
                Error::Invalid("fixed-activity artifact ends with a truncated record"),
            ),
            Err(StreamFault::Unordered) => Err(
                Error::Invalid("activity state is not strictly sorted and unique"),
            ),
        }
    }
}

} // verus!
