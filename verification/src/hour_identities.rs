//! Exact hourly author identities and their groups.
//!
//! An identity is a UTC hour, an event kind and a publisher key. The sorted
//! identities of one hour and kind belong to one leaf.

use vstd::prelude::*;

use crate::activity::{activity_fact, activity_stream, created_at, publisher};
use crate::artifact::EncodedRun;
use crate::bytes::{
    be_bytes, be_nat, lemma_be_bytes_round_trip, lemma_be_join, lemma_be_limits, lemma_be_order,
    lemma_lex_split, lex_less, push_be, push_bytes, read_u16, read_u32,
};
use crate::error::{Error, Result};
use crate::records::{
    keys_increase, record, record_count, record_key, sorted_stream, RecordReader, StreamFault,
};
use crate::run_writer::encode_unique;
use crate::unique_sort::{holds, sort_unique};

verus! {

/// Hour, kind, and publisher key bytes in each exact intermediate identity.
pub const FLEXIBLE_DISTINCT_IDENTITY_BYTES: usize = 38;

/// The identity of an activity record: hour, kind, publisher.
pub open spec fn hour_identity(fact: Seq<u8>) -> Seq<u8> {
    be_bytes(created_at(fact) / 3_600, 4) + fact.subrange(36, 38) + publisher(fact)
}

/// Some record before the boundary has the identity.
pub open spec fn has_identity(activity: Seq<u8>, boundary: int, identity: Seq<u8>) -> bool {
    exists|i: int|
        0 <= i < record_count(activity, 70) && created_at(#[trigger] activity_fact(activity, i))
            < boundary && hour_identity(activity_fact(activity, i)) == identity
}

/// The identity of an encoded activity record.
fn encode_hour_identity(fact: &[u8]) -> (identity: [u8; 38])
    requires
        fact@.len() == 70,
    ensures
        identity@ == hour_identity(fact@),
{
    let timestamp: u32 = read_u32(fact, 32);
    let mut bytes: Vec<u8> = Vec::new();
    push_be(&mut bytes, (timestamp / 3_600) as u64, 4);
    push_bytes(&mut bytes, vstd::slice::slice_subrange(fact, 36, 38));
    push_bytes(&mut bytes, vstd::slice::slice_subrange(fact, 0, 32));
    proof {
        lemma_be_bytes_round_trip((timestamp / 3_600) as nat, 4);
        assert(bytes@ =~= hour_identity(fact@));
    }
    let mut identity: [u8; 38] = [0u8; 38];
    let mut i: usize = 0;
    while i < 38
        invariant
            i <= 38,
            bytes@.len() == 38,
            forall|j: int| 0 <= j < i ==> identity@[j] == bytes@[j],
        decreases 38 - i,
    {
        identity[i] = bytes[i];
        i += 1;
    }
    assert(identity@ =~= bytes@);
    identity
}

/// The run holds every identity of the records before the boundary once, in
/// increasing order.
pub open spec fn lists_identities(run: EncodedRun, activity: Seq<u8>, boundary: int) -> bool {
    &&& sorted_stream(run.bytes@, 38, 38)
    &&& run.rows == record_count(run.bytes@, 38)
    &&& forall|identity: Seq<u8>| #[trigger]
        has_identity(activity, boundary, identity) <==> exists|i: int|
            0 <= i < run.rows && #[trigger] record(run.bytes@, 38, i) == identity
    &&& run.keys_are(
        run.rows > 0,
        record(run.bytes@, 38, 0),
        record(run.bytes@, 38, run.rows - 1),
    )
}

/// Transform a chunk of the activity stream into sorted unique identities.
///
/// Records at or after `complete_through_epoch` belong to an hour that is not
/// complete and are left out.
pub fn transform_batch(activity: &[u8], complete_through_epoch: u64) -> (outcome: Result<
    EncodedRun,
>)
    ensures
        outcome is Ok <==> activity_stream(activity@),
        match outcome {
            Ok(run) => lists_identities(run, activity@, complete_through_epoch as int),
            Err(error) => error is Invalid,
        },
{
    let ghost total = record_count(activity@, 70);
    let ghost boundary = complete_through_epoch as int;
    let mut reader: RecordReader = RecordReader::new(activity, 70, 70);
    let mut rows: Vec<[u8; 38]> = Vec::new();
    loop
        invariant
            total == record_count(activity@, 70),
            boundary == complete_through_epoch,
            reader.wf(),
            reader.source() == activity@,
            reader.width() == 70,
            reader.key() == 70,
            0 <= reader.position() <= total,
            forall|i: int|
                0 <= i < reader.position() && created_at(#[trigger] activity_fact(activity@, i))
                    < boundary ==> holds(rows@, hour_identity(activity_fact(activity@, i))),
            forall|k: int|
                0 <= k < rows@.len() ==> has_identity(
                    activity@,
                    boundary,
                    (#[trigger] rows@[k])@,
                ),
        ensures
            reader.position() == total,
            activity_stream(activity@),
        decreases total - reader.position(),
    {
        let ghost index = reader.position();
        proof {
            reader.lemma_position();
        }
        match reader.next() {
            Ok(None) => {
                break ;
            },
            Ok(Some(found)) => {
                let timestamp: u32 = read_u32(found, 32);
                if (timestamp as u64) < complete_through_epoch {
                    let identity: [u8; 38] = encode_hour_identity(found);
                    let ghost before = rows@;
                    rows.push(identity);
                    proof {
                        assert(created_at(activity_fact(activity@, index)) < boundary);
                        assert(has_identity(activity@, boundary, identity@));
                        assert forall|i: int|
                            0 <= i < index + 1 && created_at(
                                #[trigger] activity_fact(activity@, i),
                            ) < boundary implies holds(
                            rows@,
                            hour_identity(activity_fact(activity@, i)),
                        ) by {
                            let wanted = hour_identity(activity_fact(activity@, i));
                            if i < index {
                                assert(holds(before, wanted));
                                let k = choose|k: int|
                                    0 <= k < before.len() && #[trigger] before[k]@ == wanted;
                                assert(rows@[k]@ == wanted);
                            } else {
                                assert(rows@[before.len() as int]@ == wanted);
                            }
                        }
                    }
                }
            },
            Err(StreamFault::Truncated) => {
                return Err(
                    Error::Invalid("flexible distinct artifact ends with a truncated record"),
                );
            },
            Err(StreamFault::Unordered) => {
                return Err(Error::Invalid("activity source chunk is not strictly sorted"));
            },
        }
    }
    let unique: Vec<[u8; 38]> = sort_unique(&rows);
    let run: EncodedRun = encode_unique(&unique);
    proof {
        let bytes = run.bytes@;
        assert(record_count(bytes, 38) == unique@.len());
        assert(keys_increase(bytes, 38, 38, unique@.len() as int)) by {
            assert forall|i: int, j: int| 0 <= i < j < unique@.len() implies #[trigger] crate::bytes::lex_less(
                crate::records::record_key(bytes, 38, 38, i),
                crate::records::record_key(bytes, 38, 38, j),
            ) by {
                assert(record(bytes, 38, i) == unique@[i]@);
                assert(record(bytes, 38, j) == unique@[j]@);
                assert(unique@[i]@.take(38) =~= unique@[i]@);
                assert(unique@[j]@.take(38) =~= unique@[j]@);
            }
        }
        assert forall|identity: Seq<u8>| #[trigger]
            has_identity(activity@, boundary, identity) <==> exists|i: int|
                0 <= i < run.rows && #[trigger] record(bytes, 38, i) == identity by {
            assert(holds(unique@, identity) <==> holds(rows@, identity));
            if has_identity(activity@, boundary, identity) {
                assert(holds(rows@, identity));
                let i = choose|i: int|
                    0 <= i < unique@.len() && #[trigger] unique@[i]@ == identity;
                assert(record(bytes, 38, i) == identity);
            }
            if exists|i: int| 0 <= i < run.rows && #[trigger] record(bytes, 38, i) == identity {
                let i = choose|i: int|
                    0 <= i < run.rows && #[trigger] record(bytes, 38, i) == identity;
                assert(unique@[i]@ == identity);
                assert(holds(unique@, identity));
                let k = choose|k: int| 0 <= k < rows@.len() && #[trigger] rows@[k]@ == identity;
                assert(has_identity(activity@, boundary, rows@[k]@));
            }
        }
        if run.rows > 0 {
            assert(record(bytes, 38, 0) == unique@[0]@);
            assert(record(bytes, 38, run.rows - 1) == unique@[unique@.len() - 1]@);
        }
    }
    Ok(run)
}

/// Reader of a sorted stream of identities.
pub struct IdentityReader<'a> {
    reader: RecordReader<'a>,
}

impl<'a> IdentityReader<'a> {
    /// The bytes that are read.
    pub closed spec fn source(&self) -> Seq<u8> {
        self.reader.source()
    }

    /// Number of records read so far.
    pub closed spec fn position(&self) -> int {
        self.reader.position()
    }

    /// The records read so far are complete and in order.
    pub closed spec fn wf(&self) -> bool {
        self.reader.wf() && self.reader.width() == 38 && self.reader.key() == 38
    }

    /// Start reading `bytes`.
    pub fn open(bytes: &'a [u8]) -> (reader: Self)
        ensures
            reader.wf(),
            reader.source() == bytes@,
            reader.position() == 0,
    {
        IdentityReader {
            reader: RecordReader::new(
                bytes,
                FLEXIBLE_DISTINCT_IDENTITY_BYTES,
                FLEXIBLE_DISTINCT_IDENTITY_BYTES,
            ),
        }
    }

    /// A reader never passes the last complete record.
    pub proof fn lemma_position(&self)
        requires
            self.wf(),
        ensures
            0 <= self.position() <= record_count(self.source(), 38),
            self.position() <= usize::MAX,
    {
        self.reader.lemma_position();
    }

    /// Read the next identity; there is none at the end of the stream.
    pub fn next(&mut self) -> (outcome: Result<Option<&'a [u8]>>)
        requires
            old(self).wf(),
        ensures
            final(self).wf(),
            final(self).source() == old(self).source(),
            match outcome {
                Ok(None) => {
                    &&& old(self).position() == record_count(old(self).source(), 38)
                    &&& final(self).position() == old(self).position()
                    &&& sorted_stream(old(self).source(), 38, 38)
                },
                Ok(Some(found)) => {
                    &&& old(self).position() < record_count(old(self).source(), 38)
                    &&& final(self).position() == old(self).position() + 1
                    &&& found@ == record(old(self).source(), 38, old(self).position())
                    &&& found@.len() == 38
                    &&& keys_increase(old(self).source(), 38, 38, final(self).position())
                },
                Err(error) => {
                    ||| {
                        &&& error == Error::Invalid(
                            "flexible distinct artifact ends with a truncated record",
                        )
                        &&& old(self).source().len() as int % 38 != 0
                    }
                    ||| {
                        &&& error == Error::Invalid(
                            "flexible identity artifact is not strictly sorted and unique",
                        )
                        &&& !keys_increase(old(self).source(), 38, 38, old(self).position() + 1)
                    }
                },
            },
            outcome is Err ==> !sorted_stream(old(self).source(), 38, 38),
    {
        match self.reader.next() {
            Ok(None) => Ok(None),
            Ok(Some(found)) => Ok(Some(found)),
            Err(StreamFault::Truncated) => Err(
                Error::Invalid("flexible distinct artifact ends with a truncated record"),
            ),
            Err(StreamFault::Unordered) => Err(
                Error::Invalid("flexible identity artifact is not strictly sorted and unique"),
            ),
        }
    }
}

/// One run of consecutive identities of a hour and kind.
#[derive(Clone, Copy, Debug, PartialEq, Eq, Structural)]
pub struct LeafGroup {
    /// UTC hour number since the Unix epoch.
    pub hour: u32,
    /// Event kind.
    pub kind: u16,
    /// First identity of the run.
    pub start: usize,
    /// Number of identities.
    pub exact_identities: u64,
}

/// Identity number `index`.
pub open spec fn identity_at(bytes: Seq<u8>, index: int) -> Seq<u8> {
    record(bytes, 38, index)
}

/// The hour and kind bytes of an identity.
pub open spec fn group_key(bytes: Seq<u8>, index: int) -> Seq<u8> {
    identity_at(bytes, index).take(6)
}

/// The groups cut the first `count` identities into maximal runs of one hour
/// and kind.
pub open spec fn cuts_groups(groups: Seq<LeafGroup>, bytes: Seq<u8>, count: int) -> bool {
    &&& count == 0 <==> groups.len() == 0
    &&& groups.len() > 0 ==> groups[0].start == 0
    &&& groups.len() > 0 ==> group_end(groups.last()) == count
    &&& forall|g: int| 0 <= g < groups.len() ==> #[trigger] holds_run(groups[g], bytes)
    &&& forall|g: int| 0 < g < groups.len() ==> #[trigger] follows_group(groups, g, bytes)
}

/// End of a group.
pub open spec fn group_end(group: LeafGroup) -> int {
    group.start + group.exact_identities
}

/// Every identity of the run has the hour and kind of the group.
pub open spec fn holds_run(group: LeafGroup, bytes: Seq<u8>) -> bool {
    &&& group.exact_identities > 0
    &&& forall|i: int|
        group.start <= i < group_end(group) ==> describes_identity(
            group,
            #[trigger] identity_at(bytes, i),
        )
}

/// Group `g` starts where the one before it ends, with another hour or kind.
pub open spec fn follows_group(groups: Seq<LeafGroup>, g: int, bytes: Seq<u8>) -> bool {
    &&& groups[g].start == group_end(groups[g - 1])
    &&& group_key(bytes, groups[g].start - 1) != group_key(bytes, groups[g].start as int)
}

/// The identity has the hour and kind of the group.
pub open spec fn describes_identity(group: LeafGroup, identity: Seq<u8>) -> bool {
    &&& be_nat(identity.subrange(0, 4)) == group.hour
    &&& be_nat(identity.subrange(4, 6)) == group.kind
}

/// Cut a sorted identity artifact into runs of one hour and kind.
pub fn leaf_groups(bytes: &[u8]) -> (outcome: Result<Vec<LeafGroup>>)
    ensures
        outcome is Ok <==> sorted_stream(bytes@, 38, 38),
        match outcome {
            Ok(groups) => cuts_groups(groups@, bytes@, record_count(bytes@, 38)),
            Err(error) => error is Invalid,
        },
{
    let ghost total = record_count(bytes@, 38);
    let mut reader: IdentityReader = IdentityReader::open(bytes);
    let mut groups: Vec<LeafGroup> = Vec::new();
    let mut index: usize = 0;
    loop
        invariant
            total == record_count(bytes@, 38),
            reader.wf(),
            reader.source() == bytes@,
            reader.position() == index,
            0 <= index <= total,
            cuts_groups(groups@, bytes@, index as int),
            groups@.len() <= index,
        ensures
            index == total,
            sorted_stream(bytes@, 38, 38),
        decreases total - index,
    {
        proof {
            reader.lemma_position();
        }
        let found: &[u8] = match reader.next() {
            Err(error) => {
                return Err(error);
            },
            Ok(None) => {
                break ;
            },
            Ok(Some(found)) => found,
        };
        let ghost at = index as int;
        let hour: u32 = read_u32(found, 0);
        let kind: u16 = read_u16(found, 4);
        let ghost before = groups@;
        proof {
            reader.lemma_position();
            if index > 0 {
                let last = before[before.len() - 1];
                assert(holds_run(last, bytes@));
                assert(describes_identity(last, identity_at(bytes@, at - 1)));
                lemma_group_keys(bytes@, at - 1, at);
            }
        }
        if groups.len() > 0 && groups[groups.len() - 1].hour == hour && groups[groups.len()
            - 1].kind == kind {
            let place: usize = groups.len() - 1;
            let mut last: LeafGroup = groups[place];
            last.exact_identities = last.exact_identities + 1;
            groups.set(place, last);
            proof {
                lemma_extend_group(before, groups@, bytes@, at);
            }
        } else {
            groups.push(LeafGroup { hour, kind, start: index, exact_identities: 1 });
            proof {
                if index > 0 {
                    assert(group_key(bytes@, at - 1) != group_key(bytes@, at));
                }
                lemma_start_group(before, groups@, bytes@, at);
            }
        }
        index += 1;
    }
    Ok(groups)
}

/// Identities have the same key exactly where hour and kind agree.
proof fn lemma_group_keys(bytes: Seq<u8>, a: int, b: int)
    requires
        0 <= a < record_count(bytes, 38),
        0 <= b < record_count(bytes, 38),
    ensures
        group_key(bytes, a) == group_key(bytes, b) <==> {
            &&& be_nat(identity_at(bytes, a).subrange(0, 4)) == be_nat(
                identity_at(bytes, b).subrange(0, 4),
            )
            &&& be_nat(identity_at(bytes, a).subrange(4, 6)) == be_nat(
                identity_at(bytes, b).subrange(4, 6),
            )
        },
{
    let x = identity_at(bytes, a);
    let y = identity_at(bytes, b);
    assert(x.len() == 38 && y.len() == 38);
    lemma_be_order(x.subrange(0, 4), y.subrange(0, 4));
    lemma_be_order(x.subrange(4, 6), y.subrange(4, 6));
    if group_key(bytes, a) == group_key(bytes, b) {
        assert(x.subrange(0, 4) =~= x.take(6).subrange(0, 4));
        assert(y.subrange(0, 4) =~= y.take(6).subrange(0, 4));
        assert(x.subrange(4, 6) =~= x.take(6).subrange(4, 6));
        assert(y.subrange(4, 6) =~= y.take(6).subrange(4, 6));
    }
    if x.subrange(0, 4) == y.subrange(0, 4) && x.subrange(4, 6) == y.subrange(4, 6) {
        assert(x.take(6) =~= x.subrange(0, 4) + x.subrange(4, 6));
        assert(y.take(6) =~= y.subrange(0, 4) + y.subrange(4, 6));
    }
}

/// One more identity of the last group.
proof fn lemma_extend_group(
    before: Seq<LeafGroup>,
    after: Seq<LeafGroup>,
    bytes: Seq<u8>,
    at: int,
)
    requires
        cuts_groups(before, bytes, at),
        before.len() > 0,
        after.len() == before.len(),
        forall|g: int| 0 <= g < before.len() - 1 ==> after[g] == before[g],
        ({
            let old_last = before[before.len() - 1];
            let new_last = after[after.len() - 1];
            &&& new_last.hour == old_last.hour
            &&& new_last.kind == old_last.kind
            &&& new_last.start == old_last.start
            &&& new_last.exact_identities == old_last.exact_identities + 1
            &&& describes_identity(new_last, identity_at(bytes, at))
        }),
    ensures
        cuts_groups(after, bytes, at + 1),
{
    let n = before.len() - 1;
    assert forall|g: int| 0 <= g < after.len() implies #[trigger] holds_run(after[g], bytes) by {
        assert(holds_run(before[g], bytes));
        if g == n {
            assert forall|i: int| after[n].start <= i < group_end(after[n]) implies describes_identity(
                after[n],
                #[trigger] identity_at(bytes, i),
            ) by {
                if i < at {
                    assert(describes_identity(before[n], identity_at(bytes, i)));
                }
            }
        }
    }
    assert forall|g: int| 0 < g < after.len() implies #[trigger] follows_group(after, g, bytes) by {
        assert(follows_group(before, g, bytes));
        assert(after[g - 1] == before[g - 1]);
        assert(after[g].start == before[g].start);
    }
}

/// The first identity of a new group.
proof fn lemma_start_group(
    before: Seq<LeafGroup>,
    after: Seq<LeafGroup>,
    bytes: Seq<u8>,
    at: int,
)
    requires
        cuts_groups(before, bytes, at),
        0 <= at,
        after.len() == before.len() + 1,
        forall|g: int| 0 <= g < before.len() ==> after[g] == before[g],
        ({
            let last = after[after.len() - 1];
            &&& last.start == at
            &&& last.exact_identities == 1
            &&& describes_identity(last, identity_at(bytes, at))
        }),
        at > 0 ==> group_key(bytes, at - 1) != group_key(bytes, at),
    ensures
        cuts_groups(after, bytes, at + 1),
{
    let n = before.len() as int;
    assert forall|g: int| 0 <= g < after.len() implies #[trigger] holds_run(after[g], bytes) by {
        if g < n {
            assert(holds_run(before[g], bytes));
        }
    }
    assert forall|g: int| 0 < g < after.len() implies #[trigger] follows_group(after, g, bytes) by {
        if g < n {
            assert(follows_group(before, g, bytes));
        }
    }
}

/// The cut of an artifact into groups is unique.
pub proof fn lemma_groups_unique(
    a: Seq<LeafGroup>,
    b: Seq<LeafGroup>,
    bytes: Seq<u8>,
    count: int,
)
    requires
        0 <= count <= record_count(bytes, 38),
        cuts_groups(a, bytes, count),
        cuts_groups(b, bytes, count),
    ensures
        a == b,
{
    let n = if a.len() < b.len() {
        a.len() as int
    } else {
        b.len() as int
    };
    lemma_groups_prefix(a, b, bytes, count, n);
    if a.len() < b.len() {
        if n > 0 {
            assert(a[n - 1] == b[n - 1]);
            lemma_group_before_end(b, bytes, count, n - 1);
        }
    }
    if b.len() < a.len() {
        if n > 0 {
            assert(a[n - 1] == b[n - 1]);
            lemma_group_before_end(a, bytes, count, n - 1);
        }
    }
    assert(a =~= b);
}

/// A group that is not the last ends before the end.
proof fn lemma_group_before_end(groups: Seq<LeafGroup>, bytes: Seq<u8>, count: int, g: int)
    requires
        cuts_groups(groups, bytes, count),
        0 <= g < groups.len() - 1,
    ensures
        group_end(groups[g]) < count,
    decreases groups.len() - g,
{
    assert(follows_group(groups, g + 1, bytes));
    assert(holds_run(groups[g + 1], bytes));
    if g + 1 < groups.len() - 1 {
        lemma_group_before_end(groups, bytes, count, g + 1);
    }
}

/// Every group ends no later than the end.
pub(crate) proof fn lemma_group_within(groups: Seq<LeafGroup>, bytes: Seq<u8>, count: int, g: int)
    requires
        cuts_groups(groups, bytes, count),
        0 <= g < groups.len(),
    ensures
        group_end(groups[g]) <= count,
{
    if g < groups.len() - 1 {
        lemma_group_before_end(groups, bytes, count, g);
    }
}

proof fn lemma_groups_prefix(
    a: Seq<LeafGroup>,
    b: Seq<LeafGroup>,
    bytes: Seq<u8>,
    count: int,
    n: int,
)
    requires
        0 <= count <= record_count(bytes, 38),
        cuts_groups(a, bytes, count),
        cuts_groups(b, bytes, count),
        0 <= n <= a.len(),
        n <= b.len(),
    ensures
        forall|g: int| 0 <= g < n ==> a[g] == b[g],
    decreases n,
{
    if n > 0 {
        lemma_groups_prefix(a, b, bytes, count, n - 1);
        let x = a[n - 1];
        let y = b[n - 1];
        if n > 1 {
            assert(follows_group(a, n - 1, bytes));
            assert(follows_group(b, n - 1, bytes));
            assert(a[n - 2] == b[n - 2]);
        }
        assert(x.start == y.start);
        assert(holds_run(x, bytes));
        assert(holds_run(y, bytes));
        lemma_group_within(a, bytes, count, n - 1);
        lemma_group_within(b, bytes, count, n - 1);
        assert(describes_identity(x, identity_at(bytes, x.start as int)));
        assert(describes_identity(y, identity_at(bytes, x.start as int)));
        lemma_no_shorter_group(a, b, bytes, count, n - 1);
        lemma_no_shorter_group(b, a, bytes, count, n - 1);
        assert(x.kind == y.kind);
    }
}

/// A group does not end inside a run of its hour and kind.
proof fn lemma_no_shorter_group(
    a: Seq<LeafGroup>,
    b: Seq<LeafGroup>,
    bytes: Seq<u8>,
    count: int,
    g: int,
)
    requires
        0 <= count <= record_count(bytes, 38),
        cuts_groups(a, bytes, count),
        cuts_groups(b, bytes, count),
        0 <= g < a.len(),
        g < b.len(),
        a[g].start == b[g].start,
    ensures
        a[g].exact_identities >= b[g].exact_identities,
{
    if a[g].exact_identities < b[g].exact_identities {
        lemma_group_within(b, bytes, count, g);
        assert(holds_run(a[g], bytes));
        assert(holds_run(b[g], bytes));
        let end = group_end(a[g]);
        if g == a.len() - 1 {
            assert(end == count);
        } else {
            assert(follows_group(a, g + 1, bytes));
            assert(a[g + 1].start == end);
            assert(describes_identity(b[g], identity_at(bytes, end)));
            assert(describes_identity(b[g], identity_at(bytes, end - 1)));
            lemma_group_keys(bytes, end - 1, end);
        }
    }
}

/// Hour and kind of an identity, as one number.
pub open spec fn identity_rank(identity: Seq<u8>) -> nat {
    be_nat(identity.subrange(0, 4)) * 0x1_0000 + be_nat(identity.subrange(4, 6))
}

/// The rank of an identity is the number of its hour and kind bytes.
proof fn lemma_identity_rank(bytes: Seq<u8>, index: int)
    requires
        0 <= index < record_count(bytes, 38),
    ensures
        be_nat(group_key(bytes, index)) == identity_rank(identity_at(bytes, index)),
        identity_at(bytes, index).len() == 38,
{
    let identity = identity_at(bytes, index);
    crate::run_writer::lemma_record_within(38, index, record_count(bytes, 38));
    assert(identity.len() == 38);
    assert(identity.take(6) =~= identity.subrange(0, 4) + identity.subrange(4, 6));
    lemma_be_join(identity.subrange(0, 4), identity.subrange(4, 6));
    lemma_be_limits();
}

/// Later identities have no smaller rank.
proof fn lemma_rank_grows(bytes: Seq<u8>, i: int, j: int)
    requires
        sorted_stream(bytes, 38, 38),
        0 <= i < j < record_count(bytes, 38),
    ensures
        identity_rank(identity_at(bytes, i)) <= identity_rank(identity_at(bytes, j)),
        group_key(bytes, i) != group_key(bytes, j) ==> identity_rank(identity_at(bytes, i))
            < identity_rank(identity_at(bytes, j)),
{
    let a = identity_at(bytes, i);
    let b = identity_at(bytes, j);
    lemma_identity_rank(bytes, i);
    lemma_identity_rank(bytes, j);
    assert(lex_less(record_key(bytes, 38, 38, i), record_key(bytes, 38, 38, j)));
    assert(record_key(bytes, 38, 38, i) =~= a);
    assert(record_key(bytes, 38, 38, j) =~= b);
    lemma_lex_split(a, b, 6);
    lemma_be_order(a.take(6), b.take(6));
}

/// The groups of a sorted artifact come in the order of hour and kind.
pub proof fn lemma_groups_ordered(groups: Seq<LeafGroup>, bytes: Seq<u8>, g: int, h: int)
    requires
        sorted_stream(bytes, 38, 38),
        cuts_groups(groups, bytes, record_count(bytes, 38)),
        0 <= g < h < groups.len(),
    ensures
        groups[g].hour * 0x1_0000 + groups[g].kind < groups[h].hour * 0x1_0000 + groups[h].kind,
    decreases h - g,
{
    let total = record_count(bytes, 38);
    if g + 1 < h {
        lemma_groups_ordered(groups, bytes, g, h - 1);
    }
    let a = groups[h - 1];
    let b = groups[h];
    assert(follows_group(groups, h, bytes));
    assert(holds_run(a, bytes));
    assert(holds_run(b, bytes));
    lemma_group_within(groups, bytes, total, h);
    assert(describes_identity(a, identity_at(bytes, b.start - 1)));
    assert(describes_identity(b, identity_at(bytes, b.start as int)));
    lemma_rank_grows(bytes, b.start - 1, b.start as int);
}

} // verus!
