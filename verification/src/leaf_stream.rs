//! The stream of distinct-author leaves.
//!
//! A leaf is an hour and a kind, the length of its sketch, and the sketch.
//! Leaves come in strict order of hour and kind.

use vstd::prelude::*;

use crate::bytes::{
    be_bytes, be_nat, lemma_be_bytes_round_trip, lemma_be_limits, push_be, push_bytes, read_u16,
    read_u32,
};
use crate::error::{Error, Result};
use crate::visits::{visits, visits_rows, without_value, Rows, Visit};

verus! {

/// Bytes of a leaf key: hour and kind.
pub const LEAF_KEY_BYTES: usize = 6;

/// Bytes of a leaf length.
pub const LEAF_LENGTH_BYTES: usize = 4;

/// Largest sketch that is read.
pub const MAX_SERIALIZED_SKETCH_BYTES: usize = 1_048_576;

/// One leaf.
#[derive(Clone, Debug, PartialEq, Eq)]
pub struct FlexibleLeaf {
    /// UTC hour number since the Unix epoch.
    pub hour: u32,
    /// Event kind.
    pub kind: u16,
    /// Serialized sketch.
    pub sketch: Vec<u8>,
}

impl View for FlexibleLeaf {
    type V = (u32, u16, Seq<u8>);

    open spec fn view(&self) -> Self::V {
        (self.hour, self.kind, self.sketch@)
    }
}

/// Place of a leaf: hour, kind.
pub open spec fn leaf_rank(leaf: (u32, u16, Seq<u8>)) -> int {
    leaf.0 * 0x1_0000 + leaf.1
}

/// The values of a list of leaves.
pub open spec fn leaf_views(leaves: Seq<FlexibleLeaf>) -> Seq<(u32, u16, Seq<u8>)> {
    Seq::new(leaves.len(), |i: int| leaves[i]@)
}

/// Leaves in strict order.
pub open spec fn leaves_ordered(leaves: Seq<(u32, u16, Seq<u8>)>) -> bool {
    forall|i: int, j: int|
        0 <= i < j < leaves.len() ==> #[trigger] leaf_rank(leaves[i]) < #[trigger] leaf_rank(
            leaves[j],
        )
}

/// Length of the sketch of the leaf at `at`.
pub open spec fn sketch_length(bytes: Seq<u8>, at: int) -> int {
    be_nat(bytes.subrange(at + 6, at + 10)) as int
}

/// A whole leaf with a sketch of bounded length starts at `at`.
pub open spec fn leaf_fits(bytes: Seq<u8>, at: int) -> bool {
    &&& at + 10 <= bytes.len()
    &&& sketch_length(bytes, at) <= MAX_SERIALIZED_SKETCH_BYTES
    &&& at + 10 + sketch_length(bytes, at) <= bytes.len()
}

/// The leaf at `at`.
pub open spec fn leaf_at(bytes: Seq<u8>, at: int) -> (u32, u16, Seq<u8>) {
    (
        be_nat(bytes.subrange(at, at + 4)) as u32,
        be_nat(bytes.subrange(at + 4, at + 6)) as u16,
        bytes.subrange(at + 10, at + 10 + sketch_length(bytes, at)),
    )
}

/// The leaves from `at` to the end, where they are all whole.
pub open spec fn leaves_from(bytes: Seq<u8>, at: int) -> Option<Seq<(u32, u16, Seq<u8>)>>
    decreases bytes.len() - at,
{
    if at >= bytes.len() {
        Some(Seq::empty())
    } else if at < 0 || !leaf_fits(bytes, at) {
        None
    } else {
        match leaves_from(bytes, at + 10 + sketch_length(bytes, at)) {
            None => None,
            Some(rest) => Some(seq![leaf_at(bytes, at)] + rest),
        }
    }
}

/// The bytes are whole leaves in strict order.
pub open spec fn holds_leaves(bytes: Seq<u8>, leaves: Seq<(u32, u16, Seq<u8>)>) -> bool {
    leaves_from(bytes, 0) == Some(leaves) && leaves_ordered(leaves)
}

/// Reader of a stream of leaves.
pub struct LeafReader<'a> {
    bytes: &'a [u8],
    offset: usize,
    previous: Option<(u32, u16)>,
}

impl<'a> LeafReader<'a> {
    /// The bytes that are read.
    pub closed spec fn source(&self) -> Seq<u8> {
        self.bytes@
    }

    /// Bytes behind.
    pub closed spec fn offset(&self) -> int {
        self.offset as int
    }

    /// Key of the leaf read last.
    pub closed spec fn previous(&self) -> Option<(u32, u16)> {
        self.previous
    }

    /// The offset lies in the stream.
    pub closed spec fn wf(&self) -> bool {
        self.offset <= self.bytes@.len()
    }

    /// Start reading `bytes`.
    pub fn open(bytes: &'a [u8]) -> (reader: Self)
        ensures
            reader.wf(),
            reader.source() == bytes@,
            reader.offset() == 0,
            reader.previous() is None,
    {
        LeafReader { bytes, offset: 0, previous: None }
    }

    /// The leaf at the offset follows the one read last.
    pub open spec fn in_order(&self) -> bool {
        self.previous() is Some ==> {
            let next = leaf_at(self.source(), self.offset());
            leaf_rank(
                ((self.previous()->0).0, (self.previous()->0).1, Seq::empty()),
            ) < leaf_rank(next)
        }
    }

    /// Read the next leaf; there is none at the end of the stream.
    pub fn next(&mut self) -> (outcome: Result<Option<FlexibleLeaf>>)
        requires
            old(self).wf(),
        ensures
            final(self).source() == old(self).source(),
            match outcome {
                Ok(None) => {
                    &&& old(self).offset() == old(self).source().len()
                    &&& *final(self) == *old(self)
                },
                Ok(Some(leaf)) => {
                    let at = old(self).offset();
                    &&& at < old(self).source().len()
                    &&& leaf_fits(old(self).source(), at)
                    &&& old(self).in_order()
                    &&& leaf@ == leaf_at(old(self).source(), at)
                    &&& final(self).wf()
                    &&& final(self).offset() == at + 10 + sketch_length(old(self).source(), at)
                    &&& final(self).previous() == Some((leaf.hour, leaf.kind))
                },
                Err(error) => {
                    let at = old(self).offset();
                    &&& error is Invalid
                    &&& at < old(self).source().len()
                    &&& !leaf_fits(old(self).source(), at) || !old(self).in_order()
                },
            },
    {
        let ghost bytes = self.bytes@;
        let ghost at = self.offset as int;
        let left: usize = self.bytes.len() - self.offset;
        if left == 0 {
            return Ok(None);
        }
        if left < LEAF_KEY_BYTES {
            return Err(
                Error::Invalid("flexible distinct artifact ends with a truncated record"),
            );
        }
        let hour: u32 = read_u32(self.bytes, self.offset);
        let kind: u16 = read_u16(self.bytes, self.offset + 4);
        if let Some((last_hour, last_kind)) = self.previous {
            if last_hour > hour || (last_hour == hour && last_kind >= kind) {
                return Err(
                    Error::Invalid("flexible leaf artifact is not strictly sorted and unique"),
                );
            }
        }
        if left < LEAF_KEY_BYTES + LEAF_LENGTH_BYTES {
            return Err(
                Error::Invalid("flexible distinct artifact ends with a truncated record"),
            );
        }
        let length: u32 = read_u32(self.bytes, self.offset + 6);
        if length > MAX_SERIALIZED_SKETCH_BYTES as u32 {
            return Err(
                Error::Invalid("serialized flexible leaf exceeds the fixed decode bound"),
            );
        }
        let size: usize = length as usize;
        if left - 10 < size {
            return Err(
                Error::Invalid("flexible distinct artifact ends with a truncated record"),
            );
        }
        let start: usize = self.offset + 10;
        let end: usize = start + size;
        let sketch: Vec<u8> = vstd::slice::slice_to_vec(
            vstd::slice::slice_subrange(self.bytes, start, end),
        );
        self.offset = end;
        self.previous = Some((hour, kind));
        Ok(Some(FlexibleLeaf { hour, kind, sketch }))
    }
}

/// Read every leaf of an artifact.
pub fn read_leaves(bytes: &[u8]) -> (outcome: Result<Vec<FlexibleLeaf>>)
    ensures
        outcome is Ok <==> exists|leaves: Seq<(u32, u16, Seq<u8>)>| #[trigger]
            holds_leaves(bytes@, leaves),
        match outcome {
            Ok(leaves) => holds_leaves(bytes@, leaf_views(leaves@)),
            Err(error) => error is Invalid,
        },
{
    let mut reader: LeafReader = LeafReader::open(bytes);
    let mut leaves: Vec<FlexibleLeaf> = Vec::new();
    let ghost none = Seq::<(u32, u16, Seq<u8>)>::empty();
    assert(leaf_views(leaves@) =~= none);
    proof {
        if leaves_from(bytes@, 0) is Some {
            assert(none + leaves_from(bytes@, 0)->0 =~= leaves_from(bytes@, 0)->0);
        }
    }
    loop
        invariant
            reader.wf(),
            reader.source() == bytes@,
            0 <= reader.offset() <= bytes@.len(),
            leaves_ordered(leaf_views(leaves@)),
            match reader.previous() {
                None => leaves@.len() == 0,
                Some(key) => leaves@.len() > 0 && key == (
                    leaves@[leaves@.len() - 1].hour,
                    leaves@[leaves@.len() - 1].kind,
                ),
            },
            match leaves_from(bytes@, reader.offset()) {
                None => leaves_from(bytes@, 0) is None,
                Some(rest) => leaves_from(bytes@, 0) == Some(leaf_views(leaves@) + rest),
            },
        ensures
            reader.offset() == bytes@.len(),
        decreases bytes@.len() - reader.offset(),
    {
        let ghost at = reader.offset();
        let ghost before = leaf_views(leaves@);
        let ghost step = leaf_at(bytes@, at);
        match reader.next() {
            Ok(None) => {
                break ;
            },
            Ok(Some(leaf)) => {
                leaves.push(leaf);
                proof {
                    let after = leaf_views(leaves@);
                    assert(after =~= before.push(step));
                    assert forall|i: int, j: int| 0 <= i < j < after.len() implies #[trigger] leaf_rank(
                        after[i],
                    ) < #[trigger] leaf_rank(after[j]) by {
                        if j < before.len() {
                            assert(after[i] == before[i] && after[j] == before[j]);
                        } else {
                            assert(after[i] == before[i]);
                            let last = before[before.len() - 1];
                            assert(leaf_rank(last) < leaf_rank(step));
                            if i < before.len() - 1 {
                                assert(leaf_rank(before[i]) < leaf_rank(last));
                            }
                        }
                    }
                    let next = at + 10 + sketch_length(bytes@, at);
                    if leaves_from(bytes@, next) is Some {
                        let rest = leaves_from(bytes@, next)->0;
                        assert(before + (seq![step] + rest) =~= after + rest);
                    }
                }
            },
            Err(error) => {
                proof {
                    if leaf_fits(bytes@, at) {
                        let next = at + 10 + sketch_length(bytes@, at);
                        assert forall|all: Seq<(u32, u16, Seq<u8>)>| !#[trigger]
                            holds_leaves(bytes@, all) by {
                            if holds_leaves(bytes@, all) {
                                let rest = leaves_from(bytes@, next)->0;
                                let n = before.len() as int;
                                assert(all == before + (seq![step] + rest));
                                assert(all[n] == step);
                                assert(all[n - 1] == before[n - 1]);
                                assert(leaf_rank(all[n - 1]) < leaf_rank(all[n]));
                            }
                        }
                    } else {
                        assert(leaves_from(bytes@, at) is None);
                    }
                }
                return Err(error);
            },
        }
    }
    proof {
        assert(leaf_views(leaves@) + none =~= leaf_views(leaves@));
        assert(leaves_from(bytes@, bytes@.len() as int) == Some(none));
        assert(holds_leaves(bytes@, leaf_views(leaves@)));
    }
    Ok(leaves)
}

/// Bytes before the leaf with the number `n`.
pub open spec fn leaf_offset(bytes: Seq<u8>, n: int) -> int
    decreases n,
{
    if n <= 0 {
        0
    } else {
        let at = leaf_offset(bytes, n - 1);
        at + 10 + sketch_length(bytes, at)
    }
}

/// The leaf stands at `at`.
pub open spec fn stands_at(bytes: Seq<u8>, leaf: (u32, u16, Seq<u8>), at: int) -> bool {
    leaf_fits(bytes, at) && leaf == leaf_at(bytes, at)
}

/// The bytes begin with the leaves, in strict order.
pub open spec fn starts_leaves(bytes: Seq<u8>, leaves: Seq<(u32, u16, Seq<u8>)>) -> bool {
    &&& forall|i: int|
        0 <= i < leaves.len() ==> #[trigger] stands_at(bytes, leaves[i], leaf_offset(bytes, i))
    &&& leaves_ordered(leaves)
}

/// The leaves of an artifact.
pub open spec fn held_leaves(bytes: Seq<u8>, count: int) -> Rows<(u32, u16, Seq<u8>)> {
    Rows {
        starts: |leaves: Seq<(u32, u16, Seq<u8>)>| starts_leaves(bytes, leaves),
        ends: |leaves: Seq<(u32, u16, Seq<u8>)>|
            leaf_offset(bytes, leaves.len() as int) == bytes.len(),
        count,
    }
}

/// The visits of a visitor of leaves.
pub open spec fn leaf_visit<X, V: Fn(X, u32, u16, &[u8]) -> (X, Result<()>)>(visitor: V) -> Visit<
    X,
    (u32, u16, Seq<u8>),
> {
    |x: X, leaf: (u32, u16, Seq<u8>), y: X, outcome: Result<()>|
        exists|sketch: &[u8]|
            sketch@ == leaf.2 && #[trigger] call_ensures(
                visitor,
                (x, leaf.0, leaf.1, sketch),
                (y, outcome),
            )
}

/// Visit every leaf of an artifact of `expected` leaves, in order, up to the
/// first error of the visitor, and count them.
pub fn visit_leaves<X, V: Fn(X, u32, u16, &[u8]) -> (X, Result<()>)>(
    bytes: &[u8],
    expected: u64,
    x: X,
    visitor: &V,
) -> (made: (X, Result<u64>))
    requires
        forall|x: X, hour: u32, kind: u16, sketch: &[u8]| #[trigger]
            call_requires(*visitor, (x, hour, kind, sketch)),
    ensures
        made.1 is Ok ==> made.1->Ok_0 == expected,
        exists|leaves: Seq<(u32, u16, Seq<u8>)>, states: Seq<X>|
            visits_rows(
                leaf_visit(*visitor),
                x,
                held_leaves(bytes@, expected as int),
                leaves,
                states,
                (made.0, without_value(made.1)),
            ),
{
    let ghost first = x;
    let ghost artifact = held_leaves(bytes@, expected as int);
    let ghost mut leaves: Seq<(u32, u16, Seq<u8>)> = Seq::empty();
    let ghost mut states: Seq<X> = seq![x];
    let mut held: X = x;
    let mut rows: u64 = 0;
    let size: usize = bytes.len();
    assert(size <= u64::MAX);
    let mut reader: LeafReader = LeafReader::open(bytes);
    loop
        invariant
            first == x,
            artifact == held_leaves(bytes@, expected as int),
            forall|x: X, hour: u32, kind: u16, sketch: &[u8]| #[trigger]
                call_requires(*visitor, (x, hour, kind, sketch)),
            reader.wf(),
            reader.source() == bytes@,
            bytes@.len() <= u64::MAX,
            reader.offset() == leaf_offset(bytes@, leaves.len() as int),
            0 <= rows <= reader.offset() <= bytes@.len(),
            rows == leaves.len(),
            starts_leaves(bytes@, leaves),
            match reader.previous() {
                None => leaves.len() == 0,
                Some(key) => leaves.len() > 0 && key == (leaves.last().0, leaves.last().1),
            },
            visits(leaf_visit(*visitor), first, leaves, states),
            states.last() == held,
        ensures
            reader.offset() == bytes@.len(),
        decreases bytes@.len() - reader.offset(),
    {
        let ghost at = reader.offset();
        let ghost n = leaves.len() as int;
        match reader.next() {
            Ok(None) => {
                break ;
            },
            Ok(Some(leaf)) => {
                let ghost more = leaves.push(leaf@);
                let ghost before = held;
                proof {
                    lemma_leaf_push(bytes@, leaves, leaf@);
                }
                let (after, outcome) = visitor(
                    held,
                    leaf.hour,
                    leaf.kind,
                    leaf.sketch.as_slice(),
                );
                held = after;
                match outcome {
                    Ok(done) => {
                        proof {
                            assert(done == ());
                            let longer = states.push(after);
                            assert(leaf_visit(*visitor)(before, leaf@, after, Ok(())));
                            assert forall|i: int| 0 <= i < more.len() implies leaf_visit(*visitor)(
                                longer[i],
                                #[trigger] more[i],
                                longer[i + 1],
                                Ok(()),
                            ) by {
                                if i < n {
                                    assert(leaf_visit(*visitor)(
                                        states[i],
                                        leaves[i],
                                        states[i + 1],
                                        Ok(()),
                                    ));
                                }
                            }
                            leaves = more;
                            states = longer;
                        }
                    },
                    Err(error) => {
                        let made: (X, Result<u64>) = (held, Err(error));
                        proof {
                            assert(more.drop_last() =~= leaves);
                            assert(leaf_visit(*visitor)(before, leaf@, after, Err(error)));
                            assert(visits_rows(
                                leaf_visit(*visitor),
                                first,
                                artifact,
                                more,
                                states,
                                (made.0, without_value(made.1)),
                            ));
                        }
                        return made;
                    },
                }
                rows = rows + 1;
            },
            Err(error) => {
                let made: (X, Result<u64>) = (held, Err(error));
                proof {
                    assert forall|leaf: (u32, u16, Seq<u8>)| !#[trigger] (artifact.starts)(
                        leaves.push(leaf),
                    ) by {
                        let more = leaves.push(leaf);
                        if starts_leaves(bytes@, more) {
                            assert(stands_at(bytes@, more[n], leaf_offset(bytes@, n)));
                            if n > 0 {
                                assert(more[n - 1] == leaves[n - 1]);
                                assert(leaf_rank(more[n - 1]) < leaf_rank(more[n]));
                            }
                        }
                    }
                    assert(visits_rows(
                        leaf_visit(*visitor),
                        first,
                        artifact,
                        leaves,
                        states,
                        (made.0, without_value(made.1)),
                    ));
                }
                return made;
            },
        }
    }
    let made: (X, Result<u64>) = if rows != expected {
        (held, Err(Error::Invalid("visited flexible leaf row count mismatch")))
    } else {
        (held, Ok(rows))
    };
    proof {
        assert(visits_rows(
            leaf_visit(*visitor),
            first,
            artifact,
            leaves,
            states,
            (made.0, without_value(made.1)),
        ));
    }
    made
}

/// Leaves that the bytes begin with and that take up all of them are the leaves
/// that the bytes hold.
pub proof fn lemma_all_leaves(bytes: Seq<u8>, leaves: Seq<(u32, u16, Seq<u8>)>)
    requires
        starts_leaves(bytes, leaves),
        leaf_offset(bytes, leaves.len() as int) == bytes.len(),
    ensures
        holds_leaves(bytes, leaves),
{
    lemma_leaves_behind_offset(bytes, leaves, 0);
    assert(leaves.skip(0) =~= leaves);
}

proof fn lemma_leaves_behind_offset(bytes: Seq<u8>, leaves: Seq<(u32, u16, Seq<u8>)>, n: int)
    requires
        starts_leaves(bytes, leaves),
        leaf_offset(bytes, leaves.len() as int) == bytes.len(),
        0 <= n <= leaves.len(),
    ensures
        0 <= leaf_offset(bytes, n),
        leaves_from(bytes, leaf_offset(bytes, n)) == Some(leaves.skip(n)),
    decreases leaves.len() - n,
{
    lemma_offset_grows(bytes, n);
    if n == leaves.len() {
        assert(leaves.skip(n) =~= Seq::empty());
    } else {
        assert(stands_at(bytes, leaves[n], leaf_offset(bytes, n)));
        lemma_leaves_behind_offset(bytes, leaves, n + 1);
        assert(seq![leaves[n]] + leaves.skip(n + 1) =~= leaves.skip(n));
    }
}

proof fn lemma_offset_grows(bytes: Seq<u8>, n: int)
    ensures
        0 <= leaf_offset(bytes, n),
    decreases n,
{
    if n > 0 {
        lemma_offset_grows(bytes, n - 1);
    }
}

/// A leaf behind leaves that follow each other.
proof fn lemma_leaf_push(
    bytes: Seq<u8>,
    leaves: Seq<(u32, u16, Seq<u8>)>,
    leaf: (u32, u16, Seq<u8>),
)
    requires
        starts_leaves(bytes, leaves),
        leaf_fits(bytes, leaf_offset(bytes, leaves.len() as int)),
        leaf == leaf_at(bytes, leaf_offset(bytes, leaves.len() as int)),
        leaves.len() > 0 ==> leaf_rank(leaves.last()) < leaf_rank(leaf),
    ensures
        starts_leaves(bytes, leaves.push(leaf)),
{
    let more = leaves.push(leaf);
    let n = leaves.len() as int;
    assert forall|i: int| 0 <= i < more.len() implies #[trigger] stands_at(
        bytes,
        more[i],
        leaf_offset(bytes, i),
    ) by {
        if i < n {
            assert(stands_at(bytes, leaves[i], leaf_offset(bytes, i)));
        }
    }
    assert forall|i: int, j: int| 0 <= i < j < more.len() implies #[trigger] leaf_rank(more[i])
        < #[trigger] leaf_rank(more[j]) by {
        if j < n {
            assert(leaf_rank(leaves[i]) < leaf_rank(leaves[j]));
        } else if i < n - 1 {
            assert(leaf_rank(leaves[i]) < leaf_rank(leaves[n - 1]));
        }
    }
}

/// The encoding of a leaf.
pub open spec fn leaf_record(leaf: (u32, u16, Seq<u8>)) -> Seq<u8> {
    be_bytes(leaf.0 as nat, 4) + be_bytes(leaf.1 as nat, 2) + be_bytes(leaf.2.len(), 4) + leaf.2
}

/// Append a leaf to an artifact.
pub fn write_leaf(out: &mut Vec<u8>, leaf: &FlexibleLeaf) -> (outcome: Result<()>)
    ensures
        leaf.sketch@.len() <= u32::MAX ==> outcome is Ok && final(out)@ == old(out)@
            + leaf_record(leaf@),
        leaf.sketch@.len() > u32::MAX ==> final(out)@ == old(out)@ && outcome == Err::<(), Error>(
            Error::Invalid("serialized flexible leaf exceeds u32"),
        ),
{
    if leaf.sketch.len() as u64 > u32::MAX as u64 {
        return Err(Error::Invalid("serialized flexible leaf exceeds u32"));
    }
    let ghost before = out@;
    push_be(out, leaf.hour as u64, 4);
    push_be(out, leaf.kind as u64, 2);
    push_be(out, leaf.sketch.len() as u64, 4);
    push_bytes(out, leaf.sketch.as_slice());
    assert(out@ =~= before + leaf_record(leaf@));
    Ok(())
}

/// The encodings of leaves, one after the other.
pub open spec fn leaf_records(leaves: Seq<(u32, u16, Seq<u8>)>) -> Seq<u8>
    decreases leaves.len(),
{
    if leaves.len() == 0 {
        Seq::empty()
    } else {
        leaf_record(leaves[0]) + leaf_records(leaves.skip(1))
    }
}

/// Reading encoded leaves of readable size gives them back.
pub proof fn lemma_leaves_round_trip(leaves: Seq<(u32, u16, Seq<u8>)>)
    requires
        forall|i: int|
            0 <= i < leaves.len() ==> (#[trigger] leaves[i]).2.len()
                <= MAX_SERIALIZED_SKETCH_BYTES,
    ensures
        leaves_from(leaf_records(leaves), 0) == Some(leaves),
{
    let none = Seq::<u8>::empty();
    lemma_leaves_behind(none, leaves);
    assert(none + leaf_records(leaves) =~= leaf_records(leaves));
}

proof fn lemma_leaves_behind(front: Seq<u8>, leaves: Seq<(u32, u16, Seq<u8>)>)
    requires
        forall|i: int|
            0 <= i < leaves.len() ==> (#[trigger] leaves[i]).2.len()
                <= MAX_SERIALIZED_SKETCH_BYTES,
    ensures
        leaves_from(front + leaf_records(leaves), front.len() as int) == Some(leaves),
    decreases leaves.len(),
{
    let bytes = front + leaf_records(leaves);
    let at = front.len() as int;
    if leaves.len() == 0 {
        assert(leaves =~= Seq::empty());
    } else {
        let leaf = leaves[0];
        let rest = leaves.skip(1);
        let first = leaf_record(leaf);
        lemma_be_limits();
        lemma_be_bytes_round_trip(leaf.0 as nat, 4);
        lemma_be_bytes_round_trip(leaf.1 as nat, 2);
        lemma_be_bytes_round_trip(leaf.2.len(), 4);
        assert(bytes =~= (front + first) + leaf_records(rest));
        assert(bytes.subrange(at, at + 4) =~= be_bytes(leaf.0 as nat, 4));
        assert(bytes.subrange(at + 4, at + 6) =~= be_bytes(leaf.1 as nat, 2));
        assert(bytes.subrange(at + 6, at + 10) =~= be_bytes(leaf.2.len(), 4));
        assert(sketch_length(bytes, at) == leaf.2.len());
        assert(bytes.subrange(at + 10, at + 10 + sketch_length(bytes, at)) =~= leaf.2);
        assert(leaf_at(bytes, at) == leaf);
        assert forall|i: int| 0 <= i < rest.len() implies (#[trigger] rest[i]).2.len()
            <= MAX_SERIALIZED_SKETCH_BYTES by {
            assert(rest[i] == leaves[i + 1]);
        }
        lemma_leaves_behind(front + first, rest);
        assert((front + first).len() == at + 10 + sketch_length(bytes, at));
        assert(seq![leaf] + rest =~= leaves);
    }
}

} // verus!
