//! Record layouts of the serving-facts artifacts.

use vstd::prelude::*;

use crate::bytes::{
    be_bytes, be_nat, lemma_be_bytes_round_trip, lemma_be_limits, lemma_be_nat_round_trip, push_be,
    push_bytes, read_32, read_u16, read_u32, read_u64,
};
use crate::error::{Error, Result};
use crate::records::{
    keys_increase, record, record_count, sorted_stream, PlainReader, RecordReader, StreamFault,
};

verus! {

/// Event ID plus exact UTF-8 content byte length.
pub const CONTENT_FACT_BYTES: usize = 40;

/// Event ID, timestamp and kind.
pub const EVENT_FACT_BYTES: usize = 42;

/// Sparse hourly row: hour, all-kind or kind key, exact count.
pub const HOURLY_COUNT_BYTES: usize = 16;

/// Kind, event and unique counts, first and last, content bytes and rows.
pub const KIND_SUMMARY_BYTES: usize = 42;

/// Kind key of the rows that count all kinds.
pub const ALL_KINDS_KEY: u32 = 0;

/// Leading bytes of a content fact that are its event ID.
pub const CONTENT_KEY_BYTES: usize = 32;

/// One event ID with the byte length of its content.
#[derive(Clone, Copy, Debug, PartialEq, Eq)]
pub struct ContentFact {
    /// Event ID.
    pub id: [u8; 32],
    /// UTF-8 content bytes.
    pub content_bytes: u64,
}

/// One event ID with its timestamp and kind.
#[derive(Clone, Copy, Debug, PartialEq, Eq)]
pub struct EventFact {
    /// Event ID.
    pub id: [u8; 32],
    /// Event timestamp.
    pub created_at: u64,
    /// Event kind.
    pub kind: u16,
}

/// One exact sparse hourly event-count row.
#[derive(Clone, Copy, Debug, PartialEq, Eq, Structural)]
pub struct ServingHourlyRow {
    /// UTC hour number since the Unix epoch.
    pub hour_epoch: u32,
    /// Exact event kind, or all kinds.
    pub kind: Option<u16>,
    /// Canonical deduplicated event count.
    pub event_count: u64,
}

/// One exact all-time kind summary row.
#[derive(Clone, Copy, Debug, PartialEq, Eq, Structural)]
pub struct ServingKindRow {
    /// Nostr event kind.
    pub kind: u16,
    /// Canonical eligible event count.
    pub event_count: u64,
    /// Exact eligible distinct publisher count.
    pub unique_pubkeys: u64,
    /// Earliest eligible timestamp.
    pub first_seen: u32,
    /// Latest eligible timestamp.
    pub last_seen: u32,
    /// Exact sum of UTF-8 content bytes.
    pub content_bytes: u64,
    /// Number of rows represented by the content-byte sum.
    pub content_rows: u64,
}

/// The encoding of a content fact.
pub open spec fn content_record(fact: ContentFact) -> Seq<u8> {
    fact.id@ + be_bytes(fact.content_bytes as nat, 8)
}

/// The encoding of an event fact.
pub open spec fn event_record(fact: EventFact) -> Seq<u8> {
    fact.id@ + be_bytes(fact.created_at as nat, 8) + be_bytes(fact.kind as nat, 2)
}

/// Kind key of a row: zero for all kinds, one more than the kind otherwise.
pub open spec fn kind_key(kind: Option<u16>) -> nat {
    match kind {
        None => 0,
        Some(k) => (k + 1) as nat,
    }
}

/// The encoding of an hourly row.
pub open spec fn hourly_record(row: ServingHourlyRow) -> Seq<u8> {
    be_bytes(row.hour_epoch as nat, 4) + be_bytes(kind_key(row.kind), 4) + be_bytes(
        row.event_count as nat,
        8,
    )
}

/// The encoding of a kind row.
pub open spec fn kind_record(row: ServingKindRow) -> Seq<u8> {
    be_bytes(row.kind as nat, 2) + be_bytes(row.event_count as nat, 8) + be_bytes(
        row.unique_pubkeys as nat,
        8,
    ) + be_bytes(row.first_seen as nat, 4) + be_bytes(row.last_seen as nat, 4) + be_bytes(
        row.content_bytes as nat,
        8,
    ) + be_bytes(row.content_rows as nat, 8)
}

impl ContentFact {
    /// The 40 bytes of the fact.
    pub fn encode(self) -> (bytes: Vec<u8>)
        ensures
            bytes@ == content_record(self),
            bytes@.len() == 40,
    {
        let mut bytes: Vec<u8> = Vec::new();
        push_bytes(&mut bytes, self.id.as_slice());
        push_be(&mut bytes, self.content_bytes, 8);
        proof {
            lemma_be_bytes_round_trip(self.content_bytes as nat, 8);
            assert(bytes@ =~= content_record(self));
        }
        bytes
    }
}

impl EventFact {
    /// The 42 bytes of the fact.
    pub fn encode(self) -> (bytes: Vec<u8>)
        ensures
            bytes@ == event_record(self),
            bytes@.len() == 42,
    {
        let mut bytes: Vec<u8> = Vec::new();
        push_bytes(&mut bytes, self.id.as_slice());
        push_be(&mut bytes, self.created_at, 8);
        push_be(&mut bytes, self.kind as u64, 2);
        proof {
            lemma_be_bytes_round_trip(self.created_at as nat, 8);
            lemma_be_bytes_round_trip(self.kind as nat, 2);
            assert(bytes@ =~= event_record(self));
        }
        bytes
    }
}

/// A content fact decodes a record.
pub open spec fn decodes_content(fact: ContentFact, bytes: Seq<u8>) -> bool {
    &&& fact.id@ == bytes.subrange(0, 32)
    &&& fact.content_bytes == be_nat(bytes.subrange(32, 40))
}

/// An event fact decodes a record.
pub open spec fn decodes_event(fact: EventFact, bytes: Seq<u8>) -> bool {
    &&& fact.id@ == bytes.subrange(0, 32)
    &&& fact.created_at == be_nat(bytes.subrange(32, 40))
    &&& fact.kind == be_nat(bytes.subrange(40, 42))
}

/// A content fact is read back from its encoding.
pub proof fn lemma_content_round_trip(fact: ContentFact)
    ensures
        decodes_content(fact, content_record(fact)),
        content_record(fact).len() == 40,
{
    lemma_be_bytes_round_trip(fact.content_bytes as nat, 8);
    lemma_be_limits();
    let bytes = content_record(fact);
    assert(bytes.subrange(0, 32) =~= fact.id@);
    assert(bytes.subrange(32, 40) =~= be_bytes(fact.content_bytes as nat, 8));
}

/// An event fact is read back from its encoding.
pub proof fn lemma_event_round_trip(fact: EventFact)
    ensures
        decodes_event(fact, event_record(fact)),
        event_record(fact).len() == 42,
{
    lemma_be_bytes_round_trip(fact.created_at as nat, 8);
    lemma_be_bytes_round_trip(fact.kind as nat, 2);
    lemma_be_limits();
    let bytes = event_record(fact);
    assert(bytes.subrange(0, 32) =~= fact.id@);
    assert(bytes.subrange(32, 40) =~= be_bytes(fact.created_at as nat, 8));
    assert(bytes.subrange(40, 42) =~= be_bytes(fact.kind as nat, 2));
}

/// Reader of a sorted stream of content facts.
pub struct ContentFactReader<'a> {
    reader: RecordReader<'a>,
}

impl<'a> ContentFactReader<'a> {
    /// The bytes that are read.
    pub closed spec fn source(&self) -> Seq<u8> {
        self.reader.source()
    }

    /// Number of records read so far.
    pub closed spec fn position(&self) -> int {
        self.reader.position()
    }

    /// The records read so far are complete and in order.
    pub closed spec fn wf(&self) -> bool {
        self.reader.wf() && self.reader.width() == 40 && self.reader.key() == 32
    }

    /// Start reading `bytes`.
    pub fn open(bytes: &'a [u8]) -> (reader: Self)
        ensures
            reader.wf(),
            reader.source() == bytes@,
            reader.position() == 0,
    {
        ContentFactReader {
            reader: RecordReader::new(bytes, CONTENT_FACT_BYTES, CONTENT_KEY_BYTES),
        }
    }

    /// A reader never passes the last complete record.
    pub proof fn lemma_position(&self)
        requires
            self.wf(),
        ensures
            0 <= self.position() <= record_count(self.source(), 40),
            self.position() <= usize::MAX,
    {
        self.reader.lemma_position();
    }

    /// Read the next fact; there is none at the end of the stream.
    pub fn next(&mut self) -> (outcome: Result<Option<ContentFact>>)
        requires
            old(self).wf(),
        ensures
            final(self).wf(),
            final(self).source() == old(self).source(),
            match outcome {
                Ok(None) => {
                    &&& old(self).position() == record_count(old(self).source(), 40)
                    &&& final(self).position() == old(self).position()
                    &&& sorted_stream(old(self).source(), 40, 32)
                },
                Ok(Some(fact)) => {
                    &&& old(self).position() < record_count(old(self).source(), 40)
                    &&& final(self).position() == old(self).position() + 1
                    &&& decodes_content(
                        fact,
                        record(old(self).source(), 40, old(self).position()),
                    )
                    &&& keys_increase(old(self).source(), 40, 32, final(self).position())
                },
                Err(error) => {
                    ||| {
                        &&& error == Error::Invalid(
                            "fixed-width artifact ends with a truncated record",
                        )
                        &&& old(self).source().len() as int % 40 != 0
                    }
                    ||| {
                        &&& error == Error::Invalid(
                            "content facts are not strictly sorted and unique",
                        )
                        &&& !keys_increase(old(self).source(), 40, 32, old(self).position() + 1)
                    }
                },
            },
            outcome is Err ==> !sorted_stream(old(self).source(), 40, 32),
    {
        match self.reader.next() {
            Ok(None) => Ok(None),
            Ok(Some(found)) => Ok(
                Some(ContentFact { id: read_32(found, 0), content_bytes: read_u64(found, 32) }),
            ),
            Err(StreamFault::Truncated) => Err(
                Error::Invalid("fixed-width artifact ends with a truncated record"),
            ),
            Err(StreamFault::Unordered) => Err(
                Error::Invalid("content facts are not strictly sorted and unique"),
            ),
        }
    }
}

/// Reader of a stream of event facts.
pub struct EventFactReader<'a> {
    reader: PlainReader<'a>,
}

impl<'a> EventFactReader<'a> {
    /// The bytes that are read.
    pub closed spec fn source(&self) -> Seq<u8> {
        self.reader.source()
    }

    /// Number of records read so far.
    pub closed spec fn position(&self) -> int {
        self.reader.position()
    }

    /// The records read so far are complete.
    pub closed spec fn wf(&self) -> bool {
        self.reader.wf() && self.reader.width() == 42
    }

    /// Start reading `bytes`.
    pub fn open(bytes: &'a [u8]) -> (reader: Self)
        ensures
            reader.wf(),
            reader.source() == bytes@,
            reader.position() == 0,
    {
        EventFactReader { reader: PlainReader::new(bytes, EVENT_FACT_BYTES) }
    }

    /// A reader never passes the last complete record.
    pub proof fn lemma_position(&self)
        requires
            self.wf(),
        ensures
            0 <= self.position() <= record_count(self.source(), 42),
            self.position() <= usize::MAX,
    {
        self.reader.lemma_position();
    }

    /// Read the next fact; there is none at the end of the stream.
    pub fn read_next(&mut self) -> (outcome: Result<Option<EventFact>>)
        requires
            old(self).wf(),
        ensures
            final(self).wf(),
            final(self).source() == old(self).source(),
            match outcome {
                Ok(None) => {
                    &&& old(self).position() == record_count(old(self).source(), 42)
                    &&& final(self).position() == old(self).position()
                    &&& old(self).source().len() as int % 42 == 0
                },
                Ok(Some(fact)) => {
                    &&& old(self).position() < record_count(old(self).source(), 42)
                    &&& final(self).position() == old(self).position() + 1
                    &&& decodes_event(fact, record(old(self).source(), 42, old(self).position()))
                },
                Err(error) => {
                    &&& error == Error::Invalid("fixed-width artifact ends with a truncated record")
                    &&& old(self).source().len() as int % 42 != 0
                },
            },
    {
        match self.reader.next() {
            Ok(None) => Ok(None),
            Ok(Some(found)) => Ok(
                Some(
                    EventFact {
                        id: read_32(found, 0),
                        created_at: read_u64(found, 32),
                        kind: read_u16(found, 40),
                    },
                ),
            ),
            Err(_) => Err(Error::Invalid("fixed-width artifact ends with a truncated record")),
        }
    }
}

/// The row that an hourly record stands for: its kind key is in the domain and
/// its count is positive.
pub open spec fn decodes_hourly(row: ServingHourlyRow, bytes: Seq<u8>) -> bool {
    &&& bytes.len() == 16
    &&& bytes == hourly_record(row)
    &&& row.event_count > 0
}

/// The record is an hourly row.
pub open spec fn is_hourly(bytes: Seq<u8>) -> bool {
    &&& be_nat(bytes.subrange(4, 8)) <= 65_536
    &&& be_nat(bytes.subrange(8, 16)) > 0
}

/// Decode an hourly record.
pub(crate) fn decode_hourly(bytes: &[u8]) -> (row: Result<ServingHourlyRow>)
    requires
        bytes@.len() == 16,
    ensures
        match row {
            Ok(row) => is_hourly(bytes@) && decodes_hourly(row, bytes@),
            Err(error) => {
                &&& !is_hourly(bytes@)
                &&& error == Error::Invalid("hourly artifact contains an out-of-domain kind key")
                    || error == Error::Invalid("hourly artifact contains a zero count")
            },
        },
{
    let hour_epoch: u32 = read_u32(bytes, 0);
    let key: u32 = read_u32(bytes, 4);
    if key > 65_536 {
        return Err(Error::Invalid("hourly artifact contains an out-of-domain kind key"));
    }
    let kind: Option<u16> = if key == ALL_KINDS_KEY {
        None
    } else {
        Some((key - 1) as u16)
    };
    let event_count: u64 = read_u64(bytes, 8);
    if event_count == 0 {
        return Err(Error::Invalid("hourly artifact contains a zero count"));
    }
    let row = ServingHourlyRow { hour_epoch, kind, event_count };
    proof {
        lemma_be_nat_round_trip(bytes@.subrange(0, 4));
        lemma_be_nat_round_trip(bytes@.subrange(4, 8));
        lemma_be_nat_round_trip(bytes@.subrange(8, 16));
        assert(kind_key(kind) == key);
        assert(hourly_record(row) =~= bytes@.subrange(0, 4) + bytes@.subrange(4, 8)
            + bytes@.subrange(8, 16));
        assert(hourly_record(row) =~= bytes@);
    }
    Ok(row)
}

/// An hourly row is read back from its encoding, and from no other.
pub proof fn lemma_hourly_round_trip(row: ServingHourlyRow)
    ensures
        hourly_record(row).len() == 16,
        be_nat(hourly_record(row).subrange(0, 4)) == row.hour_epoch,
        be_nat(hourly_record(row).subrange(4, 8)) == kind_key(row.kind),
        be_nat(hourly_record(row).subrange(8, 16)) == row.event_count,
        row.event_count > 0 ==> is_hourly(hourly_record(row)),
        forall|other: ServingHourlyRow|
            hourly_record(row) == #[trigger] hourly_record(other) ==> row == other,
{
    lemma_hourly_fields(row);
    assert forall|other: ServingHourlyRow|
        hourly_record(row) == #[trigger] hourly_record(other) implies row == other by {
        lemma_hourly_fields(other);
    }
}

proof fn lemma_hourly_fields(row: ServingHourlyRow)
    ensures
        hourly_record(row).len() == 16,
        be_nat(hourly_record(row).subrange(0, 4)) == row.hour_epoch,
        be_nat(hourly_record(row).subrange(4, 8)) == kind_key(row.kind),
        be_nat(hourly_record(row).subrange(8, 16)) == row.event_count,
{
    lemma_be_limits();
    lemma_be_bytes_round_trip(row.hour_epoch as nat, 4);
    lemma_be_bytes_round_trip(kind_key(row.kind), 4);
    lemma_be_bytes_round_trip(row.event_count as nat, 8);
    let bytes = hourly_record(row);
    assert(bytes.subrange(0, 4) =~= be_bytes(row.hour_epoch as nat, 4));
    assert(bytes.subrange(4, 8) =~= be_bytes(kind_key(row.kind), 4));
    assert(bytes.subrange(8, 16) =~= be_bytes(row.event_count as nat, 8));
}

/// The metrics of a kind row are possible: it has events, no more publishers
/// than events, an ordered range, and one content row for each event.
pub open spec fn is_kind_row(row: ServingKindRow) -> bool {
    &&& row.event_count > 0
    &&& row.unique_pubkeys > 0
    &&& row.unique_pubkeys <= row.event_count
    &&& row.first_seen <= row.last_seen
    &&& row.content_rows == row.event_count
}

/// Decode a kind record.
pub(crate) fn decode_kind_summary(bytes: &[u8]) -> (row: ServingKindRow)
    requires
        bytes@.len() == 42,
    ensures
        bytes@ == kind_record(row),
{
    let row = ServingKindRow {
        kind: read_u16(bytes, 0),
        event_count: read_u64(bytes, 2),
        unique_pubkeys: read_u64(bytes, 10),
        first_seen: read_u32(bytes, 18),
        last_seen: read_u32(bytes, 22),
        content_bytes: read_u64(bytes, 26),
        content_rows: read_u64(bytes, 34),
    };
    proof {
        lemma_be_nat_round_trip(bytes@.subrange(0, 2));
        lemma_be_nat_round_trip(bytes@.subrange(2, 10));
        lemma_be_nat_round_trip(bytes@.subrange(10, 18));
        lemma_be_nat_round_trip(bytes@.subrange(18, 22));
        lemma_be_nat_round_trip(bytes@.subrange(22, 26));
        lemma_be_nat_round_trip(bytes@.subrange(26, 34));
        lemma_be_nat_round_trip(bytes@.subrange(34, 42));
        assert(kind_record(row) =~= bytes@);
    }
    row
}

/// A kind row is read back from its encoding, and from no other.
pub proof fn lemma_kind_round_trip(row: ServingKindRow)
    ensures
        kind_record(row).len() == 42,
        be_nat(kind_record(row).subrange(0, 2)) == row.kind,
        forall|other: ServingKindRow|
            kind_record(row) == #[trigger] kind_record(other) ==> row == other,
{
    lemma_kind_fields(row);
    assert forall|other: ServingKindRow|
        kind_record(row) == #[trigger] kind_record(other) implies row == other by {
        lemma_kind_fields(other);
    }
}

proof fn lemma_kind_fields(row: ServingKindRow)
    ensures
        kind_record(row).len() == 42,
        be_nat(kind_record(row).subrange(0, 2)) == row.kind,
        be_nat(kind_record(row).subrange(2, 10)) == row.event_count,
        be_nat(kind_record(row).subrange(10, 18)) == row.unique_pubkeys,
        be_nat(kind_record(row).subrange(18, 22)) == row.first_seen,
        be_nat(kind_record(row).subrange(22, 26)) == row.last_seen,
        be_nat(kind_record(row).subrange(26, 34)) == row.content_bytes,
        be_nat(kind_record(row).subrange(34, 42)) == row.content_rows,
{
    lemma_be_limits();
    lemma_be_bytes_round_trip(row.kind as nat, 2);
    lemma_be_bytes_round_trip(row.event_count as nat, 8);
    lemma_be_bytes_round_trip(row.unique_pubkeys as nat, 8);
    lemma_be_bytes_round_trip(row.first_seen as nat, 4);
    lemma_be_bytes_round_trip(row.last_seen as nat, 4);
    lemma_be_bytes_round_trip(row.content_bytes as nat, 8);
    lemma_be_bytes_round_trip(row.content_rows as nat, 8);
    let bytes = kind_record(row);
    assert(bytes.subrange(0, 2) =~= be_bytes(row.kind as nat, 2));
    assert(bytes.subrange(2, 10) =~= be_bytes(row.event_count as nat, 8));
    assert(bytes.subrange(10, 18) =~= be_bytes(row.unique_pubkeys as nat, 8));
    assert(bytes.subrange(18, 22) =~= be_bytes(row.first_seen as nat, 4));
    assert(bytes.subrange(22, 26) =~= be_bytes(row.last_seen as nat, 4));
    assert(bytes.subrange(26, 34) =~= be_bytes(row.content_bytes as nat, 8));
    assert(bytes.subrange(34, 42) =~= be_bytes(row.content_rows as nat, 8));
}

} // verus!
