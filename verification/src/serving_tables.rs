//! Hourly and kind tables of the serving facts, and their artifacts.

use vstd::prelude::*;

use crate::activity_tables::lemma_increasing_unique;
use crate::artifact::EncodedRun;
use crate::bytes::{
    be_bytes, be_limit, be_nat, lemma_be_bytes_round_trip, lemma_be_join, lemma_be_limits,
    lemma_be_order, lex_less, push_be,
};
use crate::error::{checked_add, Error, Result};
use crate::ordered::lists_map;
use crate::period_counter::counted;
use crate::records::{
    keys_increase, record, record_count, record_key, sorted_stream, RecordReader, StreamFault,
};
use crate::run_writer::RunWriter;
use crate::serving_compact::{
    counts_hours, hour_key, in_hour, lemma_hour_event, sum_events, DerivedCompact, KindAccumulator,
    ServedEvent, TimestampBounds,
};
use crate::serving_records::{
    decode_hourly, decode_kind_summary, decodes_hourly, hourly_record, is_hourly, is_kind_row,
    kind_key, kind_record, lemma_hourly_round_trip, lemma_kind_round_trip, ServingHourlyRow,
    ServingKindRow, ALL_KINDS_KEY, HOURLY_COUNT_BYTES, KIND_SUMMARY_BYTES,
};
use crate::visits::{visit_of, visit_rows, visits_rows, Rows};

verus! {

/// Place of an hourly row: hour, all kinds, kind.
pub open spec fn hourly_rank(row: ServingHourlyRow) -> int {
    hour_key(row.hour_epoch as int, kind_key(row.kind) as int)
}

/// Hourly rows in order.
pub open spec fn hourly_ordered(rows: Seq<ServingHourlyRow>) -> bool {
    forall|i: int, j: int|
        0 <= i < j < rows.len() ==> #[trigger] hourly_rank(rows[i]) < #[trigger] hourly_rank(
            rows[j],
        )
}

/// The row holds the count of its hour and kind.
pub open spec fn counts_hourly_row(
    row: ServingHourlyRow,
    events: Seq<ServedEvent>,
    as_of: u64,
    bounds: TimestampBounds,
) -> bool {
    row.event_count == sum_events(
        events,
        in_hour(as_of, bounds, row.hour_epoch as int, kind_key(row.kind) as int),
    ) && row.event_count > 0
}

/// `rows` lists exactly the hours and kinds with an event, in order.
pub open spec fn hourly_table(
    rows: Seq<ServingHourlyRow>,
    events: Seq<ServedEvent>,
    as_of: u64,
    bounds: TimestampBounds,
) -> bool {
    &&& hourly_ordered(rows)
    &&& forall|i: int|
        0 <= i < rows.len() ==> counts_hourly_row(#[trigger] rows[i], events, as_of, bounds)
    &&& forall|row: ServingHourlyRow| #[trigger]
        counts_hourly_row(row, events, as_of, bounds) ==> rows.contains(row)
}

/// The hourly table is unique.
pub proof fn lemma_hourly_table_unique(
    left: Seq<ServingHourlyRow>,
    right: Seq<ServingHourlyRow>,
    events: Seq<ServedEvent>,
    as_of: u64,
    bounds: TimestampBounds,
)
    requires
        hourly_table(left, events, as_of, bounds),
        hourly_table(right, events, as_of, bounds),
    ensures
        left == right,
{
    let a = left.map_values(|row: ServingHourlyRow| hourly_rank(row));
    let b = right.map_values(|row: ServingHourlyRow| hourly_rank(row));
    assert forall|x: int| a.contains(x) <==> b.contains(x) by {
        if a.contains(x) {
            let i = choose|i: int| 0 <= i < a.len() && a[i] == x;
            assert(counts_hourly_row(left[i], events, as_of, bounds));
            assert(right.contains(left[i]));
            let j = choose|j: int| 0 <= j < right.len() && right[j] == left[i];
            assert(b[j] == x);
        }
        if b.contains(x) {
            let i = choose|i: int| 0 <= i < b.len() && b[i] == x;
            assert(counts_hourly_row(right[i], events, as_of, bounds));
            assert(left.contains(right[i]));
            let j = choose|j: int| 0 <= j < left.len() && left[j] == right[i];
            assert(a[j] == x);
        }
    }
    lemma_increasing_unique(a, b);
    assert forall|i: int| 0 <= i < left.len() implies left[i] == right[i] by {
        assert(a[i] == b[i]);
        assert(counts_hourly_row(left[i], events, as_of, bounds));
        assert(counts_hourly_row(right[i], events, as_of, bounds));
        assert(left[i].hour_epoch == right[i].hour_epoch);
        assert(left[i].kind == right[i].kind);
    }
    assert(a.len() == b.len());
    assert(left =~= right);
}

/// The hourly table of derived counts.
pub(crate) fn hourly_rows(
    derived: &DerivedCompact,
    Ghost(events): Ghost<Seq<ServedEvent>>,
    Ghost(as_of): Ghost<u64>,
    Ghost(bounds): Ghost<TimestampBounds>,
) -> (rows: Vec<ServingHourlyRow>)
    requires
        counts_hours(derived.hours(), events, as_of, bounds),
    ensures
        hourly_table(rows@, events, as_of, bounds),
        rows@.len() == derived.hours().dom().len(),
{
    let counters: Vec<(u64, u64)> = derived.hourly_rows();
    let ghost map = derived.hours();
    let mut rows: Vec<ServingHourlyRow> = Vec::new();
    let mut i: usize = 0;
    while i < counters.len()
        invariant
            i <= counters@.len(),
            map == derived.hours(),
            counts_hours(map, events, as_of, bounds),
            lists_map(counters@, map),
            rows@.len() == i,
            forall|j: int|
                0 <= j < i ==> hourly_rank(#[trigger] rows@[j]) == counters@[j].0
                    && counts_hourly_row(rows@[j], events, as_of, bounds),
        decreases counters.len() - i,
    {
        let place: u64 = counters[i].0;
        let count: u64 = counters[i].1;
        let hour: u32 = (place / 0x1_0000_0000) as u32;
        let key: u32 = (place % 0x1_0000_0000) as u32;
        proof {
            assert(map.contains_key(counters@[i as int].0));
            assert(hour_key(hour as int, key as int) == place);
            assert(counted(map, hour_key(hour as int, key as int)) == count);
            lemma_hour_event(events, as_of, bounds, hour as int, key as int);
        }
        let kind: Option<u16> = if key == ALL_KINDS_KEY {
            None
        } else {
            Some((key - 1) as u16)
        };
        rows.push(ServingHourlyRow { hour_epoch: hour, kind, event_count: count });
        i += 1;
    }
    proof {
        assert forall|i: int, j: int| 0 <= i < j < rows@.len() implies #[trigger] hourly_rank(
            rows@[i],
        ) < #[trigger] hourly_rank(rows@[j]) by {
            assert(counters@[i].0 < counters@[j].0);
        }
        assert forall|row: ServingHourlyRow| #[trigger]
            counts_hourly_row(row, events, as_of, bounds) implies rows@.contains(row) by {
            let key = kind_key(row.kind) as u32;
            let place = hour_key(row.hour_epoch as int, key as int);
            assert(counted(map, place) == row.event_count);
            assert(map.contains_key(place as u64));
            let j = choose|j: int| 0 <= j < counters@.len() && #[trigger] counters@[j].0
                == place as u64;
            assert(hourly_rank(rows@[j]) == place);
            assert(rows@[j].hour_epoch == row.hour_epoch);
            assert(kind_key(rows@[j].kind) == kind_key(row.kind));
            assert(rows@[j] == row);
        }
        lemma_listed_len(counters@, map);
    }
    rows
}

/// A listed map has as many keys as rows.
proof fn lemma_listed_len(rows: Seq<(u64, u64)>, map: Map<u64, u64>)
    requires
        lists_map(rows, map),
    ensures
        rows.len() == map.dom().len(),
{
    let keys = rows.map_values(|row: (u64, u64)| row.0);
    assert(keys.no_duplicates()) by {
        assert forall|i: int, j: int| 0 <= i < keys.len() && 0 <= j < keys.len() && i != j implies
            keys[i] != keys[j] by {
            if i < j {
                assert(rows[i].0 < rows[j].0);
            } else {
                assert(rows[j].0 < rows[i].0);
            }
        }
    }
    assert(keys.to_set() =~= map.dom()) by {
        assert forall|k: u64| keys.to_set().contains(k) <==> map.dom().contains(k) by {
            if keys.to_set().contains(k) {
                let i = choose|i: int| 0 <= i < keys.len() && keys[i] == k;
                assert(map.contains_key(rows[i].0));
            }
            if map.dom().contains(k) {
                assert(map.contains_key(k));
                let i = choose|i: int| 0 <= i < rows.len() && #[trigger] rows[i].0 == k;
                assert(keys[i] == k);
            }
        }
    }
    keys.unique_seq_to_set();
}

/// The key bytes of an hourly row.
proof fn lemma_hourly_key(row: ServingHourlyRow)
    ensures
        hourly_record(row).len() == 16,
        be_nat(hourly_record(row).take(8)) == hourly_rank(row),
{
    lemma_be_limits();
    lemma_be_bytes_round_trip(row.hour_epoch as nat, 4);
    lemma_be_bytes_round_trip(kind_key(row.kind), 4);
    lemma_be_bytes_round_trip(row.event_count as nat, 8);
    let a = be_bytes(row.hour_epoch as nat, 4);
    let b = be_bytes(kind_key(row.kind), 4);
    lemma_be_join(a, b);
    assert(hourly_record(row).take(8) =~= a + b);
    assert(be_limit(4) == 0x1_0000_0000);
}

/// Hourly keys sort as their rows do.
proof fn lemma_hourly_key_order(a: ServingHourlyRow, b: ServingHourlyRow)
    ensures
        lex_less(hourly_record(a).take(8), hourly_record(b).take(8)) <==> hourly_rank(a)
            < hourly_rank(b),
{
    lemma_hourly_key(a);
    lemma_hourly_key(b);
    lemma_be_order(hourly_record(a).take(8), hourly_record(b).take(8));
}

/// The artifact holds exactly the encodings of the rows.
pub open spec fn encodes_hourly(bytes: Seq<u8>, rows: Seq<ServingHourlyRow>) -> bool {
    &&& bytes.len() == 16 * rows.len()
    &&& forall|i: int|
        0 <= i < rows.len() ==> #[trigger] record(bytes, 16, i) == hourly_record(rows[i])
}

/// Encode an hourly table.
pub fn encode_hourly_rows(rows: &Vec<ServingHourlyRow>) -> (run: EncodedRun)
    requires
        hourly_ordered(rows@),
    ensures
        encodes_hourly(run.bytes@, rows@),
        run.rows == rows@.len(),
        run.keys_are(
            rows@.len() > 0,
            hourly_record(rows@[0]).take(8),
            hourly_record(rows@[rows@.len() - 1]).take(8),
        ),
{
    let mut writer: RunWriter = RunWriter::new(HOURLY_COUNT_BYTES, 8);
    let mut i: usize = 0;
    while i < rows.len()
        invariant
            i <= rows@.len(),
            hourly_ordered(rows@),
            writer.wf(),
            writer.width() == 16,
            writer.key() == 8,
            writer.rows() == i,
            forall|j: int|
                0 <= j < i ==> #[trigger] record(writer.written(), 16, j) == hourly_record(rows@[j]),
        decreases rows.len() - i,
    {
        let row: ServingHourlyRow = rows[i];
        let mut entry: Vec<u8> = Vec::new();
        push_be(&mut entry, row.hour_epoch as u64, 4);
        let key: u64 = match row.kind {
            None => 0,
            Some(kind) => kind as u64 + 1,
        };
        push_be(&mut entry, key, 4);
        push_be(&mut entry, row.event_count, 8);
        proof {
            assert(entry@ =~= hourly_record(row));
            lemma_hourly_key(row);
            writer.lemma_wf();
            if i > 0 {
                assert(record(writer.written(), 16, i - 1) == hourly_record(rows@[i - 1]));
                lemma_hourly_key_order(rows@[i - 1], row);
                assert(hourly_rank(rows@[i - 1]) < hourly_rank(rows@[i as int]));
            }
        }
        let ghost before = writer.written();
        let accepted: bool = writer.append(entry.as_slice());
        proof {
            assert(accepted);
            let after = writer.written();
            assert forall|j: int| 0 <= j < i + 1 implies #[trigger] record(after, 16, j)
                == hourly_record(rows@[j]) by {
                if j < i {
                    assert(record(after, 16, j) =~= record(before, 16, j));
                } else {
                    assert(record(after, 16, j) =~= entry@);
                }
            }
        }
        i += 1;
    }
    proof {
        writer.lemma_wf();
        if rows@.len() > 0 {
            assert(record(writer.written(), 16, 0) == hourly_record(rows@[0]));
            assert(record(writer.written(), 16, rows@.len() - 1) == hourly_record(
                rows@[rows@.len() - 1],
            ));
        }
    }
    writer.finish()
}

/// The artifact is a sorted stream of `rows` hourly rows.
pub open spec fn hourly_artifact(bytes: Seq<u8>, rows: int) -> bool {
    &&& sorted_stream(bytes, 16, 8)
    &&& record_count(bytes, 16) == rows
    &&& forall|i: int| 0 <= i < rows ==> is_hourly(#[trigger] record(bytes, 16, i))
}

/// The artifact begins with the encodings of the rows, in order.
pub open spec fn starts_hourly(bytes: Seq<u8>, rows: Seq<ServingHourlyRow>) -> bool {
    &&& 16 * rows.len() <= bytes.len()
    &&& forall|i: int|
        0 <= i < rows.len() ==> decodes_hourly(#[trigger] rows[i], record(bytes, 16, i))
    &&& hourly_ordered(rows)
}

/// A row behind rows that follow each other.
proof fn lemma_hourly_push(bytes: Seq<u8>, rows: Seq<ServingHourlyRow>, row: ServingHourlyRow)
    requires
        starts_hourly(bytes, rows),
        16 * (rows.len() + 1) <= bytes.len(),
        decodes_hourly(row, record(bytes, 16, rows.len() as int)),
    ensures
        starts_hourly(bytes, rows.push(row)) <==> keys_increase(
            bytes,
            16,
            8,
            rows.len() as int + 1,
        ),
{
    let more = rows.push(row);
    assert forall|i: int| 0 <= i < more.len() implies decodes_hourly(
        #[trigger] more[i],
        record(bytes, 16, i),
    ) by {
        if i < rows.len() {
            assert(more[i] == rows[i]);
        }
    }
    assert forall|i: int, j: int| 0 <= i < j < more.len() implies (lex_less(
        #[trigger] record_key(bytes, 16, 8, i),
        #[trigger] record_key(bytes, 16, 8, j),
    ) <==> hourly_rank(more[i]) < hourly_rank(more[j])) by {
        lemma_hourly_key_order(more[i], more[j]);
    }
    if starts_hourly(bytes, more) {
        assert forall|i: int, j: int| 0 <= i < j < rows.len() + 1 implies lex_less(
            #[trigger] record_key(bytes, 16, 8, i),
            #[trigger] record_key(bytes, 16, 8, j),
        ) by {
            assert(hourly_rank(more[i]) < hourly_rank(more[j]));
        }
    }
    if keys_increase(bytes, 16, 8, rows.len() as int + 1) {
        assert forall|i: int, j: int| 0 <= i < j < more.len() implies #[trigger] hourly_rank(
            more[i],
        ) < #[trigger] hourly_rank(more[j]) by {
            assert(lex_less(record_key(bytes, 16, 8, i), record_key(bytes, 16, 8, j)));
        }
    }
}

/// Read the rows that an hourly artifact begins with, and what is wrong behind
/// them.
fn first_hourly(bytes: &[u8]) -> (found: (Vec<ServingHourlyRow>, Option<Error>))
    ensures
        starts_hourly(bytes@, found.0@),
        match found.1 {
            None => {
                &&& bytes@.len() == 16 * found.0@.len()
                &&& sorted_stream(bytes@, 16, 8)
                &&& forall|i: int|
                    0 <= i < found.0@.len() ==> is_hourly(#[trigger] record(bytes@, 16, i))
            },
            Some(error) => {
                &&& error is Invalid
                &&& bytes@.len() != 16 * found.0@.len()
                &&& forall|row: ServingHourlyRow|
                    !#[trigger] starts_hourly(bytes@, found.0@.push(row))
                &&& forall|count: int| !#[trigger] hourly_artifact(bytes@, count)
            },
        },
{
    let ghost total = record_count(bytes@, 16);
    let mut reader: RecordReader = RecordReader::new(bytes, HOURLY_COUNT_BYTES, 8);
    let mut rows: Vec<ServingHourlyRow> = Vec::new();
    loop
        invariant
            total == record_count(bytes@, 16),
            reader.wf(),
            reader.source() == bytes@,
            reader.width() == 16,
            reader.key() == 8,
            0 <= reader.position() <= total,
            rows@.len() == reader.position(),
            starts_hourly(bytes@, rows@),
            forall|i: int|
                0 <= i < reader.position() ==> is_hourly(#[trigger] record(bytes@, 16, i)),
        ensures
            reader.position() == total,
            sorted_stream(bytes@, 16, 8),
        decreases total - reader.position(),
    {
        let ghost index = reader.position();
        proof {
            reader.lemma_position();
        }
        match reader.next() {
            Ok(None) => {
                break ;
            },
            Ok(Some(found)) => {
                match decode_hourly(found) {
                    Ok(row) => {
                        proof {
                            lemma_hourly_push(bytes@, rows@, row);
                        }
                        rows.push(row);
                    },
                    Err(error) => {
                        proof {
                            assert(!is_hourly(record(bytes@, 16, index)));
                            assert forall|row: ServingHourlyRow|
                                !#[trigger] starts_hourly(bytes@, rows@.push(row)) by {
                                let more = rows@.push(row);
                                assert(more[index] == row);
                                lemma_hourly_round_trip(row);
                            }
                        }
                        return (rows, Some(error));
                    },
                }
            },
            Err(StreamFault::Truncated) => {
                return (
                    rows,
                    Some(Error::Invalid("fixed-width artifact ends with a truncated record")),
                );
            },
            Err(StreamFault::Unordered) => {
                proof {
                    assert forall|row: ServingHourlyRow|
                        !#[trigger] starts_hourly(bytes@, rows@.push(row)) by {
                        let more = rows@.push(row);
                        if starts_hourly(bytes@, more) {
                            assert(more[index] == row);
                            lemma_hourly_push(bytes@, rows@, row);
                        }
                    }
                }
                return (rows, Some(Error::Invalid("hourly artifact is not strictly sorted")));
            },
        }
    }
    (rows, None)
}

/// Read every row of an hourly artifact of `expected_rows` rows.
pub fn read_hourly_artifact(bytes: &[u8], expected_rows: u64) -> (outcome: Result<
    Vec<ServingHourlyRow>,
>)
    ensures
        outcome is Ok <==> hourly_artifact(bytes@, expected_rows as int),
        match outcome {
            Ok(rows) => {
                &&& rows@.len() == expected_rows
                &&& encodes_hourly(bytes@, rows@)
                &&& hourly_ordered(rows@)
                &&& forall|i: int|
                    0 <= i < rows@.len() ==> (#[trigger] rows@[i]).event_count > 0
            },
            Err(error) => error is Invalid,
        },
{
    let (rows, fault) = first_hourly(bytes);
    if let Some(error) = fault {
        return Err(error);
    }
    if rows.len() as u64 != expected_rows {
        return Err(Error::Invalid("hourly artifact row count changed"));
    }
    proof {
        assert forall|i: int| 0 <= i < rows@.len() implies #[trigger] record(bytes@, 16, i)
            == hourly_record(rows@[i]) by {
            assert(decodes_hourly(rows@[i], record(bytes@, 16, i)));
        }
        assert forall|i: int| 0 <= i < rows@.len() implies (#[trigger] rows@[i]).event_count > 0 by {
            assert(decodes_hourly(rows@[i], record(bytes@, 16, i)));
        }
    }
    Ok(rows)
}

/// The rows of an hourly artifact.
pub open spec fn held_hours(bytes: Seq<u8>, count: int) -> Rows<ServingHourlyRow> {
    Rows {
        starts: |rows: Seq<ServingHourlyRow>| starts_hourly(bytes, rows),
        ends: |rows: Seq<ServingHourlyRow>| bytes.len() == 16 * rows.len(),
        count,
    }
}

/// Visit every row of an hourly artifact of `expected_rows` rows.
pub fn visit_hourly_artifact<X, V: Fn(X, ServingHourlyRow) -> (X, Result<()>)>(
    bytes: &[u8],
    expected_rows: u64,
    x: X,
    visitor: &V,
) -> (made: (X, Result<()>))
    requires
        forall|x: X, row: ServingHourlyRow| #[trigger] call_requires(*visitor, (x, row)),
    ensures
        exists|rows: Seq<ServingHourlyRow>, states: Seq<X>|
            visits_rows(
                visit_of(*visitor),
                x,
                held_hours(bytes@, expected_rows as int),
                rows,
                states,
                made,
            ),
{
    let (rows, fault) = first_hourly(bytes);
    let ghost artifact = held_hours(bytes@, expected_rows as int);
    proof {
        assert forall|n: int| 0 <= n <= rows@.len() implies (artifact.starts)(
            #[trigger] rows@.take(n),
        ) by {
            let less = rows@.take(n);
            assert forall|i: int| 0 <= i < less.len() implies decodes_hourly(
                #[trigger] less[i],
                record(bytes@, 16, i),
            ) by {
                assert(less[i] == rows@[i]);
            }
        }
        assert forall|row: ServingHourlyRow| fault is Some implies !#[trigger] (artifact.starts)(
            rows@.push(row),
        ) by {
            assert(!starts_hourly(bytes@, rows@.push(row)));
        }
    }
    visit_rows(
        &rows,
        fault,
        expected_rows,
        "hourly artifact row count changed",
        x,
        visitor,
        Ghost(artifact),
    )
}

/// Reading an encoded hourly table gives back its rows.
pub proof fn lemma_hourly_artifact_round_trip(
    bytes: Seq<u8>,
    rows: Seq<ServingHourlyRow>,
    read: Seq<ServingHourlyRow>,
)
    requires
        hourly_ordered(rows),
        forall|i: int| 0 <= i < rows.len() ==> (#[trigger] rows[i]).event_count > 0,
        encodes_hourly(bytes, rows),
    ensures
        hourly_artifact(bytes, rows.len() as int),
        encodes_hourly(bytes, read) ==> read == rows,
{
    assert(record_count(bytes, 16) == rows.len());
    assert forall|i: int| 0 <= i < rows.len() implies is_hourly(#[trigger] record(bytes, 16, i)) by {
        assert(record(bytes, 16, i) == hourly_record(rows[i]));
        lemma_hourly_round_trip(rows[i]);
    }
    assert forall|i: int, j: int| 0 <= i < j < rows.len() implies #[trigger] lex_less(
        record_key(bytes, 16, 8, i),
        record_key(bytes, 16, 8, j),
    ) by {
        assert(record(bytes, 16, i) == hourly_record(rows[i]));
        assert(record(bytes, 16, j) == hourly_record(rows[j]));
        lemma_hourly_key_order(rows[i], rows[j]);
        assert(hourly_rank(rows[i]) < hourly_rank(rows[j]));
    }
    if encodes_hourly(bytes, read) {
        assert forall|i: int| 0 <= i < rows.len() implies read[i] == rows[i] by {
            assert(record(bytes, 16, i) == hourly_record(rows[i]));
            assert(record(bytes, 16, i) == hourly_record(read[i]));
            lemma_hourly_round_trip(rows[i]);
        }
        assert(read =~= rows);
    }
}

/// The summary row of a kind.
pub open spec fn kind_summary(
    kinds: Seq<KindAccumulator>,
    unique: Seq<u64>,
    kind: int,
) -> ServingKindRow {
    ServingKindRow {
        kind: kind as u16,
        event_count: kinds[kind].event_count,
        unique_pubkeys: unique[kind],
        first_seen: kinds[kind].first_seen,
        last_seen: kinds[kind].last_seen,
        content_bytes: kinds[kind].content_bytes,
        content_rows: kinds[kind].content_rows,
    }
}

/// The summary rows of the first `count` kinds that have events.
pub open spec fn kind_table(
    kinds: Seq<KindAccumulator>,
    unique: Seq<u64>,
    count: int,
) -> Seq<ServingKindRow>
    decreases count,
{
    if count <= 0 {
        Seq::empty()
    } else if kinds[count - 1].event_count == 0 {
        kind_table(kinds, unique, count - 1)
    } else {
        kind_table(kinds, unique, count - 1).push(kind_summary(kinds, unique, count - 1))
    }
}

/// Kind rows in order.
pub open spec fn kinds_ordered(rows: Seq<ServingKindRow>) -> bool {
    forall|i: int, j: int|
        0 <= i < j < rows.len() ==> (#[trigger] rows[i]).kind < (#[trigger] rows[j]).kind
}

/// The summary rows come by increasing kind.
proof fn lemma_kind_table_ordered(kinds: Seq<KindAccumulator>, unique: Seq<u64>, count: int)
    requires
        0 <= count <= 65_536,
    ensures
        kinds_ordered(kind_table(kinds, unique, count)),
        forall|i: int|
            0 <= i < kind_table(kinds, unique, count).len() ==> (#[trigger] kind_table(
                kinds,
                unique,
                count,
            )[i]).kind < count,
        kind_table(kinds, unique, count).len() <= count,
    decreases count,
{
    if count > 0 {
        lemma_kind_table_ordered(kinds, unique, count - 1);
        let earlier = kind_table(kinds, unique, count - 1);
        let table = kind_table(kinds, unique, count);
        assert forall|i: int| 0 <= i < table.len() implies (#[trigger] table[i]).kind < count by {
            if i < earlier.len() {
                assert(table[i] == earlier[i]);
            }
        }
        assert forall|i: int, j: int| 0 <= i < j < table.len() implies (#[trigger] table[i]).kind
            < (#[trigger] table[j]).kind by {
            assert(table[i] == earlier[i]);
            if j < earlier.len() {
                assert(table[j] == earlier[j]);
            }
        }
    }
}

/// Every kind with publishers has events.
pub open spec fn publishers_have_events(kinds: Seq<KindAccumulator>, unique: Seq<u64>) -> bool {
    forall|k: int| 0 <= k < 65_536 && (#[trigger] kinds[k]).event_count == 0 ==> unique[k] == 0
}

/// The kind table of derived counts and publisher counts.
pub fn kind_rows(kinds: &Vec<KindAccumulator>, unique: &Vec<u64>) -> (outcome: Result<
    Vec<ServingKindRow>,
>)
    requires
        kinds@.len() == 65_536,
        unique@.len() == 65_536,
    ensures
        match outcome {
            Ok(rows) => {
                &&& publishers_have_events(kinds@, unique@)
                &&& rows@ == kind_table(kinds@, unique@, 65_536)
                &&& kinds_ordered(rows@)
            },
            Err(error) => {
                &&& !publishers_have_events(kinds@, unique@)
                &&& error == Error::Invalid(
                    "kind activity exists without an eligible canonical event",
                )
            },
        },
{
    let mut rows: Vec<ServingKindRow> = Vec::new();
    let mut k: usize = 0;
    while k < 65_536
        invariant
            k <= 65_536,
            kinds@.len() == 65_536,
            unique@.len() == 65_536,
            rows@ == kind_table(kinds@, unique@, k as int),
            forall|j: int| 0 <= j < k && (#[trigger] kinds@[j]).event_count == 0 ==> unique@[j] == 0,
        decreases 65_536 - k,
    {
        let row: KindAccumulator = kinds[k];
        if row.event_count == 0 {
            if unique[k] != 0 {
                assert(kinds@[k as int].event_count == 0 && unique@[k as int] != 0);
                return Err(
                    Error::Invalid("kind activity exists without an eligible canonical event"),
                );
            }
        } else {
            rows.push(
                ServingKindRow {
                    kind: k as u16,
                    event_count: row.event_count,
                    unique_pubkeys: unique[k],
                    first_seen: row.first_seen,
                    last_seen: row.last_seen,
                    content_bytes: row.content_bytes,
                    content_rows: row.content_rows,
                },
            );
        }
        k += 1;
    }
    proof {
        lemma_kind_table_ordered(kinds@, unique@, 65_536);
    }
    Ok(rows)
}

/// Kind keys sort as their rows do.
proof fn lemma_kind_key_order(a: ServingKindRow, b: ServingKindRow)
    ensures
        kind_record(a).len() == 42,
        lex_less(kind_record(a).take(2), kind_record(b).take(2)) <==> a.kind < b.kind,
{
    lemma_kind_round_trip(a);
    lemma_kind_round_trip(b);
    assert(kind_record(a).take(2) =~= kind_record(a).subrange(0, 2));
    assert(kind_record(b).take(2) =~= kind_record(b).subrange(0, 2));
    lemma_be_order(kind_record(a).take(2), kind_record(b).take(2));
}

/// The artifact holds exactly the encodings of the rows.
pub open spec fn encodes_kinds(bytes: Seq<u8>, rows: Seq<ServingKindRow>) -> bool {
    &&& bytes.len() == 42 * rows.len()
    &&& forall|i: int|
        0 <= i < rows.len() ==> #[trigger] record(bytes, 42, i) == kind_record(rows[i])
}

/// Encode a kind table.
pub fn encode_kind_rows(rows: &Vec<ServingKindRow>) -> (run: EncodedRun)
    requires
        kinds_ordered(rows@),
    ensures
        encodes_kinds(run.bytes@, rows@),
        run.rows == rows@.len(),
        run.keys_are(
            rows@.len() > 0,
            be_bytes(rows@[0].kind as nat, 2),
            be_bytes(rows@[rows@.len() - 1].kind as nat, 2),
        ),
{
    let mut writer: RunWriter = RunWriter::new(KIND_SUMMARY_BYTES, 2);
    let mut i: usize = 0;
    while i < rows.len()
        invariant
            i <= rows@.len(),
            kinds_ordered(rows@),
            writer.wf(),
            writer.width() == 42,
            writer.key() == 2,
            writer.rows() == i,
            forall|j: int|
                0 <= j < i ==> #[trigger] record(writer.written(), 42, j) == kind_record(rows@[j]),
        decreases rows.len() - i,
    {
        let row: ServingKindRow = rows[i];
        let mut entry: Vec<u8> = Vec::new();
        push_be(&mut entry, row.kind as u64, 2);
        push_be(&mut entry, row.event_count, 8);
        push_be(&mut entry, row.unique_pubkeys, 8);
        push_be(&mut entry, row.first_seen as u64, 4);
        push_be(&mut entry, row.last_seen as u64, 4);
        push_be(&mut entry, row.content_bytes, 8);
        push_be(&mut entry, row.content_rows, 8);
        proof {
            assert(entry@ =~= kind_record(row));
            lemma_kind_round_trip(row);
            writer.lemma_wf();
            if i > 0 {
                assert(record(writer.written(), 42, i - 1) == kind_record(rows@[i - 1]));
                lemma_kind_key_order(rows@[i - 1], row);
                assert(rows@[i - 1].kind < rows@[i as int].kind);
            }
        }
        let ghost before = writer.written();
        let accepted: bool = writer.append(entry.as_slice());
        proof {
            assert(accepted);
            let after = writer.written();
            assert forall|j: int| 0 <= j < i + 1 implies #[trigger] record(after, 42, j)
                == kind_record(rows@[j]) by {
                if j < i {
                    assert(record(after, 42, j) =~= record(before, 42, j));
                } else {
                    assert(record(after, 42, j) =~= entry@);
                }
            }
        }
        i += 1;
    }
    proof {
        writer.lemma_wf();
        if rows@.len() > 0 {
            let first = rows@[0];
            let last = rows@[rows@.len() - 1];
            assert(record(writer.written(), 42, 0) == kind_record(first));
            assert(record(writer.written(), 42, rows@.len() - 1) == kind_record(last));
            lemma_be_bytes_round_trip(first.kind as nat, 2);
            lemma_be_bytes_round_trip(last.kind as nat, 2);
            assert(kind_record(first).take(2) =~= be_bytes(first.kind as nat, 2));
            assert(kind_record(last).take(2) =~= be_bytes(last.kind as nat, 2));
        }
    }
    writer.finish()
}

/// The rows are those of a sorted stream of possible kind rows.
pub open spec fn reads_kinds(bytes: Seq<u8>, rows: Seq<ServingKindRow>) -> bool {
    &&& encodes_kinds(bytes, rows)
    &&& kinds_ordered(rows)
    &&& forall|i: int| 0 <= i < rows.len() ==> is_kind_row(#[trigger] rows[i])
}

/// The artifact begins with the encodings of possible kind rows, in order.
pub open spec fn starts_kinds(bytes: Seq<u8>, rows: Seq<ServingKindRow>) -> bool {
    &&& 42 * rows.len() <= bytes.len()
    &&& forall|i: int|
        0 <= i < rows.len() ==> record(bytes, 42, i) == kind_record(#[trigger] rows[i])
            && is_kind_row(rows[i])
    &&& kinds_ordered(rows)
}

/// A row behind rows that follow each other.
proof fn lemma_kinds_push(bytes: Seq<u8>, rows: Seq<ServingKindRow>, row: ServingKindRow)
    requires
        starts_kinds(bytes, rows),
        42 * (rows.len() + 1) <= bytes.len(),
        record(bytes, 42, rows.len() as int) == kind_record(row),
        is_kind_row(row),
    ensures
        starts_kinds(bytes, rows.push(row)) <==> keys_increase(bytes, 42, 2, rows.len() as int + 1),
{
    let more = rows.push(row);
    assert forall|i: int| 0 <= i < more.len() implies record(bytes, 42, i) == kind_record(
        #[trigger] more[i],
    ) && is_kind_row(more[i]) by {
        if i < rows.len() {
            assert(more[i] == rows[i]);
        }
    }
    assert forall|i: int, j: int| 0 <= i < j < more.len() implies (lex_less(
        #[trigger] record_key(bytes, 42, 2, i),
        #[trigger] record_key(bytes, 42, 2, j),
    ) <==> more[i].kind < more[j].kind) by {
        lemma_kind_key_order(more[i], more[j]);
    }
    if starts_kinds(bytes, more) {
        assert forall|i: int, j: int| 0 <= i < j < rows.len() + 1 implies lex_less(
            #[trigger] record_key(bytes, 42, 2, i),
            #[trigger] record_key(bytes, 42, 2, j),
        ) by {
            assert(more[i].kind < more[j].kind);
        }
    }
    if keys_increase(bytes, 42, 2, rows.len() as int + 1) {
        assert forall|i: int, j: int| 0 <= i < j < more.len() implies (#[trigger] more[i]).kind < (
        #[trigger] more[j]).kind by {
            assert(lex_less(record_key(bytes, 42, 2, i), record_key(bytes, 42, 2, j)));
        }
    }
}

/// Read the rows that a kind artifact begins with, and what is wrong behind
/// them.
fn first_kinds(bytes: &[u8]) -> (found: (Vec<ServingKindRow>, Option<Error>))
    ensures
        starts_kinds(bytes@, found.0@),
        match found.1 {
            None => bytes@.len() == 42 * found.0@.len(),
            Some(error) => {
                &&& error is Invalid
                &&& bytes@.len() != 42 * found.0@.len()
                &&& forall|row: ServingKindRow|
                    !#[trigger] starts_kinds(bytes@, found.0@.push(row))
                &&& forall|rows: Seq<ServingKindRow>| !#[trigger] reads_kinds(bytes@, rows)
            },
        },
{
    let ghost total = record_count(bytes@, 42);
    let mut reader: RecordReader = RecordReader::new(bytes, KIND_SUMMARY_BYTES, 2);
    let mut rows: Vec<ServingKindRow> = Vec::new();
    loop
        invariant
            total == record_count(bytes@, 42),
            reader.wf(),
            reader.source() == bytes@,
            reader.width() == 42,
            reader.key() == 2,
            0 <= reader.position() <= total,
            rows@.len() == reader.position(),
            starts_kinds(bytes@, rows@),
        ensures
            reader.position() == total,
            sorted_stream(bytes@, 42, 2),
        decreases total - reader.position(),
    {
        let ghost index = reader.position();
        proof {
            reader.lemma_position();
        }
        match reader.next() {
            Ok(None) => {
                break ;
            },
            Ok(Some(found)) => {
                let row: ServingKindRow = decode_kind_summary(found);
                if row.event_count == 0 || row.unique_pubkeys == 0 || row.unique_pubkeys
                    > row.event_count || row.first_seen > row.last_seen || row.content_rows
                    != row.event_count {
                    proof {
                        lemma_kind_round_trip(row);
                        assert forall|other: Seq<ServingKindRow>| !#[trigger]
                            reads_kinds(bytes@, other) by {
                            if reads_kinds(bytes@, other) {
                                assert(record(bytes@, 42, index) == kind_record(other[index]));
                                assert(other[index] == row);
                                assert(is_kind_row(other[index]));
                            }
                        }
                        assert forall|other: ServingKindRow|
                            !#[trigger] starts_kinds(bytes@, rows@.push(other)) by {
                            let more = rows@.push(other);
                            if starts_kinds(bytes@, more) {
                                assert(more[index] == other);
                                assert(other == row);
                            }
                        }
                    }
                    return (
                        rows,
                        Some(Error::Invalid("kind summary artifact contains invalid metrics")),
                    );
                }
                proof {
                    lemma_kinds_push(bytes@, rows@, row);
                }
                rows.push(row);
            },
            Err(StreamFault::Truncated) => {
                proof {
                    lemma_unreadable_kinds(bytes@);
                }
                return (
                    rows,
                    Some(Error::Invalid("fixed-width artifact ends with a truncated record")),
                );
            },
            Err(StreamFault::Unordered) => {
                proof {
                    lemma_unreadable_kinds(bytes@);
                    assert forall|row: ServingKindRow|
                        !#[trigger] starts_kinds(bytes@, rows@.push(row)) by {
                        let more = rows@.push(row);
                        if starts_kinds(bytes@, more) {
                            assert(more[index] == row);
                            lemma_kinds_push(bytes@, rows@, row);
                        }
                    }
                }
                return (
                    rows,
                    Some(Error::Invalid("kind summary artifact is not strictly sorted")),
                );
            },
        }
    }
    (rows, None)
}

/// Read every row of a kind artifact of `expected_rows` rows.
pub fn read_kind_artifact(bytes: &[u8], expected_rows: u64) -> (outcome: Result<
    Vec<ServingKindRow>,
>)
    ensures
        outcome is Ok <==> exists|rows: Seq<ServingKindRow>| #[trigger]
            reads_kinds(bytes@, rows) && rows.len() == expected_rows,
        match outcome {
            Ok(rows) => reads_kinds(bytes@, rows@) && rows@.len() == expected_rows,
            Err(error) => error is Invalid,
        },
{
    let (rows, fault) = first_kinds(bytes);
    if let Some(error) = fault {
        return Err(error);
    }
    proof {
        assert forall|i: int| 0 <= i < rows@.len() implies #[trigger] record(bytes@, 42, i)
            == kind_record(rows@[i]) by {
            assert(is_kind_row(rows@[i]));
        }
        assert(reads_kinds(bytes@, rows@));
    }
    if rows.len() as u64 != expected_rows {
        return Err(Error::Invalid("kind summary artifact row count changed"));
    }
    Ok(rows)
}

/// The rows of a kind artifact.
pub open spec fn held_kinds(bytes: Seq<u8>, count: int) -> Rows<ServingKindRow> {
    Rows {
        starts: |rows: Seq<ServingKindRow>| starts_kinds(bytes, rows),
        ends: |rows: Seq<ServingKindRow>| bytes.len() == 42 * rows.len(),
        count,
    }
}

/// Visit every row of a kind artifact of `expected_rows` rows.
pub fn visit_kind_artifact<X, V: Fn(X, ServingKindRow) -> (X, Result<()>)>(
    bytes: &[u8],
    expected_rows: u64,
    x: X,
    visitor: &V,
) -> (made: (X, Result<()>))
    requires
        forall|x: X, row: ServingKindRow| #[trigger] call_requires(*visitor, (x, row)),
    ensures
        exists|rows: Seq<ServingKindRow>, states: Seq<X>|
            visits_rows(
                visit_of(*visitor),
                x,
                held_kinds(bytes@, expected_rows as int),
                rows,
                states,
                made,
            ),
{
    let (rows, fault) = first_kinds(bytes);
    let ghost artifact = held_kinds(bytes@, expected_rows as int);
    proof {
        assert forall|n: int| 0 <= n <= rows@.len() implies (artifact.starts)(
            #[trigger] rows@.take(n),
        ) by {
            let less = rows@.take(n);
            assert forall|i: int| 0 <= i < less.len() implies record(bytes@, 42, i)
                == kind_record(#[trigger] less[i]) && is_kind_row(less[i]) by {
                assert(less[i] == rows@[i]);
            }
        }
        assert forall|row: ServingKindRow| fault is Some implies !#[trigger] (artifact.starts)(
            rows@.push(row),
        ) by {
            assert(!starts_kinds(bytes@, rows@.push(row)));
        }
    }
    visit_rows(
        &rows,
        fault,
        expected_rows,
        "kind summary artifact row count changed",
        x,
        visitor,
        Ghost(artifact),
    )
}

/// Bytes that are no sorted stream hold no kind rows.
proof fn lemma_unreadable_kinds(bytes: Seq<u8>)
    requires
        !sorted_stream(bytes, 42, 2),
    ensures
        forall|rows: Seq<ServingKindRow>| !#[trigger] reads_kinds(bytes, rows),
{
    assert forall|rows: Seq<ServingKindRow>| !#[trigger] reads_kinds(bytes, rows) by {
        if reads_kinds(bytes, rows) {
            assert(record_count(bytes, 42) == rows.len());
            assert forall|i: int, j: int| 0 <= i < j < rows.len() implies #[trigger] lex_less(
                record_key(bytes, 42, 2, i),
                record_key(bytes, 42, 2, j),
            ) by {
                assert(record(bytes, 42, i) == kind_record(rows[i]));
                assert(record(bytes, 42, j) == kind_record(rows[j]));
                lemma_kind_key_order(rows[i], rows[j]);
            }
            assert(sorted_stream(bytes, 42, 2));
        }
    }
}

/// Reading an encoded kind table gives back its rows.
pub proof fn lemma_kind_artifact_round_trip(
    bytes: Seq<u8>,
    rows: Seq<ServingKindRow>,
    read: Seq<ServingKindRow>,
)
    requires
        encodes_kinds(bytes, rows),
        encodes_kinds(bytes, read),
    ensures
        read == rows,
{
    assert forall|i: int| 0 <= i < rows.len() implies read[i] == rows[i] by {
        assert(record(bytes, 42, i) == kind_record(rows[i]));
        assert(record(bytes, 42, i) == kind_record(read[i]));
        lemma_kind_round_trip(rows[i]);
    }
    assert(read =~= rows);
}

/// Sum of the events of the rows that count all kinds (or one kind each).
pub open spec fn hourly_sum(rows: Seq<ServingHourlyRow>, all_kinds: bool) -> int
    decreases rows.len(),
{
    if rows.len() == 0 {
        0
    } else {
        hourly_sum(rows.drop_last(), all_kinds) + if rows.last().kind is None == all_kinds {
            rows.last().event_count as int
        } else {
            0
        }
    }
}

/// Sums of joined parts are no smaller.
proof fn lemma_hourly_sum_grows(rows: Seq<ServingHourlyRow>, count: int, all_kinds: bool)
    requires
        0 <= count <= rows.len(),
    ensures
        0 <= hourly_sum(rows.take(count), all_kinds) <= hourly_sum(rows, all_kinds),
    decreases rows.len(),
{
    if count == rows.len() {
        assert(rows.take(count) =~= rows);
        if count > 0 {
            lemma_hourly_sum_grows(rows.drop_last(), count - 1, all_kinds);
        }
    } else {
        lemma_hourly_sum_grows(rows.drop_last(), count, all_kinds);
        assert(rows.drop_last().take(count) =~= rows.take(count));
    }
}

/// Sum of the events of the rows that count all kinds (or one kind each).
pub fn sum_hourly(rows: &Vec<ServingHourlyRow>, all_kinds: bool) -> (sum: Result<u64>)
    ensures
        0 <= hourly_sum(rows@, all_kinds),
        hourly_sum(rows@, all_kinds) <= u64::MAX ==> sum == Ok::<u64, Error>(
            hourly_sum(rows@, all_kinds) as u64,
        ),
        hourly_sum(rows@, all_kinds) > u64::MAX ==> sum == Err::<u64, Error>(
            Error::Invalid("hourly count sum overflowed"),
        ),
{
    let mut sum: u64 = 0;
    let mut i: usize = 0;
    proof {
        assert(rows@.take(0) =~= Seq::empty());
        lemma_hourly_sum_grows(rows@, 0, all_kinds);
    }
    while i < rows.len()
        invariant
            i <= rows@.len(),
            sum == hourly_sum(rows@.take(i as int), all_kinds),
        decreases rows.len() - i,
    {
        proof {
            assert(rows@.take(i + 1).drop_last() =~= rows@.take(i as int));
            lemma_hourly_sum_grows(rows@, i + 1, all_kinds);
        }
        if rows[i].kind.is_none() == all_kinds {
            match checked_add(sum, rows[i].event_count, "hourly count sum overflowed") {
                Ok(total) => {
                    sum = total;
                },
                Err(error) => {
                    return Err(error);
                },
            }
        }
        i += 1;
    }
    assert(rows@.take(rows@.len() as int) =~= rows@);
    Ok(sum)
}

/// Sum of the events (or of the content bytes) of the rows.
pub open spec fn kind_sum(rows: Seq<ServingKindRow>, content: bool) -> int
    decreases rows.len(),
{
    if rows.len() == 0 {
        0
    } else {
        kind_sum(rows.drop_last(), content) + if content {
            rows.last().content_bytes as int
        } else {
            rows.last().event_count as int
        }
    }
}

/// Sums of joined parts are no smaller.
proof fn lemma_kind_sum_grows(rows: Seq<ServingKindRow>, count: int, content: bool)
    requires
        0 <= count <= rows.len(),
    ensures
        0 <= kind_sum(rows.take(count), content) <= kind_sum(rows, content),
    decreases rows.len(),
{
    if count == rows.len() {
        assert(rows.take(count) =~= rows);
        if count > 0 {
            lemma_kind_sum_grows(rows.drop_last(), count - 1, content);
        }
    } else {
        lemma_kind_sum_grows(rows.drop_last(), count, content);
        assert(rows.drop_last().take(count) =~= rows.take(count));
    }
}

/// Sum of the events (or of the content bytes) of the rows.
pub fn sum_kinds(rows: &Vec<ServingKindRow>, content: bool) -> (sum: Result<u64>)
    ensures
        0 <= kind_sum(rows@, content),
        kind_sum(rows@, content) <= u64::MAX ==> sum == Ok::<u64, Error>(
            kind_sum(rows@, content) as u64,
        ),
        kind_sum(rows@, content) > u64::MAX ==> sum == Err::<u64, Error>(Error::Invalid("kind sum overflowed")),
{
    let mut sum: u64 = 0;
    let mut i: usize = 0;
    proof {
        assert(rows@.take(0) =~= Seq::empty());
        lemma_kind_sum_grows(rows@, 0, content);
    }
    while i < rows.len()
        invariant
            i <= rows@.len(),
            sum == kind_sum(rows@.take(i as int), content),
        decreases rows.len() - i,
    {
        proof {
            assert(rows@.take(i + 1).drop_last() =~= rows@.take(i as int));
            lemma_kind_sum_grows(rows@, i + 1, content);
        }
        let value: u64 = if content {
            rows[i].content_bytes
        } else {
            rows[i].event_count
        };
        match checked_add(sum, value, "kind sum overflowed") {
            Ok(total) => {
                sum = total;
            },
            Err(error) => {
                return Err(error);
            },
        }
        i += 1;
    }
    assert(rows@.take(rows@.len() as int) =~= rows@);
    Ok(sum)
}

} // verus!
