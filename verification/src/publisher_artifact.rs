//! The canonical artifact of publisher rankings.

use vstd::prelude::*;
use vstd::string::*;

use crate::artifact::EncodedRun;
use crate::bytes::{
    be_bytes, be_nat, lemma_be_bytes_round_trip, lemma_be_limits, lemma_be_nat_round_trip, push_be,
    push_bytes, read_32, read_u32, read_u64,
};
use crate::digest::{encode_hex, hex_text};
use crate::error::{Error, Result};
use crate::publisher_ledger::PublisherRankingRow;
use crate::publisher_rank::{ranking_before, ranking_precedes, strictly_ranked};
use crate::records::{record, record_count};
use crate::text_map::{lemma_text_order, text_before, text_less};
use crate::visits::{visit_of, visit_rows, visits_rows, Rows};

verus! {

/// Fixed bytes in one canonical ranking row.
pub const PUBLISHER_RANKING_RECORD_BYTES: usize = 64;

/// The code of a kind; all kinds have the one after the last.
pub open spec fn kind_code(kind: Option<u16>) -> nat {
    match kind {
        None => 65_536,
        Some(kind) => kind as nat,
    }
}

/// The encoding of a row.
pub open spec fn ranking_record(row: PublisherRankingRow) -> Seq<u8> {
    be_bytes(row.days as nat, 4) + be_bytes(kind_code(row.kind), 4) + row.pubkey@ + be_bytes(
        row.event_count as nat,
        8,
    ) + be_bytes(row.kinds_count as nat, 8) + be_bytes(row.first_event as nat, 4) + be_bytes(
        row.last_event as nat,
        4,
    )
}

/// Encode one row.
pub fn encode_ranking(row: &PublisherRankingRow) -> (bytes: Vec<u8>)
    ensures
        bytes@ == ranking_record(*row),
        bytes@.len() == 64,
{
    let code: u64 = match row.kind {
        None => 65_536,
        Some(kind) => kind as u64,
    };
    let mut bytes: Vec<u8> = Vec::new();
    push_be(&mut bytes, row.days as u64, 4);
    push_be(&mut bytes, code, 4);
    push_bytes(&mut bytes, row.pubkey.as_slice());
    push_be(&mut bytes, row.event_count, 8);
    push_be(&mut bytes, row.kinds_count, 8);
    push_be(&mut bytes, row.first_event as u64, 4);
    push_be(&mut bytes, row.last_event as u64, 4);
    proof {
        assert(bytes@ =~= ranking_record(*row));
        lemma_record_len(*row);
    }
    bytes
}

/// An encoded row has 64 bytes, and its fields stand where they are read.
proof fn lemma_record_len(row: PublisherRankingRow)
    ensures
        ranking_record(row).len() == 64,
        be_nat(ranking_record(row).subrange(0, 4)) == row.days,
        be_nat(ranking_record(row).subrange(4, 8)) == kind_code(row.kind),
        ranking_record(row).subrange(8, 40) == row.pubkey@,
        be_nat(ranking_record(row).subrange(40, 48)) == row.event_count,
        be_nat(ranking_record(row).subrange(48, 56)) == row.kinds_count,
        be_nat(ranking_record(row).subrange(56, 60)) == row.first_event,
        be_nat(ranking_record(row).subrange(60, 64)) == row.last_event,
{
    lemma_be_limits();
    lemma_be_bytes_round_trip(row.days as nat, 4);
    lemma_be_bytes_round_trip(kind_code(row.kind), 4);
    lemma_be_bytes_round_trip(row.event_count as nat, 8);
    lemma_be_bytes_round_trip(row.kinds_count as nat, 8);
    lemma_be_bytes_round_trip(row.first_event as nat, 4);
    lemma_be_bytes_round_trip(row.last_event as nat, 4);
    let bytes = ranking_record(row);
    assert(bytes.subrange(0, 4) =~= be_bytes(row.days as nat, 4));
    assert(bytes.subrange(4, 8) =~= be_bytes(kind_code(row.kind), 4));
    assert(bytes.subrange(8, 40) =~= row.pubkey@);
    assert(bytes.subrange(40, 48) =~= be_bytes(row.event_count as nat, 8));
    assert(bytes.subrange(48, 56) =~= be_bytes(row.kinds_count as nat, 8));
    assert(bytes.subrange(56, 60) =~= be_bytes(row.first_event as nat, 4));
    assert(bytes.subrange(60, 64) =~= be_bytes(row.last_event as nat, 4));
}

/// The rows hold the same values.
pub open spec fn same_row(a: PublisherRankingRow, b: PublisherRankingRow) -> bool {
    &&& a.days == b.days
    &&& a.kind == b.kind
    &&& a.pubkey@ == b.pubkey@
    &&& a.event_count == b.event_count
    &&& a.kinds_count == b.kinds_count
    &&& a.first_event == b.first_event
    &&& a.last_event == b.last_event
}

/// Whether the rows hold the same values.
pub fn rows_equal(a: &PublisherRankingRow, b: &PublisherRankingRow) -> (same: bool)
    ensures
        same == same_row(*a, *b),
{
    a.days == b.days && a.kind == b.kind && crate::bytes::bytes_equal(
        a.pubkey.as_slice(),
        b.pubkey.as_slice(),
    ) && a.event_count == b.event_count && a.kinds_count == b.kinds_count && a.first_event
        == b.first_event && a.last_event == b.last_event
}

/// Rows with the same encoding hold the same values.
pub proof fn lemma_encoding_unique(a: PublisherRankingRow, b: PublisherRankingRow)
    requires
        ranking_record(a) == ranking_record(b),
    ensures
        same_row(a, b),
{
    lemma_record_len(a);
    lemma_record_len(b);
}

/// Decode one row; refused where its kind is out of range.
pub fn decode_ranking(bytes: &[u8]) -> (outcome: Result<PublisherRankingRow>)
    requires
        bytes@.len() == 64,
    ensures
        outcome is Ok <==> be_nat(bytes@.subrange(4, 8)) <= 65_536,
        match outcome {
            Ok(row) => ranking_record(row) == bytes@,
            Err(error) => error == Error::Invalid("publisher artifact kind is invalid"),
        },
{
    let days: u32 = read_u32(bytes, 0);
    let code: u32 = read_u32(bytes, 4);
    if code > 65_536 {
        return Err(Error::Invalid("publisher artifact kind is invalid"));
    }
    let kind: Option<u16> = if code == 65_536 {
        None
    } else {
        Some(code as u16)
    };
    let row: PublisherRankingRow = PublisherRankingRow {
        days,
        kind,
        pubkey: read_32(bytes, 8),
        event_count: read_u64(bytes, 40),
        kinds_count: read_u64(bytes, 48),
        first_event: read_u32(bytes, 56),
        last_event: read_u32(bytes, 60),
    };
    proof {
        lemma_be_nat_round_trip(bytes@.subrange(0, 4));
        lemma_be_nat_round_trip(bytes@.subrange(4, 8));
        lemma_be_nat_round_trip(bytes@.subrange(40, 48));
        lemma_be_nat_round_trip(bytes@.subrange(48, 56));
        lemma_be_nat_round_trip(bytes@.subrange(56, 60));
        lemma_be_nat_round_trip(bytes@.subrange(60, 64));
        assert(ranking_record(row) =~= bytes@);
    }
    Ok(row)
}

/// The metrics of a row are possible ones.
pub open spec fn metrics_valid(row: PublisherRankingRow) -> bool {
    row.event_count > 0 && row.kinds_count > 0 && row.first_event <= row.last_event
}

/// The bytes are the encodings of the rows, one behind the other.
pub open spec fn encodes_rows(bytes: Seq<u8>, rows: Seq<PublisherRankingRow>) -> bool {
    &&& bytes.len() == rows.len() * 64
    &&& forall|i: int|
        0 <= i < rows.len() ==> #[trigger] record(bytes, 64, i) == ranking_record(rows[i])
}

/// The artifact holds the rows: valid metrics, in canonical order.
pub open spec fn holds_ranking(bytes: Seq<u8>, rows: Seq<PublisherRankingRow>) -> bool {
    &&& encodes_rows(bytes, rows)
    &&& forall|i: int| 0 <= i < rows.len() ==> metrics_valid(#[trigger] rows[i])
    &&& strictly_ranked(rows)
}

/// The artifact holds `count` rows.
pub open spec fn ranking_artifact(bytes: Seq<u8>, count: int) -> bool {
    exists|rows: Seq<PublisherRankingRow>| #[trigger]
        holds_ranking(bytes, rows) && rows.len() == count
}

/// The artifact begins with the encodings of valid rows, in canonical order.
pub open spec fn starts_ranking(bytes: Seq<u8>, rows: Seq<PublisherRankingRow>) -> bool {
    &&& 64 * rows.len() <= bytes.len()
    &&& forall|i: int|
        0 <= i < rows.len() ==> record(bytes, 64, i) == ranking_record(#[trigger] rows[i])
            && metrics_valid(rows[i])
    &&& strictly_ranked(rows)
}

/// Read the rows that a ranking artifact begins with, and what is wrong behind
/// them.
fn first_ranking(bytes: &[u8]) -> (found: (Vec<PublisherRankingRow>, Option<Error>))
    ensures
        starts_ranking(bytes@, found.0@),
        match found.1 {
            None => bytes@.len() == 64 * found.0@.len(),
            Some(error) => {
                &&& error is Invalid
                &&& bytes@.len() != 64 * found.0@.len()
                &&& forall|row: PublisherRankingRow|
                    !#[trigger] starts_ranking(bytes@, found.0@.push(row))
                &&& forall|rows: Seq<PublisherRankingRow>| !#[trigger] holds_ranking(bytes@, rows)
            },
        },
{
    let count: usize = bytes.len() / 64;
    let mut rows: Vec<PublisherRankingRow> = Vec::new();
    let mut i: usize = 0;
    while i < count
        invariant
            i <= count,
            count == record_count(bytes@, 64),
            count * 64 <= bytes@.len(),
            bytes@.len() <= usize::MAX,
            rows@.len() == i,
            starts_ranking(bytes@, rows@),
        decreases count - i,
    {
        let entry: &[u8] = vstd::slice::slice_subrange(bytes, i * 64, i * 64 + 64);
        proof {
            assert(entry@ =~= record(bytes@, 64, i as int));
        }
        let row: PublisherRankingRow = match decode_ranking(entry) {
            Ok(row) => row,
            Err(error) => {
                proof {
                    assert forall|other: Seq<PublisherRankingRow>| !#[trigger] holds_ranking(
                        bytes@,
                        other,
                    ) by {
                        if holds_ranking(bytes@, other) {
                            assert(record(bytes@, 64, i as int) == ranking_record(other[i as int]));
                            lemma_record_len(other[i as int]);
                        }
                    }
                    assert forall|row: PublisherRankingRow|
                        !#[trigger] starts_ranking(bytes@, rows@.push(row)) by {
                        let more = rows@.push(row);
                        if starts_ranking(bytes@, more) {
                            assert(more[i as int] == row);
                            lemma_record_len(row);
                        }
                    }
                }
                return (rows, Some(error));
            },
        };
        if row.event_count == 0 || row.kinds_count == 0 || row.first_event > row.last_event {
            proof {
                lemma_rows_given(bytes@, rows@, row, i as int);
            }
            return (
                rows,
                Some(Error::Invalid("publisher ranking artifact contains invalid metrics")),
            );
        }
        if i > 0 && !ranking_precedes(&rows[i - 1], &row) {
            proof {
                lemma_rows_given(bytes@, rows@, row, i as int);
            }
            return (
                rows,
                Some(Error::Invalid("publisher ranking artifact is not canonically ordered")),
            );
        }
        let ghost before = rows@;
        rows.push(row);
        proof {
            assert forall|j: int| 0 <= j < rows@.len() implies record(bytes@, 64, j)
                == ranking_record(#[trigger] rows@[j]) && metrics_valid(rows@[j]) by {
                if j < i {
                    assert(rows@[j] == before[j]);
                }
            }
            assert forall|x: int, y: int| 0 <= x < y < rows@.len() implies #[trigger] ranking_before(
                rows@[x],
                rows@[y],
            ) by {
                if y < before.len() {
                    assert(ranking_before(before[x], before[y]));
                } else if x < i - 1 {
                    assert(ranking_before(before[x], before[i - 1]));
                    crate::publisher_rank::lemma_ranking_order(before[x], before[i - 1], row);
                }
            }
        }
        i += 1;
    }
    if bytes.len() % 64 != 0 {
        return (rows, Some(Error::Invalid("publisher fixed-width artifact is truncated")));
    }
    (rows, None)
}

/// Read the rows of a ranking artifact in canonical order.
pub fn read_ranking_artifact(bytes: &[u8], expected_rows: u64) -> (outcome: Result<
    Vec<PublisherRankingRow>,
>)
    ensures
        outcome is Ok <==> ranking_artifact(bytes@, expected_rows as int),
        match outcome {
            Ok(rows) => holds_ranking(bytes@, rows@) && rows@.len() == expected_rows,
            Err(error) => error is Invalid,
        },
{
    let (rows, fault) = first_ranking(bytes);
    if let Some(error) = fault {
        return Err(error);
    }
    if rows.len() as u64 != expected_rows {
        return Err(Error::Invalid("publisher ranking artifact row count changed"));
    }
    proof {
        assert forall|i: int| 0 <= i < rows@.len() implies #[trigger] record(bytes@, 64, i)
            == ranking_record(rows@[i]) by {
            assert(metrics_valid(rows@[i]));
        }
        assert(holds_ranking(bytes@, rows@));
    }
    Ok(rows)
}

/// The rows of a ranking artifact.
pub open spec fn held_ranking(bytes: Seq<u8>, count: int) -> Rows<PublisherRankingRow> {
    Rows {
        starts: |rows: Seq<PublisherRankingRow>| starts_ranking(bytes, rows),
        ends: |rows: Seq<PublisherRankingRow>| bytes.len() == 64 * rows.len(),
        count,
    }
}

/// Visit the rows of a ranking artifact in canonical order.
pub fn visit_ranking_artifact<X, V: Fn(X, PublisherRankingRow) -> (X, Result<()>)>(
    bytes: &[u8],
    expected_rows: u64,
    x: X,
    visitor: &V,
) -> (made: (X, Result<()>))
    requires
        forall|x: X, row: PublisherRankingRow| #[trigger] call_requires(*visitor, (x, row)),
    ensures
        exists|rows: Seq<PublisherRankingRow>, states: Seq<X>|
            visits_rows(
                visit_of(*visitor),
                x,
                held_ranking(bytes@, expected_rows as int),
                rows,
                states,
                made,
            ),
{
    let (rows, fault) = first_ranking(bytes);
    let ghost artifact = held_ranking(bytes@, expected_rows as int);
    proof {
        assert forall|n: int| 0 <= n <= rows@.len() implies (artifact.starts)(
            #[trigger] rows@.take(n),
        ) by {
            let less = rows@.take(n);
            assert forall|i: int| 0 <= i < less.len() implies record(bytes@, 64, i)
                == ranking_record(#[trigger] less[i]) && metrics_valid(less[i]) by {
                assert(less[i] == rows@[i]);
            }
            assert forall|i: int, j: int| 0 <= i < j < less.len() implies #[trigger] ranking_before(
                less[i],
                less[j],
            ) by {
                assert(ranking_before(rows@[i], rows@[j]));
            }
        }
        assert forall|row: PublisherRankingRow| fault is Some implies !#[trigger] (
        artifact.starts)(rows@.push(row)) by {
            assert(!starts_ranking(bytes@, rows@.push(row)));
        }
    }
    visit_rows(
        &rows,
        fault,
        expected_rows,
        "publisher ranking artifact row count changed",
        x,
        visitor,
        Ghost(artifact),
    )
}

/// No rows that the artifact holds or begins with have this row at `i`.
proof fn lemma_rows_given(
    bytes: Seq<u8>,
    rows: Seq<PublisherRankingRow>,
    row: PublisherRankingRow,
    i: int,
)
    requires
        0 <= i < record_count(bytes, 64),
        rows.len() == i,
        forall|j: int|
            0 <= j < i ==> record(bytes, 64, j) == ranking_record(#[trigger] rows[j]),
        record(bytes, 64, i) == ranking_record(row),
        !metrics_valid(row) || (i > 0 && !ranking_before(rows[i - 1], row)),
    ensures
        forall|other: Seq<PublisherRankingRow>| !#[trigger] holds_ranking(bytes, other),
        forall|other: PublisherRankingRow| !#[trigger] starts_ranking(bytes, rows.push(other)),
{
    assert forall|other: Seq<PublisherRankingRow>| !#[trigger] holds_ranking(bytes, other) by {
        if holds_ranking(bytes, other) {
            assert(record(bytes, 64, i) == ranking_record(other[i]));
            lemma_encoding_unique(other[i], row);
            assert(metrics_valid(other[i]));
            if i > 0 {
                assert(record(bytes, 64, i - 1) == ranking_record(other[i - 1]));
                assert(record(bytes, 64, i - 1) == ranking_record(rows[i - 1]));
                lemma_encoding_unique(other[i - 1], rows[i - 1]);
                assert(ranking_before(other[i - 1], other[i]));
            }
        }
    }
    assert forall|other: PublisherRankingRow|
        !#[trigger] starts_ranking(bytes, rows.push(other)) by {
        let more = rows.push(other);
        if starts_ranking(bytes, more) {
            assert(more[i] == other);
            lemma_encoding_unique(other, row);
            assert(metrics_valid(more[i]));
            if i > 0 {
                assert(more[i - 1] == rows[i - 1]);
                assert(ranking_before(more[i - 1], more[i]));
            }
        }
    }
}

/// The key of a row: its first 40 bytes in hexadecimal.
pub open spec fn ranking_key(row: PublisherRankingRow) -> Seq<char> {
    hex_text(ranking_record(row).take(40))
}

/// The key is that of a row, and no row has a smaller (or larger) one.
pub open spec fn extreme_key(
    key: Option<String>,
    rows: Seq<PublisherRankingRow>,
    largest: bool,
) -> bool {
    match key {
        None => rows.len() == 0,
        Some(text) => {
            &&& exists|i: int| 0 <= i < rows.len() && ranking_key(#[trigger] rows[i]) == text@
            &&& forall|i: int|
                0 <= i < rows.len() ==> if largest {
                    !text_less(text@, ranking_key(#[trigger] rows[i]))
                } else {
                    !text_less(ranking_key(rows[i]), text@)
                }
        },
    }
}

/// Encode ranking rows with their smallest and largest key.
pub fn encode_rankings(rows: &Vec<PublisherRankingRow>) -> (run: EncodedRun)
    ensures
        run.rows == rows@.len(),
        encodes_rows(run.bytes@, rows@),
        extreme_key(run.min_key, rows@, false),
        extreme_key(run.max_key, rows@, true),
{
    let mut bytes: Vec<u8> = Vec::new();
    let mut min_key: Option<String> = None;
    let mut max_key: Option<String> = None;
    let mut i: usize = 0;
    assert(rows@.take(0) =~= Seq::empty());
    while i < rows.len()
        invariant
            i <= rows@.len(),
            bytes@.len() == i * 64,
            forall|j: int|
                0 <= j < i ==> #[trigger] record(bytes@, 64, j) == ranking_record(rows@[j]),
            extreme_key(min_key, rows@.take(i as int), false),
            extreme_key(max_key, rows@.take(i as int), true),
        decreases rows.len() - i,
    {
        let entry: Vec<u8> = encode_ranking(&rows[i]);
        let key: String = encode_hex(vstd::slice::slice_subrange(entry.as_slice(), 0, 40));
        let ghost before = bytes@;
        let ghost less = rows@.take(i as int);
        let ghost more = rows@.take(i + 1);
        proof {
            assert(entry@.subrange(0, 40) =~= entry@.take(40));
            assert(key@ == ranking_key(rows@[i as int]));
            assert(more =~= less.push(rows@[i as int]));
        }
        let smaller: bool = match &min_key {
            None => true,
            Some(minimum) => text_before(key.as_str(), minimum.as_str()),
        };
        let larger: bool = match &max_key {
            None => true,
            Some(maximum) => text_before(maximum.as_str(), key.as_str()),
        };
        proof {
            lemma_extreme_step(min_key, less, rows@[i as int], false);
            lemma_extreme_step(max_key, less, rows@[i as int], true);
        }
        if smaller {
            min_key = Some(key.clone());
        }
        if larger {
            max_key = Some(key);
        }
        push_bytes(&mut bytes, entry.as_slice());
        proof {
            let after = bytes@;
            assert forall|j: int| 0 <= j < i + 1 implies #[trigger] record(after, 64, j)
                == ranking_record(rows@[j]) by {
                if j < i {
                    assert(record(after, 64, j) =~= record(before, 64, j));
                } else {
                    assert(record(after, 64, j) =~= entry@);
                }
            }
        }
        i += 1;
    }
    assert(rows@.take(rows@.len() as int) =~= rows@);
    let rows_count: u64 = rows.len() as u64;
    EncodedRun { bytes, rows: rows_count, min_key, max_key }
}

/// One more row keeps the extreme key or becomes it.
proof fn lemma_extreme_step(
    key: Option<String>,
    rows: Seq<PublisherRankingRow>,
    row: PublisherRankingRow,
    largest: bool,
)
    requires
        extreme_key(key, rows, largest),
    ensures
        ({
            let replaces = key is None || if largest {
                text_less(key->0@, ranking_key(row))
            } else {
                text_less(ranking_key(row), key->0@)
            };
            &&& !replaces ==> extreme_key(key, rows.push(row), largest)
            &&& replaces ==> forall|text: String|
                #![trigger text@]
                text@ == ranking_key(row) ==> extreme_key(Some(text), rows.push(row), largest)
        }),
{
    let more = rows.push(row);
    let replaces = key is None || if largest {
        text_less(key->0@, ranking_key(row))
    } else {
        text_less(ranking_key(row), key->0@)
    };
    assert(more[rows.len() as int] == row);
    assert forall|i: int| 0 <= i < rows.len() implies #[trigger] more[i] == rows[i] by {}
    if !replaces {
        let text = key->0;
        let i = choose|i: int| 0 <= i < rows.len() && ranking_key(#[trigger] rows[i]) == text@;
        assert(ranking_key(more[i]) == text@);
        assert forall|i: int| 0 <= i < more.len() implies if largest {
            !text_less(text@, ranking_key(#[trigger] more[i]))
        } else {
            !text_less(ranking_key(more[i]), text@)
        } by {
            if i < rows.len() {
                assert(more[i] == rows[i]);
            }
        }
    } else {
        assert forall|text: String|
            #![trigger text@]
            text@ == ranking_key(row) implies extreme_key(Some(text), more, largest) by {
            assert(ranking_key(more[rows.len() as int]) == text@);
            assert forall|i: int| 0 <= i < more.len() implies if largest {
                !text_less(text@, ranking_key(#[trigger] more[i]))
            } else {
                !text_less(ranking_key(more[i]), text@)
            } by {
                let other = ranking_key(more[i]);
                lemma_text_order(text@, other);
                if i < rows.len() {
                    assert(more[i] == rows[i]);
                    assert(other == ranking_key(rows[i]));
                    let best = key->0@;
                    lemma_text_order(best, other);
                    if largest && text_less(text@, other) {
                        crate::bytes::lemma_lex_transitive(
                            vstd::utf8::encode_utf8(best),
                            vstd::utf8::encode_utf8(text@),
                            vstd::utf8::encode_utf8(other),
                        );
                    }
                    if !largest && text_less(other, text@) {
                        crate::bytes::lemma_lex_transitive(
                            vstd::utf8::encode_utf8(other),
                            vstd::utf8::encode_utf8(text@),
                            vstd::utf8::encode_utf8(best),
                        );
                    }
                }
            }
        }
    }
}

/// Reading an encoded ranking gives its rows back.
pub proof fn lemma_ranking_round_trip(
    bytes: Seq<u8>,
    rows: Seq<PublisherRankingRow>,
    others: Seq<PublisherRankingRow>,
)
    requires
        holds_ranking(bytes, rows),
        holds_ranking(bytes, others),
    ensures
        rows.len() == others.len(),
        forall|i: int| 0 <= i < rows.len() ==> same_row(#[trigger] rows[i], others[i]),
{
    assert forall|i: int| 0 <= i < rows.len() implies same_row(#[trigger] rows[i], others[i]) by {
        assert(record(bytes, 64, i) == ranking_record(rows[i]));
        assert(record(bytes, 64, i) == ranking_record(others[i]));
        lemma_encoding_unique(rows[i], others[i]);
    }
}

} // verus!
