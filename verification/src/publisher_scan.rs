//! Scanning the activity stream into the publisher ledger, batch by batch.

use vstd::prelude::*;

use crate::activity::{activity_fact, activity_stream, publisher, ActivityRecord};
use crate::bytes::{bytes_equal, read_32, read_u16, read_u32};
use crate::error::{Error, Result};
use crate::publisher_ledger::{
    all_of, at_boundary, decodes_all, facts_between, lemma_ledgers_join, lists_ledger,
    publisher_rows, PublisherRankingRow,
};
use crate::records::record_count;

verus! {

/// Read one record of the activity stream.
fn read_record(activity: &[u8], index: usize) -> (found: ActivityRecord)
    requires
        index < record_count(activity@, 70),
    ensures
        found.decodes(activity_fact(activity@, index as int)),
{
    let length: usize = activity.len();
    assert(index * 70 + 70 <= length);
    let start: usize = index * 70;
    let entry: &[u8] = vstd::slice::slice_subrange(activity, start, start + 70);
    assert(entry@ =~= activity_fact(activity@, index as int));
    ActivityRecord {
        pubkey: read_32(entry, 0),
        created_at: read_u32(entry, 32),
        kind: read_u16(entry, 36),
    }
}

/// Read the records of the publisher at `at`.
fn read_group(activity: &[u8], at: usize) -> (read: (Vec<ActivityRecord>, usize))
    requires
        at < record_count(activity@, 70),
    ensures
        at < read.1 <= record_count(activity@, 70),
        at_boundary(activity@, read.1 as int),
        decodes_all(read.0@, facts_between(activity@, at as int, read.1 as int)),
        all_of(
            facts_between(activity@, at as int, read.1 as int),
            publisher(activity_fact(activity@, at as int)),
        ),
{
    let total: usize = activity.len() / 70;
    let first: ActivityRecord = read_record(activity, at);
    let ghost pubkey = publisher(activity_fact(activity@, at as int));
    let mut group: Vec<ActivityRecord> = Vec::new();
    group.push(first);
    let mut end: usize = at + 1;
    while end < total
        invariant_except_break
            at < end <= total,
        invariant
            total == record_count(activity@, 70),
            at < end <= total,
            group@.len() == end - at,
            first.pubkey@ == pubkey,
            forall|i: int|
                0 <= i < group@.len() ==> (#[trigger] group@[i]).decodes(
                    activity_fact(activity@, at + i),
                ) && group@[i].pubkey@ == pubkey,
        ensures
            end == total || publisher(activity_fact(activity@, end as int)) != pubkey,
        decreases total - end,
    {
        let found: ActivityRecord = read_record(activity, end);
        if !bytes_equal(found.pubkey.as_slice(), first.pubkey.as_slice()) {
            break ;
        }
        group.push(found);
        end += 1;
    }
    proof {
        let facts = facts_between(activity@, at as int, end as int);
        assert forall|i: int| 0 <= i < facts.len() implies publisher(#[trigger] facts[i]) == pubkey by {
            assert(group@[i].decodes(activity_fact(activity@, at + i)));
        }
        if end < total {
            assert(publisher(facts[end - 1 - at]) == pubkey);
        }
    }
    (group, end)
}

/// Windows that a build can serve: their lengths strictly increase, and none
/// starts before the epoch.
pub open spec fn windows_fit(windows: Seq<u32>, as_of: int) -> bool {
    &&& forall|i: int| 0 <= i < windows.len() ==> (#[trigger] windows[i]) * 86_400 <= as_of
    &&& forall|i: int, j: int| 0 <= i < j < windows.len() ==> windows[i] < windows[j]
}

/// Publishers that start between two records.
pub open spec fn groups_between(bytes: Seq<u8>, from: int, to: int) -> int
    decreases to - from,
{
    if to <= from {
        0
    } else {
        groups_between(bytes, from, to - 1) + if to - 1 == from || publisher(
            activity_fact(bytes, to - 2),
        ) != publisher(activity_fact(bytes, to - 1)) {
            1int
        } else {
            0int
        }
    }
}

/// A group is one publisher more.
proof fn lemma_one_group(bytes: Seq<u8>, from: int, at: int, end: int)
    requires
        0 <= from <= at < end,
        at == from || publisher(activity_fact(bytes, at - 1)) != publisher(
            activity_fact(bytes, at),
        ),
        forall|i: int|
            at <= i < end ==> publisher(#[trigger] activity_fact(bytes, i)) == publisher(
                activity_fact(bytes, at),
            ),
    ensures
        groups_between(bytes, from, end) == groups_between(bytes, from, at) + 1,
    decreases end - at,
{
    if end > at + 1 {
        lemma_one_group(bytes, from, at, end - 1);
        assert(publisher(activity_fact(bytes, end - 1)) == publisher(activity_fact(bytes, end - 2)));
    }
}

/// The largest number of kinds of a row, zero where there is no row.
pub open spec fn largest_kinds(rows: Seq<PublisherRankingRow>) -> u64
    decreases rows.len(),
{
    if rows.len() == 0 {
        0
    } else {
        let earlier = largest_kinds(rows.drop_last());
        if rows.last().kinds_count > earlier {
            rows.last().kinds_count
        } else {
            earlier
        }
    }
}

/// The largest number of kinds of a row.
pub fn max_kinds(rows: &Vec<PublisherRankingRow>) -> (count: u64)
    ensures
        count == largest_kinds(rows@),
{
    let mut largest: u64 = 0;
    let mut i: usize = 0;
    assert(rows@.take(0) =~= Seq::empty());
    while i < rows.len()
        invariant
            i <= rows@.len(),
            largest == largest_kinds(rows@.take(i as int)),
        decreases rows.len() - i,
    {
        assert(rows@.take(i + 1).drop_last() =~= rows@.take(i as int));
        if rows[i].kinds_count > largest {
            largest = rows[i].kinds_count;
        }
        i += 1;
    }
    assert(rows@.take(rows@.len() as int) =~= rows@);
    largest
}

/// Ledger rows of the next publishers, and where the scan goes on.
pub struct LedgerBatch {
    /// Rows of the publishers.
    pub rows: Vec<PublisherRankingRow>,
    /// Records scanned so far.
    pub source_records: usize,
    /// Largest number of kinds of one publisher of the batch.
    pub max_kinds: u64,
}

/// The scan can go on at `from`.
pub open spec fn can_scan(
    activity: Seq<u8>,
    from: int,
    windows: Seq<u32>,
    as_of: int,
) -> bool {
    &&& activity.len() as int % 70 == 0
    &&& from <= record_count(activity, 70)
    &&& at_boundary(activity, from)
    &&& windows_fit(windows, as_of)
}

/// Whether the windows can be served.
fn check_windows(windows: &Vec<u32>, as_of: u64) -> (outcome: Result<()>)
    ensures
        outcome is Ok <==> windows_fit(windows@, as_of as int),
        outcome is Err ==> outcome->Err_0 is Invalid,
{
    let mut i: usize = 0;
    while i < windows.len()
        invariant
            i <= windows@.len(),
            forall|j: int| 0 <= j < i ==> (#[trigger] windows@[j]) * 86_400 <= as_of,
            forall|j: int, k: int| 0 <= j < k < i ==> windows@[j] < windows@[k],
        decreases windows.len() - i,
    {
        if windows[i] as u64 * 86_400 > as_of {
            assert(windows@[i as int] * 86_400 > as_of);
            return Err(Error::Invalid("publisher window underflowed"));
        }
        if i > 0 && windows[i - 1] >= windows[i] {
            assert(!(windows@[i - 1] < windows@[i as int]));
            return Err(Error::Invalid("publisher windows do not increase"));
        }
        i += 1;
    }
    Ok(())
}

/// `rows` is the ledger of up to `publishers` publishers from record `from` on,
/// and the scan goes on at `next`.
pub open spec fn scans_batch(
    activity: Seq<u8>,
    from: int,
    publishers: int,
    windows: Seq<u32>,
    as_of: int,
    rows: Seq<PublisherRankingRow>,
    next: int,
) -> bool {
    &&& from <= next <= record_count(activity, 70)
    &&& at_boundary(activity, next)
    &&& groups_between(activity, from, next) <= publishers
    &&& next < record_count(activity, 70) ==> groups_between(activity, from, next) == publishers
    &&& activity_stream(activity) ==> lists_ledger(
        rows,
        facts_between(activity, from, next),
        windows,
        as_of,
    )
}

/// Scan up to `publishers` publishers from record `from` on.
///
/// In a sorted stream the rows are the ledger of the scanned records; the
/// ledgers of consecutive batches join to the ledger of all.
pub fn scan_publishers(
    activity: &[u8],
    from: usize,
    publishers: usize,
    windows: &Vec<u32>,
    as_of: u64,
) -> (outcome: Result<LedgerBatch>)
    ensures
        outcome is Ok <==> can_scan(activity@, from as int, windows@, as_of as int),
        match outcome {
            Ok(batch) => scans_batch(
                activity@,
                from as int,
                publishers as int,
                windows@,
                as_of as int,
                batch.rows@,
                batch.source_records as int,
            ) && batch.max_kinds == largest_kinds(batch.rows@),
            Err(error) => error is Invalid,
        },
{
    let ghost bytes = activity@;
    let ghost end = as_of as int;
    if activity.len() % 70 != 0 {
        return Err(Error::Invalid("publisher fixed-width artifact is truncated"));
    }
    let total: usize = activity.len() / 70;
    if from > total {
        return Err(
            Error::Invalid("publisher source progress exceeds its immutable activity artifact"),
        );
    }
    if from > 0 && from < total {
        let before: ActivityRecord = read_record(activity, from - 1);
        let after: ActivityRecord = read_record(activity, from);
        if bytes_equal(before.pubkey.as_slice(), after.pubkey.as_slice()) {
            return Err(Error::Invalid("publisher source progress splits a publisher"));
        }
    }
    match check_windows(windows, as_of) {
        Ok(()) => {},
        Err(error) => {
            return Err(error);
        },
    }
    let mut rows: Vec<PublisherRankingRow> = Vec::new();
    let mut at: usize = from;
    let mut done: usize = 0;
    proof {
        assert(facts_between(bytes, from as int, from as int) =~= Seq::empty());
        lemma_empty_ledger(windows@, end);
    }
    while done < publishers && at < total
        invariant
            bytes == activity@,
            end == as_of,
            total == record_count(bytes, 70),
            bytes.len() as int % 70 == 0,
            windows_fit(windows@, end),
            from <= at <= total,
            at_boundary(bytes, at as int),
            at_boundary(bytes, from as int),
            done <= publishers,
            groups_between(bytes, from as int, at as int) == done,
            activity_stream(bytes) ==> lists_ledger(
                rows@,
                facts_between(bytes, from as int, at as int),
                windows@,
                end,
            ),
        decreases total - at,
    {
        let (group, next) = read_group(activity, at);
        let ghost facts = facts_between(bytes, at as int, next as int);
        proof {
            assert(facts[0] == activity_fact(bytes, at as int));
        }
        let mut more: Vec<PublisherRankingRow> = publisher_rows(
            &group,
            windows,
            as_of,
            Ghost(facts),
        );
        proof {
            if activity_stream(bytes) {
                lemma_ledgers_join(
                    bytes,
                    from as int,
                    at as int,
                    next as int,
                    rows@,
                    more@,
                    windows@,
                    end,
                );
            }
            assert forall|i: int| at <= i < next implies publisher(
                #[trigger] activity_fact(bytes, i),
            ) == publisher(activity_fact(bytes, at as int)) by {
                assert(publisher(facts[i - at]) == publisher(activity_fact(bytes, at as int)));
            }
            lemma_one_group(bytes, from as int, at as int, next as int);
        }
        rows.append(&mut more);
        at = next;
        done = done + 1;
    }
    let kinds: u64 = max_kinds(&rows);
    Ok(LedgerBatch { rows, source_records: at, max_kinds: kinds })
}

/// No event, no row.
pub(crate) proof fn lemma_empty_ledger(windows: Seq<u32>, as_of: int)
    ensures
        lists_ledger(Seq::empty(), Seq::empty(), windows, as_of),
{
}

} // verus!
