//! What the tables of new publishers say of the records.
//!
//! A record is 40 bytes: the publisher key in the first 32, and the second of
//! its first event in the last eight.

use vstd::prelude::*;

use crate::activity_build::{has_whole_ids, scanned_activity_record, ScannedActivity};
use crate::calendar::day_text;
use crate::first_seen_build::{scanned_seen_record, ScannedFirstSeen};
use crate::pubkey_first_seen::{
    describes_day, lists_days, new_on, new_users_table, seen_at, served_count, NewUsersDaily,
    SeenBounds,
};
use crate::records::record_count;
use crate::words::{
    cut, lemma_big_endian, lemma_records_are_cut, lemma_written_big_endian, word16, word32, word64,
};

verus! {

/// The first event of the record lies between the bounds, both included.
pub open spec fn appeared(bounds: SeenBounds) -> spec_fn(Seq<u8>) -> bool {
    |record: Seq<u8>| bounds.genesis <= word64(record, 32) && word64(record, 32) <= bounds.as_of
}

/// The first event of the record lies between the bounds and on the day.
pub open spec fn appeared_on(bounds: SeenBounds, day: int) -> spec_fn(Seq<u8>) -> bool {
    |record: Seq<u8>|
        appeared(bounds)(record) && day * 86_400 <= word64(record, 32) < day * 86_400 + 86_400
}

/// Counting among the first records.
proof fn lemma_counts(bytes: Seq<u8>, count: int, bounds: SeenBounds, day: int)
    requires
        0 <= count <= cut(bytes, 40).len(),
    ensures
        served_count(bytes, count, bounds) == cut(bytes, 40).take(count).filter(
            appeared(bounds),
        ).len(),
        new_on(bytes, count, bounds, day) == cut(bytes, 40).take(count).filter(
            appeared_on(bounds, day),
        ).len(),
    decreases count,
{
    reveal(Seq::filter);
    lemma_records_are_cut(bytes, 40);
    let records = cut(bytes, 40);
    if count > 0 {
        lemma_counts(bytes, count - 1, bounds, day);
        assert(records.take(count).drop_last() =~= records.take(count - 1));
        assert(records.take(count).last() == records[count - 1]);
        assert(records[count - 1] == crate::records::record(bytes, 40, count - 1));
        lemma_big_endian(records[count - 1], 32);
        assert(seen_at(bytes, count - 1) == word64(records[count - 1], 32));
    }
}

/// The served publishers are those whose first event lies between the bounds,
/// and the new ones of a day those whose first event lies on it.
pub proof fn lemma_publishers_are_new_once(bytes: Seq<u8>, bounds: SeenBounds, day: int)
    ensures
        served_count(bytes, record_count(bytes, 40), bounds) == cut(bytes, 40).filter(
            appeared(bounds),
        ).len(),
        new_on(bytes, record_count(bytes, 40), bounds, day) == cut(bytes, 40).filter(
            appeared_on(bounds, day),
        ).len(),
{
    lemma_records_are_cut(bytes, 40);
    let records = cut(bytes, 40);
    lemma_counts(bytes, records.len() as int, bounds, day);
    assert(records.take(records.len() as int) =~= records);
}

/// The day of a publisher's first event has a row with the text of the day and
/// the number of publishers that are new on it; no publisher is new on a day
/// without a row.
pub proof fn lemma_first_event_has_its_day(
    rows: Seq<NewUsersDaily>,
    bytes: Seq<u8>,
    bounds: SeenBounds,
    k: int,
    day: u32,
)
    requires
        new_users_table(rows, bytes, bounds),
        0 <= k < cut(bytes, 40).len(),
        appeared_on(bounds, day as int)(cut(bytes, 40)[k]),
    ensures
        exists|r: int|
            0 <= r < rows.len() && day_text(day as int) == Some((#[trigger] rows[r]).day@)
                && rows[r].new_pubkeys == cut(bytes, 40).filter(
                appeared_on(bounds, day as int),
            ).len() && rows[r].new_pubkeys > 0,
{
    let days = choose|days: Seq<u32>| #[trigger] lists_days(rows, days, bytes, bounds);
    lemma_publishers_are_new_once(bytes, bounds, day as int);
    let records = cut(bytes, 40);
    let keep = appeared_on(bounds, day as int);
    assert(records.filter(keep).contains(records[k]));
    assert(days.contains(day));
    let r = choose|r: int| 0 <= r < days.len() && days[r] == day;
    assert(describes_day(rows[r], days[r], bytes, bounds));
}

/// A scanned publisher is written as its key and its first second; a scanned
/// event as its publisher, its second, its kind and its ID.
pub proof fn lemma_scanned_layout(seen: ScannedFirstSeen, event: ScannedActivity)
    requires
        seen.pubkey@.len() == 32,
        event.pubkey@.len() == 32,
        event.id@.len() == 32,
    ensures
        scanned_seen_record(seen).len() == 40,
        scanned_seen_record(seen).subrange(0, 32) == seen.pubkey@,
        word64(scanned_seen_record(seen), 32) == seen.first_seen,
        scanned_activity_record(event).len() == 70,
        scanned_activity_record(event).subrange(0, 32) == event.pubkey@,
        word32(scanned_activity_record(event), 32) == event.created_at,
        word16(scanned_activity_record(event), 36) == event.kind,
        scanned_activity_record(event).subrange(38, 70) == event.id@,
        has_whole_ids(event),
{
    lemma_written_big_endian(seen.first_seen as nat);
    lemma_written_big_endian(event.created_at as nat);
    lemma_written_big_endian(event.kind as nat);
    assert(scanned_seen_record(seen).subrange(0, 32) =~= seen.pubkey@);
    assert(scanned_activity_record(event).subrange(0, 32) =~= event.pubkey@);
    assert(scanned_activity_record(event).subrange(38, 70) =~= event.id@);
}

} // verus!
