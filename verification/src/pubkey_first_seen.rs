//! Exact first-seen state of publishers and the daily new users it gives.
//!
//! A record is a publisher key and the second of its first eligible event. The
//! records are sorted by key, and every publisher has one.

use std::collections::BTreeMap;
use vstd::prelude::*;
use vstd::string::*;

use crate::activity_tables::lemma_increasing_unique;
use crate::artifact::ArtifactIdentity;
use crate::bytes::{be_nat, read_u64};
use crate::calendar::{day_string, day_text};
use crate::digest::{sha256_hex, sha256_text};
use crate::error::{Error, Result};
use crate::fixed_activity::{metric_digest, metric_sha256};
use crate::ordered::{list, lists_map, store, value_or};
use crate::records::{record, record_count, sorted_stream, RecordReader, StreamFault};
use crate::text::text_equal;

verus! {

/// Publisher key bytes in every first-seen record.
pub const PUBKEY_FIRST_SEEN_KEY_BYTES: usize = 32;

/// Publisher key plus big-endian first-seen timestamp.
pub const PUBKEY_FIRST_SEEN_BYTES: usize = 40;

/// Semantic product version.
pub const PUBKEY_FIRST_SEEN_VERSION: &'static str = "pubkey-first-seen-v1";

/// Runner identity.
pub const RUNNER_VERSION: &'static str = "pensieve-analytics-pubkey-first-seen-v1";

/// One finalized daily new-user row.
#[derive(Clone, Debug, PartialEq, Eq)]
pub struct NewUsersDaily {
    /// ISO 8601 UTC date.
    pub day: String,
    /// Eligible publishers first seen on this date.
    pub new_pubkeys: u64,
}

/// Immutable completion evidence for one first-seen build.
#[derive(Clone, Debug, PartialEq, Eq)]
pub struct PubkeyFirstSeenEvidence {
    /// Evidence schema version.
    pub schema_version: u32,
    /// Runner identity.
    pub runner_version: String,
    /// Completion status.
    pub status: String,
    /// Frozen catalog identity.
    pub snapshot_id: String,
    /// Fixed upper time boundary.
    pub as_of_epoch: u64,
    /// Catalog objects scanned.
    pub object_count: u64,
    /// Immutable batch count.
    pub batch_count: u64,
    /// Immutable merge count.
    pub merge_count: u64,
    /// Catalog rows covered by the scan.
    pub physical_rows: u64,
    /// Prior immutable evidence consumed by an incremental successor.
    pub baseline_evidence_sha256: Option<String>,
    /// New catalog objects scanned for this generation.
    pub delta_object_count: u64,
    /// Unique publishers across all eligible event kinds, before date filtering.
    pub first_seen_records: u64,
    /// Publishers whose first second is within the served dates.
    pub eligible_pubkeys: u64,
    /// Daily serving rows.
    pub new_users_daily: Vec<NewUsersDaily>,
    /// SHA-256 of canonical daily serving bytes.
    pub metric_sha256: String,
    /// Final high-cardinality state artifact.
    pub final_artifact: ArtifactIdentity,
    /// Maximum encoded merge buffer.
    pub max_merge_buffered_bytes: usize,
    /// Conservative run-artifact estimate.
    pub estimated_run_bytes: u64,
    /// Operator-selected disk reserve.
    pub disk_reserve_bytes: u64,
    /// Immutable batch checkpoints.
    pub batch_checkpoints: Vec<String>,
    /// Immutable merge checkpoints.
    pub merge_checkpoints: Vec<String>,
}

/// Completed first-seen products.
#[derive(Clone, Debug)]
pub struct BoundedPubkeyFirstSeen {
    /// Validated completion evidence.
    pub evidence: PubkeyFirstSeenEvidence,
    /// SHA-256 of canonical evidence JSON.
    pub evidence_sha256: String,
}

/// Seconds between which a first event is served.
#[derive(Clone, Copy, Debug, PartialEq, Eq, Structural)]
pub struct SeenBounds {
    /// Earliest second.
    pub genesis: u64,
    /// Latest second.
    pub as_of: u64,
}

/// First second of record `index`.
pub open spec fn seen_at(bytes: Seq<u8>, index: int) -> int {
    be_nat(record(bytes, 40, index).subrange(32, 40)) as int
}

/// Record `index` is served.
pub open spec fn is_served(bytes: Seq<u8>, index: int, bounds: SeenBounds) -> bool {
    bounds.genesis <= seen_at(bytes, index) <= bounds.as_of
}

/// Publishers of the first `count` records that are served.
pub open spec fn served_count(bytes: Seq<u8>, count: int, bounds: SeenBounds) -> int
    decreases count,
{
    if count <= 0 {
        0
    } else {
        served_count(bytes, count - 1, bounds) + if is_served(bytes, count - 1, bounds) {
            1int
        } else {
            0int
        }
    }
}

/// Publishers of the first `count` records that are new on a day.
pub open spec fn new_on(bytes: Seq<u8>, count: int, bounds: SeenBounds, day: int) -> int
    decreases count,
{
    if count <= 0 {
        0
    } else {
        new_on(bytes, count - 1, bounds, day) + if is_served(bytes, count - 1, bounds) && seen_at(
            bytes,
            count - 1,
        ) / 86_400 == day {
            1int
        } else {
            0int
        }
    }
}

/// `rows` holds the new users of exactly the days that have some, in order.
pub open spec fn lists_days(
    rows: Seq<NewUsersDaily>,
    days: Seq<u32>,
    bytes: Seq<u8>,
    bounds: SeenBounds,
) -> bool {
    &&& rows.len() == days.len()
    &&& forall|i: int, j: int| 0 <= i < j < days.len() ==> days[i] < days[j]
    &&& forall|i: int|
        0 <= i < rows.len() ==> #[trigger] describes_day(rows[i], days[i], bytes, bounds)
    &&& forall|day: u32| #[trigger]
        days.contains(day) <==> new_on(bytes, record_count(bytes, 40), bounds, day as int) > 0
}

/// The row holds the new users of the day.
pub open spec fn describes_day(
    row: NewUsersDaily,
    day: u32,
    bytes: Seq<u8>,
    bounds: SeenBounds,
) -> bool {
    &&& day_text(day as int) == Some(row.day@)
    &&& row.new_pubkeys == new_on(bytes, record_count(bytes, 40), bounds, day as int)
}

/// The table of daily new users.
pub open spec fn new_users_table(
    rows: Seq<NewUsersDaily>,
    bytes: Seq<u8>,
    bounds: SeenBounds,
) -> bool {
    exists|days: Seq<u32>| #[trigger] lists_days(rows, days, bytes, bounds)
}

/// Every served record has a calendar day.
pub open spec fn days_exist(bytes: Seq<u8>, bounds: SeenBounds) -> bool {
    forall|i: int|
        0 <= i < record_count(bytes, 40) && #[trigger] is_served(bytes, i, bounds) ==> has_day(
            seen_at(bytes, i) / 86_400,
        )
}

/// The day fits a `u32` and has a date.
pub open spec fn has_day(day: int) -> bool {
    day <= u32::MAX && day_text(day) is Some
}

/// The state is whole, sorted, unique and of the recorded number of rows.
pub open spec fn finalizable(bytes: Seq<u8>, rows: int, bounds: SeenBounds) -> bool {
    &&& sorted_stream(bytes, 40, 32)
    &&& record_count(bytes, 40) == rows
    &&& days_exist(bytes, bounds)
}

/// Counts never exceed the records.
proof fn lemma_counts_bounded(bytes: Seq<u8>, count: int, bounds: SeenBounds, day: int)
    requires
        0 <= count,
    ensures
        0 <= new_on(bytes, count, bounds, day) <= served_count(bytes, count, bounds) <= count,
    decreases count,
{
    if count > 0 {
        lemma_counts_bounded(bytes, count - 1, bounds, day);
    }
}

/// A day with new users has a record.
proof fn lemma_new_witness(bytes: Seq<u8>, count: int, bounds: SeenBounds, day: int) -> (index: int)
    requires
        new_on(bytes, count, bounds, day) > 0,
    ensures
        0 <= index < count,
        is_served(bytes, index, bounds),
        seen_at(bytes, index) / 86_400 == day,
    decreases count,
{
    if is_served(bytes, count - 1, bounds) && seen_at(bytes, count - 1) / 86_400 == day {
        count - 1
    } else {
        lemma_new_witness(bytes, count - 1, bounds, day)
    }
}

/// A served record makes its day one with new users.
proof fn lemma_new_positive(
    bytes: Seq<u8>,
    count: int,
    bounds: SeenBounds,
    index: int,
)
    requires
        0 <= index < count,
        is_served(bytes, index, bounds),
    ensures
        new_on(bytes, count, bounds, seen_at(bytes, index) / 86_400) > 0,
    decreases count,
{
    let day = seen_at(bytes, index) / 86_400;
    lemma_counts_bounded(bytes, count - 1, bounds, day);
    if index < count - 1 {
        lemma_new_positive(bytes, count - 1, bounds, index);
    }
}

/// The map counts the new users of every day among the first `count` records.
pub open spec fn counts_days(
    daily: Map<u64, u64>,
    bytes: Seq<u8>,
    count: int,
    bounds: SeenBounds,
) -> bool {
    &&& forall|day: u64| #[trigger]
        daily.contains_key(day) ==> daily[day] == new_on(bytes, count, bounds, day as int)
            && daily[day] > 0 && day <= u32::MAX
    &&& forall|day: u64|
        #[trigger] new_on(bytes, count, bounds, day as int) > 0 ==> daily.contains_key(day)
}

/// Count the served records of the state by day.
fn count_days(bytes: &[u8], bounds: SeenBounds) -> (outcome: Result<
    (u64, u64, BTreeMap<u64, u64>),
>)
    ensures
        match outcome {
            Ok((rows, served, daily)) => {
                &&& sorted_stream(bytes@, 40, 32)
                &&& rows == record_count(bytes@, 40)
                &&& served == served_count(bytes@, rows as int, bounds)
                &&& counts_days(daily@, bytes@, rows as int, bounds)
            },
            Err(error) => {
                &&& error is Invalid
                &&& !sorted_stream(bytes@, 40, 32) || exists|i: int|
                    0 <= i < record_count(bytes@, 40) && #[trigger] is_served(bytes@, i, bounds)
                        && seen_at(bytes@, i) / 86_400 > u32::MAX
            },
        },
{
    let ghost total = record_count(bytes@, 40);
    let mut reader: RecordReader = RecordReader::new(
        bytes,
        PUBKEY_FIRST_SEEN_BYTES,
        PUBKEY_FIRST_SEEN_KEY_BYTES,
    );
    let mut rows: u64 = 0;
    let mut served: u64 = 0;
    let mut daily: BTreeMap<u64, u64> = BTreeMap::new();
    loop
        invariant
            total == record_count(bytes@, 40),
            reader.wf(),
            reader.source() == bytes@,
            reader.width() == 40,
            reader.key() == 32,
            reader.position() == rows,
            0 <= rows <= total,
            served == served_count(bytes@, rows as int, bounds),
            counts_days(daily@, bytes@, rows as int, bounds),
        ensures
            rows == total,
            sorted_stream(bytes@, 40, 32),
        decreases total - rows,
    {
        proof {
            reader.lemma_position();
            lemma_counts_bounded(bytes@, rows as int, bounds, 0);
        }
        match reader.next() {
            Ok(None) => {
                break ;
            },
            Ok(Some(found)) => {
                let first_seen: u64 = read_u64(found, 32);
                proof {
                    reader.lemma_position();
                    assert(first_seen == seen_at(bytes@, rows as int));
                }
                let ghost before = daily@;
                if first_seen >= bounds.genesis && first_seen <= bounds.as_of {
                    let day: u64 = first_seen / 86_400;
                    if day > u32::MAX as u64 {
                        assert(is_served(bytes@, rows as int, bounds));
                        return Err(Error::Invalid("first-seen day exceeds u32"));
                    }
                    let known: u64 = value_or(&daily, day, 0);
                    proof {
                        lemma_counts_bounded(bytes@, rows as int, bounds, day as int);
                        assert(known == new_on(bytes@, rows as int, bounds, day as int));
                    }
                    store(&mut daily, day, known + 1);
                    served = served + 1;
                }
                proof {
                    assert(rows + 1 - 1 == rows);
                    assert forall|d: u64| #[trigger] new_on(
                        bytes@,
                        rows + 1,
                        bounds,
                        d as int,
                    ) > 0 implies daily@.contains_key(d) by {
                        lemma_counts_bounded(bytes@, rows as int, bounds, d as int);
                        if new_on(bytes@, rows as int, bounds, d as int) > 0 {
                            assert(before.contains_key(d));
                        }
                    }
                    assert forall|d: u64| #[trigger] daily@.contains_key(d) implies daily@[d]
                        == new_on(bytes@, rows + 1, bounds, d as int) && daily@[d] > 0 && d
                        <= u32::MAX by {
                        if before.contains_key(d) {
                            assert(before[d] == new_on(bytes@, rows as int, bounds, d as int));
                        }
                    }
                }
                rows = rows + 1;
            },
            Err(StreamFault::Truncated) => {
                return Err(Error::Invalid("truncated first-seen record"));
            },
            Err(StreamFault::Unordered) => {
                return Err(Error::Invalid("first-seen state is not unique and sorted"));
            },
        }
    }
    Ok((rows, served, daily))
}

/// Derive the daily new users from sorted first-seen state.
///
/// A publisher counts on the day of its first event; one whose first event lies
/// outside the bounds does not count.
pub fn finalize(bytes: &[u8], artifact: &ArtifactIdentity, bounds: SeenBounds) -> (outcome: Result<
    (u64, Vec<NewUsersDaily>),
>)
    ensures
        outcome is Ok <==> finalizable(bytes@, artifact.row_count as int, bounds),
        match outcome {
            Ok((eligible, rows)) => {
                &&& eligible == served_count(bytes@, record_count(bytes@, 40), bounds)
                &&& new_users_table(rows@, bytes@, bounds)
            },
            Err(error) => error is Invalid,
        },
{
    let ghost total = record_count(bytes@, 40);
    let (count, eligible, daily) = match count_days(bytes, bounds) {
        Ok(counts) => counts,
        Err(error) => {
            return Err(error);
        },
    };
    if count != artifact.row_count {
        return Err(Error::Invalid("first-seen artifact accounting mismatch"));
    }
    let entries: Vec<(u64, u64)> = list(&daily);
    let ghost mut days: Seq<u32> = Seq::empty();
    let mut rows: Vec<NewUsersDaily> = Vec::new();
    let mut i: usize = 0;
    while i < entries.len()
        invariant
            i <= entries@.len(),
            total == record_count(bytes@, 40),
            counts_days(daily@, bytes@, total, bounds),
            lists_map(entries@, daily@),
            rows@.len() == i,
            days.len() == i,
            forall|j: int| 0 <= j < i ==> (#[trigger] days[j]) as u64 == entries@[j].0,
            forall|j: int|
                0 <= j < i ==> #[trigger] describes_day(rows@[j], days[j], bytes@, bounds),
        decreases entries.len() - i,
    {
        let key: u64 = entries[i].0;
        proof {
            assert(daily@.contains_key(entries@[i as int].0));
        }
        let day: u32 = key as u32;
        match day_string(day) {
            Err(_) => {
                proof {
                    let index = lemma_new_witness(bytes@, total, bounds, key as int);
                    assert(is_served(bytes@, index, bounds) && !has_day(
                        seen_at(bytes@, index) / 86_400,
                    ));
                }
                return Err(Error::Invalid("invalid UTC day"));
            },
            Ok(text) => {
                let row: NewUsersDaily = NewUsersDaily { day: text, new_pubkeys: entries[i].1 };
                rows.push(row);
                proof {
                    days = days.push(day);
                    assert(describes_day(row, day, bytes@, bounds));
                }
            },
        }
        i += 1;
    }
    proof {
        assert forall|i: int, j: int| 0 <= i < j < days.len() implies days[i] < days[j] by {
            assert(days[i] as u64 == entries@[i].0);
            assert(days[j] as u64 == entries@[j].0);
        }
        assert forall|day: u32| #[trigger]
            days.contains(day) <==> new_on(bytes@, total, bounds, day as int) > 0 by {
            if days.contains(day) {
                let i = choose|i: int| 0 <= i < days.len() && days[i] == day;
                assert(days[i] as u64 == entries@[i].0);
                assert(daily@.contains_key(entries@[i].0));
            }
            if new_on(bytes@, total, bounds, day as int) > 0 {
                assert(new_on(bytes@, total, bounds, (day as u64) as int) > 0);
                assert(daily@.contains_key(day as u64));
                let i = choose|i: int| 0 <= i < entries@.len() && #[trigger] entries@[i].0 == day as u64;
                assert(days[i] as u64 == entries@[i].0);
                assert(days[i] == day);
            }
        }
        assert(lists_days(rows@, days, bytes@, bounds));
        assert forall|i: int| 0 <= i < total && #[trigger] is_served(bytes@, i, bounds) implies has_day(
            seen_at(bytes@, i) / 86_400,
        ) by {
            lemma_new_positive(bytes@, total, bounds, i);
            let day = seen_at(bytes@, i) / 86_400;
            assert(0 <= day <= u64::MAX) by {
                assert(seen_at(bytes@, i) <= bounds.as_of);
            }
            assert(new_on(bytes@, total, bounds, (day as u64) as int) > 0);
            assert(daily@.contains_key(day as u64));
            assert(days.contains(day as u32));
            let k = choose|k: int| 0 <= k < days.len() && days[k] == day as u32;
            assert(describes_day(rows@[k], days[k], bytes@, bounds));
        }
    }
    Ok((eligible, rows))
}

/// The new users of a table.
pub open spec fn table_sum(rows: Seq<NewUsersDaily>) -> int
    decreases rows.len(),
{
    if rows.len() == 0 {
        0
    } else {
        table_sum(rows.drop_last()) + rows.last().new_pubkeys
    }
}

/// The new users of the listed days among the first `count` records.
spec fn days_sum(days: Seq<u32>, bytes: Seq<u8>, count: int, bounds: SeenBounds) -> int
    decreases days.len(),
{
    if days.len() == 0 {
        0
    } else {
        days_sum(days.drop_last(), bytes, count, bounds) + new_on(
            bytes,
            count,
            bounds,
            days.last() as int,
        )
    }
}

/// One more record adds to the sum where its day is listed.
proof fn lemma_days_sum_step(days: Seq<u32>, bytes: Seq<u8>, count: int, bounds: SeenBounds)
    requires
        count > 0,
        forall|i: int, j: int| 0 <= i < j < days.len() ==> days[i] < days[j],
    ensures
        days_sum(days, bytes, count, bounds) == days_sum(days, bytes, count - 1, bounds)
            + if is_served(bytes, count - 1, bounds) && exists|i: int|
            0 <= i < days.len() && #[trigger] days[i] == seen_at(bytes, count - 1) / 86_400 {
            1int
        } else {
            0int
        },
    decreases days.len(),
{
    if days.len() > 0 {
        let rest = days.drop_last();
        lemma_days_sum_step(rest, bytes, count, bounds);
        let day = seen_at(bytes, count - 1) / 86_400;
        if exists|i: int| 0 <= i < rest.len() && #[trigger] rest[i] == day {
            let i = choose|i: int| 0 <= i < rest.len() && #[trigger] rest[i] == day;
            assert(days[i] == day);
            assert(days[i] < days[days.len() - 1]);
        }
        if exists|i: int| 0 <= i < days.len() && #[trigger] days[i] == day {
            let i = choose|i: int| 0 <= i < days.len() && #[trigger] days[i] == day;
            if i < days.len() - 1 {
                assert(rest[i] == day);
            }
        }
    }
}

/// The listed days hold every served record.
proof fn lemma_days_sum(days: Seq<u32>, bytes: Seq<u8>, count: int, bounds: SeenBounds)
    requires
        0 <= count,
        forall|i: int, j: int| 0 <= i < j < days.len() ==> days[i] < days[j],
        forall|i: int|
            0 <= i < count && #[trigger] is_served(bytes, i, bounds) ==> exists|k: int|
                0 <= k < days.len() && #[trigger] days[k] == seen_at(bytes, i) / 86_400,
    ensures
        days_sum(days, bytes, count, bounds) == served_count(bytes, count, bounds),
    decreases count,
{
    if count == 0 {
        lemma_days_sum_zero(days, bytes, bounds);
    } else {
        lemma_days_sum(days, bytes, count - 1, bounds);
        lemma_days_sum_step(days, bytes, count, bounds);
    }
}

proof fn lemma_days_sum_zero(days: Seq<u32>, bytes: Seq<u8>, bounds: SeenBounds)
    ensures
        days_sum(days, bytes, 0, bounds) == 0,
    decreases days.len(),
{
    if days.len() > 0 {
        lemma_days_sum_zero(days.drop_last(), bytes, bounds);
    }
}

/// The daily new users sum to the publishers that are served.
pub proof fn lemma_daily_sum(rows: Seq<NewUsersDaily>, bytes: Seq<u8>, bounds: SeenBounds)
    requires
        new_users_table(rows, bytes, bounds),
        days_exist(bytes, bounds),
    ensures
        table_sum(rows) == served_count(bytes, record_count(bytes, 40), bounds),
{
    let total = record_count(bytes, 40);
    let days = choose|days: Seq<u32>| #[trigger] lists_days(rows, days, bytes, bounds);
    assert forall|i: int| 0 <= i < total && #[trigger] is_served(bytes, i, bounds) implies exists|
        k: int,
    | 0 <= k < days.len() && #[trigger] days[k] == seen_at(bytes, i) / 86_400 by {
        lemma_new_positive(bytes, total, bounds, i);
        let day = seen_at(bytes, i) / 86_400;
        assert(has_day(day));
        assert(days.contains(day as u32));
    }
    assert(0 <= total) by {
        vstd::arithmetic::div_mod::lemma_div_pos_is_pos(bytes.len() as int, 40);
    }
    lemma_days_sum(days, bytes, total, bounds);
    lemma_table_days(rows, days, bytes, bounds);
}

proof fn lemma_table_days(
    rows: Seq<NewUsersDaily>,
    days: Seq<u32>,
    bytes: Seq<u8>,
    bounds: SeenBounds,
)
    requires
        rows.len() == days.len(),
        forall|i: int|
            0 <= i < rows.len() ==> #[trigger] describes_day(rows[i], days[i], bytes, bounds),
    ensures
        table_sum(rows) == days_sum(days, bytes, record_count(bytes, 40), bounds),
    decreases rows.len(),
{
    if rows.len() > 0 {
        assert(describes_day(rows[rows.len() - 1], days[rows.len() - 1], bytes, bounds));
        assert forall|i: int| 0 <= i < rows.len() - 1 implies #[trigger] describes_day(
            rows.drop_last()[i],
            days.drop_last()[i],
            bytes,
            bounds,
        ) by {
            assert(describes_day(rows[i], days[i], bytes, bounds));
        }
        lemma_table_days(rows.drop_last(), days.drop_last(), bytes, bounds);
    }
}

/// The tables agree in every row.
pub open spec fn same_days(left: Seq<NewUsersDaily>, right: Seq<NewUsersDaily>) -> bool {
    &&& left.len() == right.len()
    &&& forall|i: int|
        0 <= i < left.len() ==> #[trigger] same_day(left[i], right[i])
}

/// The rows agree.
pub open spec fn same_day(left: NewUsersDaily, right: NewUsersDaily) -> bool {
    left.day@ == right.day@ && left.new_pubkeys == right.new_pubkeys
}

/// Whether the tables agree in every row.
fn days_equal(left: &Vec<NewUsersDaily>, right: &Vec<NewUsersDaily>) -> (same: bool)
    ensures
        same == same_days(left@, right@),
{
    if left.len() != right.len() {
        return false;
    }
    let mut i: usize = 0;
    while i < left.len()
        invariant
            i <= left@.len(),
            left@.len() == right@.len(),
            forall|j: int| 0 <= j < i ==> #[trigger] same_day(left@[j], right@[j]),
        decreases left.len() - i,
    {
        if !text_equal(left[i].day.as_str(), right[i].day.as_str()) || left[i].new_pubkeys
            != right[i].new_pubkeys {
            assert(!same_day(left@[i as int], right@[i as int]));
            return false;
        }
        i += 1;
    }
    true
}

/// There is one table of daily new users.
pub proof fn lemma_new_users_unique(
    left: Seq<NewUsersDaily>,
    right: Seq<NewUsersDaily>,
    bytes: Seq<u8>,
    bounds: SeenBounds,
)
    requires
        new_users_table(left, bytes, bounds),
    ensures
        new_users_table(right, bytes, bounds) <==> same_days(left, right),
{
    let a = choose|days: Seq<u32>| #[trigger] lists_days(left, days, bytes, bounds);
    if new_users_table(right, bytes, bounds) {
        let b = choose|days: Seq<u32>| #[trigger] lists_days(right, days, bytes, bounds);
        let ra = a.map_values(|day: u32| day as int);
        let rb = b.map_values(|day: u32| day as int);
        assert forall|x: int| ra.contains(x) <==> rb.contains(x) by {
            if ra.contains(x) {
                let i = choose|i: int| 0 <= i < ra.len() && ra[i] == x;
                assert(a.contains(a[i]));
                assert(b.contains(a[i]));
                let j = choose|j: int| 0 <= j < b.len() && b[j] == a[i];
                assert(rb[j] == x);
            }
            if rb.contains(x) {
                let i = choose|i: int| 0 <= i < rb.len() && rb[i] == x;
                assert(b.contains(b[i]));
                assert(a.contains(b[i]));
                let j = choose|j: int| 0 <= j < a.len() && a[j] == b[i];
                assert(ra[j] == x);
            }
        }
        lemma_increasing_unique(ra, rb);
        assert(ra.len() == rb.len());
        assert forall|i: int| 0 <= i < left.len() implies #[trigger] same_day(
            left[i],
            right[i],
        ) by {
            assert(ra[i] == rb[i]);
            assert(describes_day(left[i], a[i], bytes, bounds));
            assert(describes_day(right[i], b[i], bytes, bounds));
        }
    }
    if same_days(left, right) {
        assert forall|i: int| 0 <= i < right.len() implies #[trigger] describes_day(
            right[i],
            a[i],
            bytes,
            bounds,
        ) by {
            assert(same_day(left[i], right[i]));
            assert(describes_day(left[i], a[i], bytes, bounds));
        }
        assert(lists_days(right, a, bytes, bounds));
    }
}

impl BoundedPubkeyFirstSeen {
    /// The evidence is a completed product for the snapshot and boundary.
    pub open spec fn completed_for(&self, snapshot_id: Seq<char>, as_of_epoch: u64) -> bool {
        &&& self.evidence.schema_version == 1
        &&& self.evidence.runner_version@ == RUNNER_VERSION@
        &&& self.evidence.status@ == "completed"@
        &&& self.evidence.snapshot_id@ == snapshot_id
        &&& self.evidence.as_of_epoch == as_of_epoch
    }

    /// The serving rows of the evidence are those of the state, and every count
    /// and digest in it agrees.
    pub open spec fn matches_state(
        &self,
        state: Seq<u8>,
        metric_json: Seq<u8>,
        genesis: u64,
    ) -> bool {
        let bounds = SeenBounds { genesis, as_of: self.evidence.as_of_epoch };
        &&& self.evidence.final_artifact.byte_size == state.len()
        &&& self.evidence.final_artifact.sha256@ == sha256_text(state)
        &&& finalizable(state, self.evidence.final_artifact.row_count as int, bounds)
        &&& self.evidence.eligible_pubkeys == served_count(state, record_count(state, 40), bounds)
        &&& new_users_table(self.evidence.new_users_daily@, state, bounds)
        &&& self.evidence.metric_sha256@ == metric_digest(metric_json)
    }

    /// Revalidate the product immediately before publication.
    ///
    /// `state` holds the bytes of the artifact, `metric_json` the canonical JSON
    /// of the daily rows of the evidence, and `genesis` the earliest second that
    /// is served.
    pub fn validate_for_publication(
        &self,
        snapshot_id: &str,
        as_of_epoch: u64,
        state: &[u8],
        metric_json: &[u8],
        genesis: u64,
    ) -> (outcome: Result<()>)
        ensures
            outcome is Ok <==> self.completed_for(snapshot_id@, as_of_epoch) && self.matches_state(
                state@,
                metric_json@,
                genesis,
            ),
            outcome is Err ==> outcome->Err_0 is Invalid,
    {
        let evidence: &PubkeyFirstSeenEvidence = &self.evidence;
        if evidence.schema_version != 1 || !text_equal(
            evidence.runner_version.as_str(),
            RUNNER_VERSION,
        ) || !text_equal(evidence.status.as_str(), "completed") {
            return Err(Error::Invalid("first-seen evidence is not a completed supported product"));
        }
        if !text_equal(evidence.snapshot_id.as_str(), snapshot_id) || evidence.as_of_epoch
            != as_of_epoch {
            return Err(Error::Invalid("first-seen evidence targets another snapshot or boundary"));
        }
        if evidence.final_artifact.byte_size != state.len() as u64 {
            return Err(Error::Invalid("first-seen artifact byte accounting mismatch"));
        }
        if !text_equal(sha256_hex(state).as_str(), evidence.final_artifact.sha256.as_str()) {
            return Err(Error::Invalid("first-seen artifact SHA-256 does not match evidence"));
        }
        let bounds: SeenBounds = SeenBounds { genesis, as_of: evidence.as_of_epoch };
        let (eligible, rows) = match finalize(state, &evidence.final_artifact, bounds) {
            Ok(finalized) => finalized,
            Err(error) => {
                return Err(error);
            },
        };
        proof {
            lemma_new_users_unique(rows@, evidence.new_users_daily@, state@, bounds);
        }
        if eligible != evidence.eligible_pubkeys || !days_equal(&rows, &evidence.new_users_daily) {
            return Err(
                Error::Invalid("first-seen serving metrics do not match the immutable artifact"),
            );
        }
        if !text_equal(metric_sha256(metric_json).as_str(), evidence.metric_sha256.as_str()) {
            return Err(Error::Invalid("first-seen metric SHA-256 does not match evidence"));
        }
        Ok(())
    }
}

/// Take up decoded evidence as a product and revalidate it.
pub fn load_bounded_pubkey_first_seen(
    evidence: PubkeyFirstSeenEvidence,
    evidence_json: &[u8],
    state: &[u8],
    metric_json: &[u8],
    genesis: u64,
) -> (outcome: Result<BoundedPubkeyFirstSeen>)
    ensures
        ({
            let product = BoundedPubkeyFirstSeen {
                evidence,
                evidence_sha256: (outcome->Ok_0).evidence_sha256,
            };
            &&& outcome is Ok <==> product.completed_for(
                evidence.snapshot_id@,
                evidence.as_of_epoch,
            ) && product.matches_state(state@, metric_json@, genesis)
            &&& match outcome {
                Ok(loaded) => {
                    &&& loaded.evidence == evidence
                    &&& loaded.evidence_sha256@ == sha256_text(evidence_json@)
                },
                Err(error) => error is Invalid,
            }
        }),
{
    let product: BoundedPubkeyFirstSeen = BoundedPubkeyFirstSeen {
        evidence,
        evidence_sha256: sha256_hex(evidence_json),
    };
    match product.validate_for_publication(
        product.evidence.snapshot_id.as_str(),
        product.evidence.as_of_epoch,
        state,
        metric_json,
        genesis,
    ) {
        Ok(()) => Ok(product),
        Err(error) => Err(error),
    }
}

} // verus!
