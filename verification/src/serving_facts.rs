//! Bounded canonical facts of the serving products.
//!
//! The event-fact artifact omits content. This lane retains only event ID and
//! UTF-8 content bytes, joins them one for one with the event facts, and
//! combines both with the sorted activity stream. The result is compact: exact
//! hourly counts and exact summaries of every kind.

use vstd::prelude::*;
use vstd::string::*;

use crate::activity::{activity_stream, eligible};
use crate::artifact::{
    artifact_describes, describes_records, ArtifactIdentity, BatchLimits, EncodedRun, RunIdentity,
};
use crate::batches::{reconcile_duplicates, reconciles, BatchProgress};
use crate::bytes::{
    be_bytes, bytes_equal, lemma_be_bytes_round_trip, lex_less, push_be, push_bytes,
};
use crate::calendar::floor_hour;
use crate::digest::{sha256_hex, sha256_text};
use crate::error::{checked_add, Error, Result};
use crate::fixed_activity::lemma_row_count;
use crate::input::ResolvedSnapshot;
use crate::kind_publishers::{exact_kind_unique_pubkeys, kind_publishers};
use crate::merge::{estimate_merge_bytes, merge_bytes, MergeOutcome};
use crate::records::{record, record_key};
use crate::run_writer::RunWriter;
use crate::serving_compact::{
    derive_compact_rows, events_fit, is_range, of_kind, served_events, streams_join, sum_events,
    summarizes_kind, DerivedCompact, KindAccumulator, ServedEvent, TimestampBounds,
};
use crate::serving_records::{
    hourly_record, ServingHourlyRow, ServingKindRow, CONTENT_FACT_BYTES, CONTENT_KEY_BYTES,
    EVENT_FACT_BYTES, HOURLY_COUNT_BYTES, KIND_SUMMARY_BYTES,
};
use crate::serving_tables::{
    encode_hourly_rows, encode_kind_rows, encodes_hourly, encodes_kinds, held_hours, held_kinds,
    hourly_rows, hourly_sum, hourly_table, kind_rows, kind_sum, kind_summary, kind_table,
    kinds_ordered, lemma_hourly_artifact_round_trip, lemma_hourly_table_unique,
    read_hourly_artifact, read_kind_artifact, reads_kinds, sum_hourly, sum_kinds,
    visit_hourly_artifact, visit_kind_artifact,
};
use crate::text::text_equal;
use crate::visits::{visit_of, visits_rows};

verus! {

/// Stable product version.
pub const SERVING_FACTS_VERSION: &'static str = "serving-facts-v1";

/// Stable runner identity.
pub const SERVING_FACTS_RUNNER_VERSION: &'static str = "pensieve-analytics-serving-facts-v1";

/// Schema of the completion evidence.
pub const SCHEMA_VERSION: u32 = 1;

/// Resource settings for one bounded serving-facts build.
#[derive(Clone, Debug)]
pub struct ServingFactsConfig {
    /// Dedicated immutable work root.
    pub work_root: String,
    /// Maximum compressed bytes and physical rows in one scan.
    pub batch_limits: BatchLimits,
    /// Maximum sorted runs opened by one merge.
    pub merge_fan_in: usize,
    /// Free bytes that must remain after conservative preflight.
    pub disk_reserve_bytes: u64,
}

/// Explicit bounded-state evidence.
#[derive(Clone, Copy, Debug, PartialEq, Eq, Structural)]
pub struct ServingFactsMemoryEvidence {
    /// Greatest compressed input bytes in one source batch.
    pub max_batch_bytes: u64,
    /// Greatest physical rows in one source batch.
    pub max_batch_rows: u64,
    /// Greatest fixed record bytes retained by a streaming merge.
    pub max_merge_buffered_bytes: usize,
    /// Sparse hourly keys retained during finalization.
    pub hourly_keys: usize,
    /// Fixed counter slots for kinds.
    pub kind_counter_slots: usize,
}

/// Canonical completion evidence for the serving-completeness product.
#[derive(Clone, Debug, PartialEq, Eq)]
pub struct ServingFactsEvidence {
    /// Evidence schema version.
    pub schema_version: u32,
    /// Runner identity.
    pub runner_version: String,
    /// Completion status.
    pub status: String,
    /// Frozen canonical catalog identity.
    pub snapshot_id: String,
    /// Fixed analytics boundary.
    pub as_of_epoch: u64,
    /// Exclusive complete-hour boundary.
    pub complete_through_epoch: u64,
    /// Catalog object count.
    pub object_count: u64,
    /// Catalog physical row count.
    pub physical_rows: u64,
    /// Exact unique canonical event count.
    pub logical_events: u64,
    /// Physical duplicates suppressed by ID.
    pub duplicate_rows: u64,
    /// Immutable source event-facts evidence SHA-256.
    pub event_facts_evidence_sha256: String,
    /// Immutable source event-fact artifact identity.
    pub event_facts_artifact: ArtifactIdentity,
    /// Immutable source fixed-activity evidence SHA-256.
    pub activity_evidence_sha256: String,
    /// Immutable source activity artifact identity.
    pub activity_artifact: ArtifactIdentity,
    /// Canonical content fact artifact.
    pub content_artifact: ArtifactIdentity,
    /// Sparse exact hourly count artifact.
    pub hourly_artifact: ArtifactIdentity,
    /// Exact all-time kind summary artifact.
    pub kind_artifact: ArtifactIdentity,
    /// Sum of all-kind hourly rows.
    pub complete_hour_events: u64,
    /// Sum of represented kind event counts.
    pub eligible_kind_events: u64,
    /// Sum of represented exact content bytes.
    pub eligible_content_bytes: u64,
    /// Bounded source batches.
    pub batch_count: u64,
    /// Streaming merges.
    pub merge_count: u64,
    /// Conservative run byte estimate.
    pub estimated_run_bytes: u64,
    /// Configured disk reserve.
    pub disk_reserve_bytes: u64,
    /// Measured bounded state.
    pub memory: ServingFactsMemoryEvidence,
    /// Immutable batch checkpoints.
    pub batch_checkpoints: Vec<String>,
    /// Immutable merge checkpoints.
    pub merge_checkpoints: Vec<String>,
}

/// Fully validated serving-facts product.
pub struct BoundedServingFacts {
    /// Canonical evidence.
    pub evidence: ServingFactsEvidence,
    /// Evidence SHA-256.
    pub evidence_sha256: String,
}

/// One scanned event ID with the byte length of its content.
#[derive(Clone, Debug, PartialEq, Eq)]
pub struct ScannedContent {
    /// Event ID.
    pub id: Vec<u8>,
    /// UTF-8 content bytes.
    pub content_bytes: u64,
}

/// Every ID has 32 bytes, and a row repeats the one before it or has a larger ID.
pub open spec fn scan_agrees(rows: Seq<ScannedContent>) -> bool {
    &&& forall|i: int| 0 <= i < rows.len() ==> (#[trigger] rows[i]).id@.len() == 32
    &&& forall|i: int| 0 < i < rows.len() ==> #[trigger] scan_step(rows, i)
}

/// Row `i` repeats the one before it or has a larger ID.
pub open spec fn scan_step(rows: Seq<ScannedContent>, i: int) -> bool {
    ||| rows[i - 1].id@ == rows[i].id@ && rows[i - 1].content_bytes == rows[i].content_bytes
    ||| lex_less(rows[i - 1].id@, rows[i].id@)
}

/// The encoding of a scanned row.
pub open spec fn scanned_record(row: ScannedContent) -> Seq<u8> {
    row.id@ + be_bytes(row.content_bytes as nat, 8)
}

/// The first `count` rows without repetitions, encoded.
pub open spec fn unique_content(rows: Seq<ScannedContent>, count: int) -> Seq<Seq<u8>>
    decreases count,
{
    if count <= 0 {
        Seq::empty()
    } else if count >= 2 && rows[count - 2].id@ == rows[count - 1].id@ {
        unique_content(rows, count - 1)
    } else {
        unique_content(rows, count - 1).push(scanned_record(rows[count - 1]))
    }
}

/// Encode the sorted rows of a scan of `objects` objects, each event once.
pub fn scan_content_facts(objects: usize, rows: &Vec<ScannedContent>) -> (outcome: Result<
    EncodedRun,
>)
    ensures
        outcome is Ok <==> objects > 0 && scan_agrees(rows@),
        match outcome {
            Ok(run) => {
                let unique = unique_content(rows@, rows@.len() as int);
                &&& run.rows == unique.len()
                &&& run.bytes@.len() == 40 * unique.len()
                &&& forall|i: int|
                    0 <= i < unique.len() ==> #[trigger] record(run.bytes@, 40, i) == unique[i]
                &&& run.keys_are(
                    rows@.len() > 0,
                    rows@[0].id@,
                    rows@[rows@.len() - 1].id@,
                )
            },
            Err(error) => error is Invalid,
        },
{
    if objects == 0 {
        return Err(Error::Invalid("a content-fact batch must contain an object"));
    }
    let mut writer: RunWriter = RunWriter::new(CONTENT_FACT_BYTES, CONTENT_KEY_BYTES);
    let mut i: usize = 0;
    while i < rows.len()
        invariant
            i <= rows@.len(),
            writer.wf(),
            writer.width() == 40,
            writer.key() == 32,
            writer.rows() == unique_content(rows@, i as int).len(),
            writer.rows() <= i,
            i > 0 ==> writer.rows() > 0 && writer.last_key() == rows@[i - 1].id@
                && record_key(writer.written(), 40, 32, 0) == rows@[0].id@,
            forall|j: int|
                0 <= j < writer.rows() ==> #[trigger] record(writer.written(), 40, j)
                    == unique_content(rows@, i as int)[j],
            forall|j: int| 0 <= j < i ==> (#[trigger] rows@[j]).id@.len() == 32,
            forall|j: int| 0 < j < i ==> #[trigger] scan_step(rows@, j),
        decreases rows.len() - i,
    {
        let row: &ScannedContent = &rows[i];
        if row.id.len() != 32 {
            assert(rows@[i as int].id@.len() != 32);
            return Err(Error::Invalid("content ID does not have 32 bytes"));
        }
        if i > 0 && bytes_equal(rows[i - 1].id.as_slice(), row.id.as_slice()) {
            if rows[i - 1].content_bytes != row.content_bytes {
                proof {
                    crate::bytes::lemma_lex_antisymmetric(row.id@, row.id@);
                    assert(!scan_step(rows@, i as int));
                }
                return Err(Error::Invalid("duplicate event ID has conflicting content length"));
            }
            assert(scan_step(rows@, i as int));
            i += 1;
            continue ;
        }
        let mut entry: Vec<u8> = Vec::new();
        push_bytes(&mut entry, row.id.as_slice());
        push_be(&mut entry, row.content_bytes, 8);
        let ghost before = writer.written();
        let ghost count = writer.rows();
        proof {
            lemma_be_bytes_round_trip(row.content_bytes as nat, 8);
            assert(entry@ =~= scanned_record(*row));
            assert(entry@.take(32) =~= row.id@);
            writer.lemma_wf();
        }
        let accepted: bool = writer.append(entry.as_slice());
        if !accepted {
            assert(!scan_step(rows@, i as int));
            return Err(Error::Invalid("content facts are not sorted by event ID"));
        }
        proof {
            let after = writer.written();
            assert(i > 0 ==> scan_step(rows@, i as int));
            assert(unique_content(rows@, i + 1) == unique_content(rows@, i as int).push(
                scanned_record(*row),
            ));
            assert forall|j: int| 0 <= j < count + 1 implies #[trigger] record(after, 40, j)
                == unique_content(rows@, i + 1)[j] by {
                if j < count {
                    assert(record(after, 40, j) =~= record(before, 40, j));
                } else {
                    assert(record(after, 40, j) =~= entry@);
                }
            }
            assert(record(after, 40, count) == entry@);
            assert(writer.last_key() == row.id@);
            if i > 0 {
                assert(record(after, 40, 0) =~= record(before, 40, 0));
            }
        }
        i += 1;
    }
    proof {
        writer.lemma_wf();
    }
    Ok(writer.finish())
}

/// The row holds the summary and the publishers of its kind.
pub open spec fn serves_kind(
    row: ServingKindRow,
    events: Seq<ServedEvent>,
    facts: Seq<Seq<u8>>,
    as_of: u64,
    bounds: TimestampBounds,
) -> bool {
    &&& row.event_count > 0
    &&& row.unique_pubkeys == kind_publishers(facts, row.kind as int)
    &&& summarizes_kind(
        KindAccumulator {
            event_count: row.event_count,
            first_seen: row.first_seen,
            last_seen: row.last_seen,
            content_bytes: row.content_bytes,
            content_rows: row.content_rows,
        },
        events,
        as_of,
        bounds,
        row.kind as int,
    )
}

/// `rows` lists exactly the kinds with an event, in order.
pub open spec fn kinds_table(
    rows: Seq<ServingKindRow>,
    events: Seq<ServedEvent>,
    facts: Seq<Seq<u8>>,
    as_of: u64,
    bounds: TimestampBounds,
) -> bool {
    &&& kinds_ordered(rows)
    &&& forall|i: int|
        0 <= i < rows.len() ==> serves_kind(#[trigger] rows[i], events, facts, as_of, bounds)
    &&& forall|kind: u16|
        #[trigger] sum_events(events, of_kind(as_of, bounds, kind as int)) > 0 ==> lists_kind(
            rows,
            kind,
        )
}

/// Some row has the kind.
pub open spec fn lists_kind(rows: Seq<ServingKindRow>, kind: u16) -> bool {
    exists|i: int| 0 <= i < rows.len() && (#[trigger] rows[i]).kind == kind
}

/// The counters and publisher counts are those of the sources.
pub open spec fn derived_from(
    kinds: Seq<KindAccumulator>,
    unique: Seq<u64>,
    events: Seq<ServedEvent>,
    facts: Seq<Seq<u8>>,
    as_of: u64,
    bounds: TimestampBounds,
) -> bool {
    &&& kinds.len() == 65_536
    &&& unique.len() == 65_536
    &&& forall|k: int|
        0 <= k < 65_536 ==> summarizes_kind(#[trigger] kinds[k], events, as_of, bounds, k)
    &&& forall|k: int| 0 <= k < 65_536 ==> #[trigger] unique[k] == kind_publishers(facts, k)
}

/// Rows of the kind table serve their kinds.
proof fn lemma_kind_table_serves(
    kinds: Seq<KindAccumulator>,
    unique: Seq<u64>,
    events: Seq<ServedEvent>,
    facts: Seq<Seq<u8>>,
    as_of: u64,
    bounds: TimestampBounds,
    count: int,
)
    requires
        derived_from(kinds, unique, events, facts, as_of, bounds),
        0 <= count <= 65_536,
    ensures
        forall|i: int|
            0 <= i < kind_table(kinds, unique, count).len() ==> serves_kind(
                #[trigger] kind_table(kinds, unique, count)[i],
                events,
                facts,
                as_of,
                bounds,
            ),
        forall|k: int|
            0 <= k < count && (#[trigger] kinds[k]).event_count > 0 ==> lists_kind(
                kind_table(kinds, unique, count),
                k as u16,
            ),
        forall|i: int|
            0 <= i < kind_table(kinds, unique, count).len() ==> (#[trigger] kind_table(
                kinds,
                unique,
                count,
            )[i]).kind < count,
        kinds_ordered(kind_table(kinds, unique, count)),
    decreases count,
{
    if count > 0 {
        lemma_kind_table_serves(kinds, unique, events, facts, as_of, bounds, count - 1);
        let earlier = kind_table(kinds, unique, count - 1);
        let table = kind_table(kinds, unique, count);
        let last = kinds[count - 1];
        assert(summarizes_kind(last, events, as_of, bounds, count - 1));
        assert(unique[count - 1] == kind_publishers(facts, count - 1));
        assert forall|i: int| 0 <= i < table.len() implies serves_kind(
            #[trigger] table[i],
            events,
            facts,
            as_of,
            bounds,
        ) && table[i].kind < count by {
            if i < earlier.len() {
                assert(table[i] == earlier[i]);
            } else {
                assert(table[i] == kind_summary(kinds, unique, count - 1));
            }
        }
        assert forall|k: int| 0 <= k < count && (#[trigger] kinds[k]).event_count > 0 implies lists_kind(
            table,
            k as u16,
        ) by {
            if k < count - 1 {
                let i = choose|i: int| 0 <= i < earlier.len() && (#[trigger] earlier[i]).kind
                    == k as u16;
                assert(table[i] == earlier[i]);
            } else {
                assert(table[table.len() - 1].kind == k as u16);
            }
        }
        assert forall|i: int, j: int| 0 <= i < j < table.len() implies (#[trigger] table[i]).kind
            < (#[trigger] table[j]).kind by {
            assert(table[i] == earlier[i]);
            if j < earlier.len() {
                assert(table[j] == earlier[j]);
            }
        }
    }
}

/// The kind table of derived counters is the only table of the sources.
pub proof fn lemma_kinds_table_unique(
    kinds: Seq<KindAccumulator>,
    unique: Seq<u64>,
    rows: Seq<ServingKindRow>,
    events: Seq<ServedEvent>,
    facts: Seq<Seq<u8>>,
    as_of: u64,
    bounds: TimestampBounds,
)
    requires
        derived_from(kinds, unique, events, facts, as_of, bounds),
    ensures
        kinds_table(rows, events, facts, as_of, bounds) <==> rows == kind_table(
            kinds,
            unique,
            65_536,
        ),
{
    let table = kind_table(kinds, unique, 65_536);
    lemma_kind_table_serves(kinds, unique, events, facts, as_of, bounds, 65_536);
    assert(kinds_table(table, events, facts, as_of, bounds)) by {
        assert forall|kind: u16|
            #[trigger] sum_events(events, of_kind(as_of, bounds, kind as int)) > 0 implies lists_kind(
            table,
            kind,
        ) by {
            assert(summarizes_kind(kinds[kind as int], events, as_of, bounds, kind as int));
            assert(kinds[kind as int].event_count > 0);
        }
    }
    if kinds_table(rows, events, facts, as_of, bounds) {
        let a = rows.map_values(|row: ServingKindRow| row.kind as int);
        let b = table.map_values(|row: ServingKindRow| row.kind as int);
        lemma_listed_kinds(rows, table, events, facts, as_of, bounds);
        lemma_listed_kinds(table, rows, events, facts, as_of, bounds);
        assert forall|x: int| a.contains(x) <==> b.contains(x) by {
            if a.contains(x) {
                let i = choose|i: int| 0 <= i < a.len() && a[i] == x;
                assert(lists_kind(table, rows[i].kind));
                let j = choose|j: int| 0 <= j < table.len() && (#[trigger] table[j]).kind
                    == rows[i].kind;
                assert(b[j] == x);
            }
            if b.contains(x) {
                let i = choose|i: int| 0 <= i < b.len() && b[i] == x;
                assert(lists_kind(rows, table[i].kind));
                let j = choose|j: int| 0 <= j < rows.len() && (#[trigger] rows[j]).kind
                    == table[i].kind;
                assert(a[j] == x);
            }
        }
        crate::activity_tables::lemma_increasing_unique(a, b);
        assert(a.len() == b.len());
        assert forall|i: int| 0 <= i < rows.len() implies rows[i] == table[i] by {
            assert(a[i] == b[i]);
            assert(serves_kind(rows[i], events, facts, as_of, bounds));
            assert(serves_kind(table[i], events, facts, as_of, bounds));
            lemma_range_unique(
                events,
                as_of,
                bounds,
                rows[i].kind as int,
                rows[i].first_seen as int,
                rows[i].last_seen as int,
                table[i].first_seen as int,
                table[i].last_seen as int,
            );
        }
        assert(rows =~= table);
    }
}

/// A kind of one table stands in the other.
proof fn lemma_listed_kinds(
    rows: Seq<ServingKindRow>,
    table: Seq<ServingKindRow>,
    events: Seq<ServedEvent>,
    facts: Seq<Seq<u8>>,
    as_of: u64,
    bounds: TimestampBounds,
)
    requires
        kinds_table(rows, events, facts, as_of, bounds),
        kinds_table(table, events, facts, as_of, bounds),
    ensures
        forall|i: int| 0 <= i < rows.len() ==> lists_kind(table, (#[trigger] rows[i]).kind),
{
    assert forall|i: int| 0 <= i < rows.len() implies lists_kind(table, (#[trigger] rows[i]).kind) by {
        assert(serves_kind(rows[i], events, facts, as_of, bounds));
        assert(sum_events(events, of_kind(as_of, bounds, rows[i].kind as int)) > 0);
    }
}

/// The range of a kind is unique.
proof fn lemma_range_unique(
    events: Seq<ServedEvent>,
    as_of: u64,
    bounds: TimestampBounds,
    kind: int,
    first: int,
    last: int,
    other_first: int,
    other_last: int,
)
    requires
        is_range(events, as_of, bounds, kind, first, last),
        is_range(events, as_of, bounds, kind, other_first, other_last),
    ensures
        first == other_first,
        last == other_last,
{
}

/// The compact artifacts of a build, with their sums.
pub struct FinalizedServing {
    /// Hourly run.
    pub hourly: EncodedRun,
    /// Kind run.
    pub kinds: EncodedRun,
    /// Sum of all-kind hourly rows.
    pub complete_hour_events: u64,
    /// Sum of the events of all kinds.
    pub eligible_kind_events: u64,
    /// Sum of the content bytes of all kinds.
    pub eligible_content_bytes: u64,
    /// Hourly keys.
    pub hourly_keys: usize,
}

/// The runs encode the tables of the sources, and the sums are theirs.
pub open spec fn finalizes(
    finalized: FinalizedServing,
    hours: Seq<ServingHourlyRow>,
    kinds: Seq<ServingKindRow>,
    events: Seq<ServedEvent>,
    facts: Seq<Seq<u8>>,
    as_of: u64,
    bounds: TimestampBounds,
) -> bool {
    &&& hourly_table(hours, events, as_of, bounds)
    &&& kinds_table(kinds, events, facts, as_of, bounds)
    &&& encodes_hourly(finalized.hourly.bytes@, hours)
    &&& encodes_kinds(finalized.kinds.bytes@, kinds)
    &&& finalized.hourly.rows == hours.len()
    &&& finalized.kinds.rows == kinds.len()
    &&& finalized.complete_hour_events == hourly_sum(hours, true)
    &&& finalized.eligible_kind_events == kind_sum(kinds, false)
    &&& finalized.eligible_content_bytes == kind_sum(kinds, true)
    &&& finalized.hourly_keys == hours.len()
    &&& finalized.hourly.keys_are(
        hours.len() > 0,
        hourly_record(hours[0]).take(8),
        hourly_record(hours[hours.len() - 1]).take(8),
    )
    &&& finalized.kinds.keys_are(
        kinds.len() > 0,
        be_bytes(kinds[0].kind as nat, 2),
        be_bytes(kinds[kinds.len() - 1].kind as nat, 2),
    )
}

/// The tables of the sources hold possible metrics, their sums fit their
/// counters, and every kind with a publisher has an event.
pub open spec fn servable(
    hours: Seq<ServingHourlyRow>,
    kinds: Seq<ServingKindRow>,
    events: Seq<ServedEvent>,
    facts: Seq<Seq<u8>>,
    as_of: u64,
    bounds: TimestampBounds,
) -> bool {
    &&& hourly_table(hours, events, as_of, bounds)
    &&& kinds_table(kinds, events, facts, as_of, bounds)
    &&& hourly_sum(hours, true) <= u64::MAX
    &&& kind_sum(kinds, false) <= u64::MAX
    &&& kind_sum(kinds, true) <= u64::MAX
    &&& forall|i: int|
        0 <= i < kinds.len() ==> crate::serving_records::is_kind_row(#[trigger] kinds[i])
    &&& forall|kind: u16| #[trigger] kind_publishers(facts, kind as int) > 0 ==> lists_kind(
        kinds,
        kind,
    )
}

/// Derive and encode the compact products of a build.
///
/// `events` and `content` are the two fact streams of `logical_events` rows,
/// and `activity` is the sorted activity stream.
pub fn finalize(
    events: &[u8],
    logical_events: u64,
    content: &[u8],
    activity: &[u8],
    as_of_epoch: u64,
    bounds: TimestampBounds,
) -> (outcome: Result<FinalizedServing>)
    ensures
        ({
            let served = served_events(events@, content@, logical_events as int);
            let facts = eligible(activity@, as_of_epoch as int);
            &&& outcome is Ok <==> {
                &&& streams_join(events@, content@, logical_events as int)
                &&& events_fit(served, as_of_epoch, bounds)
                &&& activity_stream(activity@)
                &&& exists|hours: Seq<ServingHourlyRow>, kinds: Seq<ServingKindRow>| #[trigger]
                    servable(hours, kinds, served, facts, as_of_epoch, bounds)
            }
            &&& match outcome {
                Ok(finalized) => exists|
                    hours: Seq<ServingHourlyRow>,
                    kinds: Seq<ServingKindRow>,
                | #[trigger]
                    finalizes(finalized, hours, kinds, served, facts, as_of_epoch, bounds),
                Err(error) => error is Invalid,
            }
        }),
{
    let ghost served = served_events(events@, content@, logical_events as int);
    let ghost facts = eligible(activity@, as_of_epoch as int);
    let unique: Vec<u64> = match exact_kind_unique_pubkeys(activity, as_of_epoch) {
        Ok(unique) => unique,
        Err(error) => {
            return Err(error);
        },
    };
    let derived: DerivedCompact = match derive_compact_rows(
        events,
        logical_events,
        content,
        as_of_epoch,
        bounds,
    ) {
        Ok(derived) => derived,
        Err(error) => {
            return Err(error);
        },
    };
    proof {
        assert forall|rows: Seq<ServingKindRow>| #[trigger]
            kinds_table(rows, served, facts, as_of_epoch, bounds) <==> rows == kind_table(
                derived.kinds@,
                unique@,
                65_536,
            ) by {
            lemma_kinds_table_unique(
                derived.kinds@,
                unique@,
                rows,
                served,
                facts,
                as_of_epoch,
                bounds,
            );
        }
    }
    let hours: Vec<ServingHourlyRow> = hourly_rows(
        &derived,
        Ghost(served),
        Ghost(as_of_epoch),
        Ghost(bounds),
    );
    proof {
        assert forall|rows: Seq<ServingHourlyRow>| #[trigger]
            hourly_table(rows, served, as_of_epoch, bounds) implies rows == hours@ by {
            lemma_hourly_table_unique(rows, hours@, served, as_of_epoch, bounds);
        }
    }
    let kinds: Vec<ServingKindRow> = match kind_rows(&derived.kinds, &unique) {
        Ok(kinds) => kinds,
        Err(error) => {
            proof {
                let k = choose|k: int|
                    0 <= k < 65_536 && (#[trigger] derived.kinds@[k]).event_count == 0 && unique@[k]
                        != 0;
                assert(unique@[k] == kind_publishers(facts, k));
                assert(kind_publishers(facts, (k as u16) as int) > 0);
                assert forall|rows: Seq<ServingKindRow>| #[trigger]
                    kinds_table(rows, served, facts, as_of_epoch, bounds) implies !lists_kind(
                    rows,
                    k as u16,
                ) by {
                    if lists_kind(rows, k as u16) {
                        let i = choose|i: int| 0 <= i < rows.len() && (#[trigger] rows[i]).kind
                            == k as u16;
                        assert(serves_kind(rows[i], served, facts, as_of_epoch, bounds));
                        assert(summarizes_kind(derived.kinds@[k], served, as_of_epoch, bounds, k));
                    }
                }
            }
            return Err(error);
        },
    };
    assert(kinds_table(kinds@, served, facts, as_of_epoch, bounds));
    let hourly: EncodedRun = encode_hourly_rows(&hours);
    let kind_run: EncodedRun = encode_kind_rows(&kinds);
    let complete_hour_events: u64 = match sum_hourly(&hours, true) {
        Ok(sum) => sum,
        Err(error) => {
            return Err(error);
        },
    };
    match read_kind_artifact(kind_run.bytes.as_slice(), kind_run.rows) {
        Ok(_) => {},
        Err(error) => {
            proof {
                assert(encodes_kinds(kind_run.bytes@, kinds@));
                if forall|i: int|
                    0 <= i < kinds@.len() ==> crate::serving_records::is_kind_row(
                        #[trigger] kinds@[i],
                    ) {
                    assert(reads_kinds(kind_run.bytes@, kinds@));
                }
            }
            return Err(error);
        },
    }
    let eligible_kind_events: u64 = match sum_kinds(&kinds, false) {
        Ok(sum) => sum,
        Err(error) => {
            return Err(error);
        },
    };
    let eligible_content_bytes: u64 = match sum_kinds(&kinds, true) {
        Ok(sum) => sum,
        Err(error) => {
            return Err(error);
        },
    };
    let finalized = FinalizedServing {
        hourly,
        kinds: kind_run,
        complete_hour_events,
        eligible_kind_events,
        eligible_content_bytes,
        hourly_keys: hours.len(),
    };
    proof {
        assert(finalizes(finalized, hours@, kinds@, served, facts, as_of_epoch, bounds));
        assert forall|i: int| 0 <= i < kinds@.len() implies crate::serving_records::is_kind_row(
            #[trigger] kinds@[i],
        ) by {
            let read = choose|read: Seq<ServingKindRow>| #[trigger]
                reads_kinds(kind_run.bytes@, read) && read.len() == kind_run.rows;
            crate::serving_tables::lemma_kind_artifact_round_trip(
                kind_run.bytes@,
                kinds@,
                read,
            );
        }
        assert forall|kind: u16| #[trigger] kind_publishers(facts, kind as int) > 0 implies lists_kind(
            kinds@,
            kind,
        ) by {
            assert(unique@[kind as int] == kind_publishers(facts, kind as int));
            assert(derived.kinds@[kind as int].event_count > 0);
            assert(summarizes_kind(
                derived.kinds@[kind as int],
                served,
                as_of_epoch,
                bounds,
                kind as int,
            ));
            assert(sum_events(served, of_kind(as_of_epoch, bounds, kind as int)) > 0);
        }
        assert(servable(hours@, kinds@, served, facts, as_of_epoch, bounds));
    }
    Ok(finalized)
}

/// The evidence is a completed product whose counts agree with each other.
pub open spec fn is_accounted(evidence: ServingFactsEvidence) -> bool {
    &&& evidence.schema_version == SCHEMA_VERSION
    &&& evidence.runner_version@ == SERVING_FACTS_RUNNER_VERSION@
    &&& evidence.status@ == "completed"@
    &&& evidence.complete_through_epoch == evidence.as_of_epoch - evidence.as_of_epoch % 3_600
    &&& evidence.content_artifact.row_count == evidence.logical_events
    &&& evidence.logical_events + evidence.duplicate_rows == evidence.physical_rows
    &&& evidence.event_facts_artifact.row_count == evidence.logical_events
}

/// The bytes of the five artifacts of a product.
pub struct ServingArtifacts<'a> {
    /// Event facts.
    pub events: &'a [u8],
    /// Content facts.
    pub content: &'a [u8],
    /// Hourly counts.
    pub hourly: &'a [u8],
    /// Kind summaries.
    pub kinds: &'a [u8],
    /// Activity stream.
    pub activity: &'a [u8],
}

/// Every artifact has its recorded size, rows and digest.
pub open spec fn artifacts_match(
    evidence: ServingFactsEvidence,
    artifacts: ServingArtifacts,
) -> bool {
    &&& describes_records(evidence.content_artifact, 40, artifacts.content@)
    &&& describes_records(evidence.hourly_artifact, 16, artifacts.hourly@)
    &&& describes_records(evidence.kind_artifact, 42, artifacts.kinds@)
    &&& describes_records(evidence.event_facts_artifact, 42, artifacts.events@)
    &&& describes_records(evidence.activity_artifact, 70, artifacts.activity@)
}

/// The tables are those of the sources, the artifacts hold them, and the sums
/// of the evidence are theirs.
pub open spec fn tables_reconcile(
    evidence: ServingFactsEvidence,
    artifacts: ServingArtifacts,
    hours: Seq<ServingHourlyRow>,
    kinds: Seq<ServingKindRow>,
    bounds: TimestampBounds,
) -> bool {
    let served = served_events(
        artifacts.events@,
        artifacts.content@,
        evidence.logical_events as int,
    );
    let facts = eligible(artifacts.activity@, evidence.as_of_epoch as int);
    &&& hourly_table(hours, served, evidence.as_of_epoch, bounds)
    &&& kinds_table(kinds, served, facts, evidence.as_of_epoch, bounds)
    &&& encodes_hourly(artifacts.hourly@, hours)
    &&& reads_kinds(artifacts.kinds@, kinds)
    &&& evidence.complete_hour_events == hourly_sum(hours, true)
    &&& evidence.memory.hourly_keys == hours.len()
    &&& evidence.eligible_kind_events == kind_sum(kinds, false)
    &&& evidence.eligible_content_bytes == kind_sum(kinds, true)
}

/// The product follows from its sources.
pub open spec fn product_valid(
    evidence: ServingFactsEvidence,
    artifacts: ServingArtifacts,
    bounds: TimestampBounds,
) -> bool {
    &&& is_accounted(evidence)
    &&& artifacts_match(evidence, artifacts)
    &&& streams_join(artifacts.events@, artifacts.content@, evidence.logical_events as int)
    &&& events_fit(
        served_events(artifacts.events@, artifacts.content@, evidence.logical_events as int),
        evidence.as_of_epoch,
        bounds,
    )
    &&& activity_stream(artifacts.activity@)
    &&& exists|hours: Seq<ServingHourlyRow>, kinds: Seq<ServingKindRow>| #[trigger]
        tables_reconcile(evidence, artifacts, hours, kinds, bounds)
}

/// Whether the evidence is a completed product whose counts agree.
fn check_accounts(evidence: &ServingFactsEvidence) -> (outcome: Result<()>)
    ensures
        outcome is Ok <==> is_accounted(*evidence),
        outcome is Err ==> outcome->Err_0 is Invalid,
{
    if evidence.schema_version != SCHEMA_VERSION || !text_equal(
        evidence.runner_version.as_str(),
        SERVING_FACTS_RUNNER_VERSION,
    ) || !text_equal(evidence.status.as_str(), "completed") || evidence.complete_through_epoch
        != floor_hour(evidence.as_of_epoch) || evidence.content_artifact.row_count
        != evidence.logical_events {
        return Err(Error::Invalid("serving-facts evidence identity or accounting is invalid"));
    }
    match checked_add(evidence.logical_events, evidence.duplicate_rows, "loaded content rows overflowed") {
        Err(error) => {
            return Err(error);
        },
        Ok(total) => {
            if total != evidence.physical_rows {
                return Err(
                    Error::Invalid("serving-facts evidence identity or accounting is invalid"),
                );
            }
        },
    }
    if evidence.event_facts_artifact.row_count != evidence.logical_events {
        return Err(Error::Invalid("serving-facts event source row count is invalid"));
    }
    Ok(())
}

/// Whether every artifact has its recorded size, rows and digest.
fn check_artifacts(evidence: &ServingFactsEvidence, artifacts: &ServingArtifacts) -> (same: bool)
    ensures
        same == artifacts_match(*evidence, *artifacts),
{
    artifact_describes(&evidence.content_artifact, CONTENT_FACT_BYTES, artifacts.content)
        && artifact_describes(&evidence.hourly_artifact, HOURLY_COUNT_BYTES, artifacts.hourly)
        && artifact_describes(&evidence.kind_artifact, KIND_SUMMARY_BYTES, artifacts.kinds)
        && artifact_describes(&evidence.event_facts_artifact, EVENT_FACT_BYTES, artifacts.events)
        && artifact_describes(
        &evidence.activity_artifact,
        crate::activity::FIXED_ACTIVITY_RECORD_BYTES,
        artifacts.activity,
    )
}

/// Whether two lists of hourly rows are the same.
fn hourly_equal(a: &Vec<ServingHourlyRow>, b: &Vec<ServingHourlyRow>) -> (same: bool)
    ensures
        same == (a@ == b@),
{
    if a.len() != b.len() {
        return false;
    }
    let mut i: usize = 0;
    while i < a.len()
        invariant
            i <= a@.len(),
            a@.len() == b@.len(),
            forall|j: int| 0 <= j < i ==> a@[j] == b@[j],
        decreases a.len() - i,
    {
        if a[i] != b[i] {
            return false;
        }
        i += 1;
    }
    assert(a@ =~= b@);
    true
}

/// Whether two lists of kind rows are the same.
fn kinds_equal(a: &Vec<ServingKindRow>, b: &Vec<ServingKindRow>) -> (same: bool)
    ensures
        same == (a@ == b@),
{
    if a.len() != b.len() {
        return false;
    }
    let mut i: usize = 0;
    while i < a.len()
        invariant
            i <= a@.len(),
            a@.len() == b@.len(),
            forall|j: int| 0 <= j < i ==> a@[j] == b@[j],
        decreases a.len() - i,
    {
        if a[i] != b[i] {
            return false;
        }
        i += 1;
    }
    assert(a@ =~= b@);
    true
}

/// The kind table of derived counters, without the check on idle kinds.
fn expected_kind_rows(kinds: &Vec<KindAccumulator>, unique: &Vec<u64>) -> (rows: Vec<
    ServingKindRow,
>)
    requires
        kinds@.len() == 65_536,
        unique@.len() == 65_536,
    ensures
        rows@ == kind_table(kinds@, unique@, 65_536),
{
    let mut rows: Vec<ServingKindRow> = Vec::new();
    let mut k: usize = 0;
    while k < 65_536
        invariant
            k <= 65_536,
            kinds@.len() == 65_536,
            unique@.len() == 65_536,
            rows@ == kind_table(kinds@, unique@, k as int),
        decreases 65_536 - k,
    {
        let row: KindAccumulator = kinds[k];
        if row.event_count != 0 {
            rows.push(
                ServingKindRow {
                    kind: k as u16,
                    event_count: row.event_count,
                    unique_pubkeys: unique[k],
                    first_seen: row.first_seen,
                    last_seen: row.last_seen,
                    content_bytes: row.content_bytes,
                    content_rows: row.content_rows,
                },
            );
        }
        k += 1;
    }
    rows
}

/// Revalidate a product against its sources.
pub fn validate_bounded_serving_facts(
    product: &BoundedServingFacts,
    artifacts: &ServingArtifacts,
    bounds: TimestampBounds,
) -> (outcome: Result<()>)
    ensures
        outcome is Ok <==> product_valid(product.evidence, *artifacts, bounds),
        outcome is Err ==> outcome->Err_0 is Invalid,
{
    let evidence: &ServingFactsEvidence = &product.evidence;
    match check_accounts(evidence) {
        Ok(()) => {},
        Err(error) => {
            return Err(error);
        },
    }
    if !check_artifacts(evidence, artifacts) {
        return Err(Error::Invalid("serving-facts artifact identity mismatch"));
    }
    proof {
        lemma_row_count(evidence.hourly_artifact, 16, artifacts.hourly@);
        lemma_row_count(evidence.kind_artifact, 42, artifacts.kinds@);
    }
    let ghost as_of = evidence.as_of_epoch;
    let ghost served = served_events(
        artifacts.events@,
        artifacts.content@,
        evidence.logical_events as int,
    );
    let ghost facts = eligible(artifacts.activity@, evidence.as_of_epoch as int);
    let derived: DerivedCompact = match derive_compact_rows(
        artifacts.events,
        evidence.logical_events,
        artifacts.content,
        evidence.as_of_epoch,
        bounds,
    ) {
        Ok(derived) => derived,
        Err(error) => {
            return Err(error);
        },
    };
    let expected_hours: Vec<ServingHourlyRow> = hourly_rows(
        &derived,
        Ghost(served),
        Ghost(as_of),
        Ghost(bounds),
    );
    proof {
        assert forall|hours: Seq<ServingHourlyRow>| #[trigger]
            hourly_table(hours, served, as_of, bounds) implies hours == expected_hours@ by {
            lemma_hourly_table_unique(hours, expected_hours@, served, as_of, bounds);
        }
    }
    let hours: Vec<ServingHourlyRow> = match read_hourly_artifact(
        artifacts.hourly,
        evidence.hourly_artifact.row_count,
    ) {
        Ok(rows) => rows,
        Err(error) => {
            proof {
                if encodes_hourly(artifacts.hourly@, expected_hours@) {
                    lemma_table_positive(expected_hours@, served, as_of, bounds);
                    lemma_hourly_artifact_round_trip(
                        artifacts.hourly@,
                        expected_hours@,
                        expected_hours@,
                    );
                }
            }
            return Err(error);
        },
    };
    proof {
        lemma_table_positive(expected_hours@, served, as_of, bounds);
        if encodes_hourly(artifacts.hourly@, expected_hours@) {
            lemma_hourly_artifact_round_trip(artifacts.hourly@, expected_hours@, hours@);
        }
    }
    if !hourly_equal(&hours, &expected_hours) {
        return Err(Error::Invalid("hourly artifact differs from canonical sources"));
    }
    let all_kind_sum: u64 = match sum_hourly(&hours, true) {
        Ok(sum) => sum,
        Err(error) => {
            return Err(error);
        },
    };
    if all_kind_sum != evidence.complete_hour_events || evidence.memory.hourly_keys as u64
        != evidence.hourly_artifact.row_count {
        return Err(Error::Invalid("serving-facts hourly artifact does not reconcile"));
    }
    let unique: Vec<u64> = match exact_kind_unique_pubkeys(
        artifacts.activity,
        evidence.as_of_epoch,
    ) {
        Ok(unique) => unique,
        Err(error) => {
            return Err(error);
        },
    };
    let expected_kinds: Vec<ServingKindRow> = expected_kind_rows(&derived.kinds, &unique);
    proof {
        assert forall|rows: Seq<ServingKindRow>| #[trigger]
            kinds_table(rows, served, facts, as_of, bounds) <==> rows == expected_kinds@ by {
            lemma_kinds_table_unique(
                derived.kinds@,
                unique@,
                rows,
                served,
                facts,
                as_of,
                bounds,
            );
        }
    }
    let kinds: Vec<ServingKindRow> = match read_kind_artifact(
        artifacts.kinds,
        evidence.kind_artifact.row_count,
    ) {
        Ok(rows) => rows,
        Err(error) => {
            return Err(error);
        },
    };
    proof {
        if encodes_kinds(artifacts.kinds@, expected_kinds@) {
            crate::serving_tables::lemma_kind_artifact_round_trip(
                artifacts.kinds@,
                expected_kinds@,
                kinds@,
            );
        }
    }
    if !kinds_equal(&kinds, &expected_kinds) {
        return Err(Error::Invalid("kind artifact differs from canonical sources"));
    }
    let kind_events: u64 = match sum_kinds(&kinds, false) {
        Ok(sum) => sum,
        Err(error) => {
            return Err(error);
        },
    };
    let content_bytes: u64 = match sum_kinds(&kinds, true) {
        Ok(sum) => sum,
        Err(error) => {
            return Err(error);
        },
    };
    if kind_events != evidence.eligible_kind_events || content_bytes
        != evidence.eligible_content_bytes {
        return Err(Error::Invalid("serving-facts kind artifact does not reconcile"));
    }
    assert(tables_reconcile(*evidence, *artifacts, hours@, kinds@, bounds));
    Ok(())
}

/// The rows of an hourly table count something.
proof fn lemma_table_positive(
    rows: Seq<ServingHourlyRow>,
    events: Seq<ServedEvent>,
    as_of: u64,
    bounds: TimestampBounds,
)
    requires
        hourly_table(rows, events, as_of, bounds),
    ensures
        forall|i: int| 0 <= i < rows.len() ==> (#[trigger] rows[i]).event_count > 0,
{
    assert forall|i: int| 0 <= i < rows.len() implies (#[trigger] rows[i]).event_count > 0 by {
        assert(crate::serving_tables::counts_hourly_row(rows[i], events, as_of, bounds));
    }
}

/// Read the exact kind rows of a product.
pub fn read_serving_kind_rows(product: &BoundedServingFacts, artifact: &[u8]) -> (outcome: Result<
    Vec<ServingKindRow>,
>)
    ensures
        outcome is Ok <==> exists|rows: Seq<ServingKindRow>| #[trigger]
            reads_kinds(artifact@, rows) && rows.len()
                == product.evidence.kind_artifact.row_count,
        match outcome {
            Ok(rows) => reads_kinds(artifact@, rows@) && rows@.len()
                == product.evidence.kind_artifact.row_count,
            Err(error) => error is Invalid,
        },
{
    read_kind_artifact(artifact, product.evidence.kind_artifact.row_count)
}

/// Read the exact sparse hourly rows of a product.
pub fn read_serving_hourly_rows(
    product: &BoundedServingFacts,
    artifact: &[u8],
) -> (outcome: Result<Vec<ServingHourlyRow>>)
    ensures
        outcome is Ok <==> crate::serving_tables::hourly_artifact(
            artifact@,
            product.evidence.hourly_artifact.row_count as int,
        ),
        match outcome {
            Ok(rows) => {
                &&& rows@.len() == product.evidence.hourly_artifact.row_count
                &&& encodes_hourly(artifact@, rows@)
                &&& crate::serving_tables::hourly_ordered(rows@)
            },
            Err(error) => error is Invalid,
        },
{
    read_hourly_artifact(artifact, product.evidence.hourly_artifact.row_count)
}

/// Visit the exact kind rows of a product, up to the first error of the visitor.
pub fn visit_serving_kind_rows<X, V: Fn(X, ServingKindRow) -> (X, Result<()>)>(
    product: &BoundedServingFacts,
    artifact: &[u8],
    x: X,
    visitor: &V,
) -> (made: (X, Result<()>))
    requires
        forall|x: X, row: ServingKindRow| #[trigger] call_requires(*visitor, (x, row)),
    ensures
        exists|rows: Seq<ServingKindRow>, states: Seq<X>|
            visits_rows(
                visit_of(*visitor),
                x,
                held_kinds(artifact@, product.evidence.kind_artifact.row_count as int),
                rows,
                states,
                made,
            ),
{
    visit_kind_artifact(artifact, product.evidence.kind_artifact.row_count, x, visitor)
}

/// Visit the exact sparse hourly rows of a product, up to the first error of the
/// visitor.
pub fn visit_serving_hourly_rows<X, V: Fn(X, ServingHourlyRow) -> (X, Result<()>)>(
    product: &BoundedServingFacts,
    artifact: &[u8],
    x: X,
    visitor: &V,
) -> (made: (X, Result<()>))
    requires
        forall|x: X, row: ServingHourlyRow| #[trigger] call_requires(*visitor, (x, row)),
    ensures
        exists|rows: Seq<ServingHourlyRow>, states: Seq<X>|
            visits_rows(
                visit_of(*visitor),
                x,
                held_hours(artifact@, product.evidence.hourly_artifact.row_count as int),
                rows,
                states,
                made,
            ),
{
    visit_hourly_artifact(artifact, product.evidence.hourly_artifact.row_count, x, visitor)
}

impl BoundedServingFacts {
    /// Revalidate the product for publication on one baseline.
    pub fn validate_for_publication(
        &self,
        snapshot_id: &str,
        as_of_epoch: u64,
        activity_evidence_sha256: &str,
        artifacts: &ServingArtifacts,
        bounds: TimestampBounds,
    ) -> (outcome: Result<()>)
        ensures
            outcome is Ok <==> {
                &&& self.evidence.snapshot_id@ == snapshot_id@
                &&& self.evidence.as_of_epoch == as_of_epoch
                &&& self.evidence.activity_evidence_sha256@ == activity_evidence_sha256@
                &&& product_valid(self.evidence, *artifacts, bounds)
            },
            outcome is Err ==> outcome->Err_0 is Invalid,
    {
        if !text_equal(self.evidence.snapshot_id.as_str(), snapshot_id)
            || self.evidence.as_of_epoch != as_of_epoch || !text_equal(
            self.evidence.activity_evidence_sha256.as_str(),
            activity_evidence_sha256,
        ) {
            return Err(
                Error::Invalid("serving-facts evidence is not a completed matching product"),
            );
        }
        validate_bounded_serving_facts(self, artifacts, bounds)
    }
}

/// The boundary is one that the API represents, merges make progress, and
/// every object has a location.
pub open spec fn config_fits(
    snapshot: ResolvedSnapshot,
    as_of_epoch: u64,
    config: ServingFactsConfig,
    bounds: TimestampBounds,
) -> bool {
    &&& as_of_epoch <= bounds.api_max
    &&& config.merge_fan_in >= 2
    &&& snapshot.locations@.len() == snapshot.catalog.objects@.len()
}

/// Check the settings of a build.
pub fn validate_config(
    snapshot: &ResolvedSnapshot,
    as_of_epoch: u64,
    config: &ServingFactsConfig,
    bounds: TimestampBounds,
) -> (outcome: Result<()>)
    ensures
        outcome is Ok <==> config_fits(*snapshot, as_of_epoch, *config, bounds),
        outcome is Err ==> outcome == Err::<(), Error>(
            Error::Invalid("invalid serving-facts build configuration"),
        ),
{
    if as_of_epoch > bounds.api_max || config.merge_fan_in < 2 || snapshot.locations.len()
        != snapshot.catalog.objects.len() {
        return Err(Error::Invalid("invalid serving-facts build configuration"));
    }
    Ok(())
}

/// What a build needs of the products that it starts from.
pub struct ServingSource {
    /// Snapshot of the product.
    pub snapshot_id: String,
    /// Boundary of the product.
    pub as_of_epoch: u64,
    /// SHA-256 of its evidence.
    pub evidence_sha256: String,
    /// Its artifact.
    pub artifact: ArtifactIdentity,
    /// Events that it holds.
    pub logical_events: u64,
}

/// Check that both source products belong to the build.
pub fn check_sources(
    snapshot: &ResolvedSnapshot,
    as_of_epoch: u64,
    events: &ServingSource,
    activity: &ServingSource,
) -> (outcome: Result<()>)
    ensures
        outcome is Ok <==> {
            &&& events.snapshot_id@ == snapshot.catalog.snapshot_id@
            &&& events.as_of_epoch == as_of_epoch
            &&& activity.snapshot_id@ == snapshot.catalog.snapshot_id@
            &&& activity.as_of_epoch == as_of_epoch
        },
        outcome is Err ==> outcome == Err::<(), Error>(
            Error::Invalid("serving-facts source products do not share one frozen identity"),
        ),
{
    if !text_equal(events.snapshot_id.as_str(), snapshot.catalog.snapshot_id.as_str())
        || events.as_of_epoch != as_of_epoch || !text_equal(
        activity.snapshot_id.as_str(),
        snapshot.catalog.snapshot_id.as_str(),
    ) || activity.as_of_epoch != as_of_epoch {
        return Err(
            Error::Invalid("serving-facts source products do not share one frozen identity"),
        );
    }
    Ok(())
}

/// Bytes that all generations of the content runs take.
pub fn estimate_run_bytes(rows: u64, batches: usize, fan_in: usize) -> (bytes: Result<u64>)
    requires
        2 <= fan_in,
    ensures
        ({
            let exact = merge_bytes(rows as int, 40, batches as int, fan_in as int);
            &&& exact <= u64::MAX ==> bytes == Ok::<u64, Error>(exact as u64)
            &&& exact > u64::MAX ==> bytes == Err::<u64, Error>(
                Error::Invalid("content run estimate overflowed"),
            )
        }),
{
    estimate_merge_bytes(rows, CONTENT_FACT_BYTES as u64, batches, fan_in, "content run estimate overflowed")
}

/// The identity of one stage of the content runs.
pub fn run_identity(snapshot_id: &str, as_of_epoch: u64, stage: &str) -> (run: RunIdentity)
    ensures
        crate::runs::identifies_stage(
            run,
            snapshot_id@,
            as_of_epoch,
            "serving-content"@ + "-"@ + stage@,
            SERVING_FACTS_VERSION@,
            "event-id-32-content-bytes-u64-v1"@,
        ),
{
    crate::runs::stage_identity(
        snapshot_id,
        as_of_epoch,
        "serving-content",
        stage,
        SERVING_FACTS_VERSION,
        "event-id-32-content-bytes-u64-v1",
    )
}

/// The identity of one compact run.
pub fn compact_identity(
    snapshot_id: &str,
    as_of_epoch: u64,
    stage: &str,
    key_space: &str,
) -> (run: RunIdentity)
    ensures
        crate::runs::identifies_stage(
            run,
            snapshot_id@,
            as_of_epoch,
            "serving"@ + "-"@ + stage@,
            SERVING_FACTS_VERSION@,
            key_space@,
        ),
{
    crate::runs::stage_identity(
        snapshot_id,
        as_of_epoch,
        "serving",
        stage,
        SERVING_FACTS_VERSION,
        key_space,
    )
}

/// The evidence reports the build.
pub open spec fn completes_serving(
    evidence: ServingFactsEvidence,
    snapshot: ResolvedSnapshot,
    as_of_epoch: u64,
    config: ServingFactsConfig,
    batch_count: usize,
    estimated_run_bytes: u64,
    events: ServingSource,
    activity: ServingSource,
    progress: BatchProgress,
    merged: MergeOutcome,
    finalized: FinalizedServing,
    hourly_artifact: ArtifactIdentity,
    kind_artifact: ArtifactIdentity,
) -> bool {
    let logical = merged.final_run.checkpoint.artifact.row_count;
    &&& evidence.schema_version == SCHEMA_VERSION
    &&& evidence.runner_version@ == SERVING_FACTS_RUNNER_VERSION@
    &&& evidence.status@ == "completed"@
    &&& evidence.snapshot_id == snapshot.catalog.snapshot_id
    &&& evidence.as_of_epoch == as_of_epoch
    &&& evidence.complete_through_epoch == as_of_epoch - as_of_epoch % 3_600
    &&& evidence.object_count == snapshot.catalog.objects@.len()
    &&& evidence.physical_rows == snapshot.catalog.physical_rows
    &&& evidence.logical_events == logical
    &&& evidence.duplicate_rows == snapshot.catalog.physical_rows - logical
    &&& evidence.event_facts_evidence_sha256 == events.evidence_sha256
    &&& evidence.event_facts_artifact == events.artifact
    &&& evidence.activity_evidence_sha256 == activity.evidence_sha256
    &&& evidence.activity_artifact == activity.artifact
    &&& evidence.content_artifact == merged.final_run.checkpoint.artifact
    &&& evidence.hourly_artifact == hourly_artifact
    &&& evidence.kind_artifact == kind_artifact
    &&& evidence.complete_hour_events == finalized.complete_hour_events
    &&& evidence.eligible_kind_events == finalized.eligible_kind_events
    &&& evidence.eligible_content_bytes == finalized.eligible_content_bytes
    &&& evidence.batch_count == batch_count
    &&& evidence.merge_count == merged.merge_count
    &&& evidence.estimated_run_bytes == estimated_run_bytes
    &&& evidence.disk_reserve_bytes == config.disk_reserve_bytes
    &&& evidence.memory == (ServingFactsMemoryEvidence {
        max_batch_bytes: progress.max_batch_bytes,
        max_batch_rows: progress.max_batch_rows,
        max_merge_buffered_bytes: merged.max_buffered_bytes,
        hourly_keys: finalized.hourly_keys,
        kind_counter_slots: 65_536,
    })
    &&& evidence.batch_checkpoints@ == progress.checkpoints@
    &&& evidence.merge_checkpoints@ == merged.checkpoints@
}

/// The evidence of a build whose content facts reconcile with the event facts.
pub fn complete_serving_facts(
    snapshot: &ResolvedSnapshot,
    as_of_epoch: u64,
    config: &ServingFactsConfig,
    batch_count: usize,
    estimated_run_bytes: u64,
    events: ServingSource,
    activity: ServingSource,
    progress: BatchProgress,
    merged: MergeOutcome,
    finalized: &FinalizedServing,
    hourly_artifact: ArtifactIdentity,
    kind_artifact: ArtifactIdentity,
) -> (outcome: Result<ServingFactsEvidence>)
    ensures
        ({
            let logical = merged.final_run.checkpoint.artifact.row_count;
            &&& outcome is Ok <==> {
                &&& logical == events.logical_events
                &&& reconciles(
                    snapshot.catalog.physical_rows,
                    logical,
                    progress.duplicate_rows,
                    merged.duplicate_rows,
                )
            }
            &&& match outcome {
                Ok(evidence) => completes_serving(
                    evidence,
                    *snapshot,
                    as_of_epoch,
                    *config,
                    batch_count,
                    estimated_run_bytes,
                    events,
                    activity,
                    progress,
                    merged,
                    *finalized,
                    hourly_artifact,
                    kind_artifact,
                ),
                Err(error) => error is Invalid,
            }
        }),
{
    let logical: u64 = merged.final_run.checkpoint.artifact.row_count;
    if logical != events.logical_events {
        return Err(Error::Invalid("content facts do not reconcile to canonical event facts"));
    }
    let duplicates: u64 = match reconcile_duplicates(
        snapshot.catalog.physical_rows,
        logical,
        progress.duplicate_rows,
        merged.duplicate_rows,
    ) {
        Ok(rows) => rows,
        Err(error) => {
            return Err(error);
        },
    };
    Ok(
        ServingFactsEvidence {
            schema_version: SCHEMA_VERSION,
            runner_version: SERVING_FACTS_RUNNER_VERSION.to_owned(),
            status: "completed".to_owned(),
            snapshot_id: snapshot.catalog.snapshot_id.clone(),
            as_of_epoch,
            complete_through_epoch: floor_hour(as_of_epoch),
            object_count: snapshot.catalog.objects.len() as u64,
            physical_rows: snapshot.catalog.physical_rows,
            logical_events: logical,
            duplicate_rows: duplicates,
            event_facts_evidence_sha256: events.evidence_sha256,
            event_facts_artifact: events.artifact,
            activity_evidence_sha256: activity.evidence_sha256,
            activity_artifact: activity.artifact,
            content_artifact: merged.final_run.checkpoint.artifact,
            hourly_artifact,
            kind_artifact,
            complete_hour_events: finalized.complete_hour_events,
            eligible_kind_events: finalized.eligible_kind_events,
            eligible_content_bytes: finalized.eligible_content_bytes,
            batch_count: batch_count as u64,
            merge_count: merged.merge_count,
            estimated_run_bytes,
            disk_reserve_bytes: config.disk_reserve_bytes,
            memory: ServingFactsMemoryEvidence {
                max_batch_bytes: progress.max_batch_bytes,
                max_batch_rows: progress.max_batch_rows,
                max_merge_buffered_bytes: merged.max_buffered_bytes,
                hourly_keys: finalized.hourly_keys,
                kind_counter_slots: 65_536,
            },
            batch_checkpoints: progress.checkpoints,
            merge_checkpoints: merged.checkpoints,
        },
    )
}

/// Take up decoded evidence as a product and revalidate it.
pub fn load_bounded_serving_facts(
    evidence: ServingFactsEvidence,
    evidence_json: &[u8],
    artifacts: &ServingArtifacts,
    bounds: TimestampBounds,
) -> (outcome: Result<BoundedServingFacts>)
    ensures
        outcome is Ok <==> product_valid(evidence, *artifacts, bounds),
        match outcome {
            Ok(loaded) => {
                &&& loaded.evidence == evidence
                &&& loaded.evidence_sha256@ == sha256_text(evidence_json@)
            },
            Err(error) => error is Invalid,
        },
{
    let product: BoundedServingFacts = BoundedServingFacts {
        evidence,
        evidence_sha256: sha256_hex(evidence_json),
    };
    match validate_bounded_serving_facts(&product, artifacts, bounds) {
        Ok(()) => Ok(product),
        Err(error) => Err(error),
    }
}

/// A completed build passes the revalidation that precedes its publication.
///
/// `hours` and `kinds` are the tables of the sources.
pub proof fn lemma_completed_serving_revalidates(
    evidence: ServingFactsEvidence,
    snapshot: ResolvedSnapshot,
    as_of_epoch: u64,
    config: ServingFactsConfig,
    batch_count: usize,
    estimated_run_bytes: u64,
    events: ServingSource,
    activity: ServingSource,
    progress: BatchProgress,
    merged: MergeOutcome,
    finalized: FinalizedServing,
    hourly_artifact: ArtifactIdentity,
    kind_artifact: ArtifactIdentity,
    artifacts: ServingArtifacts,
    hours: Seq<ServingHourlyRow>,
    kinds: Seq<ServingKindRow>,
    bounds: TimestampBounds,
)
    requires
        completes_serving(
            evidence,
            snapshot,
            as_of_epoch,
            config,
            batch_count,
            estimated_run_bytes,
            events,
            activity,
            progress,
            merged,
            finalized,
            hourly_artifact,
            kind_artifact,
        ),
        merged.final_run.checkpoint.artifact.row_count <= snapshot.catalog.physical_rows,
        events.artifact.row_count == merged.final_run.checkpoint.artifact.row_count,
        describes_records(merged.final_run.checkpoint.artifact, 40, artifacts.content@),
        describes_records(hourly_artifact, 16, artifacts.hourly@),
        describes_records(kind_artifact, 42, artifacts.kinds@),
        describes_records(events.artifact, 42, artifacts.events@),
        describes_records(activity.artifact, 70, artifacts.activity@),
        artifacts.hourly@ == finalized.hourly.bytes@,
        artifacts.kinds@ == finalized.kinds.bytes@,
        activity_stream(artifacts.activity@),
        ({
            let logical = merged.final_run.checkpoint.artifact.row_count;
            let served = served_events(
                artifacts.events@,
                artifacts.content@,
                logical as int,
            );
            let facts = eligible(artifacts.activity@, as_of_epoch as int);
            &&& streams_join(artifacts.events@, artifacts.content@, logical as int)
            &&& events_fit(served, as_of_epoch, bounds)
            &&& finalizes(finalized, hours, kinds, served, facts, as_of_epoch, bounds)
            &&& servable(hours, kinds, served, facts, as_of_epoch, bounds)
        }),
    ensures
        product_valid(evidence, artifacts, bounds),
{
    assert(tables_reconcile(evidence, artifacts, hours, kinds, bounds));
}

} // verus!
