//! Bounded exact fixed-grain publisher activity products.
//!
//! The durable state is one sorted `(pubkey, timestamp, kind, event ID)` record
//! for each event. Retaining the event ID suppresses duplicates across catalog
//! objects before any count is finalized, and retaining the exact timestamp
//! lets append-only successors advance `as_of` without rescanning unchanged
//! objects: newly eligible records are filtered during finalization.

use vstd::prelude::*;

use crate::activity::{
    activity_fact, activity_stream, created_at, eligible, eligible_facts, lemma_eligible_grouped,
    lemma_eligible_members, lemma_fact_len, publisher, ActivityReader, FIXED_ACTIVITY_RECORD_BYTES,
};
use crate::activity_counts::{ActivityCounts, FinalizedActivity};
use crate::activity_tables::{
    active_rows_equal, active_table, distinct_rows_equal, distinct_table,
    lemma_active_table_unique, lemma_distinct_table_unique, ActiveUsersPeriod,
    DistinctPubkeysPeriod,
};
use crate::artifact::{artifact_describes, describes_records, ArtifactIdentity};
use crate::bytes::{bytes_equal, push_bytes, read_32, read_u32};
use crate::digest::{sha256_hex, sha256_text};
use crate::error::{Error, Result};
use crate::period_counter::{flag_byte, largest_kind_set, Grain};
use crate::publishers::{publisher_order, starts_group};
use crate::records::{record, record_count, PlainReader};
use crate::text::text_equal;

verus! {

/// Publisher key plus exact ever-observed profile and follows flags.
pub const PUBKEY_FLAGS_RECORD_BYTES: usize = 33;

/// The flags artifact holds one record for each publisher, in publisher order.
pub open spec fn flags_match(facts: Seq<Seq<u8>>, flags: Seq<u8>) -> bool {
    &&& flags.len() % 33 == 0
    &&& record_count(flags, 33) == publisher_order(facts).len()
    &&& forall|k: int|
        0 <= k < publisher_order(facts).len() ==> record(flags, 33, k).take(32)
            == #[trigger] publisher_order(facts)[k]
}

/// Every counted record falls in a week that starts on or after the epoch.
pub open spec fn weeks_defined(activity: Seq<u8>, as_of: int) -> bool {
    forall|i: int|
        0 <= i < record_count(activity, 70) && created_at(#[trigger] activity_fact(activity, i))
            <= as_of ==> 345_600 <= created_at(activity_fact(activity, i))
}

/// Publishers of a longer run of records continue those of a shorter one.
proof fn lemma_order_prefix(bytes: Seq<u8>, as_of: int, short: int, long: int)
    requires
        0 <= short <= long,
    ensures
        publisher_order(eligible_facts(bytes, as_of, short)).len() <= publisher_order(
            eligible_facts(bytes, as_of, long),
        ).len(),
        forall|k: int|
            0 <= k < publisher_order(eligible_facts(bytes, as_of, short)).len()
                ==> #[trigger] publisher_order(eligible_facts(bytes, as_of, long))[k]
                == publisher_order(eligible_facts(bytes, as_of, short))[k],
    decreases long,
{
    if short < long {
        lemma_order_prefix(bytes, as_of, short, long - 1);
        let earlier = eligible_facts(bytes, as_of, long - 1);
        let fact = activity_fact(bytes, long - 1);
        assert(earlier.push(fact).drop_last() =~= earlier);
    }
}

/// Count the publishers and events of every period.
///
/// The activity stream and the flags run side by side: each publisher with a
/// record not later than `as_of_epoch` owns the next flag record.
fn count_activity(activity: &[u8], flags: &[u8], as_of_epoch: u64) -> (outcome: Result<
    (ActivityCounts, u64, u64),
>)
    requires
        weeks_defined(activity@, as_of_epoch as int),
    ensures
        ({
            let facts = eligible(activity@, as_of_epoch as int);
            match outcome {
                Ok(counted) => {
                    &&& activity_stream(activity@)
                    &&& flags_match(facts, flags@)
                    &&& counted.0.counts(facts, flags@)
                    &&& counted.1 == record_count(activity@, 70)
                    &&& counted.2 == record_count(flags@, 33)
                },
                Err(error) => {
                    &&& error is Invalid
                    &&& !(activity_stream(activity@) && flags_match(facts, flags@))
                },
            }
        }),
{
    let ghost as_of = as_of_epoch as int;
    let ghost total = record_count(activity@, 70);
    let mut counts: ActivityCounts = ActivityCounts::new();
    let mut activity_rows: u64 = 0;
    let mut flag_rows: u64 = 0;
    let mut reader: ActivityReader = ActivityReader::open(activity);
    let mut marks: PlainReader = PlainReader::new(flags, PUBKEY_FLAGS_RECORD_BYTES);
    let mut current: Option<[u8; 32]> = None;
    let mut value: u8 = 0;
    let ghost mut facts = Seq::<Seq<u8>>::empty();
    loop
        invariant_except_break
            reader.position() >= 0,
        invariant
            as_of == as_of_epoch,
            total == record_count(activity@, 70),
            weeks_defined(activity@, as_of),
            reader.wf(),
            reader.source() == activity@,
            reader.position() <= total,
            facts == eligible_facts(activity@, as_of, reader.position()),
            counts.counts(facts, flags@),
            counts.tracks(facts),
            activity_rows == reader.position(),
            flag_rows == marks.position(),
            marks.wf(),
            marks.source() == flags@,
            marks.width() == 33,
            marks.position() == publisher_order(facts).len(),
            marks.position() <= record_count(flags@, 33),
            forall|k: int|
                0 <= k < publisher_order(facts).len() ==> record(flags@, 33, k).take(32)
                    == #[trigger] publisher_order(facts)[k],
            match current {
                None => facts.len() == 0,
                Some(key) => facts.len() > 0 && key@ == publisher(facts.last()) && value
                    == flag_byte(flags@, publisher_order(facts).len() - 1),
            },
        ensures
            activity_stream(activity@),
            reader.position() == total,
        decreases total - reader.position(),
    {
        let ghost index = reader.position();
        proof {
            reader.lemma_position();
            marks.lemma_position();
            lemma_eligible_members(activity@, as_of, index);
        }
        let record = match reader.next() {
            Err(error) => {
                return Err(error);
            },
            Ok(None) => {
                break ;
            },
            Ok(Some(record)) => record,
        };
        let ghost fact = activity_fact(activity@, index);
        proof {
            reader.lemma_position();
            lemma_fact_len(activity@, index);
            lemma_eligible_grouped(activity@, as_of, index + 1);
        }
        activity_rows = activity_rows + 1;
        if record.created_at as u64 > as_of_epoch {
            assert(eligible_facts(activity@, as_of, index + 1) == facts);
            continue ;
        }
        assert(eligible_facts(activity@, as_of, index + 1) == facts.push(fact));
        let new_group: bool = match &current {
            None => true,
            Some(key) => !bytes_equal(key.as_slice(), record.pubkey.as_slice()),
        };
        assert(new_group == starts_group(facts, fact));
        let ghost more = facts.push(fact);
        let ghost order = publisher_order(facts);
        proof {
            assert(more.drop_last() =~= facts);
            lemma_order_prefix(activity@, as_of, index + 1, total);
            if new_group {
                assert(publisher_order(more) == order.push(publisher(fact)));
                assert(publisher_order(more)[order.len() as int] == publisher(fact));
                assert(publisher_order(eligible(activity@, as_of))[order.len() as int]
                    == publisher(fact));
            } else {
                assert(publisher_order(more) == order);
            }
        }
        if new_group {
            let mark = match marks.next() {
                Err(_) => {
                    return Err(
                        Error::Invalid("fixed-activity artifact ends with a truncated record"),
                    );
                },
                Ok(None) => {
                    return Err(Error::Invalid("flags end before activity state"));
                },
                Ok(Some(mark)) => mark,
            };
            let owner: [u8; 32] = read_32(mark, 0);
            assert(owner@ =~= crate::records::record(flags@, 33, order.len() as int).take(32));
            if !bytes_equal(owner.as_slice(), record.pubkey.as_slice()) {
                return Err(Error::Invalid("flags and activity pubkeys do not align"));
            }
            proof {
                marks.lemma_position();
            }
            flag_rows = flag_rows + 1;
            value = mark[32];
            current = Some(record.pubkey);
        }
        assert(value == flag_byte(flags@, publisher_order(more).len() - 1));
        counts.observe(
            record.created_at,
            record.kind,
            value,
            new_group,
            Ghost(facts),
            Ghost(fact),
            Ghost(flags@),
        );
        proof {
            assert forall|k: int| 0 <= k < publisher_order(more).len() implies crate::records::record(
                flags@,
                33,
                k,
            ).take(32) == #[trigger] publisher_order(more)[k] by {
                if k < order.len() {
                    assert(publisher_order(more)[k] == order[k]);
                }
            }
            facts = more;
        }
    }
    match marks.next() {
        Err(_) => {
            return Err(Error::Invalid("fixed-activity artifact ends with a truncated record"));
        },
        Ok(Some(_)) => {
            return Err(Error::Invalid("flags contain pubkeys absent from activity state"));
        },
        Ok(None) => {},
    }
    Ok((counts, activity_rows, flag_rows))
}

/// The state is sorted, its flags match, and both artifacts count its rows.
pub open spec fn finalizable(
    activity: Seq<u8>,
    flags: Seq<u8>,
    activity_rows: int,
    flag_rows: int,
    as_of: int,
) -> bool {
    &&& activity_stream(activity)
    &&& flags_match(eligible(activity, as_of), flags)
    &&& record_count(activity, 70) == activity_rows
    &&& record_count(flags, 33) == flag_rows
}

/// Derive the serving tables from sorted activity state and its flags.
///
/// Records later than `as_of_epoch` are left out. Every period counts each
/// publisher once, each publisher and kind once, and each event of an active
/// kind.
pub fn finalize(
    activity: &[u8],
    flags: &[u8],
    activity_artifact: &ArtifactIdentity,
    flags_artifact: &ArtifactIdentity,
    as_of_epoch: u64,
) -> (outcome: Result<FinalizedActivity>)
    requires
        weeks_defined(activity@, as_of_epoch as int),
    ensures
        outcome is Ok <==> finalizable(
            activity@,
            flags@,
            activity_artifact.row_count as int,
            flags_artifact.row_count as int,
            as_of_epoch as int,
        ),
        match outcome {
            Ok(finalized) => finalized.summarizes(
                eligible(activity@, as_of_epoch as int),
                flags@,
            ),
            Err(error) => error is Invalid,
        },
{
    let ghost facts = eligible(activity@, as_of_epoch as int);
    match count_activity(activity, flags, as_of_epoch) {
        Err(error) => Err(error),
        Ok((counts, activity_rows, flag_rows)) => {
            if activity_rows != activity_artifact.row_count || flag_rows
                != flags_artifact.row_count {
                return Err(Error::Invalid("fixed-activity finalization accounting mismatch"));
            }
            Ok(counts.finish(Ghost(facts), Ghost(flags@)))
        },
    }
}

/// Whether every counted record falls in a week that starts on or after the epoch.
pub fn has_full_weeks(activity: &[u8], as_of_epoch: u64) -> (defined: bool)
    ensures
        defined == weeks_defined(activity@, as_of_epoch as int),
{
    let ghost total = record_count(activity@, 70);
    let mut reader: PlainReader = PlainReader::new(activity, FIXED_ACTIVITY_RECORD_BYTES);
    loop
        invariant
            total == record_count(activity@, 70),
            reader.wf(),
            reader.source() == activity@,
            reader.width() == 70,
            0 <= reader.position() <= total,
            forall|i: int|
                0 <= i < reader.position() && created_at(#[trigger] activity_fact(activity@, i))
                    <= as_of_epoch ==> 345_600 <= created_at(activity_fact(activity@, i)),
        ensures
            reader.position() == total,
        decreases total - reader.position(),
    {
        let ghost index = reader.position();
        match reader.next() {
            Ok(Some(found)) => {
                let timestamp: u32 = read_u32(found, 32);
                assert(timestamp == created_at(activity_fact(activity@, index)));
                if timestamp as u64 <= as_of_epoch && timestamp < 345_600 {
                    return false;
                }
            },
            _ => {
                break ;
            },
        }
    }
    true
}

/// Stable semantic version of the product.
pub const FIXED_ACTIVITY_VERSION: &'static str = "fixed-activity-v2";

/// Runner identity of the product.
pub const RUNNER_VERSION: &'static str = "pensieve-analytics-fixed-activity-v2";

/// Immutable completion evidence for one fixed-grain activity build.
#[derive(Clone, Debug, PartialEq, Eq)]
pub struct FixedActivityEvidence {
    /// Evidence schema version.
    pub schema_version: u32,
    /// Runner identity.
    pub runner_version: String,
    /// Completion status.
    pub status: String,
    /// Frozen catalog identity.
    pub snapshot_id: String,
    /// Fixed upper time boundary.
    pub as_of_epoch: u64,
    /// Catalog objects represented by the target snapshot.
    pub object_count: u64,
    /// New objects scanned for this generation.
    pub delta_object_count: u64,
    /// Catalog physical rows represented by the target snapshot.
    pub physical_rows: u64,
    /// Prior evidence consumed by an incremental successor.
    pub baseline_evidence_sha256: Option<String>,
    /// Immutable batch count.
    pub batch_count: u64,
    /// Immutable merge count.
    pub merge_count: u64,
    /// Exact high-cardinality daily activity state.
    pub activity_artifact: ArtifactIdentity,
    /// Exact ever-observed flags of each publisher.
    pub flags_artifact: ArtifactIdentity,
    /// Compact distinct serving rows.
    pub distinct_pubkeys: Vec<DistinctPubkeysPeriod>,
    /// Compact active-user serving rows.
    pub active_users: Vec<ActiveUsersPeriod>,
    /// SHA-256 of the canonical serving products.
    pub metric_sha256: String,
    /// Compact distinct serving row count.
    pub distinct_period_rows: u64,
    /// Compact active-user serving row count.
    pub active_period_rows: u64,
    /// Maximum kind identities buffered for one publisher and week.
    pub max_week_kinds_buffered: usize,
    /// Maximum kind identities buffered for one publisher and month.
    pub max_month_kinds_buffered: usize,
    /// Maximum encoded merge buffer.
    pub max_merge_buffered_bytes: usize,
    /// Conservative immutable-run estimate.
    pub estimated_run_bytes: u64,
    /// Operator-selected disk reserve.
    pub disk_reserve_bytes: u64,
    /// Immutable batch checkpoints.
    pub batch_checkpoints: Vec<String>,
    /// Immutable merge checkpoints.
    pub merge_checkpoints: Vec<String>,
}

/// Completed fixed-grain activity products.
#[derive(Clone, Debug)]
pub struct BoundedFixedActivity {
    /// Validated completion evidence.
    pub evidence: FixedActivityEvidence,
    /// SHA-256 of canonical evidence JSON.
    pub evidence_sha256: String,
}

/// The digest text of the serving products, whose canonical JSON ends in a
/// line break.
pub open spec fn metric_digest(metric_json: Seq<u8>) -> Seq<char> {
    sha256_text(metric_json.push(10u8))
}

/// The digest of the canonical JSON of the serving products.
pub fn metric_sha256(metric_json: &[u8]) -> (text: String)
    ensures
        text@ == metric_digest(metric_json@),
{
    let mut bytes: Vec<u8> = Vec::new();
    push_bytes(&mut bytes, metric_json);
    bytes.push(10u8);
    assert(bytes@ =~= metric_json@.push(10u8));
    sha256_hex(bytes.as_slice())
}

impl BoundedFixedActivity {
    /// The evidence is a completed product for the snapshot and boundary.
    pub open spec fn completed_for(&self, snapshot_id: Seq<char>, as_of_epoch: u64) -> bool {
        &&& self.evidence.schema_version == 1
        &&& self.evidence.runner_version@ == RUNNER_VERSION@
        &&& self.evidence.status@ == "completed"@
        &&& self.evidence.snapshot_id@ == snapshot_id
        &&& self.evidence.as_of_epoch == as_of_epoch
    }

    /// The serving rows of the evidence are those of the state, and every count
    /// and digest in it agrees.
    pub open spec fn matches_state(
        &self,
        activity: Seq<u8>,
        flags: Seq<u8>,
        metric_json: Seq<u8>,
    ) -> bool {
        let facts = eligible(activity, self.evidence.as_of_epoch as int);
        &&& describes_records(self.evidence.activity_artifact, 70, activity)
        &&& describes_records(self.evidence.flags_artifact, 33, flags)
        &&& activity_stream(activity)
        &&& flags_match(facts, flags)
        &&& distinct_table(self.evidence.distinct_pubkeys@, facts)
        &&& active_table(self.evidence.active_users@, facts, flags)
        &&& self.evidence.distinct_period_rows == self.evidence.distinct_pubkeys@.len()
        &&& self.evidence.active_period_rows == self.evidence.active_users@.len()
        &&& largest_kind_set(facts, Grain::Week, self.evidence.max_week_kinds_buffered as int)
        &&& largest_kind_set(facts, Grain::Month, self.evidence.max_month_kinds_buffered as int)
        &&& self.evidence.metric_sha256@ == metric_digest(metric_json)
    }

    /// Revalidate immutable state and all compact serving rows.
    ///
    /// `activity` and `flags` are the bytes of the two artifacts, and
    /// `metric_json` is the canonical JSON of the serving rows of the evidence.
    pub fn validate_for_publication(
        &self,
        snapshot_id: &str,
        as_of_epoch: u64,
        activity: &[u8],
        flags: &[u8],
        metric_json: &[u8],
    ) -> (outcome: Result<()>)
        requires
            weeks_defined(activity@, self.evidence.as_of_epoch as int),
        ensures
            outcome is Ok <==> self.completed_for(snapshot_id@, as_of_epoch) && self.matches_state(
                activity@,
                flags@,
                metric_json@,
            ),
            outcome is Err ==> outcome->Err_0 is Invalid,
    {
        let evidence: &FixedActivityEvidence = &self.evidence;
        if evidence.schema_version != 1 || !text_equal(
            evidence.runner_version.as_str(),
            RUNNER_VERSION,
        ) || !text_equal(evidence.status.as_str(), "completed") || !text_equal(
            evidence.snapshot_id.as_str(),
            snapshot_id,
        ) || evidence.as_of_epoch != as_of_epoch {
            return Err(
                Error::Invalid("fixed-activity evidence is not a completed matching product"),
            );
        }
        if !artifact_describes(&evidence.activity_artifact, FIXED_ACTIVITY_RECORD_BYTES, activity)
            || !artifact_describes(&evidence.flags_artifact, PUBKEY_FLAGS_RECORD_BYTES, flags) {
            return Err(Error::Invalid("fixed-activity artifact identity mismatch"));
        }
        proof {
            lemma_row_count(evidence.activity_artifact, 70, activity@);
            lemma_row_count(evidence.flags_artifact, 33, flags@);
        }
        let ghost facts = eligible(activity@, evidence.as_of_epoch as int);
        let finalized: FinalizedActivity = match finalize(
            activity,
            flags,
            &evidence.activity_artifact,
            &evidence.flags_artifact,
            evidence.as_of_epoch,
        ) {
            Ok(finalized) => finalized,
            Err(error) => {
                return Err(error);
            },
        };
        proof {
            lemma_distinct_table_unique(
                finalized.distinct_pubkeys@,
                evidence.distinct_pubkeys@,
                facts,
            );
            lemma_active_table_unique(
                finalized.active_users@,
                evidence.active_users@,
                facts,
                flags@,
            );
            lemma_largest_unique(
                facts,
                Grain::Week,
                finalized.max_week_kinds_buffered as int,
                evidence.max_week_kinds_buffered as int,
            );
            lemma_largest_unique(
                facts,
                Grain::Month,
                finalized.max_month_kinds_buffered as int,
                evidence.max_month_kinds_buffered as int,
            );
        }
        if !distinct_rows_equal(&finalized.distinct_pubkeys, &evidence.distinct_pubkeys)
            || !active_rows_equal(&finalized.active_users, &evidence.active_users)
            || finalized.distinct_pubkeys.len() as u64 != evidence.distinct_period_rows
            || finalized.active_users.len() as u64 != evidence.active_period_rows
            || finalized.max_week_kinds_buffered != evidence.max_week_kinds_buffered
            || finalized.max_month_kinds_buffered != evidence.max_month_kinds_buffered {
            return Err(Error::Invalid("fixed-activity metrics do not match immutable state"));
        }
        if !text_equal(metric_sha256(metric_json).as_str(), evidence.metric_sha256.as_str()) {
            return Err(Error::Invalid("fixed-activity metric SHA-256 mismatch"));
        }
        Ok(())
    }
}

/// An artifact that describes the bytes counts their records.
pub proof fn lemma_row_count(artifact: ArtifactIdentity, width: int, bytes: Seq<u8>)
    requires
        0 < width,
        describes_records(artifact, width, bytes),
    ensures
        bytes.len() as int % width == 0,
        record_count(bytes, width) == artifact.row_count,
{
    let rows = artifact.row_count as int;
    vstd::arithmetic::div_mod::lemma_fundamental_div_mod_converse(
        bytes.len() as int,
        width,
        rows,
        0,
    );
}

/// The largest kind set has one size.
proof fn lemma_largest_unique(facts: Seq<Seq<u8>>, grain: Grain, a: int, b: int)
    requires
        0 <= a,
        0 <= b,
        largest_kind_set(facts, grain, a),
    ensures
        largest_kind_set(facts, grain, b) <==> a == b,
{
}

} // verus!
