//! Building the current relay distribution.
//!
//! A durable state holds every canonical relay list with its memberships. The
//! scan of new objects adds to it, and the distribution follows from it.

use vstd::prelude::*;
use vstd::string::*;

use crate::advance::{estimate_rows, input_rows};
use crate::artifact::{BatchLimits, InputIdentity};
use crate::bytes::{bytes_equal, read_32};
use crate::digest::{sha256_hex, sha256_text};
use crate::error::{checked_add, from_i64, Error, Result};
use crate::input::ResolvedSnapshot;
use crate::input_index::{holds_all, inputs_hold_all};
use crate::merge::div_up;
use crate::relay_distribution::{
    are_memberships, relay_memberships, relay_tags, tag_is_relay, valid_tags, RelayDistributionRow,
    RelayMembership, RELAY_DISTRIBUTION_VERSION,
};
use crate::relay_rows::{
    describes_relay, distributes, ids_differ, is_eligible, is_winner, lemma_distribution_unique,
    lemma_winner_bounds, mark_winners, materialize_rows, relays_equal, url_at, users_overflow,
    RelayCandidate,
};
use crate::sorting::Ordered;
use crate::text::text_equal;
use crate::text_map::{text_before, text_less};

verus! {

/// Schema of the completion evidence.
pub const EVIDENCE_SCHEMA_VERSION: u32 = 1;

/// Runner identity.
pub const RUNNER_VERSION: &'static str = "pensieve-analytics-relay-distribution-v2";

/// Bounded workspace and serving thresholds for the current relay distribution.
#[derive(Clone, Debug)]
pub struct RelayDistributionConfig {
    /// Durable resumable state database.
    pub state_database: String,
    /// Maximum catalog bytes and rows scanned by one batch.
    pub batch_limits: BatchLimits,
    /// Maximum state bytes before the build fails closed.
    pub max_state_bytes: u64,
    /// Page-cache bound in bytes.
    pub sqlite_cache_bytes: u64,
    /// Minimum unique winning publishers required for a serving row.
    pub minimum_users: u64,
    /// Free work-filesystem bytes left untouched.
    pub disk_reserve_bytes: u64,
}

/// Immutable completion evidence for the deterministic current relay distribution.
#[derive(Clone, Debug, PartialEq, Eq)]
pub struct RelayDistributionEvidence {
    /// Evidence schema version.
    pub schema_version: u32,
    /// Runner implementation identity.
    pub runner_version: String,
    /// Completion state.
    pub status: String,
    /// Stable product semantics.
    pub product_version: String,
    /// Frozen canonical catalog snapshot.
    pub snapshot_id: String,
    /// Fixed analytics boundary.
    pub as_of_epoch: u64,
    /// SHA-256 of the fully validated predecessor evidence, when advanced.
    pub baseline_evidence_sha256: Option<String>,
    /// Exact immutable objects added after the predecessor snapshot.
    pub delta_object_count: u64,
    /// Active immutable catalog objects covered.
    pub object_count: u64,
    /// Exact active objects applied to resumable state.
    pub applied_objects: u64,
    /// Physical source rows scanned across every applied object.
    pub physical_rows_scanned: u64,
    /// Physical relay-list rows stored or deduplicated.
    pub physical_relay_events: u64,
    /// Unique canonical relay-list event IDs in state.
    pub candidate_events: u64,
    /// Candidate events at or before the fixed boundary.
    pub eligible_candidate_events: u64,
    /// Publishers with an eligible deterministic winning event.
    pub winning_pubkeys: u64,
    /// Normalized memberships attached to all unique candidate events.
    pub candidate_memberships: u64,
    /// Relay tags encountered in physical relay-list rows.
    pub raw_relay_tags: u64,
    /// Relay tags rejected by canonical URL normalization.
    pub invalid_relay_tags: u64,
    /// Duplicate normalized memberships suppressed within physical events.
    pub duplicate_relay_tags: u64,
    /// Minimum users retained in the serving relation.
    pub minimum_users: u64,
    /// Final rows ordered by descending users and canonical URL.
    pub rows: Vec<RelayDistributionRow>,
    /// SHA-256 of canonical final row JSON.
    pub rows_sha256: String,
    /// Exact active object identities covered by the state.
    pub inputs: Vec<InputIdentity>,
    /// Maximum configured state bytes.
    pub max_state_bytes: u64,
    /// Maximum configured page-cache bytes.
    pub sqlite_cache_bytes: u64,
    /// Free-space reserve.
    pub disk_reserve_bytes: u64,
}

/// Fully validated current relay distribution product.
pub struct BoundedRelayDistribution {
    /// Canonical evidence.
    pub evidence: RelayDistributionEvidence,
    /// SHA-256 of completion evidence.
    pub evidence_sha256: String,
}

/// Every setting is usable, and every object has a location.
pub open spec fn config_fits(
    snapshot: ResolvedSnapshot,
    as_of_epoch: u64,
    config: RelayDistributionConfig,
) -> bool {
    &&& snapshot.catalog.objects@.len() == snapshot.locations@.len()
    &&& as_of_epoch > 0
    &&& config.batch_limits.max_bytes > 0
    &&& config.batch_limits.max_rows > 0
    &&& config.max_state_bytes > 0
    &&& config.sqlite_cache_bytes > 0
    &&& config.minimum_users > 0
}

/// Check the snapshot and the settings of a build.
pub fn validate_config(
    snapshot: &ResolvedSnapshot,
    as_of_epoch: u64,
    config: &RelayDistributionConfig,
) -> (outcome: Result<()>)
    ensures
        outcome is Ok <==> config_fits(*snapshot, as_of_epoch, *config),
        outcome is Err ==> outcome == Err::<(), Error>(
            Error::Invalid("relay distribution snapshot or bounded configuration is invalid"),
        ),
{
    if snapshot.catalog.objects.len() != snapshot.locations.len() || as_of_epoch == 0
        || config.batch_limits.max_bytes == 0 || config.batch_limits.max_rows == 0
        || config.max_state_bytes == 0 || config.sqlite_cache_bytes == 0 || config.minimum_users
        == 0 {
        return Err(
            Error::Invalid("relay distribution snapshot or bounded configuration is invalid"),
        );
    }
    Ok(())
}

/// The successor keeps every input of its baseline and does not go back in time.
pub open spec fn extends_baseline(
    baseline: RelayDistributionEvidence,
    target: Seq<InputIdentity>,
    as_of_epoch: u64,
) -> bool {
    &&& holds_all(target, baseline.inputs@)
    &&& as_of_epoch >= baseline.as_of_epoch
    &&& target.len() >= baseline.inputs@.len()
}

/// Check that a successor extends its baseline, and count its new objects.
pub fn validate_advance(
    baseline: &BoundedRelayDistribution,
    target: &Vec<InputIdentity>,
    as_of_epoch: u64,
) -> (outcome: Result<u64>)
    ensures
        outcome is Ok <==> extends_baseline(baseline.evidence, target@, as_of_epoch),
        match outcome {
            Ok(added) => added == target@.len() - baseline.evidence.inputs@.len(),
            Err(error) => error is Invalid,
        },
{
    if !inputs_hold_all(target, &baseline.evidence.inputs) {
        return Err(Error::Invalid("relay target does not retain an immutable baseline object"));
    }
    if as_of_epoch < baseline.evidence.as_of_epoch {
        return Err(Error::Invalid("relay successor as-of precedes its baseline"));
    }
    if target.len() < baseline.evidence.inputs.len() {
        return Err(Error::Invalid("relay target has fewer objects than its baseline"));
    }
    Ok((target.len() - baseline.evidence.inputs.len()) as u64)
}

/// What the scan of one batch counted.
#[derive(Clone, Copy, Debug, PartialEq, Eq, Structural)]
pub struct BatchStats {
    /// Rows scanned.
    pub physical_rows: u64,
    /// Relay-list rows.
    pub physical_relay_events: u64,
    /// Relay tags.
    pub raw_relay_tags: u64,
    /// Relay tags without a canonical URL.
    pub invalid_relay_tags: u64,
    /// Relay tags that repeat a URL of their event.
    pub duplicate_relay_tags: u64,
}

/// Nothing scanned yet.
pub fn no_stats() -> (stats: BatchStats)
    ensures
        stats == (BatchStats {
            physical_rows: 0,
            physical_relay_events: 0,
            raw_relay_tags: 0,
            invalid_relay_tags: 0,
            duplicate_relay_tags: 0,
        }),
{
    BatchStats {
        physical_rows: 0,
        physical_relay_events: 0,
        raw_relay_tags: 0,
        invalid_relay_tags: 0,
        duplicate_relay_tags: 0,
    }
}

/// One scanned row.
#[derive(Clone, Debug, PartialEq, Eq)]
pub struct ScannedRelayEvent {
    /// Event ID.
    pub event_id: Vec<u8>,
    /// Publisher key.
    pub pubkey: Vec<u8>,
    /// Creation time in Unix seconds.
    pub created_at: u64,
    /// Event kind.
    pub kind: u16,
}

/// A relay list before its tags are read.
#[derive(Clone, Copy, Debug, PartialEq, Eq)]
pub struct RelayListKey {
    /// Event ID.
    pub event_id: [u8; 32],
    /// Publisher key.
    pub pubkey: [u8; 32],
    /// Creation time in Unix seconds.
    pub created_at: i64,
}

/// The key is that of the scanned row.
pub open spec fn is_list_key(key: RelayListKey, event: ScannedRelayEvent) -> bool {
    &&& key.event_id@ == event.event_id@
    &&& key.pubkey@ == event.pubkey@
    &&& key.created_at == event.created_at
}

/// The row can be a relay list.
pub open spec fn is_whole(event: ScannedRelayEvent) -> bool {
    &&& event.event_id@.len() == 32
    &&& event.pubkey@.len() == 32
    &&& event.created_at <= i64::MAX
}

/// Count a scanned row, and take it up where it is a relay list.
pub fn admit_event(stats: &mut BatchStats, event: &ScannedRelayEvent) -> (outcome: Result<
    Option<RelayListKey>,
>)
    ensures
        final(stats).raw_relay_tags == old(stats).raw_relay_tags,
        final(stats).invalid_relay_tags == old(stats).invalid_relay_tags,
        final(stats).duplicate_relay_tags == old(stats).duplicate_relay_tags,
        match outcome {
            Ok(None) => {
                &&& event.kind != 10_002
                &&& final(stats).physical_rows == old(stats).physical_rows + 1
                &&& final(stats).physical_relay_events == old(stats).physical_relay_events
            },
            Ok(Some(key)) => {
                &&& event.kind == 10_002
                &&& is_whole(*event)
                &&& is_list_key(key, *event)
                &&& final(stats).physical_rows == old(stats).physical_rows + 1
                &&& final(stats).physical_relay_events == old(stats).physical_relay_events + 1
            },
            Err(error) => {
                &&& error is Invalid
                &&& {
                    ||| old(stats).physical_rows == u64::MAX
                    ||| event.kind == 10_002 && old(stats).physical_relay_events == u64::MAX
                    ||| event.kind == 10_002 && !is_whole(*event)
                }
            },
        },
{
    match checked_add(stats.physical_rows, 1, "relay physical rows overflowed") {
        Ok(rows) => {
            stats.physical_rows = rows;
        },
        Err(error) => {
            return Err(error);
        },
    }
    if event.kind != 10_002 {
        return Ok(None);
    }
    match checked_add(stats.physical_relay_events, 1, "relay physical kind-10002 rows overflowed") {
        Ok(events) => {
            stats.physical_relay_events = events;
        },
        Err(error) => {
            return Err(error);
        },
    }
    if event.event_id.len() != 32 {
        return Err(Error::Invalid("relay event ID does not have 32 bytes"));
    }
    if event.pubkey.len() != 32 {
        return Err(Error::Invalid("relay pubkey does not have 32 bytes"));
    }
    if event.created_at > i64::MAX as u64 {
        return Err(Error::Invalid("relay created_at exceeds i64"));
    }
    let event_id: [u8; 32] = read_32(event.event_id.as_slice(), 0);
    let pubkey: [u8; 32] = read_32(event.pubkey.as_slice(), 0);
    proof {
        assert(event.event_id@.subrange(0, 32) =~= event.event_id@);
        assert(event.pubkey@.subrange(0, 32) =~= event.pubkey@);
    }
    Ok(Some(RelayListKey { event_id, pubkey, created_at: event.created_at as i64 }))
}

/// Check that a list with a known event ID repeats the stored one.
pub fn check_duplicate(key: &RelayListKey, stored_pubkey: &[u8], stored_created_at: i64) -> (
    outcome: Result<()>)
    ensures
        outcome is Ok <==> stored_pubkey@ == key.pubkey@ && stored_created_at == key.created_at,
        outcome is Err ==> outcome == Err::<(), Error>(
            Error::Invalid("duplicate relay event ID has conflicting canonical fields"),
        ),
{
    if !bytes_equal(stored_pubkey, key.pubkey.as_slice()) || stored_created_at != key.created_at {
        return Err(Error::Invalid("duplicate relay event ID has conflicting canonical fields"));
    }
    Ok(())
}

/// The tags that a JSON text holds, if it is an array of arrays of strings.
pub uninterp spec fn json_tags(text: Seq<char>) -> Option<Seq<Seq<Seq<char>>>>;

/// The texts of tags.
pub open spec fn tag_views(tags: Seq<Vec<String>>) -> Seq<Seq<Seq<char>>> {
    Seq::new(
        tags.len(),
        |i: int| Seq::new(tags[i]@.len(), |j: int| tags[i]@[j]@),
    )
}

/// `serde_json::from_str` into an array of arrays of strings.
///
/// Taken without proof: the tags depend on the text alone, and `json_tags`
/// names them.
#[verifier::external_body]
fn read_json_tags(text: &str) -> (tags: Option<Vec<Vec<String>>>)
    ensures
        match tags {
            None => json_tags(text@) is None,
            Some(read) => json_tags(text@) == Some(tag_views(read@)),
        },
{
    serde_json::from_str(text).ok()
}

/// Read the tags of a relay list.
pub fn decode_tags(text: &str) -> (outcome: Result<Vec<Vec<String>>>)
    ensures
        match outcome {
            Ok(tags) => json_tags(text@) == Some(tag_views(tags@)),
            Err(error) => json_tags(text@) is None && error == Error::Invalid(
                "relay tags cannot be decoded",
            ),
        },
{
    match read_json_tags(text) {
        Some(tags) => Ok(tags),
        None => Err(Error::Invalid("relay tags cannot be decoded")),
    }
}

/// Relay tags and valid ones never exceed the tags.
proof fn lemma_tags_bounded(
    tags: Seq<Vec<String>>,
    normalized: Seq<Option<String>>,
    count: int,
)
    requires
        0 <= count,
    ensures
        0 <= valid_tags(tags, normalized, count) <= relay_tags(tags, count) <= count,
    decreases count,
{
    if count > 0 {
        lemma_tags_bounded(tags, normalized, count - 1);
    }
}

/// Count the tags of a new relay list, and give its memberships.
///
/// `normalized` holds, for each tag, the canonical URL of its second position.
pub fn count_tags(
    stats: &mut BatchStats,
    tags: &Vec<Vec<String>>,
    normalized: &Vec<Option<String>>,
) -> (outcome: Result<Vec<RelayMembership>>)
    requires
        normalized@.len() == tags@.len(),
    ensures
        final(stats).physical_rows == old(stats).physical_rows,
        final(stats).physical_relay_events == old(stats).physical_relay_events,
        ({
            let raw = relay_tags(tags@, tags@.len() as int);
            let valid = valid_tags(tags@, normalized@, tags@.len() as int);
            match outcome {
                Ok(memberships) => {
                    &&& are_memberships(memberships@, tags@, normalized@)
                    &&& final(stats).raw_relay_tags == old(stats).raw_relay_tags + raw
                    &&& final(stats).invalid_relay_tags == old(stats).invalid_relay_tags + raw
                        - valid
                    &&& final(stats).duplicate_relay_tags == old(stats).duplicate_relay_tags
                        + valid - memberships@.len()
                },
                Err(error) => {
                    ||| {
                        &&& old(stats).raw_relay_tags + raw > u64::MAX
                        &&& error == Error::Invalid("raw relay tags overflowed")
                    }
                    ||| {
                        &&& old(stats).invalid_relay_tags + raw - valid > u64::MAX
                        &&& error == Error::Invalid("invalid relay tags overflowed")
                    }
                    ||| {
                        &&& exists|memberships: Seq<RelayMembership>| #[trigger]
                            are_memberships(memberships, tags@, normalized@) && old(
                                stats,
                            ).duplicate_relay_tags + valid - memberships.len() > u64::MAX
                        &&& error == Error::Invalid("duplicate relay tags overflowed")
                    }
                },
            }
        }),
{
    let memberships: Vec<RelayMembership> = relay_memberships(
        tags.as_slice(),
        normalized.as_slice(),
    );
    let mut raw: usize = 0;
    let mut valid: usize = 0;
    let mut i: usize = 0;
    while i < tags.len()
        invariant
            i <= tags@.len(),
            normalized@.len() == tags@.len(),
            raw == relay_tags(tags@, i as int),
            valid == valid_tags(tags@, normalized@, i as int),
            raw <= i,
            valid <= i,
        decreases tags.len() - i,
    {
        if tag_is_relay(&tags[i]) {
            raw = raw + 1;
            if tags[i].len() > 1 && normalized[i].is_some() {
                valid = valid + 1;
            }
        }
        i += 1;
    }
    proof {
        lemma_tags_bounded(tags@, normalized@, tags@.len() as int);
    }
    match checked_add(stats.raw_relay_tags, raw as u64, "raw relay tags overflowed") {
        Ok(total) => {
            stats.raw_relay_tags = total;
        },
        Err(error) => {
            return Err(error);
        },
    }
    match checked_add(stats.invalid_relay_tags, (raw - valid) as u64, "invalid relay tags overflowed") {
        Ok(total) => {
            stats.invalid_relay_tags = total;
        },
        Err(error) => {
            return Err(error);
        },
    }
    match checked_add(
        stats.duplicate_relay_tags,
        (valid - memberships.len()) as u64,
        "duplicate relay tags overflowed",
    ) {
        Ok(total) => {
            stats.duplicate_relay_tags = total;
        },
        Err(error) => {
            assert(are_memberships(memberships@, tags@, normalized@));
            return Err(error);
        },
    }
    Ok(memberships)
}

/// An applied object as the columns hold it.
pub fn applied_input(object_key: &str, byte_size: i64, row_count: i64, sha256: &str) -> (outcome:
    Result<InputIdentity>)
    ensures
        outcome is Ok <==> byte_size >= 0 && row_count >= 0,
        match outcome {
            Ok(input) => {
                &&& input.identity@ == object_key@
                &&& input.byte_size == byte_size
                &&& input.row_count == row_count
                &&& input.sha256@ == sha256@
            },
            Err(error) => error is NegativeLedgerValue,
        },
{
    let byte_size: u64 = match from_i64("relay applied bytes", byte_size) {
        Ok(value) => value,
        Err(error) => {
            return Err(error);
        },
    };
    let row_count: u64 = match from_i64("relay applied rows", row_count) {
        Ok(value) => value,
        Err(error) => {
            return Err(error);
        },
    };
    Ok(
        InputIdentity {
            identity: object_key.to_owned(),
            byte_size,
            row_count,
            sha256: sha256.to_owned(),
        },
    )
}

/// Check that the target keeps every object that was applied.
pub fn validate_applied_inputs(applied: &Vec<InputIdentity>, inputs: &Vec<InputIdentity>) -> (
    outcome: Result<()>)
    ensures
        outcome is Ok <==> holds_all(inputs@, applied@),
        outcome is Err ==> outcome == Err::<(), Error>(
            Error::Invalid("relay target removed or changed a previously applied object"),
        ),
{
    if !inputs_hold_all(inputs, applied) {
        return Err(Error::Invalid("relay target removed or changed a previously applied object"));
    }
    Ok(())
}

/// Check that every baseline object was applied.
pub fn validate_inputs_present(applied: &Vec<InputIdentity>, inputs: &Vec<InputIdentity>) -> (
    outcome: Result<()>)
    ensures
        outcome is Ok <==> holds_all(applied@, inputs@),
        outcome is Err ==> outcome == Err::<(), Error>(
            Error::Invalid("relay state misses or changed a baseline object"),
        ),
{
    if !inputs_hold_all(applied, inputs) {
        return Err(Error::Invalid("relay state misses or changed a baseline object"));
    }
    Ok(())
}

/// The page limit and the cache size, in negative KiB, of a state.
pub fn state_limits(config: &RelayDistributionConfig, page_size: u64) -> (outcome: Result<
    (u64, i64),
>)
    requires
        page_size > 0,
    ensures
        match outcome {
            Ok((pages, cache)) => {
                &&& pages == config.max_state_bytes as int / page_size as int
                &&& pages > 0
                &&& cache == -div_up(config.sqlite_cache_bytes as int, 1_024)
            },
            Err(error) => {
                &&& error == Error::Invalid("relay max state bytes are below one SQLite page")
                &&& config.max_state_bytes < page_size
            },
        },
{
    match crate::publisher_state::page_limits(
        config.max_state_bytes,
        config.sqlite_cache_bytes,
        page_size,
    ) {
        Some(limits) => Ok(limits),
        None => Err(Error::Invalid("relay max state bytes are below one SQLite page")),
    }
}

/// Check that a state keeps to its ceiling.
pub fn enforce_state_size(pages: u64, page_size: u64, maximum: u64) -> (outcome: Result<()>)
    ensures
        outcome is Ok <==> pages * page_size <= maximum,
        outcome is Err ==> outcome->Err_0 is Invalid,
{
    match pages.checked_mul(page_size) {
        None => Err(Error::Invalid("relay SQLite size overflowed")),
        Some(bytes) => if bytes > maximum {
            Err(Error::Invalid("relay SQLite state exceeds its configured maximum"))
        } else {
            Ok(())
        },
    }
}

/// Totals that the batches of a state counted, as stored.
#[derive(Clone, Copy, Debug, PartialEq, Eq, Structural)]
pub struct PhysicalTotals {
    /// Rows scanned.
    pub physical_rows: i64,
    /// Relay-list rows.
    pub physical_relay_events: i64,
    /// Relay tags.
    pub raw_relay_tags: i64,
    /// Relay tags without a canonical URL.
    pub invalid_relay_tags: i64,
    /// Relay tags that repeat a URL of their event.
    pub duplicate_relay_tags: i64,
}

/// The stored totals are the counted ones.
pub open spec fn totals_are(totals: PhysicalTotals, stats: BatchStats) -> bool {
    &&& totals.physical_rows == stats.physical_rows
    &&& totals.physical_relay_events == stats.physical_relay_events
    &&& totals.raw_relay_tags == stats.raw_relay_tags
    &&& totals.invalid_relay_tags == stats.invalid_relay_tags
    &&& totals.duplicate_relay_tags == stats.duplicate_relay_tags
}

/// No stored total is negative.
pub open spec fn totals_count(totals: PhysicalTotals) -> bool {
    &&& totals.physical_rows >= 0
    &&& totals.physical_relay_events >= 0
    &&& totals.raw_relay_tags >= 0
    &&& totals.invalid_relay_tags >= 0
    &&& totals.duplicate_relay_tags >= 0
}

/// Read stored totals.
pub fn physical_totals(totals: PhysicalTotals) -> (outcome: Result<BatchStats>)
    ensures
        match outcome {
            Ok(stats) => totals_are(totals, stats),
            Err(error) => error is NegativeLedgerValue,
        },
        outcome is Ok <==> totals_count(totals),
{
    let physical_rows: u64 = match from_i64("relay physical rows", totals.physical_rows) {
        Ok(value) => value,
        Err(error) => {
            return Err(error);
        },
    };
    let physical_relay_events: u64 = match from_i64(
        "relay physical events",
        totals.physical_relay_events,
    ) {
        Ok(value) => value,
        Err(error) => {
            return Err(error);
        },
    };
    let raw_relay_tags: u64 = match from_i64("relay raw tags", totals.raw_relay_tags) {
        Ok(value) => value,
        Err(error) => {
            return Err(error);
        },
    };
    let invalid_relay_tags: u64 = match from_i64("relay invalid tags", totals.invalid_relay_tags) {
        Ok(value) => value,
        Err(error) => {
            return Err(error);
        },
    };
    let duplicate_relay_tags: u64 = match from_i64(
        "relay duplicate tags",
        totals.duplicate_relay_tags,
    ) {
        Ok(value) => value,
        Err(error) => {
            return Err(error);
        },
    };
    Ok(
        BatchStats {
            physical_rows,
            physical_relay_events,
            raw_relay_tags,
            invalid_relay_tags,
            duplicate_relay_tags,
        },
    )
}

/// Eligible candidates among the first `count`.
pub open spec fn eligible_count(
    candidates: Seq<RelayCandidate>,
    as_of: u64,
    count: int,
) -> int
    decreases count,
{
    if count <= 0 {
        0
    } else {
        eligible_count(candidates, as_of, count - 1) + if is_eligible(
            candidates,
            as_of,
            count - 1,
        ) {
            1int
        } else {
            0int
        }
    }
}

/// Winning lists among the first `count` candidates; each has another publisher.
pub open spec fn winners_among(
    candidates: Seq<RelayCandidate>,
    as_of: u64,
    count: int,
) -> int
    decreases count,
{
    if count <= 0 {
        0
    } else {
        winners_among(candidates, as_of, count - 1) + if is_winner(
            candidates,
            as_of,
            count - 1,
        ) {
            1int
        } else {
            0int
        }
    }
}

/// Memberships of the first `count` candidates.
pub open spec fn memberships_among(candidates: Seq<RelayCandidate>, count: int) -> int
    decreases count,
{
    if count <= 0 {
        0
    } else {
        memberships_among(candidates, count - 1) + candidates[count - 1].memberships@.len()
    }
}

/// Totals of the candidates.
#[derive(Clone, Copy, Debug, PartialEq, Eq, Structural)]
pub struct CandidateTotals {
    /// Candidates.
    pub candidate_events: u64,
    /// Candidates within the boundary.
    pub eligible_candidate_events: u64,
    /// Publishers with a winning list.
    pub winning_pubkeys: u64,
    /// Memberships.
    pub candidate_memberships: u64,
}

/// The totals are those of the candidates.
pub open spec fn totals_of(
    totals: CandidateTotals,
    candidates: Seq<RelayCandidate>,
    as_of: u64,
) -> bool {
    let n = candidates.len() as int;
    &&& totals.candidate_events == n
    &&& totals.eligible_candidate_events == eligible_count(candidates, as_of, n)
    &&& totals.winning_pubkeys == winners_among(candidates, as_of, n)
    &&& totals.candidate_memberships == memberships_among(candidates, n)
}

/// Memberships never decrease with more candidates.
proof fn lemma_memberships_grow(candidates: Seq<RelayCandidate>, count: int)
    requires
        0 <= count <= candidates.len(),
    ensures
        0 <= memberships_among(candidates, count) <= memberships_among(
            candidates,
            candidates.len() as int,
        ),
    decreases candidates.len() - count,
{
    if count < candidates.len() {
        lemma_memberships_grow(candidates, count + 1);
    }
    lemma_memberships_nonnegative(candidates, count);
}

proof fn lemma_memberships_nonnegative(candidates: Seq<RelayCandidate>, count: int)
    ensures
        0 <= memberships_among(candidates, count),
    decreases count,
{
    if count > 0 {
        lemma_memberships_nonnegative(candidates, count - 1);
    }
}

/// Count the candidates.
pub fn state_totals(candidates: &Vec<RelayCandidate>, as_of: u64) -> (outcome: Result<
    CandidateTotals,
>)
    requires
        ids_differ(candidates@),
    ensures
        match outcome {
            Ok(totals) => totals_of(totals, candidates@, as_of),
            Err(error) => error is Invalid,
        },
        outcome is Ok <==> memberships_among(candidates@, candidates@.len() as int) <= u64::MAX,
{
    let winners: Vec<bool> = mark_winners(candidates, as_of);
    let mut eligible: u64 = 0;
    let mut winning: u64 = 0;
    let mut memberships: u64 = 0;
    let mut i: usize = 0;
    while i < candidates.len()
        invariant
            i <= candidates@.len(),
            winners@.len() == candidates@.len(),
            forall|k: int|
                0 <= k < winners@.len() ==> (#[trigger] winners@[k]) == is_winner(
                    candidates@,
                    as_of,
                    k,
                ),
            eligible == eligible_count(candidates@, as_of, i as int),
            winning == winners_among(candidates@, as_of, i as int),
            memberships == memberships_among(candidates@, i as int),
            eligible <= i,
            winning <= i,
        decreases candidates.len() - i,
    {
        proof {
            lemma_memberships_grow(candidates@, i + 1);
        }
        if candidates[i].created_at <= as_of {
            eligible = eligible + 1;
        }
        if winners[i] {
            winning = winning + 1;
        }
        match checked_add(
            memberships,
            candidates[i].memberships.len() as u64,
            "relay memberships overflowed",
        ) {
            Ok(total) => {
                memberships = total;
            },
            Err(error) => {
                return Err(error);
            },
        }
        i += 1;
    }
    Ok(
        CandidateTotals {
            candidate_events: candidates.len() as u64,
            eligible_candidate_events: eligible,
            winning_pubkeys: winning,
            candidate_memberships: memberships,
        },
    )
}

/// A complete state as it was read back.
#[derive(Clone, Debug, PartialEq, Eq)]
pub struct RelayState {
    /// Snapshot that the state covers, if any.
    pub snapshot_id: Option<String>,
    /// Objects that were applied.
    pub applied: Vec<InputIdentity>,
    /// Canonical relay lists.
    pub candidates: Vec<RelayCandidate>,
    /// Totals of the batches.
    pub physical: PhysicalTotals,
}

/// Rows with enough users and no mode above them.
pub open spec fn row_bounds_hold(row: RelayDistributionRow, minimum_users: u64) -> bool {
    &&& row.user_count >= minimum_users
    &&& row.read_count <= row.user_count
    &&& row.write_count <= row.user_count
}

/// Row `i` has fewer users than the one before it, or as many and a larger URL.
pub open spec fn row_follows(rows: Seq<RelayDistributionRow>, i: int) -> bool {
    ||| rows[i - 1].user_count > rows[i].user_count
    ||| rows[i - 1].user_count == rows[i].user_count && text_less(
        rows[i - 1].relay_url@,
        rows[i].relay_url@,
    )
}

/// Every row is within its bounds and in order.
pub open spec fn rows_well_formed(rows: Seq<RelayDistributionRow>, minimum_users: u64) -> bool {
    &&& forall|i: int| 0 <= i < rows.len() ==> row_bounds_hold(#[trigger] rows[i], minimum_users)
    &&& forall|i: int| 0 < i < rows.len() ==> #[trigger] row_follows(rows, i)
}

/// Whether every row is within its bounds and in order.
fn check_rows(rows: &Vec<RelayDistributionRow>, minimum_users: u64) -> (valid: bool)
    ensures
        valid == rows_well_formed(rows@, minimum_users),
{
    let mut i: usize = 0;
    while i < rows.len()
        invariant
            i <= rows@.len(),
            forall|j: int| 0 <= j < i ==> row_bounds_hold(#[trigger] rows@[j], minimum_users),
            forall|j: int| 0 < j < i ==> #[trigger] row_follows(rows@, j),
        decreases rows.len() - i,
    {
        let row: &RelayDistributionRow = &rows[i];
        if row.user_count < minimum_users || row.read_count > row.user_count || row.write_count
            > row.user_count {
            assert(!row_bounds_hold(rows@[i as int], minimum_users));
            return false;
        }
        if i > 0 && (rows[i - 1].user_count < row.user_count || (rows[i - 1].user_count
            == row.user_count && !text_before(
            rows[i - 1].relay_url.as_str(),
            row.relay_url.as_str(),
        ))) {
            assert(!row_follows(rows@, i as int));
            return false;
        }
        i += 1;
    }
    true
}

/// The evidence agrees with itself and with the JSON of its rows.
pub open spec fn static_valid(evidence: RelayDistributionEvidence, rows_json: Seq<u8>) -> bool {
    &&& evidence.schema_version == EVIDENCE_SCHEMA_VERSION
    &&& evidence.runner_version@ == RUNNER_VERSION@
    &&& evidence.status@ == "completed"@
    &&& evidence.product_version@ == RELAY_DISTRIBUTION_VERSION@
    &&& evidence.rows_sha256@ == sha256_text(rows_json)
    &&& evidence.object_count == evidence.inputs@.len()
    &&& evidence.applied_objects == evidence.object_count
    &&& evidence.delta_object_count <= evidence.object_count
    &&& evidence.baseline_evidence_sha256 is None ==> evidence.delta_object_count
        == evidence.object_count
    &&& rows_well_formed(evidence.rows@, evidence.minimum_users)
}

/// Check that evidence agrees with itself and with the JSON of its rows.
pub fn validate_static_evidence(evidence: &RelayDistributionEvidence, rows_json: &[u8]) -> (
    outcome: Result<()>)
    ensures
        outcome is Ok <==> static_valid(*evidence, rows_json@),
        outcome is Err ==> outcome == Err::<(), Error>(
            Error::Invalid("relay distribution static evidence is invalid"),
        ),
{
    if evidence.schema_version != EVIDENCE_SCHEMA_VERSION || !text_equal(
        evidence.runner_version.as_str(),
        RUNNER_VERSION,
    ) || !text_equal(evidence.status.as_str(), "completed") || !text_equal(
        evidence.product_version.as_str(),
        RELAY_DISTRIBUTION_VERSION,
    ) || !text_equal(evidence.rows_sha256.as_str(), sha256_hex(rows_json).as_str())
        || evidence.object_count != evidence.inputs.len() as u64 || evidence.applied_objects
        != evidence.object_count || evidence.delta_object_count > evidence.object_count || (
    evidence.baseline_evidence_sha256.is_none() && evidence.delta_object_count
        != evidence.object_count) || !check_rows(&evidence.rows, evidence.minimum_users) {
        return Err(Error::Invalid("relay distribution static evidence is invalid"));
    }
    Ok(())
}

/// The evidence reports the state.
pub open spec fn reports_state(evidence: RelayDistributionEvidence, state: RelayState) -> bool {
    &&& state.snapshot_id is Some
    &&& state.snapshot_id->0@ == evidence.snapshot_id@
    &&& distributes(
        evidence.rows@,
        state.candidates@,
        evidence.as_of_epoch,
        evidence.minimum_users,
    )
    &&& state.applied@.len() == evidence.object_count
    &&& input_rows(evidence.inputs@) == evidence.physical_rows_scanned
    &&& totals_of(
        (CandidateTotals {
            candidate_events: evidence.candidate_events,
            eligible_candidate_events: evidence.eligible_candidate_events,
            winning_pubkeys: evidence.winning_pubkeys,
            candidate_memberships: evidence.candidate_memberships,
        }),
        state.candidates@,
        evidence.as_of_epoch,
    )
    &&& totals_are(
        state.physical,
        (BatchStats {
            physical_rows: evidence.physical_rows_scanned,
            physical_relay_events: evidence.physical_relay_events,
            raw_relay_tags: evidence.raw_relay_tags,
            invalid_relay_tags: evidence.invalid_relay_tags,
            duplicate_relay_tags: evidence.duplicate_relay_tags,
        }),
    )
}

/// The counts of the state stay in range.
pub open spec fn state_counts(state: RelayState, as_of: u64) -> bool {
    &&& !users_overflow(state.candidates@, as_of)
    &&& memberships_among(state.candidates@, state.candidates@.len() as int) <= u64::MAX
}

/// The evidence is valid against its state.
pub open spec fn evidence_valid(
    evidence: RelayDistributionEvidence,
    rows_json: Seq<u8>,
    state: RelayState,
) -> bool {
    &&& static_valid(evidence, rows_json)
    &&& state_counts(state, evidence.as_of_epoch)
    &&& reports_state(evidence, state)
}

/// How evidence that is not valid is reported: a negative stored total by its
/// name, everything else as invalid.
pub open spec fn refuses_evidence(
    evidence: RelayDistributionEvidence,
    rows_json: Seq<u8>,
    state: RelayState,
    error: Error,
) -> bool {
    if static_valid(evidence, rows_json) && state_counts(state, evidence.as_of_epoch)
        && !totals_count(state.physical) {
        error is NegativeLedgerValue
    } else {
        error is Invalid
    }
}

/// Validate evidence against its state.
pub fn validate_evidence(
    evidence: &RelayDistributionEvidence,
    rows_json: &[u8],
    state: &RelayState,
) -> (outcome: Result<()>)
    requires
        ids_differ(state.candidates@),
    ensures
        outcome is Ok <==> evidence_valid(*evidence, rows_json@, *state),
        outcome is Err ==> refuses_evidence(*evidence, rows_json@, *state, outcome->Err_0),
{
    match validate_static_evidence(evidence, rows_json) {
        Ok(()) => {},
        Err(error) => {
            return Err(error);
        },
    }
    let rows: Vec<RelayDistributionRow> = match materialize_rows(
        &state.candidates,
        evidence.as_of_epoch,
        evidence.minimum_users,
    ) {
        Ok(rows) => rows,
        Err(error) => {
            return Err(error);
        },
    };
    proof {
        lemma_distribution_unique(
            rows@,
            evidence.rows@,
            state.candidates@,
            evidence.as_of_epoch,
            evidence.minimum_users,
        );
    }
    let totals: CandidateTotals = match state_totals(&state.candidates, evidence.as_of_epoch) {
        Ok(totals) => totals,
        Err(error) => {
            return Err(error);
        },
    };
    let physical: BatchStats = match physical_totals(state.physical) {
        Ok(stats) => stats,
        Err(error) => {
            return Err(error);
        },
    };
    let scanned: u64 = match estimate_rows(0, &evidence.inputs, "relay input physical rows overflowed") {
        Ok(rows) => rows,
        Err(error) => {
            return Err(error);
        },
    };
    let same_snapshot: bool = match &state.snapshot_id {
        None => false,
        Some(snapshot_id) => text_equal(snapshot_id.as_str(), evidence.snapshot_id.as_str()),
    };
    if !same_snapshot || !relays_equal(&rows, &evidence.rows) || state.applied.len() as u64
        != evidence.object_count || scanned != evidence.physical_rows_scanned
        || evidence.candidate_events != totals.candidate_events
        || evidence.eligible_candidate_events != totals.eligible_candidate_events
        || evidence.winning_pubkeys != totals.winning_pubkeys || evidence.candidate_memberships
        != totals.candidate_memberships || evidence.physical_rows_scanned != physical.physical_rows
        || evidence.physical_relay_events != physical.physical_relay_events
        || evidence.raw_relay_tags != physical.raw_relay_tags || evidence.invalid_relay_tags
        != physical.invalid_relay_tags || evidence.duplicate_relay_tags
        != physical.duplicate_relay_tags {
        return Err(Error::Invalid("relay distribution evidence does not reconcile"));
    }
    proof {
        assert(totals == (CandidateTotals {
            candidate_events: evidence.candidate_events,
            eligible_candidate_events: evidence.eligible_candidate_events,
            winning_pubkeys: evidence.winning_pubkeys,
            candidate_memberships: evidence.candidate_memberships,
        }));
        assert(physical == (BatchStats {
            physical_rows: evidence.physical_rows_scanned,
            physical_relay_events: evidence.physical_relay_events,
            raw_relay_tags: evidence.raw_relay_tags,
            invalid_relay_tags: evidence.invalid_relay_tags,
            duplicate_relay_tags: evidence.duplicate_relay_tags,
        }));
    }
    Ok(())
}

/// Take up decoded evidence as a product and validate it against its state.
pub fn load_bounded_relay_distribution(
    evidence: RelayDistributionEvidence,
    evidence_json: &[u8],
    rows_json: &[u8],
    state: &RelayState,
) -> (outcome: Result<BoundedRelayDistribution>)
    requires
        ids_differ(state.candidates@),
    ensures
        outcome is Ok <==> holds_all(evidence.inputs@, state.applied@) && evidence_valid(
            evidence,
            rows_json@,
            *state,
        ),
        match outcome {
            Ok(product) => {
                &&& product.evidence == evidence
                &&& product.evidence_sha256@ == sha256_text(evidence_json@)
            },
            Err(error) => if holds_all(evidence.inputs@, state.applied@) {
                refuses_evidence(evidence, rows_json@, *state, error)
            } else {
                error is Invalid
            },
        },
{
    match validate_applied_inputs(&state.applied, &evidence.inputs) {
        Ok(()) => {},
        Err(error) => {
            return Err(error);
        },
    }
    match validate_evidence(&evidence, rows_json, state) {
        Ok(()) => Ok(
            BoundedRelayDistribution { evidence, evidence_sha256: sha256_hex(evidence_json) },
        ),
        Err(error) => Err(error),
    }
}

/// The state is still that of the evidence.
pub open spec fn is_untouched(evidence: RelayDistributionEvidence, state: RelayState) -> bool {
    &&& state.applied@.len() == evidence.applied_objects
    &&& state.snapshot_id is Some
    &&& state.snapshot_id->0@ == evidence.snapshot_id@
}

/// The state leads from the evidence towards the target.
pub open spec fn is_prefix(
    evidence: RelayDistributionEvidence,
    state: RelayState,
    target: Seq<InputIdentity>,
) -> bool {
    &&& holds_all(state.applied@, evidence.inputs@)
    &&& holds_all(target, state.applied@)
    &&& state.applied@.len() >= evidence.applied_objects
    &&& state.snapshot_id is Some
}

/// Take up predecessor evidence for a successor whose state may already hold a
/// part of the target.
pub fn load_bounded_relay_distribution_for_advance(
    evidence: RelayDistributionEvidence,
    evidence_json: &[u8],
    rows_json: &[u8],
    state: &RelayState,
    target: &Vec<InputIdentity>,
) -> (outcome: Result<BoundedRelayDistribution>)
    requires
        ids_differ(state.candidates@),
    ensures
        outcome is Ok <==> {
            &&& static_valid(evidence, rows_json@)
            &&& if is_untouched(evidence, *state) {
                holds_all(evidence.inputs@, state.applied@) && evidence_valid(
                    evidence,
                    rows_json@,
                    *state,
                )
            } else {
                is_prefix(evidence, *state, target@)
            }
        },
        match outcome {
            Ok(product) => {
                &&& product.evidence == evidence
                &&& product.evidence_sha256@ == sha256_text(evidence_json@)
            },
            Err(error) => if is_untouched(evidence, *state) && holds_all(
                evidence.inputs@,
                state.applied@,
            ) {
                refuses_evidence(evidence, rows_json@, *state, error)
            } else {
                error is Invalid
            },
        },
{
    match validate_static_evidence(&evidence, rows_json) {
        Ok(()) => {},
        Err(error) => {
            return Err(error);
        },
    }
    let same_snapshot: bool = match &state.snapshot_id {
        None => false,
        Some(snapshot_id) => text_equal(snapshot_id.as_str(), evidence.snapshot_id.as_str()),
    };
    if state.applied.len() as u64 == evidence.applied_objects && same_snapshot {
        match validate_applied_inputs(&state.applied, &evidence.inputs) {
            Ok(()) => {},
            Err(error) => {
                return Err(error);
            },
        }
        match validate_evidence(&evidence, rows_json, state) {
            Ok(()) => {},
            Err(error) => {
                return Err(error);
            },
        }
    } else {
        match validate_inputs_present(&state.applied, &evidence.inputs) {
            Ok(()) => {},
            Err(error) => {
                return Err(error);
            },
        }
        match validate_applied_inputs(&state.applied, target) {
            Ok(()) => {},
            Err(error) => {
                return Err(error);
            },
        }
        if (state.applied.len() as u64) < evidence.applied_objects || state.snapshot_id.is_none() {
            return Err(
                Error::Invalid(
                    "relay resumable state is not an exact predecessor-to-target prefix",
                ),
            );
        }
    }
    Ok(BoundedRelayDistribution { evidence, evidence_sha256: sha256_hex(evidence_json) })
}

/// A predecessor and the number of objects added to it.
#[derive(Clone, Debug, PartialEq, Eq)]
pub struct RelayLineage {
    /// Digest of the predecessor evidence.
    pub baseline_evidence_sha256: String,
    /// Objects added.
    pub delta_object_count: u64,
}

/// The evidence reports the build.
pub open spec fn completes_relays(
    evidence: RelayDistributionEvidence,
    snapshot_id: Seq<char>,
    as_of_epoch: u64,
    config: RelayDistributionConfig,
    lineage: Option<RelayLineage>,
    inputs: Vec<InputIdentity>,
    rows: Vec<RelayDistributionRow>,
    rows_json: Seq<u8>,
    totals: CandidateTotals,
    physical: BatchStats,
) -> bool {
    &&& evidence.schema_version == EVIDENCE_SCHEMA_VERSION
    &&& evidence.runner_version@ == RUNNER_VERSION@
    &&& evidence.status@ == "completed"@
    &&& evidence.product_version@ == RELAY_DISTRIBUTION_VERSION@
    &&& evidence.snapshot_id@ == snapshot_id
    &&& evidence.as_of_epoch == as_of_epoch
    &&& match lineage {
        None => evidence.baseline_evidence_sha256 is None && evidence.delta_object_count
            == inputs@.len(),
        Some(lineage) => evidence.baseline_evidence_sha256 == Some(
            lineage.baseline_evidence_sha256,
        ) && evidence.delta_object_count == lineage.delta_object_count,
    }
    &&& evidence.object_count == inputs@.len()
    &&& evidence.applied_objects == inputs@.len()
    &&& evidence.physical_rows_scanned == physical.physical_rows
    &&& evidence.physical_relay_events == physical.physical_relay_events
    &&& evidence.candidate_events == totals.candidate_events
    &&& evidence.eligible_candidate_events == totals.eligible_candidate_events
    &&& evidence.winning_pubkeys == totals.winning_pubkeys
    &&& evidence.candidate_memberships == totals.candidate_memberships
    &&& evidence.raw_relay_tags == physical.raw_relay_tags
    &&& evidence.invalid_relay_tags == physical.invalid_relay_tags
    &&& evidence.duplicate_relay_tags == physical.duplicate_relay_tags
    &&& evidence.minimum_users == config.minimum_users
    &&& evidence.rows == rows
    &&& evidence.rows_sha256@ == sha256_text(rows_json)
    &&& evidence.inputs == inputs
    &&& evidence.max_state_bytes == config.max_state_bytes
    &&& evidence.sqlite_cache_bytes == config.sqlite_cache_bytes
    &&& evidence.disk_reserve_bytes == config.disk_reserve_bytes
}

/// The evidence of a build from its state.
///
/// `rows` is the distribution of the state, and `rows_json` its canonical JSON.
pub fn complete_relay_distribution(
    snapshot_id: &str,
    as_of_epoch: u64,
    config: &RelayDistributionConfig,
    lineage: Option<RelayLineage>,
    inputs: Vec<InputIdentity>,
    rows: Vec<RelayDistributionRow>,
    rows_json: &[u8],
    totals: CandidateTotals,
    physical: BatchStats,
) -> (evidence: RelayDistributionEvidence)
    ensures
        completes_relays(
            evidence,
            snapshot_id@,
            as_of_epoch,
            *config,
            lineage,
            inputs,
            rows,
            rows_json@,
            totals,
            physical,
        ),
{
    let count: u64 = inputs.len() as u64;
    let (baseline_evidence_sha256, delta_object_count): (Option<String>, u64) = match lineage {
        None => (None, count),
        Some(lineage) => (Some(lineage.baseline_evidence_sha256), lineage.delta_object_count),
    };
    RelayDistributionEvidence {
        schema_version: EVIDENCE_SCHEMA_VERSION,
        runner_version: RUNNER_VERSION.to_owned(),
        status: "completed".to_owned(),
        product_version: RELAY_DISTRIBUTION_VERSION.to_owned(),
        snapshot_id: snapshot_id.to_owned(),
        as_of_epoch,
        baseline_evidence_sha256,
        delta_object_count,
        object_count: count,
        applied_objects: count,
        physical_rows_scanned: physical.physical_rows,
        physical_relay_events: physical.physical_relay_events,
        candidate_events: totals.candidate_events,
        eligible_candidate_events: totals.eligible_candidate_events,
        winning_pubkeys: totals.winning_pubkeys,
        candidate_memberships: totals.candidate_memberships,
        raw_relay_tags: physical.raw_relay_tags,
        invalid_relay_tags: physical.invalid_relay_tags,
        duplicate_relay_tags: physical.duplicate_relay_tags,
        minimum_users: config.minimum_users,
        rows,
        rows_sha256: sha256_hex(rows_json),
        inputs,
        max_state_bytes: config.max_state_bytes,
        sqlite_cache_bytes: config.sqlite_cache_bytes,
        disk_reserve_bytes: config.disk_reserve_bytes,
    }
}

/// A completed distribution is valid against the state that it was made from.
pub proof fn lemma_completed_relays_revalidate(
    evidence: RelayDistributionEvidence,
    snapshot_id: Seq<char>,
    as_of_epoch: u64,
    config: RelayDistributionConfig,
    lineage: Option<RelayLineage>,
    inputs: Vec<InputIdentity>,
    rows: Vec<RelayDistributionRow>,
    rows_json: Seq<u8>,
    totals: CandidateTotals,
    physical: BatchStats,
    state: RelayState,
)
    requires
        completes_relays(
            evidence,
            snapshot_id,
            as_of_epoch,
            config,
            lineage,
            inputs,
            rows,
            rows_json,
            totals,
            physical,
        ),
        lineage is Some ==> lineage->0.delta_object_count <= inputs@.len(),
        config.minimum_users > 0,
        state.snapshot_id is Some,
        state.snapshot_id->0@ == snapshot_id,
        state.applied@.len() == inputs@.len(),
        input_rows(inputs@) == physical.physical_rows,
        ids_differ(state.candidates@),
        state_counts(state, as_of_epoch),
        distributes(rows@, state.candidates@, as_of_epoch, config.minimum_users),
        totals_of(totals, state.candidates@, as_of_epoch),
        totals_are(state.physical, physical),
    ensures
        evidence_valid(evidence, rows_json, state),
{
    assert(totals == (CandidateTotals {
        candidate_events: evidence.candidate_events,
        eligible_candidate_events: evidence.eligible_candidate_events,
        winning_pubkeys: evidence.winning_pubkeys,
        candidate_memberships: evidence.candidate_memberships,
    }));
    assert(physical == (BatchStats {
        physical_rows: evidence.physical_rows_scanned,
        physical_relay_events: evidence.physical_relay_events,
        raw_relay_tags: evidence.raw_relay_tags,
        invalid_relay_tags: evidence.invalid_relay_tags,
        duplicate_relay_tags: evidence.duplicate_relay_tags,
    }));
    assert(rows_well_formed(evidence.rows@, evidence.minimum_users)) by {
        let all = state.candidates@;
        assert forall|i: int| 0 <= i < rows@.len() implies row_bounds_hold(
            #[trigger] rows@[i],
            config.minimum_users,
        ) by {
            assert(describes_relay(rows@[i], all, as_of_epoch, config.minimum_users));
            lemma_winner_bounds(all, as_of_epoch, rows@[i].relay_url@, all.len() as int);
        }
        assert forall|i: int| 0 < i < rows@.len() implies #[trigger] row_follows(rows@, i) by {
            assert(rows@[i - 1].at_most(rows@[i]));
            assert(url_at(rows@, i - 1) != url_at(rows@, i));
        }
    }
}

} // verus!
