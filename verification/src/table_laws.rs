//! What the functions that make tables give for the bytes they read.

use vstd::prelude::*;

use crate::activity::{activity_stream, eligible, lemma_eligible_grouped};
use crate::activity_counts::FinalizedActivity;
use crate::activity_laws::{
    authors, counts_in, created_in, ever_published, lemma_eligible_are_up_to_as_of,
    lemma_event_has_its_active_rows, lemma_event_has_its_distinct_rows, lemma_profiles_and_follows,
    of_kind_in,
};
use crate::activity_tables::{describes_period, lists_periods};
use crate::artifact::{ArtifactIdentity, EncodedRun};
use crate::calendar::day_text;
use crate::day_laws::{
    lemma_days_count_their_records, recorded_bytes, recorded_msats, recorded_on, zap_in_bucket,
    Class,
};
use crate::error::Result;
use crate::first_seen_laws::{
    appeared, appeared_on, lemma_first_event_has_its_day, lemma_publishers_are_new_once,
};
use crate::fixed_activity::finalize;
use crate::flexible_distinct::{
    BoundedFlexibleDistinct, FlexibleDistinctWindow, FlexibleRevalidation,
};
use crate::flexible_laws::{
    is_of_event, lemma_estimate_joins_its_leaves, lemma_event_has_its_identity,
    lemma_identity_has_its_event, lemma_identity_has_its_group, of_window, sketch_of,
};
use crate::flexible_windows::{estimate_flexible_distinct_window, sketch_views};
use crate::hour_identities::{leaf_groups, transform_batch, LeafGroup};
use crate::leaf_stream::holds_leaves;
use crate::period_counter::Grain;
use crate::pubkey_first_seen::{NewUsersDaily, SeenBounds};
use crate::publisher_flags::build_flags;
use crate::publisher_ledger::PublisherRankingRow;
use crate::publisher_rank::rank_ledger;
use crate::publisher_scan::{scan_publishers, LedgerBatch};
use crate::ranking_laws::{lemma_batch_counts_its_records, lemma_more_events_rank_first, within};
use crate::records::record_count;
use crate::relay_distribution::{relay_memberships, RelayDistributionRow, RelayMembership};
use crate::relay_laws::{
    is_marked, is_tag_for, is_unmarked, lemma_markers_give_modes, lemma_row_counts_its_users,
    lists_are_sets, users_of,
};
use crate::relay_rows::{materialize_rows, Mode, RelayCandidate};
use crate::rollups::{engagement_row, longform_row, SemanticRollups};
use crate::semantic_build::SemanticDomainCounts;
use crate::semantic_totals::SemanticRecord;
use crate::words::{cut, lemma_records_are_cut, word16, word32};

verus! {

/// A scan of a sorted artifact counts, in every row, the scanned events that the
/// publisher created within the days of the row. It refuses windows that start
/// before the epoch.
pub proof fn lemma_scan_counts_windows(
    activity: &[u8],
    from: usize,
    publishers: usize,
    windows: &Vec<u32>,
    as_of: u64,
    outcome: Result<LedgerBatch>,
    i: int,
)
    requires
        call_ensures(scan_publishers, (activity, from, publishers, windows, as_of), outcome),
        activity_stream(activity@),
    ensures
        (exists|w: int| 0 <= w < windows@.len() && #[trigger] windows@[w] * 86_400 > as_of)
            ==> outcome is Err,
        outcome is Ok && 0 <= i < outcome->Ok_0.rows@.len() ==> {
            let batch = outcome->Ok_0;
            let row = batch.rows@[i];
            let events = cut(activity@, 70).subrange(from as int, batch.source_records as int);
            &&& windows@.contains(row.days)
            &&& row.event_count == events.filter(
                within(row.pubkey@, row.kind, row.days, as_of as int),
            ).len()
            &&& row.event_count > 0
        },
{
    if let Ok(batch) = outcome {
        lemma_batch_counts_its_records(
            activity@,
            from as int,
            publishers as int,
            windows@,
            as_of as int,
            batch.rows@,
            batch.source_records as int,
        );
        if 0 <= i < batch.rows@.len() {
            crate::ranking_laws::lemma_row_counts_its_days(
                batch.rows@,
                cut(activity@, 70).subrange(from as int, batch.source_records as int),
                windows@,
                as_of as int,
                i,
            );
        }
    }
}

/// A ranking keeps rows of the ledger with more events before those with fewer.
pub proof fn lemma_ledger_is_ranked_by_events(
    ledger: Vec<PublisherRankingRow>,
    limit: usize,
    outcome: Result<(Vec<PublisherRankingRow>, u64)>,
    i: int,
    j: int,
)
    requires
        call_ensures(rank_ledger, (ledger, limit), outcome),
        outcome is Ok,
        0 <= i < j < (outcome->Ok_0).0@.len(),
    ensures
        ({
            let rows = (outcome->Ok_0).0@;
            &&& ledger@.contains(rows[i])
            &&& rows[i].days <= rows[j].days
            &&& rows[i].days == rows[j].days && rows[i].kind == rows[j].kind
                ==> rows[i].event_count >= rows[j].event_count
        }),
{
    let rows = (outcome->Ok_0).0@;
    lemma_more_events_rank_first(rows, ledger@, limit as int, i, j);
    assert(rows.contains(rows[i]));
}

/// The events of an artifact up to the boundary.
pub open spec fn up_to(activity: Seq<u8>, as_of: int) -> Seq<Seq<u8>> {
    cut(activity, 70).filter(|event: Seq<u8>| word32(event, 32) <= as_of)
}

/// Every event up to the boundary is counted in the tables of its day, week and
/// month: its publisher among the distinct ones of its kind and of all kinds,
/// and, unless it is of kind 445 or 1059, among the active ones, and itself
/// among the events.
pub proof fn lemma_tables_count_every_event(
    activity: &[u8],
    flags: &[u8],
    activity_artifact: &ArtifactIdentity,
    flags_artifact: &ArtifactIdentity,
    as_of: u64,
    outcome: Result<FinalizedActivity>,
    k: int,
    grain: Grain,
    start: u32,
)
    requires
        call_ensures(
            finalize,
            (activity, flags, activity_artifact, flags_artifact, as_of),
            outcome,
        ),
        outcome is Ok,
        0 <= k < up_to(activity@, as_of as int).len(),
        created_in(grain, start as int)(up_to(activity@, as_of as int)[k]),
    ensures
        ({
            let events = up_to(activity@, as_of as int);
            let name = match grain {
                Grain::Day => "day"@,
                Grain::Week => "week"@,
                Grain::Month => "month"@,
            };
            let active = outcome->Ok_0.active_users@;
            let distinct = outcome->Ok_0.distinct_pubkeys@;
            &&& word16(events[k], 36) != 445 && word16(events[k], 36) != 1_059 ==> exists|r: int|
                {
                    &&& 0 <= r < active.len()
                    &&& (#[trigger] active[r]).grain@ == name
                    &&& day_text(start as int) == Some(active[r].period_start@)
                    &&& active[r].total_events == events.filter(
                        counts_in(grain, start as int),
                    ).len()
                    &&& active[r].active_users == authors(
                        events,
                        counts_in(grain, start as int),
                    ).len()
                    &&& active[r].active_users > 0
                }
            &&& exists|r: int|
                {
                    &&& 0 <= r < distinct.len()
                    &&& (#[trigger] distinct[r]).grain@ == name
                    &&& day_text(start as int) == Some(distinct[r].period_start@)
                    &&& distinct[r].kind is None
                    &&& distinct[r].unique_pubkeys == authors(
                        events,
                        created_in(grain, start as int),
                    ).len()
                }
            &&& exists|r: int|
                {
                    &&& 0 <= r < distinct.len()
                    &&& (#[trigger] distinct[r]).grain@ == name
                    &&& day_text(start as int) == Some(distinct[r].period_start@)
                    &&& distinct[r].kind is Some
                    &&& distinct[r].kind->0 == word16(events[k], 36)
                    &&& distinct[r].unique_pubkeys == authors(
                        events,
                        of_kind_in(grain, start as int, distinct[r].kind->0),
                    ).len()
                }
        }),
{
    let events = up_to(activity@, as_of as int);
    lemma_eligible_are_up_to_as_of(activity@, as_of as int);
    assert(events == eligible(activity@, as_of as int));
    assert(activity_stream(activity@));
    lemma_records_are_cut(activity@, 70);
    lemma_eligible_grouped(activity@, as_of as int, record_count(activity@, 70));
    let tables = outcome->Ok_0;
    if word16(events[k], 36) != 445 && word16(events[k], 36) != 1_059 {
        lemma_event_has_its_active_rows(
            tables.active_users@,
            events,
            flags@,
            k,
            grain,
            start,
        );
    }
    lemma_event_has_its_distinct_rows(tables.distinct_pubkeys@, events, k, grain, start, None);
    let kind = word16(events[k], 36) as u16;
    assert(word16(events[k], 36) == kind) by {
        crate::words::lemma_big_endian(events[k], 36);
        crate::bytes::lemma_be_limits();
        crate::bytes::lemma_be_nat_bound(events[k].subrange(36, 38));
    }
    lemma_event_has_its_distinct_rows(
        tables.distinct_pubkeys@,
        events,
        k,
        grain,
        start,
        Some(kind),
    );
}

/// With the flags that are built for an artifact, the active publishers of a row
/// with a profile are those with an event of kind 0 at any time up to the
/// boundary, and those with a follows list the ones with an event of kind 3.
pub proof fn lemma_built_flags_count_profiles(
    activity: &[u8],
    flags: &[u8],
    activity_artifact: &ArtifactIdentity,
    flags_artifact: &ArtifactIdentity,
    as_of: u64,
    built: Result<EncodedRun>,
    outcome: Result<FinalizedActivity>,
    r: int,
) -> (period: (Grain, u32))
    requires
        call_ensures(build_flags, (activity, as_of), built),
        built is Ok,
        built->Ok_0.bytes@ == flags@,
        call_ensures(
            finalize,
            (activity, flags, activity_artifact, flags_artifact, as_of),
            outcome,
        ),
        outcome is Ok,
        0 <= r < outcome->Ok_0.active_users@.len(),
    ensures
        ({
            let events = up_to(activity@, as_of as int);
            let row = outcome->Ok_0.active_users@[r];
            let active = authors(events, counts_in(period.0, period.1 as int));
            &&& day_text(period.1 as int) == Some(row.period_start@)
            &&& row.grain@ == (match period.0 {
                Grain::Day => "day"@,
                Grain::Week => "week"@,
                Grain::Month => "month"@,
            })
            &&& row.active_users == active.len()
            &&& row.has_profile == active.filter(
                |who: Seq<u8>| ever_published(events, who, 0),
            ).len()
            &&& row.has_follows_list == active.filter(
                |who: Seq<u8>| ever_published(events, who, 3),
            ).len()
            &&& row.has_profile_and_follows_list == active.filter(
                |who: Seq<u8>| ever_published(events, who, 0) && ever_published(events, who, 3),
            ).len()
        }),
{
    let events = up_to(activity@, as_of as int);
    lemma_eligible_are_up_to_as_of(activity@, as_of as int);
    assert(events == eligible(activity@, as_of as int));
    lemma_records_are_cut(activity@, 70);
    lemma_eligible_grouped(activity@, as_of as int, record_count(activity@, 70));
    let rows = outcome->Ok_0.active_users@;
    let periods = choose|periods: Seq<(Grain, u32)>| #[trigger]
        lists_periods(rows, periods, events, flags@);
    assert(describes_period(rows[r], periods[r], events, flags@));
    let period = periods[r];
    lemma_profiles_and_follows(rows[r]@.2, events, flags@, period.0, period.1 as int);
    crate::activity_laws::lemma_two_kinds_do_not_count(
        rows[r]@.2,
        events,
        flags@,
        period.0,
        period.1 as int,
    );
    period
}

/// The served publishers and those that are new on a day are counted from the
/// first second in each record.
pub proof fn lemma_new_publishers_are_counted(
    bytes: &[u8],
    artifact: &ArtifactIdentity,
    bounds: SeenBounds,
    outcome: Result<(u64, Vec<NewUsersDaily>)>,
    k: int,
    day: u32,
)
    requires
        call_ensures(crate::pubkey_first_seen::finalize, (bytes, artifact, bounds), outcome),
        outcome is Ok,
        0 <= k < cut(bytes@, 40).len(),
        appeared_on(bounds, day as int)(cut(bytes@, 40)[k]),
    ensures
        (outcome->Ok_0).0 == cut(bytes@, 40).filter(appeared(bounds)).len(),
        exists|r: int|
            0 <= r < (outcome->Ok_0).1@.len() && day_text(day as int) == Some(
                (#[trigger] (outcome->Ok_0).1@[r]).day@,
            ) && (outcome->Ok_0).1@[r].new_pubkeys == cut(bytes@, 40).filter(
                appeared_on(bounds, day as int),
            ).len(),
{
    lemma_publishers_are_new_once(bytes@, bounds, day as int);
    lemma_first_event_has_its_day((outcome->Ok_0).1@, bytes@, bounds, k, day);
}

/// An estimate joins the sketches of exactly the leaves in the hours between
/// `since` and `until`, of the kind where one is given.
pub proof fn lemma_estimate_is_of_its_window<U: Fn(Vec<Vec<u8>>) -> Result<u64>>(
    product: &BoundedFlexibleDistinct,
    read: &FlexibleRevalidation,
    since: u64,
    until: u64,
    kind: Option<u16>,
    union: &U,
    outcome: Result<u64>,
)
    requires
        call_ensures(
            estimate_flexible_distinct_window::<U>,
            (product, read, since, until, kind, union),
            outcome,
        ),
        outcome is Ok,
    ensures
        exists|leaves: Seq<(u32, u16, Seq<u8>)>, given: Vec<Vec<u8>>|
            #![trigger holds_leaves(read.leaves@, leaves), sketch_views(given@)]
            {
                &&& holds_leaves(read.leaves@, leaves)
                &&& call_ensures(*union, (given,), outcome)
                &&& sketch_views(given@) == leaves.filter(
                    |leaf: (u32, u16, Seq<u8>)|
                        since <= leaf.0 * 3_600 && leaf.0 * 3_600 + 3_600 <= until && (
                        kind matches Some(own) ==> leaf.1 == own),
                ).map_values(sketch_of())
            },
{
    let window = FlexibleDistinctWindow { since_epoch: since, until_epoch: until, kind };
    lemma_estimate_joins_its_leaves(*union, product.evidence, *read, window, outcome);
    let chosen = |leaf: (u32, u16, Seq<u8>)|
        since <= leaf.0 * 3_600 && leaf.0 * 3_600 + 3_600 <= until && (kind matches Some(own)
            ==> leaf.1 == own);
    assert(of_window(window) =~= chosen);
}

/// Every event before the boundary puts its publisher into a group of its hour
/// and kind, and every identity comes from such an event.
pub proof fn lemma_hours_hold_their_publishers(
    activity: &[u8],
    boundary: u64,
    run: Result<EncodedRun>,
    identities: &[u8],
    groups: Result<Vec<LeafGroup>>,
    k: int,
    i: int,
)
    requires
        call_ensures(transform_batch, (activity, boundary), run),
        run is Ok,
        run->Ok_0.bytes@ == identities@,
        call_ensures(leaf_groups, (identities,), groups),
        groups is Ok,
        0 <= k < cut(activity@, 70).len(),
        word32(cut(activity@, 70)[k], 32) < boundary,
        0 <= i < cut(identities@, 38).len(),
    ensures
        exists|g: int, j: int|
            #![trigger groups->Ok_0@[g], cut(identities@, 38)[j]]
            {
                let group = groups->Ok_0@[g];
                &&& 0 <= g < groups->Ok_0@.len()
                &&& group.start <= j < group.start + group.exact_identities
                &&& cut(identities@, 38)[j].subrange(6, 38) == cut(activity@, 70)[k].subrange(
                    0,
                    32,
                )
                &&& group.hour * 3_600 <= word32(cut(activity@, 70)[k], 32) < group.hour * 3_600
                    + 3_600
                &&& group.kind == word16(cut(activity@, 70)[k], 36)
            },
        exists|e: int|
            0 <= e < cut(activity@, 70).len() && word32(cut(activity@, 70)[e], 32) < boundary
                && #[trigger] is_of_event(cut(identities@, 38)[i], cut(activity@, 70)[e]),
{
    lemma_records_are_cut(identities@, 38);
    let j = lemma_event_has_its_identity(run->Ok_0, activity@, boundary as int, k);
    lemma_identity_has_its_group(groups->Ok_0@, identities@, j);
    let g = choose|g: int|
        {
            &&& 0 <= g < groups->Ok_0@.len()
            &&& (#[trigger] groups->Ok_0@[g]).start <= j
            &&& j < groups->Ok_0@[g].start + groups->Ok_0@[g].exact_identities
            &&& groups->Ok_0@[g].hour == word32(cut(identities@, 38)[j], 0)
            &&& groups->Ok_0@[g].kind == word16(cut(identities@, 38)[j], 4)
        };
    assert(cut(identities@, 38)[j].subrange(6, 38) == cut(activity@, 70)[k].subrange(0, 32));
    assert(groups->Ok_0@[g].start <= j);
    let e = lemma_identity_has_its_event(run->Ok_0, activity@, boundary as int, i);
    assert(is_of_event(cut(identities@, 38)[i], cut(activity@, 70)[e]));
}

/// The memberships of a list have the modes that its markers give.
pub proof fn lemma_lists_are_read_by_their_markers(
    tags: &[Vec<String>],
    normalized: &[Option<String>],
    memberships: Vec<RelayMembership>,
    m: int,
)
    requires
        call_ensures(relay_memberships, (tags, normalized), memberships),
        0 <= m < memberships@.len(),
    ensures
        ({
            let url = memberships@[m].relay_url@;
            &&& memberships@[m].read <==> exists|i: int| #[trigger]
                is_tag_for(tags@, normalized@, url, i) && (is_unmarked(tags@, i) || is_marked(
                    tags@,
                    i,
                    "read"@,
                ))
            &&& memberships@[m].write <==> exists|i: int| #[trigger]
                is_tag_for(tags@, normalized@, url, i) && (is_unmarked(tags@, i) || is_marked(
                    tags@,
                    i,
                    "write"@,
                ))
        }),
{
    lemma_markers_give_modes(memberships@, tags@, normalized@, m);
}

/// A distribution counts the users, readers and writers of each relay among the
/// winning lists.
pub proof fn lemma_distribution_counts_users(
    candidates: &Vec<RelayCandidate>,
    as_of: u64,
    minimum_users: u64,
    outcome: Result<Vec<RelayDistributionRow>>,
    r: int,
)
    requires
        call_ensures(materialize_rows, (candidates, as_of, minimum_users), outcome),
        outcome is Ok,
        lists_are_sets(candidates@),
        0 <= r < outcome->Ok_0@.len(),
    ensures
        ({
            let row = outcome->Ok_0@[r];
            let url = row.relay_url@;
            &&& row.user_count == users_of(candidates@, as_of, url, Mode::Any).len()
            &&& row.read_count == users_of(candidates@, as_of, url, Mode::Read).len()
            &&& row.write_count == users_of(candidates@, as_of, url, Mode::Write).len()
            &&& row.user_count >= minimum_users
        }),
{
    lemma_row_counts_its_users(outcome->Ok_0@, candidates@, as_of, minimum_users, r);
}

/// The rollups of records count those of each day.
pub proof fn lemma_rollups_count_records(
    records: &Vec<SemanticRecord>,
    outcome: Result<(SemanticRollups, SemanticDomainCounts)>,
    day: u64,
)
    requires
        call_ensures(crate::semantic_build::finalize, (records,), outcome),
        outcome is Ok,
    ensures
        ({
            let rollups = (outcome->Ok_0).0;
            let engagement = engagement_row(rollups.engagement@, day);
            let longform = longform_row(rollups.longform@, day);
            &&& engagement.original_notes == records@.filter(recorded_on(day, Class::Note)).len()
            &&& engagement.replies == records@.filter(recorded_on(day, Class::Reply)).len()
            &&& engagement.reactions == records@.filter(recorded_on(day, Class::Reaction)).len()
            &&& longform.articles == records@.filter(recorded_on(day, Class::Article)).len()
            &&& longform.content_bytes == recorded_bytes(records@, day)
            &&& rollups.zaps@.contains_key(day) ==> {
                let row = rollups.zaps@[day];
                &&& row.accepted == records@.filter(recorded_on(day, Class::Accepted)).len()
                &&& row.amount_msats == recorded_msats(records@, day)
                &&& forall|bucket: int|
                    0 <= bucket < 17 ==> #[trigger] row.histogram@[bucket] == records@.filter(
                        zap_in_bucket(day, bucket),
                    ).len()
            }
        }),
{
    lemma_days_count_their_records((outcome->Ok_0).0, records@, day);
}

} // verus!
