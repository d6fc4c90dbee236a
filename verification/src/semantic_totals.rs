//! Day totals of semantic records, and the rollups that hold them.

use vstd::prelude::*;

use crate::calendar::floor_day;
use crate::ordered::store;
use crate::rollups::{
    add_engagement, add_longform, add_rejection, add_zap, counts_engagement, counts_rejection,
    counts_zap, day_of, effect_bucket, engagement_row, is_zap_row, longform_row, one_if, zap_day,
    zap_overflow, EngagementDay, LongformDay, SemanticRollups, ZapDay, ZapEffect,
};
use crate::semantic_facts::{
    bucket_of, rejection_index, zap_histogram_bucket, EngagementFact, ZapRejection,
};

verus! {

/// What a compact semantic record says of its event.
#[derive(Clone, Copy, Debug, PartialEq, Eq)]
pub enum SemanticPayload {
    /// Kind-1 event without an `e` tag.
    OriginalNote,
    /// Kind-1 event with an `e` tag.
    Reply,
    /// Kind-7 event.
    Reaction,
    /// Kind-30023 event.
    Longform {
        /// UTF-8 bytes of the content.
        content_bytes: u64,
    },
    /// Accepted kind-9735 event.
    Zap {
        /// Amount in millisatoshis.
        amount_msats: u64,
        /// Validated sender key.
        sender_pubkey: Option<[u8; 32]>,
        /// Validated recipient key.
        recipient_pubkey: Option<[u8; 32]>,
    },
    /// Rejected kind-9735 event.
    RejectedZap(ZapRejection),
}

/// One compact semantic record.
#[derive(Clone, Copy, Debug, PartialEq, Eq)]
pub struct SemanticRecord {
    /// Event timestamp.
    pub created_at: u64,
    /// What the event is.
    pub payload: SemanticPayload,
}

/// Sum of a measure over records.
pub open spec fn sum_records(
    records: Seq<SemanticRecord>,
    measure: spec_fn(SemanticRecord) -> int,
) -> int
    decreases records.len(),
{
    if records.len() == 0 {
        0
    } else {
        sum_records(records.drop_last(), measure) + measure(records.last())
    }
}

/// The record falls on the day.
pub open spec fn on_day(record: SemanticRecord, day: u64) -> bool {
    day_of(record.created_at) == day
}

/// One for an original note of the day.
pub open spec fn original_on(day: u64) -> spec_fn(SemanticRecord) -> int {
    |r: SemanticRecord| one_if(on_day(r, day) && r.payload is OriginalNote)
}

/// One for a reply of the day.
pub open spec fn reply_on(day: u64) -> spec_fn(SemanticRecord) -> int {
    |r: SemanticRecord| one_if(on_day(r, day) && r.payload is Reply)
}

/// One for a reaction of the day.
pub open spec fn reaction_on(day: u64) -> spec_fn(SemanticRecord) -> int {
    |r: SemanticRecord| one_if(on_day(r, day) && r.payload is Reaction)
}

/// One for an article of the day.
pub open spec fn article_on(day: u64) -> spec_fn(SemanticRecord) -> int {
    |r: SemanticRecord| one_if(on_day(r, day) && r.payload is Longform)
}

/// The content bytes of an article of the day.
pub open spec fn content_on(day: u64) -> spec_fn(SemanticRecord) -> int {
    |r: SemanticRecord|
        match r.payload {
            SemanticPayload::Longform { content_bytes } if on_day(r, day) => content_bytes as int,
            _ => 0,
        }
}

/// One for an accepted zap of the day.
pub open spec fn zap_on(day: u64) -> spec_fn(SemanticRecord) -> int {
    |r: SemanticRecord| one_if(on_day(r, day) && r.payload is Zap)
}

/// The amount of an accepted zap of the day.
pub open spec fn amount_on(day: u64) -> spec_fn(SemanticRecord) -> int {
    |r: SemanticRecord|
        match r.payload {
            SemanticPayload::Zap { amount_msats, .. } if on_day(r, day) => amount_msats as int,
            _ => 0,
        }
}

/// One for an accepted zap of the day with a sender.
pub open spec fn sender_on(day: u64) -> spec_fn(SemanticRecord) -> int {
    |r: SemanticRecord|
        match r.payload {
            SemanticPayload::Zap { sender_pubkey, .. } => one_if(
                on_day(r, day) && sender_pubkey is Some,
            ),
            _ => 0,
        }
}

/// One for an accepted zap of the day with a recipient.
pub open spec fn recipient_on(day: u64) -> spec_fn(SemanticRecord) -> int {
    |r: SemanticRecord|
        match r.payload {
            SemanticPayload::Zap { recipient_pubkey, .. } => one_if(
                on_day(r, day) && recipient_pubkey is Some,
            ),
            _ => 0,
        }
}

/// One for an accepted zap of the day in the bucket.
pub open spec fn bucket_on(day: u64, bucket: int) -> spec_fn(SemanticRecord) -> int {
    |r: SemanticRecord|
        match r.payload {
            SemanticPayload::Zap { amount_msats, .. } => one_if(
                on_day(r, day) && bucket_of(amount_msats as int / 1_000) == bucket,
            ),
            _ => 0,
        }
}

/// The amount of an accepted zap of the day in the bucket.
pub open spec fn bucket_amount_on(day: u64, bucket: int) -> spec_fn(SemanticRecord) -> int {
    |r: SemanticRecord|
        match r.payload {
            SemanticPayload::Zap { amount_msats, .. } if on_day(r, day) && bucket_of(
                amount_msats as int / 1_000,
            ) == bucket => amount_msats as int,
            _ => 0,
        }
}

/// One for a rejected zap of the day with the reason.
pub open spec fn rejection_on(day: u64, index: int) -> spec_fn(SemanticRecord) -> int {
    |r: SemanticRecord|
        match r.payload {
            SemanticPayload::RejectedZap(reason) => one_if(
                on_day(r, day) && rejection_index(reason) == index,
            ),
            _ => 0,
        }
}

/// One for a zap of the day, accepted or not.
pub open spec fn zap_event_on(day: u64) -> spec_fn(SemanticRecord) -> int {
    |r: SemanticRecord|
        one_if(on_day(r, day) && (r.payload is Zap || r.payload is RejectedZap))
}

/// One more record adds its measure.
pub proof fn lemma_sum_push(
    records: Seq<SemanticRecord>,
    record: SemanticRecord,
    measure: spec_fn(SemanticRecord) -> int,
)
    ensures
        sum_records(records.push(record), measure) == sum_records(records, measure) + measure(
            record,
        ),
{
    assert(records.push(record).drop_last() =~= records);
}

/// A pointwise smaller measure has a smaller sum.
pub proof fn lemma_sum_bound(
    records: Seq<SemanticRecord>,
    small: spec_fn(SemanticRecord) -> int,
    large: spec_fn(SemanticRecord) -> int,
)
    requires
        forall|r: SemanticRecord| 0 <= #[trigger] small(r) <= large(r),
    ensures
        0 <= sum_records(records, small) <= sum_records(records, large),
    decreases records.len(),
{
    if records.len() > 0 {
        lemma_sum_bound(records.drop_last(), small, large);
        assert(small(records.last()) <= large(records.last()));
    }
}

/// A measure of at most one sums to at most the number of records.
pub proof fn lemma_sum_count(
    records: Seq<SemanticRecord>,
    measure: spec_fn(SemanticRecord) -> int,
)
    requires
        forall|r: SemanticRecord| 0 <= #[trigger] measure(r) <= 1,
    ensures
        0 <= sum_records(records, measure) <= records.len(),
    decreases records.len(),
{
    if records.len() > 0 {
        lemma_sum_count(records.drop_last(), measure);
        assert(measure(records.last()) <= 1);
    }
}

/// Where a covering measure sums to nothing, so does what it covers.
pub proof fn lemma_sum_covered(
    records: Seq<SemanticRecord>,
    small: spec_fn(SemanticRecord) -> int,
    cover: spec_fn(SemanticRecord) -> int,
)
    requires
        forall|r: SemanticRecord| 0 <= #[trigger] cover(r),
        forall|r: SemanticRecord| cover(r) == 0 ==> #[trigger] small(r) == 0,
        sum_records(records, cover) == 0,
    ensures
        sum_records(records, small) == 0,
    decreases records.len(),
{
    if records.len() > 0 {
        assert(cover(records.last()) >= 0);
        lemma_sum_nonnegative(records.drop_last(), cover);
        lemma_sum_covered(records.drop_last(), small, cover);
        assert(small(records.last()) == 0);
    }
}

proof fn lemma_sum_nonnegative(
    records: Seq<SemanticRecord>,
    measure: spec_fn(SemanticRecord) -> int,
)
    requires
        forall|r: SemanticRecord| 0 <= #[trigger] measure(r),
    ensures
        0 <= sum_records(records, measure),
    decreases records.len(),
{
    if records.len() > 0 {
        lemma_sum_nonnegative(records.drop_last(), measure);
        assert(0 <= measure(records.last()));
    }
}

/// The row holds the engagement totals of the day.
pub open spec fn totals_engagement(
    row: EngagementDay,
    records: Seq<SemanticRecord>,
    day: u64,
) -> bool {
    &&& row.day_epoch == day
    &&& row.original_notes == sum_records(records, original_on(day))
    &&& row.replies == sum_records(records, reply_on(day))
    &&& row.reactions == sum_records(records, reaction_on(day))
}

/// The row holds the long-form totals of the day.
pub open spec fn totals_longform(
    row: LongformDay,
    records: Seq<SemanticRecord>,
    day: u64,
) -> bool {
    &&& row.day_epoch == day
    &&& row.articles == sum_records(records, article_on(day))
    &&& row.content_bytes == sum_records(records, content_on(day))
}

/// The row holds the zap totals of the day.
pub open spec fn totals_zaps(row: ZapDay, records: Seq<SemanticRecord>, day: u64) -> bool {
    &&& row.day_epoch == day
    &&& row.accepted == sum_records(records, zap_on(day))
    &&& row.amount_msats == sum_records(records, amount_on(day))
    &&& row.validated_senders == sum_records(records, sender_on(day))
    &&& row.validated_recipients == sum_records(records, recipient_on(day))
    &&& forall|b: int|
        0 <= b < 17 ==> #[trigger] row.histogram@[b] == sum_records(records, bucket_on(day, b))
    &&& forall|b: int|
        0 <= b < 17 ==> #[trigger] row.histogram_amount_msats@[b] == sum_records(
            records,
            bucket_amount_on(day, b),
        )
    &&& forall|i: int|
        0 <= i < 6 ==> #[trigger] row.rejected@[i] == sum_records(records, rejection_on(day, i))
}

/// The engagement rows are the day totals, one for each day with an event.
pub open spec fn engagement_matches(
    map: Map<u64, EngagementDay>,
    records: Seq<SemanticRecord>,
) -> bool {
    forall|day: u64|
        #![trigger map.contains_key(day)]
        #![trigger engagement_row(map, day)]
        {
            &&& totals_engagement(engagement_row(map, day), records, day)
            &&& map.contains_key(day) <==> sum_records(records, original_on(day)) + sum_records(
                records,
                reply_on(day),
            ) + sum_records(records, reaction_on(day)) > 0
        }
}

/// The long-form rows are the day totals, one for each day with an article.
pub open spec fn longform_matches(
    map: Map<u64, LongformDay>,
    records: Seq<SemanticRecord>,
) -> bool {
    forall|day: u64|
        #![trigger map.contains_key(day)]
        #![trigger longform_row(map, day)]
        {
            &&& totals_longform(longform_row(map, day), records, day)
            &&& map.contains_key(day) <==> sum_records(records, article_on(day)) > 0
        }
}

/// The zap rows are the day totals, one for each day with a zap.
pub open spec fn zaps_match(map: Map<u64, ZapDay>, records: Seq<SemanticRecord>) -> bool {
    forall|day: u64|
        #![trigger map.contains_key(day)]
        {
            &&& map.contains_key(day) <==> sum_records(records, zap_event_on(day)) > 0
            &&& map.contains_key(day) ==> totals_zaps(map[day], records, day)
        }
}

/// The rollups hold exactly the day totals of the records.
pub open spec fn rollups_match(rollups: SemanticRollups, records: Seq<SemanticRecord>) -> bool {
    &&& engagement_matches(rollups.engagement@, records)
    &&& longform_matches(rollups.longform@, records)
    &&& zaps_match(rollups.zaps@, records)
}

/// Every day total fits its counter.
pub open spec fn totals_fit(records: Seq<SemanticRecord>) -> bool {
    forall|day: u64|
        #![trigger sum_records(records, content_on(day))]
        #![trigger sum_records(records, amount_on(day))]
        sum_records(records, content_on(day)) <= u64::MAX && sum_records(records, amount_on(day))
            <= u64::MAX
}

/// The totals of the first records are no larger.
pub proof fn lemma_totals_prefix(records: Seq<SemanticRecord>, count: int, day: u64)
    requires
        0 <= count <= records.len(),
    ensures
        sum_records(records.take(count), content_on(day)) <= sum_records(
            records,
            content_on(day),
        ),
        sum_records(records.take(count), amount_on(day)) <= sum_records(records, amount_on(day)),
    decreases records.len() - count,
{
    if count < records.len() {
        lemma_totals_prefix(records, count + 1, day);
        assert(records.take(count + 1) =~= records.take(count).push(records[count]));
        lemma_sum_push(records.take(count), records[count], content_on(day));
        lemma_sum_push(records.take(count), records[count], amount_on(day));
    } else {
        assert(records.take(count) =~= records);
    }
}

/// A record that is no engagement event leaves the engagement totals alone.
proof fn lemma_engagement_step(
    before: Map<u64, EngagementDay>,
    after: Map<u64, EngagementDay>,
    records: Seq<SemanticRecord>,
    record: SemanticRecord,
    fact: EngagementFact,
)
    requires
        engagement_matches(before, records),
        records.len() < u64::MAX,
        fact == match record.payload {
            SemanticPayload::OriginalNote => EngagementFact::OriginalNote,
            SemanticPayload::Reply => EngagementFact::Reply,
            SemanticPayload::Reaction => EngagementFact::Reaction,
            _ => EngagementFact::Other,
        },
        fact == EngagementFact::Other ==> after == before,
        fact != EngagementFact::Other ==> exists|next: EngagementDay| #[trigger]
            counts_engagement(
                engagement_row(before, day_of(record.created_at)),
                next,
                fact,
            ) && after == before.insert(day_of(record.created_at), next),
    ensures
        engagement_matches(after, records.push(record)),
{
    let own = day_of(record.created_at);
    let more = records.push(record);
    assert forall|day: u64|
        #![trigger after.contains_key(day)]
        #![trigger engagement_row(after, day)]
        {
            &&& totals_engagement(engagement_row(after, day), more, day)
            &&& after.contains_key(day) <==> sum_records(more, original_on(day)) + sum_records(
                more,
                reply_on(day),
            ) + sum_records(more, reaction_on(day)) > 0
        } by {
        lemma_sum_push(records, record, original_on(day));
        lemma_sum_push(records, record, reply_on(day));
        lemma_sum_push(records, record, reaction_on(day));
        lemma_sum_count(records, original_on(day));
        lemma_sum_count(records, reply_on(day));
        lemma_sum_count(records, reaction_on(day));
        assert(totals_engagement(engagement_row(before, day), records, day));
        assert(before.contains_key(day) <==> sum_records(records, original_on(day)) + sum_records(
            records,
            reply_on(day),
        ) + sum_records(records, reaction_on(day)) > 0);
        if fact != EngagementFact::Other {
            let next = choose|next: EngagementDay| #[trigger]
                counts_engagement(engagement_row(before, own), next, fact) && after
                    == before.insert(own, next);
            if day == own {
                assert(engagement_row(after, day) == next);
            } else {
                assert(engagement_row(after, day) == engagement_row(before, day));
            }
        }
    }
}

/// A record adds to the long-form totals of its day what it holds.
proof fn lemma_longform_step(
    before: Map<u64, LongformDay>,
    after: Map<u64, LongformDay>,
    records: Seq<SemanticRecord>,
    record: SemanticRecord,
)
    requires
        longform_matches(before, records),
        match record.payload {
            SemanticPayload::Longform { content_bytes } => {
                let day = day_of(record.created_at);
                let row = longform_row(before, day);
                &&& row.articles < u64::MAX
                &&& row.content_bytes + content_bytes <= u64::MAX
                &&& after == before.insert(
                    day,
                    LongformDay {
                        day_epoch: row.day_epoch,
                        articles: (row.articles + 1) as u64,
                        content_bytes: (row.content_bytes + content_bytes) as u64,
                    },
                )
            },
            _ => after == before,
        },
    ensures
        longform_matches(after, records.push(record)),
{
    let own = day_of(record.created_at);
    let more = records.push(record);
    assert forall|day: u64|
        #![trigger after.contains_key(day)]
        #![trigger longform_row(after, day)]
        {
            &&& totals_longform(longform_row(after, day), more, day)
            &&& after.contains_key(day) <==> sum_records(more, article_on(day)) > 0
        } by {
        lemma_sum_push(records, record, article_on(day));
        lemma_sum_push(records, record, content_on(day));
        lemma_sum_count(records, article_on(day));
        assert(totals_longform(longform_row(before, day), records, day));
        assert(before.contains_key(day) <==> sum_records(records, article_on(day)) > 0);
        if record.payload is Longform && day != own {
            assert(longform_row(after, day) == longform_row(before, day));
        }
    }
}

/// The counters of a day without zaps are its totals.
proof fn lemma_zap_row(
    map: Map<u64, ZapDay>,
    records: Seq<SemanticRecord>,
    day: u64,
    row: ZapDay,
)
    requires
        zaps_match(map, records),
        is_zap_row(map, day, row),
    ensures
        totals_zaps(row, records, day),
{
    if !map.contains_key(day) {
        lemma_sum_count(records, zap_event_on(day));
        let cover = zap_event_on(day);
        lemma_sum_covered(records, zap_on(day), cover);
        lemma_sum_covered(records, amount_on(day), cover);
        lemma_sum_covered(records, sender_on(day), cover);
        lemma_sum_covered(records, recipient_on(day), cover);
        assert forall|b: int| 0 <= b < 17 implies #[trigger] row.histogram@[b] == sum_records(
            records,
            bucket_on(day, b),
        ) by {
            lemma_sum_covered(records, bucket_on(day, b), cover);
        }
        assert forall|b: int| 0 <= b < 17 implies #[trigger] row.histogram_amount_msats@[b]
            == sum_records(records, bucket_amount_on(day, b)) by {
            lemma_sum_covered(records, bucket_amount_on(day, b), cover);
        }
        assert forall|i: int| 0 <= i < 6 implies #[trigger] row.rejected@[i] == sum_records(
            records,
            rejection_on(day, i),
        ) by {
            lemma_sum_covered(records, rejection_on(day, i), cover);
        }
    }
}

/// What an accepted zap adds.
pub open spec fn payload_effect(payload: SemanticPayload) -> ZapEffect {
    match payload {
        SemanticPayload::Zap { amount_msats, sender_pubkey, recipient_pubkey } => ZapEffect {
            amount: amount_msats,
            sender: sender_pubkey is Some,
            recipient: recipient_pubkey is Some,
        },
        _ => ZapEffect { amount: 0, sender: false, recipient: false },
    }
}

/// The totals of the record's own day after a zap event.
proof fn lemma_own_zap_day(
    row: ZapDay,
    next: ZapDay,
    records: Seq<SemanticRecord>,
    record: SemanticRecord,
)
    requires
        totals_zaps(row, records, day_of(record.created_at)),
        match record.payload {
            SemanticPayload::Zap { .. } => zap_overflow(row, payload_effect(record.payload)) is None
                && counts_zap(row, next, payload_effect(record.payload)),
            SemanticPayload::RejectedZap(reason) => row.rejected@[rejection_index(reason)]
                < u64::MAX && counts_rejection(row, next, reason),
            _ => false,
        },
    ensures
        totals_zaps(next, records.push(record), day_of(record.created_at)),
{
    let day = day_of(record.created_at);
    let more = records.push(record);
    lemma_sum_push(records, record, zap_on(day));
    lemma_sum_push(records, record, amount_on(day));
    lemma_sum_push(records, record, sender_on(day));
    lemma_sum_push(records, record, recipient_on(day));
    assert forall|b: int| 0 <= b < 17 implies #[trigger] next.histogram@[b] == sum_records(
        more,
        bucket_on(day, b),
    ) by {
        lemma_sum_push(records, record, bucket_on(day, b));
        assert(row.histogram@[b] == sum_records(records, bucket_on(day, b)));
    }
    assert forall|b: int| 0 <= b < 17 implies #[trigger] next.histogram_amount_msats@[b]
        == sum_records(more, bucket_amount_on(day, b)) by {
        lemma_sum_push(records, record, bucket_amount_on(day, b));
        assert(row.histogram_amount_msats@[b] == sum_records(records, bucket_amount_on(day, b)));
    }
    assert forall|i: int| 0 <= i < 6 implies #[trigger] next.rejected@[i] == sum_records(
        more,
        rejection_on(day, i),
    ) by {
        lemma_sum_push(records, record, rejection_on(day, i));
        assert(row.rejected@[i] == sum_records(records, rejection_on(day, i)));
    }
}

/// The totals of another day, or after another event.
proof fn lemma_other_zap_day(
    row: ZapDay,
    records: Seq<SemanticRecord>,
    record: SemanticRecord,
    day: u64,
)
    requires
        totals_zaps(row, records, day),
        !on_day(record, day) || !(record.payload is Zap || record.payload is RejectedZap),
    ensures
        totals_zaps(row, records.push(record), day),
{
    let more = records.push(record);
    lemma_sum_push(records, record, zap_on(day));
    lemma_sum_push(records, record, amount_on(day));
    lemma_sum_push(records, record, sender_on(day));
    lemma_sum_push(records, record, recipient_on(day));
    assert forall|b: int| 0 <= b < 17 implies #[trigger] row.histogram@[b] == sum_records(
        more,
        bucket_on(day, b),
    ) by {
        lemma_sum_push(records, record, bucket_on(day, b));
    }
    assert forall|b: int| 0 <= b < 17 implies #[trigger] row.histogram_amount_msats@[b]
        == sum_records(more, bucket_amount_on(day, b)) by {
        lemma_sum_push(records, record, bucket_amount_on(day, b));
    }
    assert forall|i: int| 0 <= i < 6 implies #[trigger] row.rejected@[i] == sum_records(
        more,
        rejection_on(day, i),
    ) by {
        lemma_sum_push(records, record, rejection_on(day, i));
    }
}

/// A record adds to the zap totals of its day what it holds.
proof fn lemma_zaps_step(
    before: Map<u64, ZapDay>,
    after: Map<u64, ZapDay>,
    records: Seq<SemanticRecord>,
    record: SemanticRecord,
    next: ZapDay,
)
    requires
        zaps_match(before, records),
        if record.payload is Zap || record.payload is RejectedZap {
            &&& after == before.insert(day_of(record.created_at), next)
            &&& totals_zaps(next, records.push(record), day_of(record.created_at))
        } else {
            after == before
        },
    ensures
        zaps_match(after, records.push(record)),
{
    let own = day_of(record.created_at);
    let more = records.push(record);
    assert forall|day: u64|
        #![trigger after.contains_key(day)]
        {
            &&& after.contains_key(day) <==> sum_records(more, zap_event_on(day)) > 0
            &&& after.contains_key(day) ==> totals_zaps(after[day], more, day)
        } by {
        lemma_sum_push(records, record, zap_event_on(day));
        lemma_sum_count(records, zap_event_on(day));
        assert(before.contains_key(day) <==> sum_records(records, zap_event_on(day)) > 0);
        if before.contains_key(day) && (day != own || !(record.payload is Zap || record.payload
            is RejectedZap)) {
            lemma_other_zap_day(before[day], records, record, day);
        }
    }
}

impl SemanticRollups {
    /// Count one more record.
    pub(crate) fn count_record(
        &mut self,
        record: &SemanticRecord,
        Ghost(records): Ghost<Seq<SemanticRecord>>,
    ) -> (outcome: core::result::Result<(), &'static str>)
        requires
            rollups_match(*old(self), records),
            records.len() < u64::MAX,
        ensures
            outcome is Ok ==> rollups_match(*final(self), records.push(*record)),
            outcome is Err ==> !totals_fit(records.push(*record)),
    {
        let day_epoch: u64 = floor_day(record.created_at);
        let ghost before = *self;
        let ghost more = records.push(*record);
        let ghost class = match record.payload {
            SemanticPayload::OriginalNote => EngagementFact::OriginalNote,
            SemanticPayload::Reply => EngagementFact::Reply,
            SemanticPayload::Reaction => EngagementFact::Reaction,
            _ => EngagementFact::Other,
        };
        proof {
            assert(day_epoch == day_of(record.created_at));
            lemma_sum_count(records, original_on(day_epoch));
            lemma_sum_count(records, reply_on(day_epoch));
            lemma_sum_count(records, reaction_on(day_epoch));
            assert(totals_engagement(
                engagement_row(before.engagement@, day_epoch),
                records,
                day_epoch,
            ));
        }
        match record.payload {
            SemanticPayload::OriginalNote => {
                match add_engagement(
                    &mut self.engagement,
                    day_epoch,
                    EngagementFact::OriginalNote,
                ) {
                    Ok(()) => {},
                    Err(message) => {
                        return Err(message);
                    },
                }
            },
            SemanticPayload::Reply => {
                match add_engagement(&mut self.engagement, day_epoch, EngagementFact::Reply) {
                    Ok(()) => {},
                    Err(message) => {
                        return Err(message);
                    },
                }
            },
            SemanticPayload::Reaction => {
                match add_engagement(&mut self.engagement, day_epoch, EngagementFact::Reaction) {
                    Ok(()) => {},
                    Err(message) => {
                        return Err(message);
                    },
                }
            },
            SemanticPayload::Longform { content_bytes } => {
                proof {
                    lemma_sum_count(records, article_on(day_epoch));
                    assert(totals_longform(
                        longform_row(before.longform@, day_epoch),
                        records,
                        day_epoch,
                    ));
                    lemma_sum_push(records, *record, content_on(day_epoch));
                }
                match add_longform(&mut self.longform, day_epoch, content_bytes) {
                    Ok(()) => {},
                    Err(message) => {
                        assert(sum_records(more, content_on(day_epoch)) > u64::MAX);
                        return Err(message);
                    },
                }
            },
            SemanticPayload::Zap { amount_msats, sender_pubkey, recipient_pubkey } => {
                let row: ZapDay = zap_day(&self.zaps, day_epoch);
                let bucket: u8 = zap_histogram_bucket(amount_msats);
                proof {
                    lemma_zap_row(before.zaps@, records, day_epoch, row);
                    lemma_zap_room(row, records, *record);
                }
                let (next, outcome): (ZapDay, core::result::Result<(), &'static str>) = add_zap(
                    row,
                    amount_msats,
                    sender_pubkey.is_some(),
                    recipient_pubkey.is_some(),
                    bucket,
                );
                store(&mut self.zaps, day_epoch, next);
                match outcome {
                    Ok(()) => {},
                    Err(message) => {
                        assert(sum_records(more, amount_on(day_epoch)) > u64::MAX);
                        return Err(message);
                    },
                }
                proof {
                    lemma_own_zap_day(row, next, records, *record);
                    lemma_zaps_step(before.zaps@, self.zaps@, records, *record, next);
                }
            },
            SemanticPayload::RejectedZap(reason) => {
                let row: ZapDay = zap_day(&self.zaps, day_epoch);
                proof {
                    lemma_zap_row(before.zaps@, records, day_epoch, row);
                    lemma_sum_count(records, rejection_on(day_epoch, rejection_index(reason)));
                    assert(row.rejected@[rejection_index(reason)] == sum_records(
                        records,
                        rejection_on(day_epoch, rejection_index(reason)),
                    ));
                }
                match add_rejection(row, reason) {
                    Ok(next) => {
                        store(&mut self.zaps, day_epoch, next);
                        proof {
                            lemma_own_zap_day(row, next, records, *record);
                            lemma_zaps_step(before.zaps@, self.zaps@, records, *record, next);
                        }
                    },
                    Err(message) => {
                        return Err(message);
                    },
                }
            },
        }
        proof {
            lemma_engagement_step(
                before.engagement@,
                self.engagement@,
                records,
                *record,
                class,
            );
            lemma_longform_step(before.longform@, self.longform@, records, *record);
            if !(record.payload is Zap || record.payload is RejectedZap) {
                let unused: ZapDay = arbitrary();
                lemma_zaps_step(before.zaps@, self.zaps@, records, *record, unused);
            }
        }
        Ok(())
    }
}

/// Only the amount of a day can outgrow its counter.
proof fn lemma_zap_room(row: ZapDay, records: Seq<SemanticRecord>, record: SemanticRecord)
    requires
        totals_zaps(row, records, day_of(record.created_at)),
        record.payload is Zap,
        records.len() < u64::MAX,
    ensures
        zap_overflow(row, payload_effect(record.payload)) is Some <==> sum_records(
            records.push(record),
            amount_on(day_of(record.created_at)),
        ) > u64::MAX,
{
    let day = day_of(record.created_at);
    let bucket = effect_bucket(payload_effect(record.payload));
    lemma_sum_count(records, zap_on(day));
    lemma_sum_count(records, sender_on(day));
    lemma_sum_count(records, recipient_on(day));
    lemma_sum_count(records, bucket_on(day, bucket));
    lemma_sum_bound(records, bucket_amount_on(day, bucket), amount_on(day));
    lemma_sum_push(records, record, amount_on(day));
    assert(row.histogram@[bucket] == sum_records(records, bucket_on(day, bucket)));
    assert(row.histogram_amount_msats@[bucket] == sum_records(
        records,
        bucket_amount_on(day, bucket),
    ));
}

} // verus!
