//! What the counters of a day say of its events.

use vstd::prelude::*;

use crate::calendar::floor_day;
use crate::invoice_laws::{bucket_bounds, none_named};
use crate::rollup_laws::{
    adds, engagement_on, lemma_counters_are_tallies, lemma_tally_push, longform_on, reached, tally,
    zaps_on, Counter,
};
use crate::rollups::{
    day_of, engagement_row, is_zap_row, longform_row, Observed, SemanticRollups, ZapDay,
};
use crate::semantic_facts::{bucket_of, has_tag, rejection_index, zap_refusal, ZapRejection};
use crate::semantic_totals::{
    amount_on, article_on, bucket_on, content_on, original_on, reaction_on, recipient_on,
    rejection_on, reply_on, rollups_match, sender_on, sum_records, totals_engagement,
    totals_longform, totals_zaps, zap_event_on, zap_on, SemanticPayload, SemanticRecord,
};

verus! {

/// The second lies in the UTC day that starts with the second `day`.
pub open spec fn in_day(day: int, second: int) -> bool {
    day % 86_400 == 0 && day <= second < day + 86_400
}

/// A day starts with a multiple of 86400 seconds, and a second lies in the day
/// that it is rounded down to.
pub proof fn lemma_seconds_lie_in_days(second: u64, start: u64, day: u64)
    requires
        call_ensures(floor_day, (second,), start),
    ensures
        in_day(start as int, second as int),
        day_of(second) == day <==> in_day(day as int, second as int),
{
}

/// The class of an event that counters of its day tell apart.
pub enum Class {
    /// A note without an `e` tag.
    Note,
    /// A note with an `e` tag.
    Reply,
    /// A reaction.
    Reaction,
    /// An article.
    Article,
    /// A zap, accepted or not.
    Zap,
    /// An accepted zap.
    Accepted,
}

/// The event was created on the day and belongs to the class.
pub open spec fn on(day: u64, class: Class) -> spec_fn(Observed) -> bool {
    |event: Observed|
        in_day(day as int, event.created_at as int) && match class {
            Class::Note => event.kind == 1 && none_named(event.tags, "e"@),
            Class::Reply => event.kind == 1 && !none_named(event.tags, "e"@),
            Class::Reaction => event.kind == 7,
            Class::Article => event.kind == 30_023,
            Class::Zap => event.kind == 9_735,
            Class::Accepted => event.kind == 9_735 && zap_refusal(event.tags) is None,
        }
}

/// The event is a zap of the day that was refused for the reason.
pub open spec fn refused_on(day: u64, reason: ZapRejection) -> spec_fn(Observed) -> bool {
    |event: Observed|
        in_day(day as int, event.created_at as int) && event.kind == 9_735 && zap_refusal(
            event.tags,
        ) == Some(reason)
}

/// UTF-8 bytes of the articles of a day.
pub open spec fn article_bytes(events: Seq<Observed>, day: u64) -> int
    decreases events.len(),
{
    if events.len() == 0 {
        0
    } else {
        article_bytes(events.drop_last(), day) + if in_day(
            day as int,
            events.last().created_at as int,
        ) && events.last().kind == 30_023 {
            vstd::utf8::encode_utf8(events.last().content).len() as int
        } else {
            0
        }
    }
}

/// A tally of ones counts a filter.
proof fn lemma_tally_counts(
    events: Seq<Observed>,
    day: u64,
    counter: Counter,
    keep: spec_fn(Observed) -> bool,
)
    requires
        forall|event: Observed| #[trigger]
            adds(event, day, counter) == if keep(event) {
                1int
            } else {
                0int
            },
    ensures
        tally(events, day, counter) == events.filter(keep).len(),
    decreases events.len(),
{
    reveal(Seq::filter);
    if events.len() == 0 {
        reveal_with_fuel(Seq::fold_left, 1);
    } else {
        let fewer = events.drop_last();
        lemma_tally_counts(fewer, day, counter, keep);
        lemma_tally_push(fewer, events.last(), day, counter);
        assert(fewer.push(events.last()) =~= events);
    }
}

proof fn lemma_tally_bytes(events: Seq<Observed>, day: u64)
    ensures
        tally(events, day, Counter::ContentBytes) == article_bytes(events, day),
    decreases events.len(),
{
    if events.len() == 0 {
        reveal_with_fuel(Seq::fold_left, 1);
    } else {
        let fewer = events.drop_last();
        lemma_tally_bytes(fewer, day);
        lemma_tally_push(fewer, events.last(), day, Counter::ContentBytes);
        assert(fewer.push(events.last()) =~= events);
    }
}

proof fn lemma_tagged(tags: Seq<Vec<String>>)
    ensures
        none_named(tags, "e"@) == !has_tag(tags, "e"@),
{
    crate::invoice_laws::lemma_first_tag_has_the_value(tags, "e"@, 0);
}

/// The counters of a day count its events: notes without and with an `e` tag,
/// reactions of kind 7, articles of kind 30023 with their bytes, and zaps of
/// kind 9735, accepted and by the reason of their refusal.
pub proof fn lemma_days_count_their_events(
    events: Seq<Observed>,
    states: Seq<SemanticRollups>,
    day: u64,
)
    requires
        reached(events, states),
    ensures
        ({
            let rollups = states.last();
            let engagement = engagement_row(rollups.engagement@, day);
            let longform = longform_row(rollups.longform@, day);
            &&& engagement.original_notes == events.filter(on(day, Class::Note)).len()
            &&& engagement.replies == events.filter(on(day, Class::Reply)).len()
            &&& engagement.reactions == events.filter(on(day, Class::Reaction)).len()
            &&& longform.articles == events.filter(on(day, Class::Article)).len()
            &&& longform.content_bytes == article_bytes(events, day)
            &&& rollups.zaps@.contains_key(day) <==> events.filter(on(day, Class::Zap)).len() > 0
            &&& forall|row: ZapDay| #[trigger]
                is_zap_row(rollups.zaps@, day, row) ==> {
                    &&& row.accepted == events.filter(on(day, Class::Accepted)).len()
                    &&& row.rejected@[0] == events.filter(
                        refused_on(day, ZapRejection::MissingBolt11),
                    ).len()
                    &&& row.rejected@[1] == events.filter(
                        refused_on(day, ZapRejection::MissingBolt11Value),
                    ).len()
                    &&& row.rejected@[2] == events.filter(
                        refused_on(day, ZapRejection::MalformedBolt11),
                    ).len()
                    &&& row.rejected@[3] == events.filter(
                        refused_on(day, ZapRejection::AmountOverflow),
                    ).len()
                    &&& row.rejected@[4] == events.filter(
                        refused_on(day, ZapRejection::ZeroAmount),
                    ).len()
                    &&& row.rejected@[5] == events.filter(
                        refused_on(day, ZapRejection::AmountAboveLimit),
                    ).len()
                }
        }),
{
    let rollups = states.last();
    lemma_counters_are_tallies(events, states);
    assert(engagement_on(rollups, day, events));
    assert(longform_on(rollups, day, events));
    assert(zaps_on(rollups, day, events));
    assert forall|event: Observed| #[trigger]
        adds(event, day, Counter::OriginalNotes) == if on(day, Class::Note)(event) {
            1int
        } else {
            0int
        } by {
        lemma_tagged(event.tags);
    }
    lemma_tally_counts(events, day, Counter::OriginalNotes, on(day, Class::Note));
    assert forall|event: Observed| #[trigger]
        adds(event, day, Counter::Replies) == if on(day, Class::Reply)(event) {
            1int
        } else {
            0int
        } by {
        lemma_tagged(event.tags);
    }
    lemma_tally_counts(events, day, Counter::Replies, on(day, Class::Reply));
    lemma_tally_counts(events, day, Counter::Reactions, on(day, Class::Reaction));
    lemma_tally_counts(events, day, Counter::Articles, on(day, Class::Article));
    lemma_tally_counts(events, day, Counter::Zaps, on(day, Class::Zap));
    lemma_tally_counts(events, day, Counter::Accepted, on(day, Class::Accepted));
    lemma_tally_bytes(events, day);
    lemma_refusals(events, day, 0, ZapRejection::MissingBolt11);
    lemma_refusals(events, day, 1, ZapRejection::MissingBolt11Value);
    lemma_refusals(events, day, 2, ZapRejection::MalformedBolt11);
    lemma_refusals(events, day, 3, ZapRejection::AmountOverflow);
    lemma_refusals(events, day, 4, ZapRejection::ZeroAmount);
    lemma_refusals(events, day, 5, ZapRejection::AmountAboveLimit);
}

proof fn lemma_refusals(events: Seq<Observed>, day: u64, index: int, reason: ZapRejection)
    requires
        index == rejection_index(reason),
    ensures
        tally(events, day, Counter::Rejected(index)) == events.filter(
            refused_on(day, reason),
        ).len(),
{
    lemma_tally_counts(events, day, Counter::Rejected(index), refused_on(day, reason));
}

/// The record falls on the day and its payload is of the class.
pub open spec fn recorded_on(day: u64, class: Class) -> spec_fn(SemanticRecord) -> bool {
    |record: SemanticRecord|
        in_day(day as int, record.created_at as int) && match class {
            Class::Note => record.payload is OriginalNote,
            Class::Reply => record.payload is Reply,
            Class::Reaction => record.payload is Reaction,
            Class::Article => record.payload is Longform,
            Class::Zap => record.payload is Zap || record.payload is RejectedZap,
            Class::Accepted => record.payload is Zap,
        }
}

/// The record is a zap of the day whose whole satoshis lie above the bound
/// before the bucket and not above its own.
pub open spec fn zap_in_bucket(day: u64, bucket: int) -> spec_fn(SemanticRecord) -> bool {
    |record: SemanticRecord|
        in_day(day as int, record.created_at as int) && (record.payload matches SemanticPayload::Zap {
            amount_msats,
            ..
        } && (bucket == 0 || amount_msats >= 1_000 * (bucket_bounds()[bucket - 1] + 1)) && (bucket
            == 16 || amount_msats < 1_000 * (bucket_bounds()[bucket] + 1)))
}

/// Bytes of the articles of a day.
pub open spec fn recorded_bytes(records: Seq<SemanticRecord>, day: u64) -> int
    decreases records.len(),
{
    if records.len() == 0 {
        0
    } else {
        recorded_bytes(records.drop_last(), day) + match records.last().payload {
            SemanticPayload::Longform { content_bytes } => if in_day(
                day as int,
                records.last().created_at as int,
            ) {
                content_bytes as int
            } else {
                0
            },
            _ => 0,
        }
    }
}

/// Millisatoshis of the accepted zaps of a day.
pub open spec fn recorded_msats(records: Seq<SemanticRecord>, day: u64) -> int
    decreases records.len(),
{
    if records.len() == 0 {
        0
    } else {
        recorded_msats(records.drop_last(), day) + match records.last().payload {
            SemanticPayload::Zap { amount_msats, .. } => if in_day(
                day as int,
                records.last().created_at as int,
            ) {
                amount_msats as int
            } else {
                0
            },
            _ => 0,
        }
    }
}

proof fn lemma_sum_counts(
    records: Seq<SemanticRecord>,
    measure: spec_fn(SemanticRecord) -> int,
    keep: spec_fn(SemanticRecord) -> bool,
)
    requires
        forall|record: SemanticRecord| #[trigger]
            measure(record) == if keep(record) {
                1int
            } else {
                0int
            },
    ensures
        sum_records(records, measure) == records.filter(keep).len(),
    decreases records.len(),
{
    reveal(Seq::filter);
    if records.len() > 0 {
        lemma_sum_counts(records.drop_last(), measure, keep);
        assert(measure(records.last()) == if keep(records.last()) {
            1int
        } else {
            0int
        });
    }
}

proof fn lemma_sums(records: Seq<SemanticRecord>, day: u64)
    ensures
        sum_records(records, content_on(day)) == recorded_bytes(records, day),
        sum_records(records, amount_on(day)) == recorded_msats(records, day),
    decreases records.len(),
{
    if records.len() > 0 {
        lemma_sums(records.drop_last(), day);
    }
}

/// The rollups of compact records count, for every day, its records by what
/// they say, add up their bytes and amounts, and sort the zaps into buckets.
pub proof fn lemma_days_count_their_records(
    rollups: SemanticRollups,
    records: Seq<SemanticRecord>,
    day: u64,
)
    requires
        rollups_match(rollups, records),
    ensures
        ({
            let engagement = engagement_row(rollups.engagement@, day);
            let longform = longform_row(rollups.longform@, day);
            &&& engagement.original_notes == records.filter(recorded_on(day, Class::Note)).len()
            &&& engagement.replies == records.filter(recorded_on(day, Class::Reply)).len()
            &&& engagement.reactions == records.filter(recorded_on(day, Class::Reaction)).len()
            &&& longform.articles == records.filter(recorded_on(day, Class::Article)).len()
            &&& longform.content_bytes == recorded_bytes(records, day)
            &&& rollups.zaps@.contains_key(day) <==> records.filter(
                recorded_on(day, Class::Zap),
            ).len() > 0
            &&& rollups.zaps@.contains_key(day) ==> {
                let row = rollups.zaps@[day];
                &&& row.accepted == records.filter(recorded_on(day, Class::Accepted)).len()
                &&& row.amount_msats == recorded_msats(records, day)
                &&& forall|bucket: int|
                    0 <= bucket < 17 ==> #[trigger] row.histogram@[bucket] == records.filter(
                        zap_in_bucket(day, bucket),
                    ).len()
                &&& row.validated_senders == records.filter(
                    |record: SemanticRecord|
                        in_day(day as int, record.created_at as int) && (
                        record.payload matches SemanticPayload::Zap { sender_pubkey, .. }
                            && sender_pubkey is Some),
                ).len()
                &&& row.validated_recipients == records.filter(
                    |record: SemanticRecord|
                        in_day(day as int, record.created_at as int) && (
                        record.payload matches SemanticPayload::Zap { recipient_pubkey, .. }
                            && recipient_pubkey is Some),
                ).len()
                &&& row.rejected@[0] == records.filter(
                    recorded_refusal(day, ZapRejection::MissingBolt11),
                ).len()
                &&& row.rejected@[1] == records.filter(
                    recorded_refusal(day, ZapRejection::MissingBolt11Value),
                ).len()
                &&& row.rejected@[2] == records.filter(
                    recorded_refusal(day, ZapRejection::MalformedBolt11),
                ).len()
                &&& row.rejected@[3] == records.filter(
                    recorded_refusal(day, ZapRejection::AmountOverflow),
                ).len()
                &&& row.rejected@[4] == records.filter(
                    recorded_refusal(day, ZapRejection::ZeroAmount),
                ).len()
                &&& row.rejected@[5] == records.filter(
                    recorded_refusal(day, ZapRejection::AmountAboveLimit),
                ).len()
            }
        }),
{
    assert(totals_engagement(engagement_row(rollups.engagement@, day), records, day));
    assert(totals_longform(longform_row(rollups.longform@, day), records, day));
    lemma_sum_counts(records, original_on(day), recorded_on(day, Class::Note));
    lemma_sum_counts(records, reply_on(day), recorded_on(day, Class::Reply));
    lemma_sum_counts(records, reaction_on(day), recorded_on(day, Class::Reaction));
    lemma_sum_counts(records, article_on(day), recorded_on(day, Class::Article));
    lemma_sum_counts(records, zap_event_on(day), recorded_on(day, Class::Zap));
    lemma_sum_counts(records, zap_on(day), recorded_on(day, Class::Accepted));
    lemma_sums(records, day);
    let senders = |record: SemanticRecord|
        in_day(day as int, record.created_at as int) && (
        record.payload matches SemanticPayload::Zap { sender_pubkey, .. } && sender_pubkey is Some);
    let recipients = |record: SemanticRecord|
        in_day(day as int, record.created_at as int) && (
        record.payload matches SemanticPayload::Zap { recipient_pubkey, .. }
            && recipient_pubkey is Some);
    lemma_sum_counts(records, sender_on(day), senders);
    lemma_sum_counts(records, recipient_on(day), recipients);
    if rollups.zaps@.contains_key(day) {
        let row = rollups.zaps@[day];
        assert(totals_zaps(row, records, day));
        assert forall|bucket: int| 0 <= bucket < 17 implies #[trigger] row.histogram@[bucket]
            == records.filter(zap_in_bucket(day, bucket)).len() by {
            lemma_bucket_counts(records, day, bucket);
        }
        lemma_recorded_refusals(records, day, 0, ZapRejection::MissingBolt11);
        lemma_recorded_refusals(records, day, 1, ZapRejection::MissingBolt11Value);
        lemma_recorded_refusals(records, day, 2, ZapRejection::MalformedBolt11);
        lemma_recorded_refusals(records, day, 3, ZapRejection::AmountOverflow);
        lemma_recorded_refusals(records, day, 4, ZapRejection::ZeroAmount);
        lemma_recorded_refusals(records, day, 5, ZapRejection::AmountAboveLimit);
    }
}

/// The record is a zap of the day that was refused for the reason.
pub open spec fn recorded_refusal(day: u64, reason: ZapRejection) -> spec_fn(
    SemanticRecord,
) -> bool {
    |record: SemanticRecord|
        in_day(day as int, record.created_at as int) && record.payload
            == SemanticPayload::RejectedZap(reason)
}

proof fn lemma_recorded_refusals(
    records: Seq<SemanticRecord>,
    day: u64,
    index: int,
    reason: ZapRejection,
)
    requires
        index == rejection_index(reason),
    ensures
        sum_records(records, rejection_on(day, index)) == records.filter(
            recorded_refusal(day, reason),
        ).len(),
{
    lemma_sum_counts(records, rejection_on(day, index), recorded_refusal(day, reason));
}

proof fn lemma_bucket_counts(records: Seq<SemanticRecord>, day: u64, bucket: int)
    requires
        0 <= bucket < 17,
    ensures
        sum_records(records, bucket_on(day, bucket)) == records.filter(
            zap_in_bucket(day, bucket),
        ).len(),
{
    assert forall|record: SemanticRecord| #[trigger]
        bucket_on(day, bucket)(record) == if zap_in_bucket(day, bucket)(record) {
            1int
        } else {
            0int
        } by {
        if let SemanticPayload::Zap { amount_msats, .. } = record.payload {
            lemma_one_bucket(amount_msats as int / 1_000, bucket);
        }
    }
    lemma_sum_counts(records, bucket_on(day, bucket), zap_in_bucket(day, bucket));
}

/// One bucket holds a number of satoshis.
proof fn lemma_one_bucket(sats: int, bucket: int)
    requires
        0 <= bucket < 17,
    ensures
        bucket_of(sats) == bucket <==> (bucket == 0 || sats > bucket_bounds()[bucket - 1]) && (
        bucket == 16 || sats <= bucket_bounds()[bucket]),
{
}

} // verus!
