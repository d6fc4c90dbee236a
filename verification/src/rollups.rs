//! Additive engagement, long-form and zap counters by UTC day.

use std::collections::BTreeMap;
use vstd::prelude::*;

use crate::calendar::floor_day;
use crate::ordered::{store, value_or};
use crate::semantic_facts::{
    bucket_of, classify_engagement, classify_longform, classify_zap, engagement_of, invoice_amount,
    is_pubkey_text, rejection_index, tag_value, utf8_len, zap_refusal, EngagementFact,
    ZapRejection,
};

verus! {

/// Exact additive engagement counters for one UTC day.
#[derive(Clone, Copy, Debug, PartialEq, Eq, Structural)]
pub struct EngagementDay {
    /// UTC day start as Unix seconds.
    pub day_epoch: u64,
    /// Kind-1 events without an `e` tag.
    pub original_notes: u64,
    /// Kind-1 events with an `e` tag.
    pub replies: u64,
    /// Kind-7 events.
    pub reactions: u64,
}

/// Exact additive long-form counters for one UTC day.
#[derive(Clone, Copy, Debug, PartialEq, Eq, Structural)]
pub struct LongformDay {
    /// UTC day start as Unix seconds.
    pub day_epoch: u64,
    /// Kind-30023 event count.
    pub articles: u64,
    /// Sum of exact UTF-8 content bytes.
    pub content_bytes: u64,
}

/// Exact additive zap counters for one UTC day.
#[derive(Clone, Copy, Debug, PartialEq, Eq)]
pub struct ZapDay {
    /// UTC day start as Unix seconds.
    pub day_epoch: u64,
    /// Accepted positive zap facts.
    pub accepted: u64,
    /// Sum of accepted amounts in millisatoshis.
    pub amount_msats: u64,
    /// Accepted facts with a validated sender key.
    pub validated_senders: u64,
    /// Accepted facts with a validated recipient key.
    pub validated_recipients: u64,
    /// Exact counts in the 17 fixed histogram buckets.
    pub histogram: [u64; 17],
    /// Exact amounts in the 17 fixed histogram buckets.
    pub histogram_amount_msats: [u64; 17],
    /// Rejected kind-9735 events, by reason.
    pub rejected: [u64; 6],
}

/// Bounded additive state keyed only by UTC day.
#[derive(Clone, Debug, PartialEq, Eq)]
pub struct SemanticRollups {
    /// Engagement counters by UTC day.
    pub engagement: BTreeMap<u64, EngagementDay>,
    /// Long-form counters by UTC day.
    pub longform: BTreeMap<u64, LongformDay>,
    /// Zap counters and rejection accounting by UTC day.
    pub zaps: BTreeMap<u64, ZapDay>,
}

impl Default for SemanticRollups {
    fn default() -> (rollups: Self)
        ensures
            rollups.engagement@ == Map::<u64, EngagementDay>::empty(),
            rollups.longform@ == Map::<u64, LongformDay>::empty(),
            rollups.zaps@ == Map::<u64, ZapDay>::empty(),
    {
        SemanticRollups {
            engagement: BTreeMap::new(),
            longform: BTreeMap::new(),
            zaps: BTreeMap::new(),
        }
    }
}

/// The engagement counters of a day, all zero where there are none.
pub open spec fn engagement_row(map: Map<u64, EngagementDay>, day: u64) -> EngagementDay {
    if map.contains_key(day) {
        map[day]
    } else {
        EngagementDay { day_epoch: day, original_notes: 0, replies: 0, reactions: 0 }
    }
}

/// The long-form counters of a day, all zero where there are none.
pub open spec fn longform_row(map: Map<u64, LongformDay>, day: u64) -> LongformDay {
    if map.contains_key(day) {
        map[day]
    } else {
        LongformDay { day_epoch: day, articles: 0, content_bytes: 0 }
    }
}

/// The row has counted nothing on its day.
pub open spec fn is_empty_zap_day(row: ZapDay, day: u64) -> bool {
    &&& row.day_epoch == day
    &&& row.accepted == 0
    &&& row.amount_msats == 0
    &&& row.validated_senders == 0
    &&& row.validated_recipients == 0
    &&& forall|i: int| 0 <= i < 17 ==> #[trigger] row.histogram@[i] == 0
    &&& forall|i: int| 0 <= i < 17 ==> #[trigger] row.histogram_amount_msats@[i] == 0
    &&& forall|i: int| 0 <= i < 6 ==> #[trigger] row.rejected@[i] == 0
}

/// `row` is the day's counters, all zero where there are none.
pub open spec fn is_zap_row(map: Map<u64, ZapDay>, day: u64, row: ZapDay) -> bool {
    if map.contains_key(day) {
        row == map[day]
    } else {
        is_empty_zap_day(row, day)
    }
}

/// `one` where the condition holds.
pub open spec fn one_if(condition: bool) -> int {
    if condition {
        1
    } else {
        0
    }
}

/// `after` is `before` with one more event of the class.
pub open spec fn counts_engagement(
    before: EngagementDay,
    after: EngagementDay,
    fact: EngagementFact,
) -> bool {
    &&& after.day_epoch == before.day_epoch
    &&& after.replies == before.replies + one_if(fact == EngagementFact::Reply)
    &&& after.original_notes == before.original_notes + one_if(fact == EngagementFact::OriginalNote)
    &&& after.reactions == before.reactions + one_if(fact == EngagementFact::Reaction)
}

/// Why an event of the class cannot be counted, if it cannot.
pub open spec fn engagement_overflow(row: EngagementDay, fact: EngagementFact) -> Option<
    &'static str,
> {
    match fact {
        EngagementFact::Reply => if row.replies == u64::MAX {
            Some("engagement replies overflowed")
        } else {
            None
        },
        EngagementFact::OriginalNote => if row.original_notes == u64::MAX {
            Some("engagement original notes overflowed")
        } else {
            None
        },
        EngagementFact::Reaction => if row.reactions == u64::MAX {
            Some("engagement reactions overflowed")
        } else {
            None
        },
        EngagementFact::Other => None,
    }
}

/// Why an article of this length cannot be counted, if it cannot.
pub open spec fn longform_overflow(row: LongformDay, length: int) -> Option<&'static str> {
    if row.articles == u64::MAX {
        Some("long-form article count overflowed")
    } else if row.content_bytes + length > u64::MAX {
        Some("long-form content bytes overflowed")
    } else {
        None
    }
}

/// What one accepted zap adds to a day.
pub struct ZapEffect {
    /// Amount in millisatoshis.
    pub amount: u64,
    /// Whether the sender key is valid.
    pub sender: bool,
    /// Whether the recipient key is valid.
    pub recipient: bool,
}

/// The bucket of the amount.
pub open spec fn effect_bucket(effect: ZapEffect) -> int {
    bucket_of(effect.amount as int / 1_000)
}

/// `after` is `before` with one more accepted zap.
pub open spec fn counts_zap(before: ZapDay, after: ZapDay, effect: ZapEffect) -> bool {
    let bucket = effect_bucket(effect);
    &&& after.day_epoch == before.day_epoch
    &&& after.accepted == before.accepted + 1
    &&& after.amount_msats == before.amount_msats + effect.amount
    &&& after.validated_senders == before.validated_senders + one_if(effect.sender)
    &&& after.validated_recipients == before.validated_recipients + one_if(effect.recipient)
    &&& after.histogram@ == before.histogram@.update(
        bucket,
        (before.histogram@[bucket] + 1) as u64,
    )
    &&& after.histogram_amount_msats@ == before.histogram_amount_msats@.update(
        bucket,
        (before.histogram_amount_msats@[bucket] + effect.amount) as u64,
    )
    &&& after.rejected@ == before.rejected@
}

/// Why an accepted zap cannot be counted, if it cannot.
pub open spec fn zap_overflow(row: ZapDay, effect: ZapEffect) -> Option<&'static str> {
    let bucket = effect_bucket(effect);
    if row.accepted == u64::MAX {
        Some("accepted zap count overflowed")
    } else if row.amount_msats + effect.amount > u64::MAX {
        Some("zap amount sum overflowed")
    } else if effect.sender && row.validated_senders == u64::MAX {
        Some("validated sender count overflowed")
    } else if effect.recipient && row.validated_recipients == u64::MAX {
        Some("validated recipient count overflowed")
    } else if row.histogram@[bucket] == u64::MAX {
        Some("zap histogram count overflowed")
    } else if row.histogram_amount_msats@[bucket] + effect.amount > u64::MAX {
        Some("zap histogram amount overflowed")
    } else {
        None
    }
}

/// The number of counters that an accepted zap raises before one overflows,
/// all six where none does.
pub open spec fn raised(row: ZapDay, effect: ZapEffect) -> int {
    let bucket = effect_bucket(effect);
    if row.accepted == u64::MAX {
        0
    } else if row.amount_msats + effect.amount > u64::MAX {
        1
    } else if effect.sender && row.validated_senders == u64::MAX {
        2
    } else if effect.recipient && row.validated_recipients == u64::MAX {
        3
    } else if row.histogram@[bucket] == u64::MAX {
        4
    } else if row.histogram_amount_msats@[bucket] + effect.amount > u64::MAX {
        5
    } else {
        6
    }
}

/// `after` is `before` with the counters raised that stand before the first
/// overflow.
pub open spec fn raises_zap(before: ZapDay, after: ZapDay, effect: ZapEffect) -> bool {
    let bucket = effect_bucket(effect);
    let count = raised(before, effect);
    &&& after.day_epoch == before.day_epoch
    &&& after.accepted == before.accepted + one_if(count > 0)
    &&& after.amount_msats == if count > 1 {
        before.amount_msats + effect.amount
    } else {
        before.amount_msats as int
    }
    &&& after.validated_senders == before.validated_senders + one_if(count > 2 && effect.sender)
    &&& after.validated_recipients == before.validated_recipients + one_if(
        count > 3 && effect.recipient,
    )
    &&& after.histogram@ == if count > 4 {
        before.histogram@.update(bucket, (before.histogram@[bucket] + 1) as u64)
    } else {
        before.histogram@
    }
    &&& after.histogram_amount_msats@ == if count > 5 {
        before.histogram_amount_msats@.update(
            bucket,
            (before.histogram_amount_msats@[bucket] + effect.amount) as u64,
        )
    } else {
        before.histogram_amount_msats@
    }
    &&& after.rejected@ == before.rejected@
}

/// `after` is `before` with one more rejected zap.
pub open spec fn counts_rejection(before: ZapDay, after: ZapDay, reason: ZapRejection) -> bool {
    let index = rejection_index(reason);
    &&& after.day_epoch == before.day_epoch
    &&& after.accepted == before.accepted
    &&& after.amount_msats == before.amount_msats
    &&& after.validated_senders == before.validated_senders
    &&& after.validated_recipients == before.validated_recipients
    &&& after.histogram@ == before.histogram@
    &&& after.histogram_amount_msats@ == before.histogram_amount_msats@
    &&& after.rejected@ == before.rejected@.update(index, (before.rejected@[index] + 1) as u64)
}

/// What an accepted zap of these tags adds to its day.
pub open spec fn tagged_effect(tags: Seq<Vec<String>>) -> ZapEffect {
    ZapEffect {
        amount: invoice_amount(tag_value(tags, "bolt11"@)->0)->Ok_0,
        sender: tag_value(tags, "P"@) is Some && is_pubkey_text(tag_value(tags, "P"@)->0),
        recipient: tag_value(tags, "p"@) is Some && is_pubkey_text(tag_value(tags, "p"@)->0),
    }
}

/// Count one event of the class on its day.
pub(crate) fn add_engagement(
    map: &mut BTreeMap<u64, EngagementDay>,
    day_epoch: u64,
    fact: EngagementFact,
) -> (outcome: core::result::Result<(), &'static str>)
    requires
        fact != EngagementFact::Other,
    ensures
        ({
            let row = engagement_row(old(map)@, day_epoch);
            match outcome {
                Ok(_) => {
                    &&& engagement_overflow(row, fact) is None
                    &&& exists|next: EngagementDay| #[trigger]
                        counts_engagement(row, next, fact) && final(map)@ == old(map)@.insert(
                            day_epoch,
                            next,
                        )
                },
                Err(message) => {
                    &&& engagement_overflow(row, fact) == Some(message)
                    &&& final(map)@ == old(map)@
                },
            }
        }),
{
    let row: EngagementDay = value_or(
        map,
        day_epoch,
        EngagementDay { day_epoch, original_notes: 0, replies: 0, reactions: 0 },
    );
    let mut next: EngagementDay = row;
    match fact {
        EngagementFact::Reply => {
            if row.replies == u64::MAX {
                return Err("engagement replies overflowed");
            }
            next.replies = row.replies + 1;
        },
        EngagementFact::OriginalNote => {
            if row.original_notes == u64::MAX {
                return Err("engagement original notes overflowed");
            }
            next.original_notes = row.original_notes + 1;
        },
        EngagementFact::Reaction => {
            if row.reactions == u64::MAX {
                return Err("engagement reactions overflowed");
            }
            next.reactions = row.reactions + 1;
        },
        EngagementFact::Other => {},
    }
    store(map, day_epoch, next);
    assert(counts_engagement(row, next, fact));
    Ok(())
}

/// Count one article on its day.
pub(crate) fn add_longform(
    map: &mut BTreeMap<u64, LongformDay>,
    day_epoch: u64,
    length: u64,
) -> (outcome: core::result::Result<(), &'static str>)
    ensures
        ({
            let row = longform_row(old(map)@, day_epoch);
            match outcome {
                Ok(_) => {
                    &&& longform_overflow(row, length as int) is None
                    &&& final(map)@ == old(map)@.insert(
                        day_epoch,
                        LongformDay {
                            day_epoch: row.day_epoch,
                            articles: (row.articles + 1) as u64,
                            content_bytes: (row.content_bytes + length) as u64,
                        },
                    )
                },
                Err(message) => {
                    &&& longform_overflow(row, length as int) == Some(message)
                    &&& row.articles == u64::MAX ==> final(map)@ == old(map)@
                    &&& row.articles < u64::MAX ==> final(map)@ == old(map)@.insert(
                        day_epoch,
                        LongformDay {
                            day_epoch: row.day_epoch,
                            articles: (row.articles + 1) as u64,
                            content_bytes: row.content_bytes,
                        },
                    )
                },
            }
        }),
{
    let row: LongformDay = value_or(
        map,
        day_epoch,
        LongformDay { day_epoch, articles: 0, content_bytes: 0 },
    );
    if row.articles == u64::MAX {
        return Err("long-form article count overflowed");
    }
    match row.content_bytes.checked_add(length) {
        None => {
            store(
                map,
                day_epoch,
                LongformDay {
                    day_epoch: row.day_epoch,
                    articles: row.articles + 1,
                    content_bytes: row.content_bytes,
                },
            );
            Err("long-form content bytes overflowed")
        },
        Some(content_bytes) => {
            store(
                map,
                day_epoch,
                LongformDay { day_epoch: row.day_epoch, articles: row.articles + 1, content_bytes },
            );
            Ok(())
        },
    }
}

/// The zap counters of a day.
pub(crate) fn zap_day(map: &BTreeMap<u64, ZapDay>, day_epoch: u64) -> (row: ZapDay)
    ensures
        is_zap_row(map@, day_epoch, row),
{
    value_or(
        map,
        day_epoch,
        ZapDay {
            day_epoch,
            accepted: 0,
            amount_msats: 0,
            validated_senders: 0,
            validated_recipients: 0,
            histogram: [0u64; 17],
            histogram_amount_msats: [0u64; 17],
            rejected: [0u64; 6],
        },
    )
}

/// Count one accepted zap.
///
/// The counters are raised in order, so an overflow leaves those before it
/// raised.
pub(crate) fn add_zap(row: ZapDay, amount: u64, sender: bool, recipient: bool, bucket: u8) -> (next: (
    ZapDay,
    core::result::Result<(), &'static str>,
))
    requires
        bucket == effect_bucket(ZapEffect { amount, sender, recipient }),
        bucket <= 16,
    ensures
        ({
            let effect = ZapEffect { amount, sender, recipient };
            &&& raises_zap(row, next.0, effect)
            &&& match next.1 {
                Ok(_) => zap_overflow(row, effect) is None && counts_zap(row, next.0, effect),
                Err(message) => zap_overflow(row, effect) == Some(message),
            }
        }),
{
    let mut after: ZapDay = row;
    if row.accepted == u64::MAX {
        return (after, Err("accepted zap count overflowed"));
    }
    after.accepted = row.accepted + 1;
    match row.amount_msats.checked_add(amount) {
        None => {
            return (after, Err("zap amount sum overflowed"));
        },
        Some(total) => {
            after.amount_msats = total;
        },
    }
    if sender {
        if row.validated_senders == u64::MAX {
            return (after, Err("validated sender count overflowed"));
        }
        after.validated_senders = row.validated_senders + 1;
    }
    if recipient {
        if row.validated_recipients == u64::MAX {
            return (after, Err("validated recipient count overflowed"));
        }
        after.validated_recipients = row.validated_recipients + 1;
    }
    let index: usize = bucket as usize;
    let count: u64 = row.histogram[index];
    if count == u64::MAX {
        return (after, Err("zap histogram count overflowed"));
    }
    let mut histogram: [u64; 17] = row.histogram;
    histogram[index] = count + 1;
    after.histogram = histogram;
    assert(after.histogram@ =~= row.histogram@.update(index as int, (count + 1) as u64));
    match row.histogram_amount_msats[index].checked_add(amount) {
        None => {
            return (after, Err("zap histogram amount overflowed"));
        },
        Some(total) => {
            let mut amounts: [u64; 17] = row.histogram_amount_msats;
            amounts[index] = total;
            after.histogram_amount_msats = amounts;
            assert(after.histogram_amount_msats@ =~= row.histogram_amount_msats@.update(
                index as int,
                total,
            ));
        },
    }
    (after, Ok(()))
}

/// Count one rejected zap.
pub(crate) fn add_rejection(row: ZapDay, reason: ZapRejection) -> (next: core::result::Result<
    ZapDay,
    &'static str,
>)
    ensures
        match next {
            Ok(after) => {
                &&& row.rejected@[rejection_index(reason)] < u64::MAX
                &&& counts_rejection(row, after, reason)
            },
            Err(message) => {
                &&& row.rejected@[rejection_index(reason)] == u64::MAX
                &&& message == "zap rejection count overflowed"
            },
        },
{
    let mut after: ZapDay = row;
    let index: usize = reason.ordinal();
    let count: u64 = row.rejected[index];
    if count == u64::MAX {
        return Err("zap rejection count overflowed");
    }
    let mut rejected: [u64; 6] = row.rejected;
    rejected[index] = count + 1;
    after.rejected = rejected;
    assert(after.rejected@ =~= row.rejected@.update(index as int, (count + 1) as u64));
    Ok(after)
}

/// One zap of the tags changes the zap counters of its day, and no other.
pub open spec fn counts_zap_event(
    before: Map<u64, ZapDay>,
    after: Map<u64, ZapDay>,
    day: u64,
    tags: Seq<Vec<String>>,
    failed: bool,
) -> bool {
    exists|row: ZapDay, next: ZapDay|
        #![trigger is_zap_row(before, day, row), after.contains_pair(day, next)]
        is_zap_row(before, day, row) && after.contains_pair(day, next) && after == before.insert(
            day,
            next,
        ) && match zap_refusal(tags) {
            Some(reason) => if failed {
                next == row
            } else {
                counts_rejection(row, next, reason)
            },
            None => if failed {
                raises_zap(row, next, tagged_effect(tags))
            } else {
                counts_zap(row, next, tagged_effect(tags))
            },
        }
}

/// Why a zap of the tags cannot be counted, if it cannot.
pub open spec fn zap_event_overflow(
    before: Map<u64, ZapDay>,
    day: u64,
    tags: Seq<Vec<String>>,
) -> Option<&'static str> {
    if !before.contains_key(day) {
        None
    } else {
        match zap_refusal(tags) {
            Some(reason) => if before[day].rejected@[rejection_index(reason)] == u64::MAX {
                Some("zap rejection count overflowed")
            } else {
                None
            },
            None => zap_overflow(before[day], tagged_effect(tags)),
        }
    }
}

/// The start of the day that holds a timestamp.
pub open spec fn day_of(created_at: u64) -> u64 {
    (created_at - created_at % 86_400) as u64
}

/// Why an event cannot be counted, if it cannot.
pub open spec fn observe_overflow(
    rollups: SemanticRollups,
    created_at: u64,
    kind: u16,
    tags: Seq<Vec<String>>,
    content: Seq<char>,
) -> Option<&'static str> {
    let day = day_of(created_at);
    if kind == 30_023 {
        longform_overflow(longform_row(rollups.longform@, day), utf8_len(content) as int)
    } else if kind == 9_735 {
        zap_event_overflow(rollups.zaps@, day, tags)
    } else {
        engagement_overflow(engagement_row(rollups.engagement@, day), engagement_of(kind, tags))
    }
}

/// One canonical event.
pub struct Observed {
    /// When it was made.
    pub created_at: u64,
    /// Its kind.
    pub kind: u16,
    /// Its tags.
    pub tags: Seq<Vec<String>>,
    /// Its content.
    pub content: Seq<char>,
}

/// `after` is `before` with the event accounted for.
pub open spec fn observes(
    before: SemanticRollups,
    event: Observed,
    after: SemanticRollups,
) -> bool {
    let day = day_of(event.created_at);
    let fact = engagement_of(event.kind, event.tags);
    &&& observe_overflow(before, event.created_at, event.kind, event.tags, event.content) is None
    &&& if fact == EngagementFact::Other {
        after.engagement@ == before.engagement@
    } else {
        exists|next: EngagementDay| #[trigger]
            counts_engagement(engagement_row(before.engagement@, day), next, fact)
                && after.engagement@ == before.engagement@.insert(day, next)
    }
    &&& if event.kind == 30_023 {
        let row = longform_row(before.longform@, day);
        after.longform@ == before.longform@.insert(
            day,
            LongformDay {
                day_epoch: row.day_epoch,
                articles: (row.articles + 1) as u64,
                content_bytes: (row.content_bytes + utf8_len(event.content)) as u64,
            },
        )
    } else {
        after.longform@ == before.longform@
    }
    &&& if event.kind == 9_735 {
        counts_zap_event(before.zaps@, after.zaps@, day, event.tags, false)
    } else {
        after.zaps@ == before.zaps@
    }
}

/// The event overflows a counter; `after` is `before` with the counters raised
/// that stand before it.
pub open spec fn stops_at(
    before: SemanticRollups,
    event: Observed,
    after: SemanticRollups,
    message: &'static str,
) -> bool {
    let day = day_of(event.created_at);
    &&& observe_overflow(before, event.created_at, event.kind, event.tags, event.content) == Some(
        message,
    )
    &&& after.engagement@ == before.engagement@
    &&& if event.kind == 30_023 && longform_row(before.longform@, day).articles < u64::MAX {
        let row = longform_row(before.longform@, day);
        after.longform@ == before.longform@.insert(
            day,
            LongformDay {
                day_epoch: row.day_epoch,
                articles: (row.articles + 1) as u64,
                content_bytes: row.content_bytes,
            },
        )
    } else {
        after.longform@ == before.longform@
    }
    &&& if event.kind == 9_735 {
        counts_zap_event(before.zaps@, after.zaps@, day, event.tags, true)
    } else {
        after.zaps@ == before.zaps@
    }
}

impl SemanticRollups {
    /// Account for one already-deduplicated canonical event.
    ///
    /// A kind-1 or kind-7 event raises an engagement counter of its day, a
    /// kind-30023 event the article counters, and a kind-9735 event the zap
    /// counters; any other event changes nothing.
    pub fn observe(
        &mut self,
        created_at: u64,
        kind: u16,
        tags: &[Vec<String>],
        content: &str,
    ) -> (outcome: core::result::Result<(), &'static str>)
        ensures
            ({
                let event = Observed { created_at, kind, tags: tags@, content: content@ };
                match outcome {
                    Ok(_) => observes(*old(self), event, *final(self)),
                    Err(message) => stops_at(*old(self), event, *final(self), message),
                }
            }),
    {
        let day_epoch: u64 = floor_day(created_at);
        let fact: EngagementFact = classify_engagement(kind, tags);
        if fact != EngagementFact::Other {
            match add_engagement(&mut self.engagement, day_epoch, fact) {
                Ok(()) => {},
                Err(message) => {
                    return Err(message);
                },
            }
        }
        if let Some(article) = classify_longform(kind, content) {
            match add_longform(&mut self.longform, day_epoch, article.content_bytes) {
                Ok(()) => {},
                Err(message) => {
                    return Err(message);
                },
            }
        }
        if let Some(class) = classify_zap(kind, tags) {
            let ghost before = self.zaps@;
            let row: ZapDay = zap_day(&self.zaps, day_epoch);
            match class {
                Ok(zap) => {
                    let (next, outcome): (
                        ZapDay,
                        core::result::Result<(), &'static str>,
                    ) = add_zap(
                        row,
                        zap.amount_msats,
                        zap.sender_pubkey.is_some(),
                        zap.recipient_pubkey.is_some(),
                        zap.histogram_bucket,
                    );
                    store(&mut self.zaps, day_epoch, next);
                    proof {
                        assert(zap_refusal(tags@) is None);
                        assert(tagged_effect(tags@) == (ZapEffect {
                            amount: zap.amount_msats,
                            sender: zap.sender_pubkey is Some,
                            recipient: zap.recipient_pubkey is Some,
                        }));
                        assert(is_zap_row(before, day_epoch, row));
                        assert(self.zaps@.contains_pair(day_epoch, next));
                        if !before.contains_key(day_epoch) {
                            assert(zap_overflow(row, tagged_effect(tags@)) is None);
                        }
                    }
                    return outcome;
                },
                Err(reason) => {
                    match add_rejection(row, reason) {
                        Ok(next) => {
                            store(&mut self.zaps, day_epoch, next);
                            proof {
                                assert(is_zap_row(before, day_epoch, row));
                                assert(self.zaps@.contains_pair(day_epoch, next));
                            }
                        },
                        Err(message) => {
                            proof {
                                assert(before.contains_key(day_epoch));
                                assert(is_zap_row(before, day_epoch, row));
                                assert(self.zaps@.contains_pair(day_epoch, row));
                                assert(before =~= before.insert(day_epoch, row));
                            }
                            return Err(message);
                        },
                    }
                },
            }
        }
        Ok(())
    }
}

} // verus!
