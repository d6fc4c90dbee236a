//! What the counters of the rollups come to, whatever the order of the events.

use vstd::prelude::*;

use crate::rollups::{
    counts_rejection, counts_zap, day_of, effect_bucket, engagement_row, is_empty_zap_day,
    is_zap_row, longform_row, observes, one_if, tagged_effect, zap_overflow, EngagementDay,
    LongformDay, Observed, SemanticRollups, ZapDay, ZapEffect,
};
use crate::semantic_facts::{
    engagement_of, rejection_index, utf8_len, zap_refusal, EngagementFact, ZapRejection,
    MAX_ZAP_AMOUNT_MSATS,
};

verus! {

/// Sum of a list of counters.
pub open spec fn sum_of(values: Seq<u64>) -> int
    decreases values.len(),
{
    if values.len() == 0 {
        0
    } else {
        sum_of(values.drop_last()) + values.last()
    }
}

/// Raising one counter raises the sum by as much.
proof fn lemma_sum_update(values: Seq<u64>, index: int, value: u64)
    requires
        0 <= index < values.len(),
    ensures
        sum_of(values.update(index, value)) == sum_of(values) - values[index] + value,
    decreases values.len(),
{
    let after = values.update(index, value);
    if index == values.len() - 1 {
        assert(after.drop_last() =~= values.drop_last());
    } else {
        assert(after.drop_last() =~= values.drop_last().update(index, value));
        lemma_sum_update(values.drop_last(), index, value);
    }
}

/// The sum of counters that are all zero.
proof fn lemma_sum_zero(values: Seq<u64>)
    requires
        forall|i: int| 0 <= i < values.len() ==> #[trigger] values[i] == 0,
    ensures
        sum_of(values) == 0,
    decreases values.len(),
{
    if values.len() > 0 {
        lemma_sum_zero(values.drop_last());
    }
}

/// The histogram covers every accepted zap and every millisatoshi, and no more
/// keys are valid than zaps were accepted.
pub open spec fn is_balanced(row: ZapDay) -> bool {
    &&& sum_of(row.histogram@) == row.accepted
    &&& sum_of(row.histogram_amount_msats@) == row.amount_msats
    &&& row.validated_senders <= row.accepted
    &&& row.validated_recipients <= row.accepted
}

/// A day without zaps is balanced, and counting a zap or a rejection keeps a
/// balanced day balanced.
pub proof fn lemma_zap_days_stay_balanced(
    row: ZapDay,
    next: ZapDay,
    day: u64,
    effect: ZapEffect,
    reason: ZapRejection,
)
    ensures
        is_empty_zap_day(row, day) ==> is_balanced(row),
        is_balanced(row) && zap_overflow(row, effect) is None && counts_zap(row, next, effect)
            ==> is_balanced(next),
        is_balanced(row) && counts_rejection(row, next, reason) ==> is_balanced(next),
{
    if is_empty_zap_day(row, day) {
        lemma_sum_zero(row.histogram@);
        lemma_sum_zero(row.histogram_amount_msats@);
    }
    if is_balanced(row) && zap_overflow(row, effect) is None && counts_zap(row, next, effect) {
        let bucket = effect_bucket(effect);
        lemma_sum_update(row.histogram@, bucket, (row.histogram@[bucket] + 1) as u64);
        lemma_sum_update(
            row.histogram_amount_msats@,
            bucket,
            (row.histogram_amount_msats@[bucket] + effect.amount) as u64,
        );
    }
}

/// A counter of a day.
pub enum Counter {
    /// Events that raise an engagement counter.
    Engagement,
    /// Notes without an `e` tag.
    OriginalNotes,
    /// Notes with an `e` tag.
    Replies,
    /// Reactions.
    Reactions,
    /// Articles.
    Articles,
    /// UTF-8 bytes of the articles.
    ContentBytes,
    /// Zaps, accepted or not.
    Zaps,
    /// Accepted zaps.
    Accepted,
    /// Their amounts.
    Amount,
    /// Accepted zaps with a valid sender key.
    Senders,
    /// Accepted zaps with a valid recipient key.
    Recipients,
    /// Accepted zaps of a bucket.
    Bucket(int),
    /// Their amounts.
    BucketAmount(int),
    /// Zaps rejected for the reason with this place.
    Rejected(int),
}

/// What the event adds to a counter of a day.
pub open spec fn adds(event: Observed, day: u64, counter: Counter) -> int {
    let fact = engagement_of(event.kind, event.tags);
    let zap = event.kind == 9_735;
    let accepted = zap && zap_refusal(event.tags) is None;
    let effect = tagged_effect(event.tags);
    if day_of(event.created_at) != day {
        0
    } else {
        match counter {
            Counter::Engagement => one_if(fact != EngagementFact::Other),
            Counter::OriginalNotes => one_if(fact == EngagementFact::OriginalNote),
            Counter::Replies => one_if(fact == EngagementFact::Reply),
            Counter::Reactions => one_if(fact == EngagementFact::Reaction),
            Counter::Articles => one_if(event.kind == 30_023),
            Counter::ContentBytes => if event.kind == 30_023 {
                utf8_len(event.content) as int
            } else {
                0
            },
            Counter::Zaps => one_if(zap),
            Counter::Accepted => one_if(accepted),
            Counter::Amount => if accepted {
                effect.amount as int
            } else {
                0
            },
            Counter::Senders => one_if(accepted && effect.sender),
            Counter::Recipients => one_if(accepted && effect.recipient),
            Counter::Bucket(bucket) => one_if(accepted && effect_bucket(effect) == bucket),
            Counter::BucketAmount(bucket) => if accepted && effect_bucket(effect) == bucket {
                effect.amount as int
            } else {
                0
            },
            Counter::Rejected(index) => one_if(
                zap && (zap_refusal(event.tags) matches Some(reason) && rejection_index(reason)
                    == index),
            ),
        }
    }
}

/// Adds what an event adds to a counter.
pub open spec fn adder(day: u64, counter: Counter) -> spec_fn(int, Observed) -> int {
    |total: int, event: Observed| total + adds(event, day, counter)
}

/// What the events add to a counter of a day.
pub open spec fn tally(events: Seq<Observed>, day: u64, counter: Counter) -> int {
    events.fold_left(0, adder(day, counter))
}

/// One more event.
pub(crate) proof fn lemma_tally_push(events: Seq<Observed>, event: Observed, day: u64, counter: Counter)
    ensures
        tally(events.push(event), day, counter) == tally(events, day, counter) + adds(
            event,
            day,
            counter,
        ),
{
    reveal_with_fuel(Seq::fold_left, 2);
    assert(events.push(event).drop_last() =~= events);
}

/// The tally does not depend on the order of the events.
proof fn lemma_tally_order(a: Seq<Observed>, b: Seq<Observed>, day: u64, counter: Counter)
    requires
        a.to_multiset() == b.to_multiset(),
    ensures
        tally(a, day, counter) == tally(b, day, counter),
{
    vstd::seq_lib::lemma_fold_left_permutation(a, b, adder(day, counter), 0);
}

/// The rollups were reached from empty ones by accounting for the events, one
/// after another, without an overflow.
pub open spec fn reached(events: Seq<Observed>, states: Seq<SemanticRollups>) -> bool {
    &&& states.len() == events.len() + 1
    &&& states[0].engagement@ == Map::<u64, EngagementDay>::empty()
    &&& states[0].longform@ == Map::<u64, LongformDay>::empty()
    &&& states[0].zaps@ == Map::<u64, ZapDay>::empty()
    &&& forall|i: int|
        0 <= i < events.len() ==> observes(states[i], #[trigger] events[i], states[i + 1])
}

/// The engagement counters of a day are the tallies of the events.
pub open spec fn engagement_on(
    rollups: SemanticRollups,
    day: u64,
    events: Seq<Observed>,
) -> bool {
    let row = engagement_row(rollups.engagement@, day);
    &&& rollups.engagement@.contains_key(day) <==> tally(events, day, Counter::Engagement) > 0
    &&& tally(events, day, Counter::Engagement) >= 0
    &&& row.day_epoch == day
    &&& row.original_notes == tally(events, day, Counter::OriginalNotes)
    &&& row.replies == tally(events, day, Counter::Replies)
    &&& row.reactions == tally(events, day, Counter::Reactions)
}

/// The engagement counters of every day are the tallies of the events.
pub open spec fn engagement_tallies(rollups: SemanticRollups, events: Seq<Observed>) -> bool {
    forall|day: u64| #[trigger] engagement_on(rollups, day, events)
}

/// The article counters of a day are the tallies of the events.
pub open spec fn longform_on(rollups: SemanticRollups, day: u64, events: Seq<Observed>) -> bool {
    let row = longform_row(rollups.longform@, day);
    &&& rollups.longform@.contains_key(day) <==> tally(events, day, Counter::Articles) > 0
    &&& tally(events, day, Counter::Articles) >= 0
    &&& row.day_epoch == day
    &&& row.articles == tally(events, day, Counter::Articles)
    &&& row.content_bytes == tally(events, day, Counter::ContentBytes)
}

/// The article counters of every day are the tallies of the events.
pub open spec fn longform_tallies(rollups: SemanticRollups, events: Seq<Observed>) -> bool {
    forall|day: u64| #[trigger] longform_on(rollups, day, events)
}

/// The zap counters are the tallies of the events.
pub open spec fn zap_row_tallies(row: ZapDay, day: u64, events: Seq<Observed>) -> bool {
    &&& row.day_epoch == day
    &&& row.accepted == tally(events, day, Counter::Accepted)
    &&& row.amount_msats == tally(events, day, Counter::Amount)
    &&& row.validated_senders == tally(events, day, Counter::Senders)
    &&& row.validated_recipients == tally(events, day, Counter::Recipients)
    &&& forall|i: int|
        0 <= i < 17 ==> #[trigger] row.histogram@[i] == tally(events, day, Counter::Bucket(i))
    &&& forall|i: int|
        0 <= i < 17 ==> #[trigger] row.histogram_amount_msats@[i] == tally(
            events,
            day,
            Counter::BucketAmount(i),
        )
    &&& forall|i: int|
        0 <= i < 6 ==> #[trigger] row.rejected@[i] == tally(events, day, Counter::Rejected(i))
}

/// The zap counters of a day account for each other and for so many zaps: the
/// histogram for every accepted zap, the amounts for one millisatoshi and at
/// most the limit each, and the rejections for all that were not accepted.
pub open spec fn zap_row_accounts(row: ZapDay, zaps: int) -> bool {
    &&& is_balanced(row)
    &&& row.accepted <= row.amount_msats <= row.accepted * MAX_ZAP_AMOUNT_MSATS
    &&& row.accepted + sum_of(row.rejected@) == zaps
}

/// The zap counters of a day are the tallies of the events.
pub open spec fn zaps_on(rollups: SemanticRollups, day: u64, events: Seq<Observed>) -> bool {
    let zaps = tally(events, day, Counter::Zaps);
    &&& rollups.zaps@.contains_key(day) <==> zaps > 0
    &&& zaps >= 0
    &&& forall|row: ZapDay| #[trigger]
        is_zap_row(rollups.zaps@, day, row) ==> zap_row_tallies(row, day, events)
            && zap_row_accounts(row, zaps)
}

/// The zap counters of every day are the tallies of the events.
pub open spec fn zap_tallies(rollups: SemanticRollups, events: Seq<Observed>) -> bool {
    forall|day: u64| #[trigger] zaps_on(rollups, day, events)
}

/// One more event keeps the engagement counters.
proof fn lemma_engagement_step(
    before: SemanticRollups,
    after: SemanticRollups,
    events: Seq<Observed>,
    event: Observed,
)
    requires
        engagement_tallies(before, events),
        observes(before, event, after),
    ensures
        engagement_tallies(after, events.push(event)),
{
    let more = events.push(event);
    assert forall|day: u64| #[trigger] engagement_on(after, day, more) by {
        assert(engagement_on(before, day, events));
        lemma_tally_push(events, event, day, Counter::Engagement);
        lemma_tally_push(events, event, day, Counter::OriginalNotes);
        lemma_tally_push(events, event, day, Counter::Replies);
        lemma_tally_push(events, event, day, Counter::Reactions);
    }
}

/// One more event keeps the article counters.
proof fn lemma_longform_step(
    before: SemanticRollups,
    after: SemanticRollups,
    events: Seq<Observed>,
    event: Observed,
)
    requires
        longform_tallies(before, events),
        observes(before, event, after),
    ensures
        longform_tallies(after, events.push(event)),
{
    let more = events.push(event);
    assert forall|day: u64| #[trigger] longform_on(after, day, more) by {
        assert(longform_on(before, day, events));
        lemma_tally_push(events, event, day, Counter::Articles);
        lemma_tally_push(events, event, day, Counter::ContentBytes);
    }
}

/// One more event on a row of zap counters.
proof fn lemma_zap_row_step(
    row: ZapDay,
    next: ZapDay,
    events: Seq<Observed>,
    event: Observed,
    day: u64,
)
    requires
        zap_row_tallies(row, day, events),
        zap_row_accounts(row, tally(events, day, Counter::Zaps)),
        if event.kind == 9_735 && day_of(event.created_at) == day {
            match zap_refusal(event.tags) {
                Some(reason) => counts_rejection(row, next, reason)
                    && row.rejected@[rejection_index(reason)] < u64::MAX,
                None => counts_zap(row, next, tagged_effect(event.tags)) && zap_overflow(
                    row,
                    tagged_effect(event.tags),
                ) is None,
            }
        } else {
            next == row
        },
    ensures
        zap_row_tallies(next, day, events.push(event)),
        zap_row_accounts(next, tally(events.push(event), day, Counter::Zaps)),
{
    let more = events.push(event);
    lemma_tally_push(events, event, day, Counter::Zaps);
    if event.kind == 9_735 && day_of(event.created_at) == day {
        match zap_refusal(event.tags) {
            Some(reason) => {
                let index = rejection_index(reason);
                lemma_zap_days_stay_balanced(row, next, day, tagged_effect(event.tags), reason);
                lemma_sum_update(row.rejected@, index, (row.rejected@[index] + 1) as u64);
            },
            None => {
                let effect = tagged_effect(event.tags);
                lemma_zap_days_stay_balanced(row, next, day, effect, ZapRejection::ZeroAmount);
                assert(1 <= effect.amount <= MAX_ZAP_AMOUNT_MSATS);
                assert((row.accepted + 1) * MAX_ZAP_AMOUNT_MSATS == row.accepted
                    * MAX_ZAP_AMOUNT_MSATS + MAX_ZAP_AMOUNT_MSATS) by (nonlinear_arith);
            },
        }
    }
    lemma_tally_push(events, event, day, Counter::Accepted);
    lemma_tally_push(events, event, day, Counter::Amount);
    lemma_tally_push(events, event, day, Counter::Senders);
    lemma_tally_push(events, event, day, Counter::Recipients);
    assert forall|i: int| 0 <= i < 17 implies #[trigger] next.histogram@[i] == tally(
        more,
        day,
        Counter::Bucket(i),
    ) by {
        lemma_tally_push(events, event, day, Counter::Bucket(i));
        assert(row.histogram@[i] == tally(events, day, Counter::Bucket(i)));
    }
    assert forall|i: int| 0 <= i < 17 implies #[trigger] next.histogram_amount_msats@[i] == tally(
        more,
        day,
        Counter::BucketAmount(i),
    ) by {
        lemma_tally_push(events, event, day, Counter::BucketAmount(i));
        assert(row.histogram_amount_msats@[i] == tally(events, day, Counter::BucketAmount(i)));
    }
    assert forall|i: int| 0 <= i < 6 implies #[trigger] next.rejected@[i] == tally(
        more,
        day,
        Counter::Rejected(i),
    ) by {
        lemma_tally_push(events, event, day, Counter::Rejected(i));
        assert(row.rejected@[i] == tally(events, day, Counter::Rejected(i)));
    }
}

/// A zap on a day without zaps overflows nothing.
proof fn lemma_first_zap_fits(row: ZapDay, day: u64, effect: ZapEffect)
    requires
        is_empty_zap_day(row, day),
    ensures
        zap_overflow(row, effect) is None,
{
    let bucket = effect_bucket(effect);
    assert(row.histogram@[bucket] == 0);
    assert(row.histogram_amount_msats@[bucket] == 0);
}

/// One more event keeps the zap counters.
proof fn lemma_zap_step(
    before: SemanticRollups,
    after: SemanticRollups,
    events: Seq<Observed>,
    event: Observed,
)
    requires
        zap_tallies(before, events),
        observes(before, event, after),
    ensures
        zap_tallies(after, events.push(event)),
{
    let more = events.push(event);
    let at = day_of(event.created_at);
    assert forall|day: u64| #[trigger] zaps_on(after, day, more) by {
        assert(zaps_on(before, day, events));
        lemma_tally_push(events, event, day, Counter::Zaps);
        if event.kind == 9_735 {
            let (row, next) = choose|row: ZapDay, next: ZapDay|
                #![trigger is_zap_row(before.zaps@, at, row), after.zaps@.contains_pair(at, next)]
                is_zap_row(before.zaps@, at, row) && after.zaps@.contains_pair(at, next)
                    && after.zaps@ == before.zaps@.insert(at, next) && match zap_refusal(
                    event.tags,
                ) {
                    Some(reason) => counts_rejection(row, next, reason),
                    None => counts_zap(row, next, tagged_effect(event.tags)),
                };
            if day == at {
                assert(zap_row_tallies(row, day, events));
                if !before.zaps@.contains_key(at) {
                    lemma_first_zap_fits(row, at, tagged_effect(event.tags));
                    assert(forall|i: int| 0 <= i < 6 ==> #[trigger] row.rejected@[i] == 0);
                }
                lemma_zap_row_step(row, next, events, event, day);
            } else {
                assert forall|row: ZapDay| #[trigger]
                    is_zap_row(after.zaps@, day, row) implies zap_row_tallies(row, day, more)
                    && zap_row_accounts(row, tally(more, day, Counter::Zaps)) by {
                    assert(is_zap_row(before.zaps@, day, row));
                    lemma_zap_row_step(row, row, events, event, day);
                }
            }
        } else {
            assert forall|row: ZapDay| #[trigger]
                is_zap_row(after.zaps@, day, row) implies zap_row_tallies(row, day, more)
                && zap_row_accounts(row, tally(more, day, Counter::Zaps)) by {
                assert(is_zap_row(before.zaps@, day, row));
                lemma_zap_row_step(row, row, events, event, day);
            }
        }
    }
}

/// The counters of the rollups are the tallies of the events.
pub proof fn lemma_counters_are_tallies(events: Seq<Observed>, states: Seq<SemanticRollups>)
    requires
        reached(events, states),
    ensures
        engagement_tallies(states.last(), events),
        longform_tallies(states.last(), events),
        zap_tallies(states.last(), events),
    decreases events.len(),
{
    if events.len() == 0 {
        let none = states[0];
        reveal_with_fuel(Seq::fold_left, 1);
        assert(forall|day: u64, counter: Counter| #[trigger] tally(events, day, counter) == 0);
        assert forall|day: u64, row: ZapDay| #[trigger]
            is_zap_row(none.zaps@, day, row) implies zap_row_tallies(row, day, events)
            && zap_row_accounts(row, 0) by {
            lemma_zap_days_stay_balanced(
                row,
                row,
                day,
                tagged_effect(Seq::empty()),
                ZapRejection::ZeroAmount,
            );
            lemma_sum_zero(row.rejected@);
        }
    } else {
        let fewer = events.drop_last();
        let earlier = states.drop_last();
        assert forall|i: int| 0 <= i < fewer.len() implies observes(
            earlier[i],
            #[trigger] fewer[i],
            earlier[i + 1],
        ) by {
            assert(fewer[i] == events[i]);
        }
        lemma_counters_are_tallies(fewer, earlier);
        let event = events.last();
        assert(events[events.len() - 1] == event);
        assert(fewer.push(event) =~= events);
        lemma_engagement_step(earlier.last(), states.last(), fewer, event);
        lemma_longform_step(earlier.last(), states.last(), fewer, event);
        lemma_zap_step(earlier.last(), states.last(), fewer, event);
    }
}

/// A day with a tally is the start of a day.
proof fn lemma_tally_days(events: Seq<Observed>, day: u64, counter: Counter)
    requires
        tally(events, day, counter) != 0,
    ensures
        day % 86_400 == 0,
    decreases events.len(),
{
    reveal_with_fuel(Seq::fold_left, 2);
    if events.len() > 0 && tally(events.drop_last(), day, counter) != 0 {
        lemma_tally_days(events.drop_last(), day, counter);
    }
}

/// Every day of the rollups is the start of a day and names itself, and its zap
/// counters account for each other and for the kind-9735 events of the day.
pub proof fn lemma_days_account(events: Seq<Observed>, states: Seq<SemanticRollups>)
    requires
        reached(events, states),
    ensures
        ({
            let rollups = states.last();
            &&& forall|day: u64| #[trigger]
                rollups.engagement@.contains_key(day) ==> day % 86_400 == 0
                    && rollups.engagement@[day].day_epoch == day
            &&& forall|day: u64| #[trigger]
                rollups.longform@.contains_key(day) ==> day % 86_400 == 0
                    && rollups.longform@[day].day_epoch == day
            &&& forall|day: u64| #[trigger]
                rollups.zaps@.contains_key(day) ==> day % 86_400 == 0
                    && rollups.zaps@[day].day_epoch == day && zap_row_accounts(
                    rollups.zaps@[day],
                    tally(events, day, Counter::Zaps),
                )
        }),
{
    lemma_counters_are_tallies(events, states);
    let rollups = states.last();
    assert forall|day: u64| #[trigger] rollups.engagement@.contains_key(day) implies day % 86_400
        == 0 && rollups.engagement@[day].day_epoch == day by {
        assert(engagement_on(rollups, day, events));
        lemma_tally_days(events, day, Counter::Engagement);
    }
    assert forall|day: u64| #[trigger] rollups.longform@.contains_key(day) implies day % 86_400
        == 0 && rollups.longform@[day].day_epoch == day by {
        assert(longform_on(rollups, day, events));
        lemma_tally_days(events, day, Counter::Articles);
    }
    assert forall|day: u64| #[trigger] rollups.zaps@.contains_key(day) implies day % 86_400 == 0
        && rollups.zaps@[day].day_epoch == day && zap_row_accounts(
        rollups.zaps@[day],
        tally(events, day, Counter::Zaps),
    ) by {
        assert(zaps_on(rollups, day, events));
        assert(is_zap_row(rollups.zaps@, day, rollups.zaps@[day]));
        lemma_tally_days(events, day, Counter::Zaps);
    }
}

/// Both rows hold the same zap counters.
pub open spec fn same_zap_day(a: ZapDay, b: ZapDay) -> bool {
    &&& a.day_epoch == b.day_epoch
    &&& a.accepted == b.accepted
    &&& a.amount_msats == b.amount_msats
    &&& a.validated_senders == b.validated_senders
    &&& a.validated_recipients == b.validated_recipients
    &&& a.histogram@ == b.histogram@
    &&& a.histogram_amount_msats@ == b.histogram_amount_msats@
    &&& a.rejected@ == b.rejected@
}

/// Accounting for the same events in another order gives the same counters.
pub proof fn lemma_order_does_not_matter(
    events: Seq<Observed>,
    states: Seq<SemanticRollups>,
    shuffled: Seq<Observed>,
    others: Seq<SemanticRollups>,
)
    requires
        reached(events, states),
        reached(shuffled, others),
        events.to_multiset() == shuffled.to_multiset(),
    ensures
        states.last().engagement@ == others.last().engagement@,
        states.last().longform@ == others.last().longform@,
        states.last().zaps@.dom() == others.last().zaps@.dom(),
        forall|day: u64| #[trigger]
            states.last().zaps@.contains_key(day) ==> same_zap_day(
                states.last().zaps@[day],
                others.last().zaps@[day],
            ),
{
    let a = states.last();
    let b = others.last();
    lemma_counters_are_tallies(events, states);
    lemma_counters_are_tallies(shuffled, others);
    assert forall|day: u64, counter: Counter| #[trigger]
        tally(events, day, counter) == tally(shuffled, day, counter) by {
        lemma_tally_order(events, shuffled, day, counter);
    }
    assert forall|day: u64|
        a.engagement@.dom().contains(day) == #[trigger] b.engagement@.dom().contains(day)
            && engagement_row(a.engagement@, day) == engagement_row(b.engagement@, day) by {
        assert(engagement_on(a, day, events) && engagement_on(b, day, shuffled));
    }
    assert forall|day: u64| #[trigger]
        a.engagement@.contains_key(day) implies a.engagement@[day] == b.engagement@[day] by {
        assert(b.engagement@.dom().contains(day));
    }
    assert(a.engagement@ =~= b.engagement@);
    assert forall|day: u64|
        a.longform@.dom().contains(day) == #[trigger] b.longform@.dom().contains(day)
            && longform_row(a.longform@, day) == longform_row(b.longform@, day) by {
        assert(longform_on(a, day, events) && longform_on(b, day, shuffled));
    }
    assert forall|day: u64| #[trigger]
        a.longform@.contains_key(day) implies a.longform@[day] == b.longform@[day] by {
        assert(b.longform@.dom().contains(day));
    }
    assert(a.longform@ =~= b.longform@);
    assert forall|day: u64|
        a.zaps@.dom().contains(day) == #[trigger] b.zaps@.dom().contains(day) by {
        assert(zaps_on(a, day, events) && zaps_on(b, day, shuffled));
    }
    assert(a.zaps@.dom() =~= b.zaps@.dom());
    assert forall|day: u64| #[trigger] a.zaps@.contains_key(day) implies same_zap_day(
        a.zaps@[day],
        b.zaps@[day],
    ) by {
        assert(b.zaps@.dom().contains(day));
        assert(zaps_on(a, day, events) && zaps_on(b, day, shuffled));
        assert(is_zap_row(a.zaps@, day, a.zaps@[day]));
        assert(is_zap_row(b.zaps@, day, b.zaps@[day]));
        assert(a.zaps@[day].histogram@ =~= b.zaps@[day].histogram@);
        assert(a.zaps@[day].histogram_amount_msats@ =~= b.zaps@[day].histogram_amount_msats@);
        assert(a.zaps@[day].rejected@ =~= b.zaps@[day].rejected@);
    }
}

} // verus!
