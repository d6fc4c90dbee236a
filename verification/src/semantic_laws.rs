//! What day rollups and domain counts have in common.

use vstd::prelude::*;

use crate::ordered::map_total;
use crate::rollup_laws::sum_of;
use crate::rollups::{
    day_of, engagement_row, longform_row, EngagementDay, LongformDay, SemanticRollups, ZapDay,
};
use crate::semantic_build::{
    counts_domains, is_article, is_original, is_reaction, is_rejected, is_reply, is_zap,
    SemanticDomainCounts,
};
use crate::semantic_totals::{
    article_on, lemma_sum_count, on_day, original_on, reaction_on, rejection_on, reply_on,
    rollups_match, sum_records, totals_engagement, totals_longform, totals_zaps, zap_event_on,
    zap_on, SemanticRecord,
};

verus! {

/// Sum of a function over a finite set of days.
pub open spec fn days_total(days: Set<u64>, value: spec_fn(u64) -> int) -> int
    decreases days.len(),
{
    if days.finite() && days.len() > 0 {
        let day = days.choose();
        value(day) + days_total(days.remove(day), value)
    } else {
        0
    }
}

/// The total of a map is the total over its keys.
proof fn lemma_map_as_days<V>(map: Map<u64, V>, measure: spec_fn(V) -> int, value: spec_fn(u64) -> int)
    requires
        map.dom().finite(),
        forall|day: u64| #[trigger] map.contains_key(day) ==> measure(map[day]) == value(day),
    ensures
        map_total(map, measure) == days_total(map.dom(), value),
    decreases map.dom().len(),
{
    if map.dom().len() > 0 {
        let day = map.dom().choose();
        let rest = map.remove(day);
        assert(rest.dom() =~= map.dom().remove(day));
        assert(map.contains_key(day)) by {
            vstd::set::axiom_set_choose_len(map.dom());
        }
        assert forall|d: u64| #[trigger] rest.contains_key(d) implies measure(rest[d]) == value(d) by {
            assert(map.contains_key(d));
        }
        lemma_map_as_days(rest, measure, value);
    }
}

/// The total of a sum is the sum of the totals.
proof fn lemma_days_add(
    days: Set<u64>,
    a: spec_fn(u64) -> int,
    b: spec_fn(u64) -> int,
    both: spec_fn(u64) -> int,
)
    requires
        days.finite(),
        forall|day: u64| #[trigger] both(day) == a(day) + b(day),
    ensures
        days_total(days, both) == days_total(days, a) + days_total(days, b),
    decreases days.len(),
{
    if days.len() > 0 {
        let day = days.choose();
        assert(both(day) == a(day) + b(day));
        lemma_days_add(days.remove(day), a, b, both);
    }
}

/// The total of what falls on one day.
proof fn lemma_days_single(days: Set<u64>, own: u64, amount: int, value: spec_fn(u64) -> int)
    requires
        days.finite(),
        forall|day: u64| #[trigger] value(day) == if day == own {
            amount
        } else {
            0
        },
    ensures
        days_total(days, value) == if days.contains(own) {
            amount
        } else {
            0
        },
    decreases days.len(),
{
    if days.len() > 0 {
        let day = days.choose();
        assert(days.contains(day)) by {
            vstd::set::axiom_set_choose_len(days);
        }
        assert(value(day) == if day == own {
            amount
        } else {
            0
        });
        lemma_days_single(days.remove(day), own, amount, value);
    } else {
        if days.contains(own) {
            vstd::set::axiom_set_contains_len(days, own);
        }
    }
}

/// The measure of one day's records.
pub open spec fn daily(measure: spec_fn(SemanticRecord) -> int, day: u64) -> spec_fn(
    SemanticRecord,
) -> int {
    |r: SemanticRecord|
        if on_day(r, day) {
            measure(r)
        } else {
            0
        }
}

/// Day sums over all days with a record add up to the sum over all records.
proof fn lemma_days_cover(
    records: Seq<SemanticRecord>,
    measure: spec_fn(SemanticRecord) -> int,
    days: Set<u64>,
    value: spec_fn(u64) -> int,
)
    requires
        days.finite(),
        forall|i: int|
            0 <= i < records.len() && measure(#[trigger] records[i]) != 0 ==> days.contains(
                day_of(records[i].created_at),
            ),
        forall|day: u64| #[trigger] value(day) == sum_records(records, daily(measure, day)),
    ensures
        days_total(days, value) == sum_records(records, measure),
    decreases records.len(),
{
    if records.len() == 0 {
        let none = |day: u64| 0int;
        lemma_days_single(days, 0, 0, value);
    } else {
        let earlier = records.drop_last();
        let last = records.last();
        let own = day_of(last.created_at);
        let before = |day: u64| sum_records(earlier, daily(measure, day));
        let added = |day: u64|
            if day == own {
                measure(last)
            } else {
                0
            };
        assert forall|i: int|
            0 <= i < earlier.len() && measure(#[trigger] earlier[i]) != 0 implies days.contains(
            day_of(earlier[i].created_at),
        ) by {
            assert(earlier[i] == records[i]);
        }
        lemma_days_cover(earlier, measure, days, before);
        assert forall|day: u64| #[trigger] value(day) == before(day) + added(day) by {
            assert(value(day) == sum_records(records, daily(measure, day)));
        }
        lemma_days_add(days, before, added, value);
        lemma_days_single(days, own, measure(last), added);
        assert(records[records.len() - 1] == last);
    }
}

/// Measures that agree on every record have the same sum.
proof fn lemma_sum_same(
    records: Seq<SemanticRecord>,
    a: spec_fn(SemanticRecord) -> int,
    b: spec_fn(SemanticRecord) -> int,
)
    requires
        forall|r: SemanticRecord| #[trigger] a(r) == b(r),
    ensures
        sum_records(records, a) == sum_records(records, b),
    decreases records.len(),
{
    if records.len() > 0 {
        lemma_sum_same(records.drop_last(), a, b);
        assert(a(records.last()) == b(records.last()));
    }
}

/// A record counts in the sum of a measure that is never negative.
proof fn lemma_sum_member(
    records: Seq<SemanticRecord>,
    measure: spec_fn(SemanticRecord) -> int,
    index: int,
)
    requires
        0 <= index < records.len(),
        forall|r: SemanticRecord| 0 <= #[trigger] measure(r) <= 1,
    ensures
        measure(records[index]) <= sum_records(records, measure),
    decreases records.len(),
{
    lemma_sum_count(records.drop_last(), measure);
    if index < records.len() - 1 {
        assert(records.drop_last()[index] == records[index]);
        lemma_sum_member(records.drop_last(), measure, index);
        assert(0 <= measure(records.last()));
    }
}

/// The day rollups add up to the domain counts: every original note, reply,
/// reaction, article, accepted and rejected zap is counted on exactly one day.
pub proof fn lemma_rollups_cover_domains(
    rollups: SemanticRollups,
    counts: SemanticDomainCounts,
    records: Seq<SemanticRecord>,
)
    requires
        rollups_match(rollups, records),
        counts_domains(counts, records),
    ensures
        map_total(rollups.engagement@, |row: EngagementDay| row.original_notes as int)
            == counts.original_notes,
        map_total(rollups.engagement@, |row: EngagementDay| row.replies as int) == counts.replies,
        map_total(rollups.engagement@, |row: EngagementDay| row.reactions as int)
            == counts.reactions,
        map_total(rollups.longform@, |row: LongformDay| row.articles as int)
            == counts.longform_articles,
        map_total(rollups.zaps@, |row: ZapDay| row.accepted as int) == counts.accepted_zaps,
        map_total(rollups.zaps@, |row: ZapDay| sum_of(row.rejected@)) == counts.rejected_zaps,
{
    crate::ordered::lemma_finite_keys(rollups.engagement);
    crate::ordered::lemma_finite_keys(rollups.longform);
    crate::ordered::lemma_finite_keys(rollups.zaps);
    let engagement = rollups.engagement@;
    let longform = rollups.longform@;
    let zaps = rollups.zaps@;
    lemma_original_days(rollups, records);
    lemma_reply_days(rollups, records);
    lemma_reaction_days(rollups, records);
    lemma_article_days(rollups, records);
    lemma_zap_days(rollups, records);
    lemma_rejected_days(rollups, records);
}

proof fn lemma_original_days(rollups: SemanticRollups, records: Seq<SemanticRecord>)
    requires
        rollups_match(rollups, records),
        rollups.engagement@.dom().finite(),
    ensures
        map_total(rollups.engagement@, |row: EngagementDay| row.original_notes as int)
            == sum_records(records, is_original()),
{
    let map = rollups.engagement@;
    let value = |day: u64| sum_records(records, daily(is_original(), day));
    assert forall|day: u64| #[trigger] map.contains_key(day) implies map[day].original_notes as int
        == value(day) by {
        assert(totals_engagement(engagement_row(map, day), records, day));
        lemma_sum_same(records, original_on(day), daily(is_original(), day));
    }
    lemma_map_as_days(map, |row: EngagementDay| row.original_notes as int, value);
    assert forall|i: int|
        0 <= i < records.len() && is_original()(#[trigger] records[i]) != 0 implies map.dom().contains(
        day_of(records[i].created_at),
    ) by {
        let day = day_of(records[i].created_at);
        lemma_sum_member(records, original_on(day), i);
        lemma_sum_count(records, reply_on(day));
        lemma_sum_count(records, reaction_on(day));
        assert(map.contains_key(day));
    }
    lemma_days_cover(records, is_original(), map.dom(), value);
}

proof fn lemma_reply_days(rollups: SemanticRollups, records: Seq<SemanticRecord>)
    requires
        rollups_match(rollups, records),
        rollups.engagement@.dom().finite(),
    ensures
        map_total(rollups.engagement@, |row: EngagementDay| row.replies as int) == sum_records(
            records,
            is_reply(),
        ),
{
    let map = rollups.engagement@;
    let value = |day: u64| sum_records(records, daily(is_reply(), day));
    assert forall|day: u64| #[trigger] map.contains_key(day) implies map[day].replies as int
        == value(day) by {
        assert(totals_engagement(engagement_row(map, day), records, day));
        lemma_sum_same(records, reply_on(day), daily(is_reply(), day));
    }
    lemma_map_as_days(map, |row: EngagementDay| row.replies as int, value);
    assert forall|i: int|
        0 <= i < records.len() && is_reply()(#[trigger] records[i]) != 0 implies map.dom().contains(
        day_of(records[i].created_at),
    ) by {
        let day = day_of(records[i].created_at);
        lemma_sum_member(records, reply_on(day), i);
        lemma_sum_count(records, original_on(day));
        lemma_sum_count(records, reaction_on(day));
        assert(map.contains_key(day));
    }
    lemma_days_cover(records, is_reply(), map.dom(), value);
}

proof fn lemma_reaction_days(rollups: SemanticRollups, records: Seq<SemanticRecord>)
    requires
        rollups_match(rollups, records),
        rollups.engagement@.dom().finite(),
    ensures
        map_total(rollups.engagement@, |row: EngagementDay| row.reactions as int) == sum_records(
            records,
            is_reaction(),
        ),
{
    let map = rollups.engagement@;
    let value = |day: u64| sum_records(records, daily(is_reaction(), day));
    assert forall|day: u64| #[trigger] map.contains_key(day) implies map[day].reactions as int
        == value(day) by {
        assert(totals_engagement(engagement_row(map, day), records, day));
        lemma_sum_same(records, reaction_on(day), daily(is_reaction(), day));
    }
    lemma_map_as_days(map, |row: EngagementDay| row.reactions as int, value);
    assert forall|i: int|
        0 <= i < records.len() && is_reaction()(#[trigger] records[i]) != 0 implies map.dom().contains(
        day_of(records[i].created_at),
    ) by {
        let day = day_of(records[i].created_at);
        lemma_sum_member(records, reaction_on(day), i);
        lemma_sum_count(records, original_on(day));
        lemma_sum_count(records, reply_on(day));
        assert(map.contains_key(day));
    }
    lemma_days_cover(records, is_reaction(), map.dom(), value);
}

proof fn lemma_article_days(rollups: SemanticRollups, records: Seq<SemanticRecord>)
    requires
        rollups_match(rollups, records),
        rollups.longform@.dom().finite(),
    ensures
        map_total(rollups.longform@, |row: LongformDay| row.articles as int) == sum_records(
            records,
            is_article(),
        ),
{
    let map = rollups.longform@;
    let value = |day: u64| sum_records(records, daily(is_article(), day));
    assert forall|day: u64| #[trigger] map.contains_key(day) implies map[day].articles as int
        == value(day) by {
        assert(totals_longform(longform_row(map, day), records, day));
        lemma_sum_same(records, article_on(day), daily(is_article(), day));
    }
    lemma_map_as_days(map, |row: LongformDay| row.articles as int, value);
    assert forall|i: int|
        0 <= i < records.len() && is_article()(#[trigger] records[i]) != 0 implies map.dom().contains(
        day_of(records[i].created_at),
    ) by {
        let day = day_of(records[i].created_at);
        lemma_sum_member(records, article_on(day), i);
        assert(map.contains_key(day));
    }
    lemma_days_cover(records, is_article(), map.dom(), value);
}

proof fn lemma_zap_days(rollups: SemanticRollups, records: Seq<SemanticRecord>)
    requires
        rollups_match(rollups, records),
        rollups.zaps@.dom().finite(),
    ensures
        map_total(rollups.zaps@, |row: ZapDay| row.accepted as int) == sum_records(
            records,
            is_zap(),
        ),
{
    let map = rollups.zaps@;
    let value = |day: u64| sum_records(records, daily(is_zap(), day));
    assert forall|day: u64| #[trigger] map.contains_key(day) implies map[day].accepted as int
        == value(day) by {
        assert(totals_zaps(map[day], records, day));
        lemma_sum_same(records, zap_on(day), daily(is_zap(), day));
    }
    lemma_map_as_days(map, |row: ZapDay| row.accepted as int, value);
    assert forall|i: int|
        0 <= i < records.len() && is_zap()(#[trigger] records[i]) != 0 implies map.dom().contains(
        day_of(records[i].created_at),
    ) by {
        let day = day_of(records[i].created_at);
        lemma_sum_member(records, zap_event_on(day), i);
        assert(map.contains_key(day));
    }
    lemma_days_cover(records, is_zap(), map.dom(), value);
}

/// A field of the zap rows that totals a measure of each day's zaps totals it
/// over all records.
pub(crate) proof fn lemma_zap_total(
    rollups: SemanticRollups,
    records: Seq<SemanticRecord>,
    field: spec_fn(ZapDay) -> int,
    measure: spec_fn(SemanticRecord) -> int,
)
    requires
        rollups_match(rollups, records),
        forall|r: SemanticRecord| #[trigger] measure(r) != 0 ==> r.payload is Zap
            || r.payload is RejectedZap,
        forall|row: ZapDay, day: u64| #[trigger]
            totals_zaps(row, records, day) ==> field(row) == sum_records(
                records,
                daily(measure, day),
            ),
    ensures
        map_total(rollups.zaps@, field) == sum_records(records, measure),
{
    crate::ordered::lemma_finite_keys(rollups.zaps);
    let map = rollups.zaps@;
    let value = |day: u64| sum_records(records, daily(measure, day));
    assert forall|day: u64| #[trigger] map.contains_key(day) implies field(map[day]) == value(
        day,
    ) by {
        assert(totals_zaps(map[day], records, day));
    }
    lemma_map_as_days(map, field, value);
    assert forall|i: int|
        0 <= i < records.len() && measure(#[trigger] records[i]) != 0 implies map.dom().contains(
        day_of(records[i].created_at),
    ) by {
        let day = day_of(records[i].created_at);
        lemma_sum_member(records, zap_event_on(day), i);
        assert(map.contains_key(day));
    }
    lemma_days_cover(records, measure, map.dom(), value);
}

/// The reasons of a day add up to its rejected zaps.
proof fn lemma_reasons_cover(records: Seq<SemanticRecord>, day: u64)
    ensures
        sum_records(records, rejection_on(day, 0)) + sum_records(records, rejection_on(day, 1))
            + sum_records(records, rejection_on(day, 2)) + sum_records(
            records,
            rejection_on(day, 3),
        ) + sum_records(records, rejection_on(day, 4)) + sum_records(records, rejection_on(day, 5))
            == sum_records(records, daily(is_rejected(), day)),
    decreases records.len(),
{
    if records.len() > 0 {
        lemma_reasons_cover(records.drop_last(), day);
    }
}

proof fn lemma_rejected_days(rollups: SemanticRollups, records: Seq<SemanticRecord>)
    requires
        rollups_match(rollups, records),
    ensures
        map_total(rollups.zaps@, |row: ZapDay| sum_of(row.rejected@)) == sum_records(
            records,
            is_rejected(),
        ),
{
    let field = |row: ZapDay| sum_of(row.rejected@);
    assert forall|row: ZapDay, day: u64| #[trigger] totals_zaps(row, records, day) implies field(
        row,
    ) == sum_records(records, daily(is_rejected(), day)) by {
        let r = row.rejected@;
        lemma_reasons_cover(records, day);
        reveal_with_fuel(sum_of, 7);
        assert(r.len() == 6);
        assert(r[0] == sum_records(records, rejection_on(day, 0)));
        assert(r[1] == sum_records(records, rejection_on(day, 1)));
        assert(r[2] == sum_records(records, rejection_on(day, 2)));
        assert(r[3] == sum_records(records, rejection_on(day, 3)));
        assert(r[4] == sum_records(records, rejection_on(day, 4)));
        assert(r[5] == sum_records(records, rejection_on(day, 5)));
        assert(sum_of(r) == r[0] + r[1] + r[2] + r[3] + r[4] + r[5]);
    }
    lemma_zap_total(rollups, records, field, is_rejected());
}

} // verus!
