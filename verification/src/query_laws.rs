//! What the queries of published products ask for and hand out.

use vstd::prelude::*;

use crate::error::{Error, Result};
use crate::flexible_publish::PublishedWindow;
use crate::published_queries::{
    estimate_published_flexible_distinct, estimate_published_zap_distinct, hour_holds, hours_fault,
    is_hourly_query, is_ranking_query, is_window, is_zap_window, page_faults, page_holds,
    query_published_publisher_ranking, query_published_relay_distribution,
    query_published_serving_hourly, query_published_serving_kind, HourColumns,
};
use crate::publisher_ledger::PublisherRankingRow;
use crate::publisher_publish::{page_fault, PageColumns, RankingQuery};
use crate::relay_distribution::RelayDistributionRow;
use crate::relay_publish::{columns_hold, RelayColumns};
use crate::serving_publish::{hour_fault, HourlyQuery, KindColumns};
use crate::serving_records::{ServingHourlyRow, ServingKindRow};
use crate::zap_distinct::ZapParticipantRole;
use crate::zap_publish::PublishedZapWindow;

verus! {

/// An estimate of a published window reads the sketches between `since` and
/// `until`, of the kind where one is given, and is the size of their union. The
/// window has whole hours and ends where the product is complete.
pub proof fn lemma_published_estimate_is_of_its_window<
    E: Fn(&str) -> Result<i64>,
    R: Fn(&str, &PublishedWindow) -> Result<Vec<Vec<u8>>>,
    F: Fn(&Vec<Vec<u8>>) -> Result<u64>,
>(
    product_id: &str,
    since_epoch: u64,
    until_epoch: u64,
    kind: Option<u16>,
    complete_through: &E,
    read: &R,
    union: &F,
    outcome: Result<u64>,
)
    requires
        call_ensures(
            estimate_published_flexible_distinct::<E, R, F>,
            (product_id, since_epoch, until_epoch, kind, complete_through, read, union),
            outcome,
        ),
        outcome is Ok,
    ensures
        since_epoch % 3_600 == 0,
        until_epoch % 3_600 == 0,
        since_epoch <= until_epoch,
        exists|end: i64| #[trigger]
            call_ensures(*complete_through, (product_id,), Ok::<i64, Error>(end)) && until_epoch
                <= end,
        exists|window: PublishedWindow, sketches: Vec<Vec<u8>>|
            #![trigger call_ensures(*read, (product_id, &window), Ok::<Vec<Vec<u8>>, Error>(sketches))]
            {
                &&& call_ensures(
                    *read,
                    (product_id, &window),
                    Ok::<Vec<Vec<u8>>, Error>(sketches),
                )
                &&& call_ensures(*union, (&sketches,), outcome)
                &&& window.since_epoch == since_epoch
                &&& window.until_epoch == until_epoch
                &&& window.kind is None <==> kind is None
                &&& kind is Some ==> window.kind->0 == kind->0
            },
{
    let end = choose|end: Result<i64>| #[trigger]
        call_ensures(*complete_through, (product_id,), end) && match end {
            Err(error) => outcome == Err::<u64, Error>(error),
            Ok(end) => crate::published_queries::estimates_window(
                *read,
                *union,
                product_id,
                end,
                since_epoch,
                until_epoch,
                kind,
                outcome,
            ),
        };
    assert(call_ensures(*complete_through, (product_id,), Ok::<i64, Error>(end->Ok_0)));
    let (window, sketches) = choose|window: PublishedWindow, sketches: Result<Vec<Vec<u8>>>|
        #[trigger]
        call_ensures(*read, (product_id, &window), sketches) && is_window(
            window,
            since_epoch,
            until_epoch,
            kind,
        ) && crate::published_queries::union_gives(*union, sketches, outcome);
    assert(call_ensures(
        *read,
        (product_id, &window),
        Ok::<Vec<Vec<u8>>, Error>(sketches->Ok_0),
    ));
}

/// An estimate of published zap participants reads the sketches between `since`
/// and `until`, of the senders or of the recipients. The window has whole days
/// and at least one.
pub proof fn lemma_published_zap_estimate_is_of_its_window<
    E: Fn(&str) -> Result<i64>,
    R: Fn(&str, &PublishedZapWindow) -> Result<Vec<Vec<u8>>>,
    F: Fn(&Vec<Vec<u8>>) -> Result<u64>,
>(
    product_id: &str,
    since_epoch: u64,
    until_epoch: u64,
    role: ZapParticipantRole,
    complete_through: &E,
    read: &R,
    union: &F,
    outcome: Result<u64>,
)
    requires
        call_ensures(
            estimate_published_zap_distinct::<E, R, F>,
            (product_id, since_epoch, until_epoch, role, complete_through, read, union),
            outcome,
        ),
        outcome is Ok,
    ensures
        since_epoch % 86_400 == 0,
        until_epoch % 86_400 == 0,
        since_epoch < until_epoch,
        exists|end: i64| #[trigger]
            call_ensures(*complete_through, (product_id,), Ok::<i64, Error>(end)) && until_epoch
                <= end,
        exists|window: PublishedZapWindow, sketches: Vec<Vec<u8>>|
            #![trigger call_ensures(*read, (product_id, &window), Ok::<Vec<Vec<u8>>, Error>(sketches))]
            {
                &&& call_ensures(
                    *read,
                    (product_id, &window),
                    Ok::<Vec<Vec<u8>>, Error>(sketches),
                )
                &&& call_ensures(*union, (&sketches,), outcome)
                &&& window.since_epoch == since_epoch
                &&& window.until_epoch == until_epoch
                &&& role is Sender ==> window.role == 0
                &&& role is Recipient ==> window.role == 1
            },
{
    let end = choose|end: Result<i64>| #[trigger]
        call_ensures(*complete_through, (product_id,), end) && match end {
            Err(error) => outcome == Err::<u64, Error>(error),
            Ok(end) => crate::published_queries::estimates_zap_window(
                *read,
                *union,
                product_id,
                end,
                since_epoch,
                until_epoch,
                role,
                outcome,
            ),
        };
    assert(call_ensures(*complete_through, (product_id,), Ok::<i64, Error>(end->Ok_0)));
    let (window, sketches) = choose|window: PublishedZapWindow, sketches: Result<Vec<Vec<u8>>>|
        #[trigger]
        call_ensures(*read, (product_id, &window), sketches) && is_zap_window(
            window,
            since_epoch,
            until_epoch,
            role,
        ) && crate::published_queries::union_gives(*union, sketches, outcome);
    assert(call_ensures(
        *read,
        (product_id, &window),
        Ok::<Vec<Vec<u8>>, Error>(sketches->Ok_0),
    ));
}

proof fn lemma_page_is_sound(page: Seq<PageColumns>, from: int, i: int)
    requires
        page_faults(page, from) is None,
        from <= i < page.len(),
    ensures
        page_fault(page[i]) is None,
    decreases page.len() - from,
{
    if from < i {
        lemma_page_is_sound(page, from + 1, i);
    }
}

proof fn lemma_hours_are_sound(page: Seq<HourColumns>, from: int, i: int)
    requires
        hours_fault(page, from) is None,
        from <= i < page.len(),
    ensures
        hour_fault(page[i].hour_epoch, page[i].event_count) is None,
    decreases page.len() - from,
{
    if from < i {
        lemma_hours_are_sound(page, from + 1, i);
    }
}

/// A query of the ranking asks for its window, its kind, with minus one for all
/// kinds, and at most its limit of rows. It hands out the rows that were read,
/// in their order, each with 32 bytes of a publisher and no negative number.
pub proof fn lemma_ranking_query_hands_out_its_rows<
    R: Fn(&str, &RankingQuery) -> Result<Vec<PageColumns>>,
>(
    product_id: &str,
    days: u32,
    kind: Option<u16>,
    limit: u64,
    read: &R,
    outcome: Result<Vec<PublisherRankingRow>>,
)
    requires
        call_ensures(
            query_published_publisher_ranking::<R>,
            (product_id, days, kind, limit, read),
            outcome,
        ),
        outcome is Ok,
    ensures
        1 <= limit <= 1_000,
        days < 0x8000_0000,
        exists|query: RankingQuery, page: Vec<PageColumns>|
            #![trigger call_ensures(*read, (product_id, &query), Ok::<Vec<PageColumns>, Error>(page))]
            {
                let rows = outcome->Ok_0@;
                &&& call_ensures(
                    *read,
                    (product_id, &query),
                    Ok::<Vec<PageColumns>, Error>(page),
                )
                &&& query.days == days
                &&& query.limit == limit
                &&& kind is None ==> query.kind == -1
                &&& kind is Some ==> query.kind == kind->0
                &&& rows.len() == page@.len()
                &&& forall|i: int|
                    0 <= i < rows.len() ==> {
                        let row = #[trigger] rows[i];
                        &&& row.days == days
                        &&& row.kind == kind
                        &&& row.pubkey@ == page@[i].pubkey@
                        &&& row.event_count == page@[i].event_count
                        &&& row.kinds_count == page@[i].kinds_count
                        &&& row.first_event == page@[i].first_event
                        &&& row.last_event == page@[i].last_event
                    }
            },
{
    let (query, page) = choose|query: RankingQuery, page: Result<Vec<PageColumns>>| #[trigger]
        call_ensures(*read, (product_id, &query), page) && is_ranking_query(
            query,
            days,
            kind,
            limit,
        ) && match page {
            Err(error) => outcome == Err::<Vec<PublisherRankingRow>, Error>(error),
            Ok(page) => crate::published_queries::ranking_from_page(page@, days, kind, outcome),
        };
    assert(call_ensures(*read, (product_id, &query), Ok::<Vec<PageColumns>, Error>(page->Ok_0)));
    let rows = outcome->Ok_0@;
    assert forall|i: int| 0 <= i < rows.len() implies page_holds(
        page->Ok_0@[i],
        days,
        kind,
        #[trigger] rows[i],
    ) by {
        lemma_page_is_sound(page->Ok_0@, 0, i);
    }
}

/// A query of hours covers between one hour and 366 days. It asks for its first
/// hour, the hour behind its last, and its kind, with minus one for all kinds.
/// It hands out the rows that were read, in their order.
pub proof fn lemma_hourly_query_hands_out_its_rows<
    R: Fn(&str, &HourlyQuery) -> Result<Vec<HourColumns>>,
>(
    product_id: &str,
    start_hour: u32,
    end_hour: u32,
    kind: Option<u16>,
    read: &R,
    outcome: Result<Vec<ServingHourlyRow>>,
)
    requires
        call_ensures(
            query_published_serving_hourly::<R>,
            (product_id, start_hour, end_hour, kind, read),
            outcome,
        ),
        outcome is Ok,
    ensures
        start_hour < end_hour <= start_hour + 366 * 24,
        exists|query: HourlyQuery, page: Vec<HourColumns>|
            #![trigger call_ensures(*read, (product_id, &query), Ok::<Vec<HourColumns>, Error>(page))]
            {
                let rows = outcome->Ok_0@;
                &&& call_ensures(
                    *read,
                    (product_id, &query),
                    Ok::<Vec<HourColumns>, Error>(page),
                )
                &&& query.start_hour == start_hour
                &&& query.end_hour == end_hour
                &&& kind is None ==> query.kind == -1
                &&& kind is Some ==> query.kind == kind->0
                &&& rows.len() == page@.len()
                &&& forall|i: int|
                    0 <= i < rows.len() ==> {
                        let row = #[trigger] rows[i];
                        &&& row.hour_epoch == page@[i].hour_epoch
                        &&& row.kind == kind
                        &&& row.event_count == page@[i].event_count
                    }
            },
{
    let (query, page) = choose|query: HourlyQuery, page: Result<Vec<HourColumns>>| #[trigger]
        call_ensures(*read, (product_id, &query), page) && is_hourly_query(
            query,
            start_hour,
            end_hour,
            kind,
        ) && match page {
            Err(error) => outcome == Err::<Vec<ServingHourlyRow>, Error>(error),
            Ok(page) => crate::published_queries::hours_from_page(page@, kind, outcome),
        };
    assert(call_ensures(*read, (product_id, &query), Ok::<Vec<HourColumns>, Error>(page->Ok_0)));
    let rows = outcome->Ok_0@;
    assert forall|i: int| 0 <= i < rows.len() implies hour_holds(
        page->Ok_0@[i],
        kind,
        #[trigger] rows[i],
    ) by {
        lemma_hours_are_sound(page->Ok_0@, 0, i);
    }
}

/// A query of relays asks for its limit of rows, which is between one and a
/// thousand, and hands out what was read, in its order.
pub proof fn lemma_relay_query_hands_out_its_rows<R: Fn(&str, i64) -> Result<Vec<RelayColumns>>>(
    product_id: &str,
    limit: u64,
    read: &R,
    outcome: Result<Vec<RelayDistributionRow>>,
)
    requires
        call_ensures(query_published_relay_distribution::<R>, (product_id, limit, read), outcome),
        outcome is Ok,
    ensures
        1 <= limit <= 1_000,
        exists|page: Vec<RelayColumns>|
            #![trigger call_ensures(*read, (product_id, limit as i64), Ok::<Vec<RelayColumns>, Error>(page))]
            {
                let rows = outcome->Ok_0@;
                &&& call_ensures(
                    *read,
                    (product_id, limit as i64),
                    Ok::<Vec<RelayColumns>, Error>(page),
                )
                &&& rows.len() == page@.len()
                &&& forall|i: int|
                    0 <= i < rows.len() ==> {
                        let row = #[trigger] rows[i];
                        &&& row.relay_url@ == page@[i].relay_url@
                        &&& row.user_count == page@[i].user_count
                        &&& row.read_count == page@[i].read_count
                        &&& row.write_count == page@[i].write_count
                    }
            },
{
    let page = choose|page: Result<Vec<RelayColumns>>| #[trigger]
        call_ensures(*read, (product_id, limit as i64), page) && match page {
            Err(error) => outcome == Err::<Vec<RelayDistributionRow>, Error>(error),
            Ok(page) => crate::published_queries::relays_from_page(page@, outcome),
        };
    assert(call_ensures(
        *read,
        (product_id, limit as i64),
        Ok::<Vec<RelayColumns>, Error>(page->Ok_0),
    ));
    let rows = outcome->Ok_0@;
    assert forall|i: int| 0 <= i < rows.len() implies columns_hold(
        page->Ok_0@[i],
        #[trigger] rows[i],
    ) by {}
}

/// A query of a kind hands out its summary as it was read, or none where none
/// was.
pub proof fn lemma_kind_query_hands_out_its_summary<
    R: Fn(&str, u16) -> Result<Option<KindColumns>>,
>(product_id: &str, kind: u16, read: &R, outcome: Result<Option<ServingKindRow>>)
    requires
        call_ensures(query_published_serving_kind::<R>, (product_id, kind, read), outcome),
        outcome is Ok,
    ensures
        exists|found: Option<KindColumns>|
            #![trigger call_ensures(*read, (product_id, kind), Ok::<Option<KindColumns>, Error>(found))]
            {
                let summary = outcome->Ok_0;
                &&& call_ensures(
                    *read,
                    (product_id, kind),
                    Ok::<Option<KindColumns>, Error>(found),
                )
                &&& found is None <==> summary is None
                &&& found is Some ==> {
                    &&& summary->0.kind == kind
                    &&& summary->0.event_count == found->0.event_count
                    &&& summary->0.unique_pubkeys == found->0.unique_pubkeys
                    &&& summary->0.first_seen == found->0.first_seen
                    &&& summary->0.last_seen == found->0.last_seen
                    &&& summary->0.content_bytes == found->0.content_bytes
                    &&& summary->0.content_rows == found->0.content_rows
                }
            },
{
    let found = choose|found: Result<Option<KindColumns>>| #[trigger]
        call_ensures(*read, (product_id, kind), found) && match found {
            Err(error) => outcome == Err::<Option<ServingKindRow>, Error>(error),
            Ok(columns) => crate::published_queries::summary_from_columns(kind, columns, outcome),
        };
    assert(call_ensures(
        *read,
        (product_id, kind),
        Ok::<Option<KindColumns>, Error>(found->Ok_0),
    ));
}

} // verus!
