//! Queries of published products.
//!
//! A query checks its bounds, has the ledger read, and decodes what was read.

use vstd::prelude::*;
use vstd::string::*;

use crate::error::{Error, Result};
use crate::flexible_publish::{published_window, published_window_fits, PublishedWindow};
use crate::flexible_samples::kind_rank;
use crate::publisher_ledger::PublisherRankingRow;
use crate::publisher_publish::{
    decode_page_row, page_fault, ranking_query, PageColumns, RankingQuery,
};
use crate::relay_distribution::RelayDistributionRow;
use crate::relay_publish::{columns_hold, query_limit, relay_row, rows_fault, RelayColumns};
use crate::serving_publish::{
    decode_hour, decode_kind_row, hour_fault, hourly_query, kind_columns_hold, kind_fault,
    HourlyQuery, KindColumns,
};
use crate::serving_records::{ServingHourlyRow, ServingKindRow};
use crate::zap_distinct::ZapParticipantRole;
use crate::zap_publish::{published_zap_window, role_column, PublishedZapWindow};

verus! {

/// The relay rows that a page comes to.
pub open spec fn relays_from_page(
    page: Seq<RelayColumns>,
    outcome: Result<Vec<RelayDistributionRow>>,
) -> bool {
    match rows_fault(page, 0) {
        Some(error) => outcome == Err::<Vec<RelayDistributionRow>, Error>(error),
        None => {
            &&& outcome is Ok
            &&& outcome->Ok_0@.len() == page.len()
            &&& forall|i: int|
                0 <= i < page.len() ==> columns_hold(page[i], #[trigger] outcome->Ok_0@[i])
        },
    }
}

/// Decode a page of relay rows.
fn decode_relays(page: &Vec<RelayColumns>) -> (outcome: Result<Vec<RelayDistributionRow>>)
    ensures
        relays_from_page(page@, outcome),
{
    let mut rows: Vec<RelayDistributionRow> = Vec::new();
    let mut i: usize = 0;
    while i < page.len()
        invariant
            i <= page@.len(),
            rows@.len() == i,
            forall|j: int| 0 <= j < i ==> columns_hold(page@[j], #[trigger] rows@[j]),
            rows_fault(page@, 0) == rows_fault(page@, i as int),
        decreases page.len() - i,
    {
        match relay_row(&page[i]) {
            Ok(row) => {
                rows.push(row);
            },
            Err(error) => {
                return Err(error);
            },
        }
        i += 1;
    }
    Ok(rows)
}

/// One page of a published relay distribution.
///
/// `read` reads so many rows of the product.
pub fn query_published_relay_distribution<R: Fn(&str, i64) -> Result<Vec<RelayColumns>>>(
    product_id: &str,
    limit: u64,
    read: &R,
) -> (outcome: Result<Vec<RelayDistributionRow>>)
    requires
        forall|id: &str, limit: i64| #[trigger] call_requires(*read, (id, limit)),
    ensures
        if 1 <= limit <= 1_000 {
            exists|page: Result<Vec<RelayColumns>>| #[trigger]
                call_ensures(*read, (product_id, limit as i64), page) && match page {
                    Err(error) => outcome == Err::<Vec<RelayDistributionRow>, Error>(error),
                    Ok(page) => relays_from_page(page@, outcome),
                }
        } else {
            outcome == Err::<Vec<RelayDistributionRow>, Error>(
                Error::Validation("relay distribution limit must be between 1 and 1000"),
            )
        },
{
    let limit: i64 = match query_limit(limit) {
        Ok(limit) => limit,
        Err(error) => {
            return Err(error);
        },
    };
    let page: Vec<RelayColumns> = match read(product_id, limit) {
        Ok(page) => page,
        Err(error) => {
            return Err(error);
        },
    };
    decode_relays(&page)
}

/// The row is the page's, for the window and the kind.
pub open spec fn page_holds(
    columns: PageColumns,
    days: u32,
    kind: Option<u16>,
    row: PublisherRankingRow,
) -> bool {
    &&& row.days == days
    &&& row.kind == kind
    &&& row.pubkey@ == columns.pubkey@
    &&& row.event_count == columns.event_count
    &&& row.kinds_count == columns.kinds_count
    &&& row.first_event == columns.first_event
    &&& row.last_event == columns.last_event
}

/// The first fault of a page.
pub open spec fn page_faults(page: Seq<PageColumns>, from: int) -> Option<Error>
    decreases page.len() - from,
{
    if from >= page.len() {
        None
    } else {
        match page_fault(page[from]) {
            Some(error) => Some(error),
            None => page_faults(page, from + 1),
        }
    }
}

/// The ranking that a page comes to.
pub open spec fn ranking_from_page(
    page: Seq<PageColumns>,
    days: u32,
    kind: Option<u16>,
    outcome: Result<Vec<PublisherRankingRow>>,
) -> bool {
    match page_faults(page, 0) {
        Some(error) => outcome == Err::<Vec<PublisherRankingRow>, Error>(error),
        None => {
            &&& outcome is Ok
            &&& outcome->Ok_0@.len() == page.len()
            &&& forall|i: int|
                0 <= i < page.len() ==> page_holds(
                    page[i],
                    days,
                    kind,
                    #[trigger] outcome->Ok_0@[i],
                )
        },
    }
}

/// The columns that a ranking is read by.
pub open spec fn is_ranking_query(
    query: RankingQuery,
    days: u32,
    kind: Option<u16>,
    limit: u64,
) -> bool {
    query.days == days && query.kind == kind_rank(kind) && query.limit == limit
}

/// Decode a page of a ranking.
fn decode_ranking_page(
    page: &Vec<PageColumns>,
    days: u32,
    kind: Option<u16>,
) -> (outcome: Result<Vec<PublisherRankingRow>>)
    ensures
        ranking_from_page(page@, days, kind, outcome),
{
    let mut rows: Vec<PublisherRankingRow> = Vec::new();
    let mut i: usize = 0;
    while i < page.len()
        invariant
            i <= page@.len(),
            rows@.len() == i,
            forall|j: int|
                0 <= j < i ==> page_holds(page@[j], days, kind, #[trigger] rows@[j]),
            page_faults(page@, 0) == page_faults(page@, i as int),
        decreases page.len() - i,
    {
        match decode_page_row(days, kind, &page[i]) {
            Ok(row) => {
                rows.push(row);
            },
            Err(error) => {
                return Err(error);
            },
        }
        i += 1;
    }
    Ok(rows)
}

/// One page of a published ranking.
///
/// `read` reads the rows of the product that the query names.
pub fn query_published_publisher_ranking<
    R: Fn(&str, &RankingQuery) -> Result<Vec<PageColumns>>,
>(product_id: &str, days: u32, kind: Option<u16>, limit: u64, read: &R) -> (outcome: Result<
    Vec<PublisherRankingRow>,
>)
    requires
        forall|id: &str, query: &RankingQuery| #[trigger] call_requires(*read, (id, query)),
    ensures
        if 1 <= limit <= 1_000 && days <= i32::MAX {
            exists|query: RankingQuery, page: Result<Vec<PageColumns>>| #[trigger]
                call_ensures(*read, (product_id, &query), page) && is_ranking_query(
                    query,
                    days,
                    kind,
                    limit,
                ) && match page {
                    Err(error) => outcome == Err::<Vec<PublisherRankingRow>, Error>(error),
                    Ok(page) => ranking_from_page(page@, days, kind, outcome),
                }
        } else {
            outcome is Err && outcome->Err_0 is Validation
        },
{
    let query: RankingQuery = match ranking_query(days, kind, limit) {
        Ok(query) => query,
        Err(error) => {
            return Err(error);
        },
    };
    let page: Vec<PageColumns> = match read(product_id, &query) {
        Ok(page) => page,
        Err(error) => {
            assert(call_ensures(*read, (product_id, &query), Err(error)));
            return Err(error);
        },
    };
    assert(call_ensures(*read, (product_id, &query), Ok(page)));
    decode_ranking_page(&page, days, kind)
}

/// An hour and its events, as stored.
#[derive(Clone, Copy, Debug, PartialEq, Eq, Structural)]
pub struct HourColumns {
    /// Hour as a Unix time.
    pub hour_epoch: i64,
    /// Event count.
    pub event_count: i64,
}

/// The first fault of a page of hours.
pub open spec fn hours_fault(page: Seq<HourColumns>, from: int) -> Option<Error>
    decreases page.len() - from,
{
    if from >= page.len() {
        None
    } else {
        match hour_fault(page[from].hour_epoch, page[from].event_count) {
            Some(error) => Some(error),
            None => hours_fault(page, from + 1),
        }
    }
}

/// The row is the hour's, for the kind.
pub open spec fn hour_holds(
    columns: HourColumns,
    kind: Option<u16>,
    row: ServingHourlyRow,
) -> bool {
    &&& row.hour_epoch == columns.hour_epoch
    &&& row.kind == kind
    &&& row.event_count == columns.event_count
}

/// The hours that a page comes to.
pub open spec fn hours_from_page(
    page: Seq<HourColumns>,
    kind: Option<u16>,
    outcome: Result<Vec<ServingHourlyRow>>,
) -> bool {
    match hours_fault(page, 0) {
        Some(error) => outcome == Err::<Vec<ServingHourlyRow>, Error>(error),
        None => {
            &&& outcome is Ok
            &&& outcome->Ok_0@.len() == page.len()
            &&& forall|i: int|
                0 <= i < page.len() ==> hour_holds(page[i], kind, #[trigger] outcome->Ok_0@[i])
        },
    }
}

/// The columns that hours are read by.
pub open spec fn is_hourly_query(
    query: HourlyQuery,
    start_hour: u32,
    end_hour: u32,
    kind: Option<u16>,
) -> bool {
    query.kind == kind_rank(kind) && query.start_hour == start_hour && query.end_hour == end_hour
}

/// Decode a page of hours.
fn decode_hours(
    page: &Vec<HourColumns>,
    kind: Option<u16>,
) -> (outcome: Result<Vec<ServingHourlyRow>>)
    ensures
        hours_from_page(page@, kind, outcome),
{
    let mut rows: Vec<ServingHourlyRow> = Vec::new();
    let mut i: usize = 0;
    while i < page.len()
        invariant
            i <= page@.len(),
            rows@.len() == i,
            forall|j: int| 0 <= j < i ==> hour_holds(page@[j], kind, #[trigger] rows@[j]),
            hours_fault(page@, 0) == hours_fault(page@, i as int),
        decreases page.len() - i,
    {
        match decode_hour(kind, page[i].hour_epoch, page[i].event_count) {
            Ok(row) => {
                rows.push(row);
            },
            Err(error) => {
                return Err(error);
            },
        }
        i += 1;
    }
    Ok(rows)
}

/// The published hours of a window.
///
/// `read` reads the hours of the product that the query names.
pub fn query_published_serving_hourly<R: Fn(&str, &HourlyQuery) -> Result<Vec<HourColumns>>>(
    product_id: &str,
    start_hour: u32,
    end_hour: u32,
    kind: Option<u16>,
    read: &R,
) -> (outcome: Result<Vec<ServingHourlyRow>>)
    requires
        forall|id: &str, query: &HourlyQuery| #[trigger] call_requires(*read, (id, query)),
    ensures
        if 1 <= end_hour - start_hour <= 8_784 {
            exists|query: HourlyQuery, page: Result<Vec<HourColumns>>| #[trigger]
                call_ensures(*read, (product_id, &query), page) && is_hourly_query(
                    query,
                    start_hour,
                    end_hour,
                    kind,
                ) && match page {
                    Err(error) => outcome == Err::<Vec<ServingHourlyRow>, Error>(error),
                    Ok(page) => hours_from_page(page@, kind, outcome),
                }
        } else {
            outcome == Err::<Vec<ServingHourlyRow>, Error>(
                Error::Validation("serving hourly query must cover 1 through 8784 hours"),
            )
        },
{
    let query: HourlyQuery = match hourly_query(start_hour, end_hour, kind) {
        Ok(query) => query,
        Err(error) => {
            return Err(error);
        },
    };
    let page: Vec<HourColumns> = match read(product_id, &query) {
        Ok(page) => page,
        Err(error) => {
            assert(call_ensures(*read, (product_id, &query), Err(error)));
            return Err(error);
        },
    };
    assert(call_ensures(*read, (product_id, &query), Ok(page)));
    decode_hours(&page, kind)
}

/// The summary that the columns of a kind come to.
pub open spec fn summary_from_columns(
    kind: u16,
    columns: Option<KindColumns>,
    outcome: Result<Option<ServingKindRow>>,
) -> bool {
    match columns {
        None => outcome == Ok::<Option<ServingKindRow>, Error>(None),
        Some(columns) => {
            let own = KindColumns { kind: kind as i32, ..columns };
            match kind_fault(own) {
                Some(error) => outcome == Err::<Option<ServingKindRow>, Error>(error),
                None => {
                    &&& outcome is Ok
                    &&& outcome->Ok_0 is Some
                    &&& kind_columns_hold(own, outcome->Ok_0->0)
                },
            }
        },
    }
}

/// The published summary of one kind, if there is one.
///
/// `read` reads the summary of the kind of the product.
pub fn query_published_serving_kind<R: Fn(&str, u16) -> Result<Option<KindColumns>>>(
    product_id: &str,
    kind: u16,
    read: &R,
) -> (outcome: Result<Option<ServingKindRow>>)
    requires
        call_requires(*read, (product_id, kind)),
    ensures
        exists|found: Result<Option<KindColumns>>| #[trigger]
            call_ensures(*read, (product_id, kind), found) && match found {
                Err(error) => outcome == Err::<Option<ServingKindRow>, Error>(error),
                Ok(columns) => summary_from_columns(kind, columns, outcome),
            },
{
    match read(product_id, kind) {
        Ok(Some(columns)) => {
            assert(call_ensures(*read, (product_id, kind), Ok(Some(columns))));
            let own: KindColumns = KindColumns { kind: kind as i32, ..columns };
            match decode_kind_row(own) {
                Ok(row) => Ok(Some(row)),
                Err(error) => Err(error),
            }
        },
        Ok(None) => {
            assert(call_ensures(*read, (product_id, kind), Ok(None)));
            Ok(None)
        },
        Err(error) => {
            assert(call_ensures(*read, (product_id, kind), Err(error)));
            Err(error)
        },
    }
}

/// What uniting the sketches of a window comes to.
pub open spec fn union_gives<F: Fn(&Vec<Vec<u8>>) -> Result<u64>>(
    union: F,
    sketches: Result<Vec<Vec<u8>>>,
    outcome: Result<u64>,
) -> bool {
    match sketches {
        Err(error) => outcome == Err::<u64, Error>(error),
        Ok(sketches) => call_ensures(union, (&sketches,), outcome),
    }
}

/// The window is complete and has the bounds and the kind.
pub open spec fn is_window(
    window: PublishedWindow,
    since_epoch: u64,
    until_epoch: u64,
    kind: Option<u16>,
) -> bool {
    &&& window.since_epoch == since_epoch
    &&& window.until_epoch == until_epoch
    &&& match kind {
        None => window.kind is None,
        Some(kind) => window.kind == Some(kind as i32),
    }
}

/// What an estimate comes to once the end of the product is known.
pub open spec fn estimates_window<
    R: Fn(&str, &PublishedWindow) -> Result<Vec<Vec<u8>>>,
    F: Fn(&Vec<Vec<u8>>) -> Result<u64>,
>(
    read: R,
    union: F,
    product_id: &str,
    complete_through: i64,
    since_epoch: u64,
    until_epoch: u64,
    kind: Option<u16>,
    outcome: Result<u64>,
) -> bool {
    if complete_through >= 0 && published_window_fits(
        since_epoch as int,
        until_epoch as int,
        complete_through as int,
    ) {
        exists|window: PublishedWindow, sketches: Result<Vec<Vec<u8>>>| #[trigger]
            call_ensures(read, (product_id, &window), sketches) && is_window(
                window,
                since_epoch,
                until_epoch,
                kind,
            ) && union_gives(union, sketches, outcome)
    } else {
        outcome is Err && outcome->Err_0 is Validation
    }
}

/// Estimate the distinct publishers of a published window.
///
/// `complete_through` reads the end of the product, `read` the sketches of a
/// window of it, and `union` estimates the union of sketches.
pub fn estimate_published_flexible_distinct<
    E: Fn(&str) -> Result<i64>,
    R: Fn(&str, &PublishedWindow) -> Result<Vec<Vec<u8>>>,
    F: Fn(&Vec<Vec<u8>>) -> Result<u64>,
>(
    product_id: &str,
    since_epoch: u64,
    until_epoch: u64,
    kind: Option<u16>,
    complete_through: &E,
    read: &R,
    union: &F,
) -> (outcome: Result<u64>)
    requires
        call_requires(*complete_through, (product_id,)),
        forall|id: &str, window: &PublishedWindow| #[trigger] call_requires(*read, (id, window)),
        forall|sketches: &Vec<Vec<u8>>| #[trigger] call_requires(*union, (sketches,)),
    ensures
        exists|end: Result<i64>| #[trigger]
            call_ensures(*complete_through, (product_id,), end) && match end {
                Err(error) => outcome == Err::<u64, Error>(error),
                Ok(end) => estimates_window(
                    *read,
                    *union,
                    product_id,
                    end,
                    since_epoch,
                    until_epoch,
                    kind,
                    outcome,
                ),
            },
{
    let end: i64 = match complete_through(product_id) {
        Ok(end) => end,
        Err(error) => {
            assert(call_ensures(*complete_through, (product_id,), Err(error)));
            return Err(error);
        },
    };
    assert(call_ensures(*complete_through, (product_id,), Ok(end)));
    let window: PublishedWindow = match published_window(end, since_epoch, until_epoch, kind) {
        Ok(window) => window,
        Err(error) => {
            return Err(error);
        },
    };
    match read(product_id, &window) {
        Ok(sketches) => {
            let outcome: Result<u64> = union(&sketches);
            assert(call_ensures(*read, (product_id, &window), Ok(sketches)));
            assert(union_gives(*union, Ok(sketches), outcome));
            outcome
        },
        Err(error) => {
            assert(call_ensures(*read, (product_id, &window), Err(error)));
            Err(error)
        },
    }
}

/// The window is complete and has the bounds and the role.
pub open spec fn is_zap_window(
    window: PublishedZapWindow,
    since_epoch: u64,
    until_epoch: u64,
    role: ZapParticipantRole,
) -> bool {
    &&& window.since_epoch == since_epoch
    &&& window.until_epoch == until_epoch
    &&& window.role == role_column(role)
}

/// What an estimate comes to once the end of the product is known.
pub open spec fn estimates_zap_window<
    R: Fn(&str, &PublishedZapWindow) -> Result<Vec<Vec<u8>>>,
    F: Fn(&Vec<Vec<u8>>) -> Result<u64>,
>(
    read: R,
    union: F,
    product_id: &str,
    complete_through: i64,
    since_epoch: u64,
    until_epoch: u64,
    role: ZapParticipantRole,
    outcome: Result<u64>,
) -> bool {
    if complete_through < 0 {
        outcome == Err::<u64, Error>(
            Error::NegativeLedgerValue {
                field: "zap distinct complete-through",
                value: complete_through,
            },
        )
    } else if crate::zap_publish::published_window_fits(
        since_epoch as int,
        until_epoch as int,
        complete_through as int,
    ) {
        exists|window: PublishedZapWindow, sketches: Result<Vec<Vec<u8>>>| #[trigger]
            call_ensures(read, (product_id, &window), sketches) && is_zap_window(
                window,
                since_epoch,
                until_epoch,
                role,
            ) && union_gives(union, sketches, outcome)
    } else {
        outcome is Err && outcome->Err_0 is Validation
    }
}

/// Estimate the distinct participants of a published window.
///
/// `complete_through` reads the end of the product, `read` the sketches of a
/// window of it, and `union` estimates the union of sketches.
pub fn estimate_published_zap_distinct<
    E: Fn(&str) -> Result<i64>,
    R: Fn(&str, &PublishedZapWindow) -> Result<Vec<Vec<u8>>>,
    F: Fn(&Vec<Vec<u8>>) -> Result<u64>,
>(
    product_id: &str,
    since_epoch: u64,
    until_epoch: u64,
    role: ZapParticipantRole,
    complete_through: &E,
    read: &R,
    union: &F,
) -> (outcome: Result<u64>)
    requires
        call_requires(*complete_through, (product_id,)),
        forall|id: &str, window: &PublishedZapWindow| #[trigger]
            call_requires(*read, (id, window)),
        forall|sketches: &Vec<Vec<u8>>| #[trigger] call_requires(*union, (sketches,)),
    ensures
        exists|end: Result<i64>| #[trigger]
            call_ensures(*complete_through, (product_id,), end) && match end {
                Err(error) => outcome == Err::<u64, Error>(error),
                Ok(end) => estimates_zap_window(
                    *read,
                    *union,
                    product_id,
                    end,
                    since_epoch,
                    until_epoch,
                    role,
                    outcome,
                ),
            },
{
    let end: i64 = match complete_through(product_id) {
        Ok(end) => end,
        Err(error) => {
            assert(call_ensures(*complete_through, (product_id,), Err(error)));
            return Err(error);
        },
    };
    assert(call_ensures(*complete_through, (product_id,), Ok(end)));
    let window: PublishedZapWindow = match published_zap_window(
        end,
        since_epoch,
        until_epoch,
        role,
    ) {
        Ok(window) => window,
        Err(error) => {
            return Err(error);
        },
    };
    match read(product_id, &window) {
        Ok(sketches) => {
            let outcome: Result<u64> = union(&sketches);
            assert(call_ensures(*read, (product_id, &window), Ok(sketches)));
            assert(union_gives(*union, Ok(sketches), outcome));
            outcome
        },
        Err(error) => {
            assert(call_ensures(*read, (product_id, &window), Err(error)));
            Err(error)
        },
    }
}

} // verus!
