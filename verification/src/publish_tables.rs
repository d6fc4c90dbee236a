//! The tables of a run, as the lines that are copied into them.

use vstd::prelude::*;
use vstd::string::*;

use crate::activity_tables::{ActiveUsersPeriod, DistinctPubkeysPeriod};
use crate::ledger::{asked, changes, Ask, Change, LedgerRequest, Owed};
use crate::products::{CohortRetentionPeriod, PublicationProducts};
use crate::pubkey_first_seen::NewUsersDaily;
use crate::publish::{
    active_rows, active_users_line, cohort_line, cohort_rows, distinct_pubkeys_line, distinct_rows,
    event_daily_kind_line, event_daily_line, kind_all_time_line, new_users_line, new_users_rows,
    product_sizes, BuildSummary, ProductSizes,
};
use crate::publisher_publish::kind_column_text;
use crate::text::decimal;

verus! {

/// A table of a run.
#[derive(Clone, Copy, Debug, PartialEq, Eq, Structural)]
pub enum Relation {
    /// Events of a day.
    EventDaily,
    /// Events of a day and a kind.
    EventDailyKind,
    /// Events of a kind.
    KindAllTime,
    /// New publishers of a day.
    NewUsersDaily,
    /// Distinct publishers of a period.
    DistinctPubkeysPeriod,
    /// Active publishers of a period.
    ActiveUsersPeriod,
    /// Publishers of a cohort in a period.
    CohortRetentionPeriod,
}

/// Event counts of a build.
pub struct EventRows {
    /// Days and their events.
    pub daily: Vec<(String, u64)>,
    /// Days, kinds and their events.
    pub daily_kinds: Vec<(String, u16, u64)>,
    /// Kinds and their events.
    pub kinds: Vec<(u16, u64)>,
}

/// The name of the table.
pub open spec fn relation_name(relation: Relation) -> &'static str {
    match relation {
        Relation::EventDaily => "event_daily",
        Relation::EventDailyKind => "event_daily_kind",
        Relation::KindAllTime => "kind_all_time",
        Relation::NewUsersDaily => "new_users_daily",
        Relation::DistinctPubkeysPeriod => "distinct_pubkeys_period",
        Relation::ActiveUsersPeriod => "active_users_period",
        Relation::CohortRetentionPeriod => "cohort_retention_period",
    }
}

/// Rows that the table is to hold.
pub open spec fn rows_owed(
    relation: Relation,
    summary: BuildSummary,
    products: PublicationProducts,
) -> u64 {
    match relation {
        Relation::EventDaily => summary.event_daily_rows,
        Relation::EventDailyKind => summary.event_daily_kind_rows,
        Relation::KindAllTime => summary.kind_all_time_rows,
        Relation::NewUsersDaily => new_users_rows(products) as u64,
        Relation::DistinctPubkeysPeriod => distinct_rows(products),
        Relation::ActiveUsersPeriod => active_rows(products),
        Relation::CohortRetentionPeriod => cohort_rows(products),
    }
}

/// The line of a day.
pub open spec fn daily_text(run_id: Seq<char>, row: (String, u64)) -> Seq<char> {
    run_id + ","@ + row.0@ + ","@ + decimal(row.1 as nat) + "\n"@
}

/// The lines of the table.
fn daily_lines(run_id: &str, rows: &Vec<(String, u64)>) -> (lines: Vec<String>)
    ensures
        texts(lines@) == Seq::new(rows@.len(), |i: int| daily_text(run_id@, rows@[i])),
{
    let mut lines: Vec<String> = Vec::new();
    let mut i: usize = 0;
    while i < rows.len()
        invariant
            i <= rows@.len(),
            lines@.len() == i,
            forall|j: int| 0 <= j < i ==> (#[trigger] lines@[j])@ == daily_text(run_id@, rows@[j]),
        decreases rows.len() - i,
    {
        lines.push(event_daily_line(run_id, rows[i].0.as_str(), rows[i].1));
        i += 1;
    }
    assert(texts(lines@) =~= Seq::new(rows@.len(), |i: int| daily_text(run_id@, rows@[i])));
    lines
}

/// The line of a day and a kind.
pub open spec fn daily_kind_text(run_id: Seq<char>, row: (String, u16, u64)) -> Seq<char> {
    run_id + ","@ + row.0@ + ","@ + decimal(row.1 as nat) + ","@ + decimal(row.2 as nat)
        + "\n"@
}

/// The lines of the table.
fn daily_kind_lines(run_id: &str, rows: &Vec<(String, u16, u64)>) -> (lines: Vec<String>)
    ensures
        texts(lines@) == Seq::new(rows@.len(), |i: int| daily_kind_text(run_id@, rows@[i])),
{
    let mut lines: Vec<String> = Vec::new();
    let mut i: usize = 0;
    while i < rows.len()
        invariant
            i <= rows@.len(),
            lines@.len() == i,
            forall|j: int| 0 <= j < i ==> (#[trigger] lines@[j])@ == daily_kind_text(run_id@, rows@[j]),
        decreases rows.len() - i,
    {
        lines.push(event_daily_kind_line(run_id, rows[i].0.as_str(), rows[i].1, rows[i].2));
        i += 1;
    }
    assert(texts(lines@) =~= Seq::new(rows@.len(), |i: int| daily_kind_text(run_id@, rows@[i])));
    lines
}

/// The line of a kind.
pub open spec fn kind_text(run_id: Seq<char>, row: (u16, u64)) -> Seq<char> {
    run_id + ","@ + decimal(row.0 as nat) + ","@ + decimal(row.1 as nat) + "\n"@
}

/// The lines of the table.
fn kind_lines(run_id: &str, rows: &Vec<(u16, u64)>) -> (lines: Vec<String>)
    ensures
        texts(lines@) == Seq::new(rows@.len(), |i: int| kind_text(run_id@, rows@[i])),
{
    let mut lines: Vec<String> = Vec::new();
    let mut i: usize = 0;
    while i < rows.len()
        invariant
            i <= rows@.len(),
            lines@.len() == i,
            forall|j: int| 0 <= j < i ==> (#[trigger] lines@[j])@ == kind_text(run_id@, rows@[j]),
        decreases rows.len() - i,
    {
        lines.push(kind_all_time_line(run_id, rows[i].0, rows[i].1));
        i += 1;
    }
    assert(texts(lines@) =~= Seq::new(rows@.len(), |i: int| kind_text(run_id@, rows@[i])));
    lines
}

/// The line of the new publishers of a day.
pub open spec fn new_users_text(run_id: Seq<char>, row: NewUsersDaily) -> Seq<char> {
    run_id + ","@ + row.day@ + ","@ + decimal(row.new_pubkeys as nat) + "\n"@
}

/// The lines of the table.
fn new_users_lines(run_id: &str, rows: &Vec<NewUsersDaily>) -> (lines: Vec<String>)
    ensures
        texts(lines@) == Seq::new(rows@.len(), |i: int| new_users_text(run_id@, rows@[i])),
{
    let mut lines: Vec<String> = Vec::new();
    let mut i: usize = 0;
    while i < rows.len()
        invariant
            i <= rows@.len(),
            lines@.len() == i,
            forall|j: int| 0 <= j < i ==> (#[trigger] lines@[j])@ == new_users_text(run_id@, rows@[j]),
        decreases rows.len() - i,
    {
        lines.push(new_users_line(run_id, rows[i].day.as_str(), rows[i].new_pubkeys));
        i += 1;
    }
    assert(texts(lines@) =~= Seq::new(rows@.len(), |i: int| new_users_text(run_id@, rows@[i])));
    lines
}

/// The line of the distinct publishers of a period.
pub open spec fn distinct_text(run_id: Seq<char>, row: DistinctPubkeysPeriod) -> Seq<char> {
    run_id + ","@ + row.grain@ + ","@ + row.period_start@ + ","@ + kind_column_text(row.kind)
        + ","@ + decimal(row.unique_pubkeys as nat) + "\n"@
}

/// The lines of the table.
fn distinct_lines(run_id: &str, rows: &Vec<DistinctPubkeysPeriod>) -> (lines: Vec<String>)
    ensures
        texts(lines@) == Seq::new(rows@.len(), |i: int| distinct_text(run_id@, rows@[i])),
{
    let mut lines: Vec<String> = Vec::new();
    let mut i: usize = 0;
    while i < rows.len()
        invariant
            i <= rows@.len(),
            lines@.len() == i,
            forall|j: int| 0 <= j < i ==> (#[trigger] lines@[j])@ == distinct_text(run_id@, rows@[j]),
        decreases rows.len() - i,
    {
        lines.push(distinct_pubkeys_line(run_id, &rows[i]));
        i += 1;
    }
    assert(texts(lines@) =~= Seq::new(rows@.len(), |i: int| distinct_text(run_id@, rows@[i])));
    lines
}

/// The line of the active publishers of a period.
pub open spec fn active_text(run_id: Seq<char>, row: ActiveUsersPeriod) -> Seq<char> {
    run_id + ","@ + row.grain@ + ","@ + row.period_start@ + ","@ + decimal(row.active_users as nat)
        + ","@ + decimal(row.has_profile as nat) + ","@ + decimal(row.has_follows_list as nat)
        + ","@ + decimal(row.has_profile_and_follows_list as nat) + ","@ + decimal(
        row.total_events as nat,
    ) + "\n"@
}

/// The lines of the table.
fn active_lines(run_id: &str, rows: &Vec<ActiveUsersPeriod>) -> (lines: Vec<String>)
    ensures
        texts(lines@) == Seq::new(rows@.len(), |i: int| active_text(run_id@, rows@[i])),
{
    let mut lines: Vec<String> = Vec::new();
    let mut i: usize = 0;
    while i < rows.len()
        invariant
            i <= rows@.len(),
            lines@.len() == i,
            forall|j: int| 0 <= j < i ==> (#[trigger] lines@[j])@ == active_text(run_id@, rows@[j]),
        decreases rows.len() - i,
    {
        lines.push(active_users_line(run_id, &rows[i]));
        i += 1;
    }
    assert(texts(lines@) =~= Seq::new(rows@.len(), |i: int| active_text(run_id@, rows@[i])));
    lines
}

/// The line of a cohort in a period.
pub open spec fn cohort_text(run_id: Seq<char>, row: CohortRetentionPeriod) -> Seq<char> {
    run_id + ","@ + row.grain@ + ","@ + row.cohort_start@ + ","@ + row.activity_period@ + ","@
        + decimal(row.active_pubkeys as nat) + "\n"@
}

/// The lines of the table.
fn cohort_lines(run_id: &str, rows: &Vec<CohortRetentionPeriod>) -> (lines: Vec<String>)
    ensures
        texts(lines@) == Seq::new(rows@.len(), |i: int| cohort_text(run_id@, rows@[i])),
{
    let mut lines: Vec<String> = Vec::new();
    let mut i: usize = 0;
    while i < rows.len()
        invariant
            i <= rows@.len(),
            lines@.len() == i,
            forall|j: int| 0 <= j < i ==> (#[trigger] lines@[j])@ == cohort_text(run_id@, rows@[j]),
        decreases rows.len() - i,
    {
        lines.push(cohort_line(run_id, &rows[i]));
        i += 1;
    }
    assert(texts(lines@) =~= Seq::new(rows@.len(), |i: int| cohort_text(run_id@, rows@[i])));
    lines
}

/// The texts of the lines.
pub open spec fn texts(lines: Seq<String>) -> Seq<Seq<char>> {
    Seq::new(lines.len(), |i: int| lines[i]@)
}

/// The lines that are copied into the table.
pub open spec fn table_lines(
    relation: Relation,
    run_id: Seq<char>,
    rows: EventRows,
    products: PublicationProducts,
) -> Seq<Seq<char>> {
    match relation {
        Relation::EventDaily => Seq::new(
            rows.daily@.len(),
            |i: int| daily_text(run_id, rows.daily@[i]),
        ),
        Relation::EventDailyKind => Seq::new(
            rows.daily_kinds@.len(),
            |i: int| daily_kind_text(run_id, rows.daily_kinds@[i]),
        ),
        Relation::KindAllTime => Seq::new(
            rows.kinds@.len(),
            |i: int| kind_text(run_id, rows.kinds@[i]),
        ),
        Relation::NewUsersDaily => match products.identity {
            Some(product) => Seq::new(
                product.evidence.new_users_daily@.len(),
                |i: int| new_users_text(run_id, product.evidence.new_users_daily@[i]),
            ),
            None => Seq::empty(),
        },
        Relation::DistinctPubkeysPeriod => match products.activity {
            Some(product) => Seq::new(
                product.evidence.distinct_pubkeys@.len(),
                |i: int| distinct_text(run_id, product.evidence.distinct_pubkeys@[i]),
            ),
            None => Seq::empty(),
        },
        Relation::ActiveUsersPeriod => match products.activity {
            Some(product) => Seq::new(
                product.evidence.active_users@.len(),
                |i: int| active_text(run_id, product.evidence.active_users@[i]),
            ),
            None => Seq::empty(),
        },
        Relation::CohortRetentionPeriod => match products.cohort {
            Some(product) => Seq::new(
                product.evidence.periods@.len(),
                |i: int| cohort_text(run_id, product.evidence.periods@[i]),
            ),
            None => Seq::empty(),
        },
    }
}

/// The tables that the publication fills, in order.
pub open spec fn filled(products: PublicationProducts) -> Seq<Relation> {
    seq![Relation::EventDaily, Relation::EventDailyKind, Relation::KindAllTime] + (
    if products.identity is Some {
        seq![Relation::NewUsersDaily]
    } else {
        Seq::empty()
    }) + (if products.activity is Some {
        seq![Relation::DistinctPubkeysPeriod, Relation::ActiveUsersPeriod]
    } else {
        Seq::empty()
    }) + (if products.cohort is Some {
        seq![Relation::CohortRetentionPeriod]
    } else {
        Seq::empty()
    })
}

/// The questions that fill the tables of a run.
pub open spec fn table_asks(
    run_id: Seq<char>,
    rows: EventRows,
    products: PublicationProducts,
) -> Seq<Ask> {
    Seq::new(
        filled(products).len(),
        |i: int|
            Ask::CopyRows(
                filled(products)[i],
                table_lines(filled(products)[i], run_id, rows, products),
            ),
    )
}

/// The changes fill the tables of a run.
pub open spec fn fills_tables(
    script: Seq<Change>,
    run_id: Seq<char>,
    rows: EventRows,
    summary: BuildSummary,
    products: PublicationProducts,
) -> bool {
    &&& changes(script) == table_asks(run_id, rows, products)
    &&& forall|i: int|
        0 <= i < script.len() ==> (#[trigger] script[i]).owed == Owed::Rows(
            relation_name(filled(products)[i]),
            rows_owed(filled(products)[i], summary, products),
        )
}

/// A copy of lines into a table.
fn copy_change(relation: Relation, lines: Vec<String>, name: &'static str, owed: u64) -> (change:
    Change)
    ensures
        asked(change.request) == Ask::CopyRows(relation, texts(lines@)),
        change.owed == Owed::Rows(name, owed),
{
    Change { request: LedgerRequest::CopyRows { relation, lines }, owed: Owed::Rows(name, owed) }
}

/// The changes that fill the tables of a run.
pub fn table_changes(
    run_id: &str,
    rows: &EventRows,
    summary: BuildSummary,
    products: &PublicationProducts,
) -> (script: Vec<Change>)
    ensures
        fills_tables(script@, run_id@, *rows, summary, *products),
{
    let sizes: ProductSizes = product_sizes(products);
    let mut script: Vec<Change> = Vec::new();
    script.push(
        copy_change(
            Relation::EventDaily,
            daily_lines(run_id, &rows.daily),
            "event_daily",
            summary.event_daily_rows,
        ),
    );
    script.push(
        copy_change(
            Relation::EventDailyKind,
            daily_kind_lines(run_id, &rows.daily_kinds),
            "event_daily_kind",
            summary.event_daily_kind_rows,
        ),
    );
    script.push(
        copy_change(
            Relation::KindAllTime,
            kind_lines(run_id, &rows.kinds),
            "kind_all_time",
            summary.kind_all_time_rows,
        ),
    );
    if let Some(product) = products.identity {
        script.push(
            copy_change(
                Relation::NewUsersDaily,
                new_users_lines(run_id, &product.evidence.new_users_daily),
                "new_users_daily",
                sizes.new_users_daily_rows,
            ),
        );
    }
    if let Some(product) = products.activity {
        script.push(
            copy_change(
                Relation::DistinctPubkeysPeriod,
                distinct_lines(run_id, &product.evidence.distinct_pubkeys),
                "distinct_pubkeys_period",
                sizes.distinct_pubkeys_period_rows,
            ),
        );
        script.push(
            copy_change(
                Relation::ActiveUsersPeriod,
                active_lines(run_id, &product.evidence.active_users),
                "active_users_period",
                sizes.active_users_period_rows,
            ),
        );
    }
    if let Some(product) = products.cohort {
        script.push(
            copy_change(
                Relation::CohortRetentionPeriod,
                cohort_lines(run_id, &product.evidence.periods),
                "cohort_retention_period",
                sizes.cohort_retention_rows,
            ),
        );
    }
    assert(changes(script@) =~= table_asks(run_id@, *rows, *products));
    script
}

} // verus!
