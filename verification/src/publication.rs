//! Rules that all publications share.

use vstd::prelude::*;
use vstd::string::*;

use crate::error::{from_i64, Error, Result};
use crate::text::text_equal;

verus! {

/// Check that the server counted the rows that were owed.
pub fn expect_copied(relation: &'static str, copied: u64, owed: u64) -> (outcome: Result<()>)
    ensures
        copied == owed ==> outcome == Ok::<(), Error>(()),
        copied != owed ==> outcome == Err::<(), Error>(
            Error::CopyCount { relation, copied, owed },
        ),
{
    if copied != owed {
        return Err(Error::CopyCount { relation, copied, owed });
    }
    Ok(())
}

/// One stored field, held against what is owed.
#[derive(Clone, Copy, Debug, PartialEq, Eq)]
pub enum FieldCheck {
    /// A text or a number that was compared already.
    Same(bool),
    /// A stored count.
    Count {
        /// Name of the count.
        field: &'static str,
        /// The stored value.
        stored: i64,
        /// The value that is owed.
        owed: u64,
    },
}

/// The stored field is the one that is owed.
pub open spec fn field_agrees(check: FieldCheck) -> bool {
    match check {
        FieldCheck::Same(same) => same,
        FieldCheck::Count { stored, owed, .. } => stored == owed,
    }
}

/// Every stored field is the one that is owed.
pub open spec fn all_agree(checks: Seq<FieldCheck>) -> bool {
    forall|i: int| 0 <= i < checks.len() ==> field_agrees(#[trigger] checks[i])
}

/// What is reported of a field that does not agree.
pub open spec fn field_error(check: FieldCheck, message: &'static str) -> Error {
    match check {
        FieldCheck::Same(_) => Error::Validation(message),
        FieldCheck::Count { field, stored, .. } => if stored < 0 {
            Error::NegativeLedgerValue { field, value: stored }
        } else {
            Error::Validation(message)
        },
    }
}

/// The outcome of looking at the fields in order: the first that does not agree
/// is reported.
pub open spec fn fields_outcome(checks: Seq<FieldCheck>, message: &'static str) -> Result<()>
    decreases checks.len(),
{
    if checks.len() == 0 {
        Ok(())
    } else if field_agrees(checks[0]) {
        fields_outcome(checks.skip(1), message)
    } else {
        Err(field_error(checks[0], message))
    }
}

/// Check that every stored field is the one that is owed.
pub fn reconcile_fields(checks: &[FieldCheck], message: &'static str) -> (outcome: Result<()>)
    ensures
        outcome == fields_outcome(checks@, message),
        outcome is Ok <==> all_agree(checks@),
{
    let mut i: usize = 0;
    assert(checks@.skip(0) =~= checks@);
    while i < checks.len()
        invariant
            i <= checks@.len(),
            forall|j: int| 0 <= j < i ==> field_agrees(#[trigger] checks@[j]),
            fields_outcome(checks@, message) == fields_outcome(checks@.skip(i as int), message),
        decreases checks@.len() - i,
    {
        let ghost rest = checks@.skip(i as int);
        assert(rest[0] == checks@[i as int]);
        assert(rest.skip(1) =~= checks@.skip(i + 1));
        match checks[i] {
            FieldCheck::Same(same) => {
                if !same {
                    assert(!field_agrees(checks@[i as int]));
                    return Err(Error::Validation(message));
                }
            },
            FieldCheck::Count { field, stored, owed } => {
                match from_i64(field, stored) {
                    Ok(found) => {
                        if found != owed {
                            assert(!field_agrees(checks@[i as int]));
                            return Err(Error::Validation(message));
                        }
                    },
                    Err(error) => {
                        assert(!field_agrees(checks@[i as int]));
                        return Err(error);
                    },
                }
            },
        }
        i += 1;
    }
    Ok(())
}

/// The outcome of looking at totals in order: a negative one is reported by its
/// field, any other that does not agree by the message.
pub open spec fn totals_outcome(checks: Seq<FieldCheck>, message: &'static str) -> Result<()> {
    match fields_outcome(checks, message) {
        Ok(_) => Ok(()),
        Err(Error::NegativeLedgerValue { field, .. }) => Err(Error::Validation(field)),
        Err(_) => Err(Error::Validation(message)),
    }
}

/// Check that every stored field is the one that is owed; a negative count is
/// reported as the others are.
pub fn reconcile_totals(checks: &[FieldCheck], message: &'static str) -> (outcome: Result<()>)
    ensures
        outcome is Ok <==> all_agree(checks@),
        outcome == totals_outcome(checks@, message),
        outcome is Err ==> outcome->Err_0 is Validation,
{
    match reconcile_fields(checks, message) {
        Ok(()) => Ok(()),
        Err(Error::NegativeLedgerValue { field, .. }) => Err(Error::Validation(field)),
        Err(_) => Err(Error::Validation(message)),
    }
}

/// A count and the column that it goes to.
#[derive(Clone, Copy, Debug, PartialEq, Eq)]
pub struct NamedCount {
    /// Name of the column.
    pub field: &'static str,
    /// The value.
    pub value: u64,
}

/// Every count fits a signed column.
pub open spec fn all_fit(counts: Seq<NamedCount>) -> bool {
    forall|i: int| 0 <= i < counts.len() ==> (#[trigger] counts[i]).value <= i64::MAX
}

/// What is reported of counts of which some do not fit: the first such count.
pub open spec fn columns_error(counts: Seq<NamedCount>) -> Error
    decreases counts.len(),
{
    if counts.len() > 0 && counts[0].value <= i64::MAX {
        columns_error(counts.skip(1))
    } else {
        Error::NumericOverflow { field: counts[0].field, value: counts[0].value }
    }
}

/// The counts as signed columns.
pub fn to_columns(counts: &[NamedCount]) -> (outcome: Result<Vec<i64>>)
    ensures
        outcome is Ok <==> all_fit(counts@),
        match outcome {
            Ok(columns) => {
                &&& columns@.len() == counts@.len()
                &&& forall|i: int|
                    0 <= i < counts@.len() ==> (#[trigger] columns@[i]) == counts@[i].value
            },
            Err(error) => error == columns_error(counts@) && error is NumericOverflow,
        },
{
    let mut columns: Vec<i64> = Vec::new();
    let mut i: usize = 0;
    assert(counts@.skip(0) =~= counts@);
    while i < counts.len()
        invariant
            i <= counts@.len(),
            columns@.len() == i,
            forall|j: int| 0 <= j < i ==> (#[trigger] counts@[j]).value <= i64::MAX,
            forall|j: int| 0 <= j < i ==> (#[trigger] columns@[j]) == counts@[j].value,
            columns_error(counts@) == columns_error(counts@.skip(i as int)),
        decreases counts@.len() - i,
    {
        assert(counts@.skip(i as int)[0] == counts@[i as int]);
        assert(counts@.skip(i as int).skip(1) =~= counts@.skip(i + 1));
        match crate::error::to_i64(counts[i].field, counts[i].value) {
            Ok(column) => {
                columns.push(column);
            },
            Err(error) => {
                assert(counts@[i as int].value > i64::MAX);
                return Err(error);
            },
        }
        i += 1;
    }
    Ok(columns)
}

/// The current run of the ledger.
#[derive(Clone, Debug, PartialEq, Eq)]
pub struct CurrentRun {
    /// Identifier of the run.
    pub run_id: String,
    /// Snapshot of the run.
    pub snapshot_id: String,
    /// Query version of the run.
    pub query_version: String,
    /// Boundary of the run, as stored.
    pub as_of_epoch: i64,
}

/// The current run is the given one, on the snapshot and boundary of a product.
pub open spec fn is_baseline(
    current: CurrentRun,
    run_id: Seq<char>,
    snapshot_id: Seq<char>,
    query_version: Seq<char>,
    as_of_epoch: u64,
) -> bool {
    &&& current.run_id@ == run_id
    &&& current.snapshot_id@ == snapshot_id
    &&& current.query_version@ == query_version
    &&& current.as_of_epoch == as_of_epoch
}

/// What is reported where the current run is not the baseline.
pub open spec fn baseline_error(
    current: CurrentRun,
    run_id: Seq<char>,
    snapshot_id: Seq<char>,
    query_version: Seq<char>,
    as_of_epoch: u64,
    field: &'static str,
    message: &'static str,
) -> Error {
    if current.run_id@ == run_id && current.snapshot_id@ == snapshot_id
        && current.query_version@ == query_version && as_of_epoch > i64::MAX {
        Error::NumericOverflow { field, value: as_of_epoch }
    } else {
        Error::Validation(message)
    }
}

/// Check that the current run is the baseline of a product.
pub fn check_baseline(
    current: &CurrentRun,
    run_id: &str,
    snapshot_id: &str,
    query_version: &str,
    as_of_epoch: u64,
    field: &'static str,
    message: &'static str,
) -> (outcome: Result<()>)
    ensures
        outcome is Ok <==> is_baseline(
            *current,
            run_id@,
            snapshot_id@,
            query_version@,
            as_of_epoch,
        ),
        outcome is Err ==> outcome->Err_0 == baseline_error(
            *current,
            run_id@,
            snapshot_id@,
            query_version@,
            as_of_epoch,
            field,
            message,
        ),
{
    if !text_equal(current.run_id.as_str(), run_id) || !text_equal(
        current.snapshot_id.as_str(),
        snapshot_id,
    ) || !text_equal(current.query_version.as_str(), query_version) {
        return Err(Error::Validation(message));
    }
    match crate::error::to_i64(field, as_of_epoch) {
        Ok(expected) => {
            if current.as_of_epoch != expected {
                return Err(Error::Validation(message));
            }
            Ok(())
        },
        Err(error) => Err(error),
    }
}

/// The current run against a baseline, field by field.
pub open spec fn run_fields(
    current: CurrentRun,
    run_id: Seq<char>,
    snapshot_id: Seq<char>,
    query_version: Seq<char>,
    as_of_epoch: u64,
    field: &'static str,
) -> Seq<FieldCheck> {
    seq![
        FieldCheck::Same(current.run_id@ == run_id),
        FieldCheck::Same(current.snapshot_id@ == snapshot_id),
        FieldCheck::Same(current.query_version@ == query_version),
        FieldCheck::Count { field, stored: current.as_of_epoch, owed: as_of_epoch },
    ]
}

/// Check that the current run is the baseline of a product; a negative stored
/// boundary is reported by its name.
pub fn check_run(
    current: &CurrentRun,
    run_id: &str,
    snapshot_id: &str,
    query_version: &str,
    as_of_epoch: u64,
    field: &'static str,
    message: &'static str,
) -> (outcome: Result<()>)
    ensures
        outcome is Ok <==> is_baseline(
            *current,
            run_id@,
            snapshot_id@,
            query_version@,
            as_of_epoch,
        ),
        outcome == fields_outcome(
            run_fields(*current, run_id@, snapshot_id@, query_version@, as_of_epoch, field),
            message,
        ),
{
    let checks: [FieldCheck; 4] = [
        FieldCheck::Same(text_equal(current.run_id.as_str(), run_id)),
        FieldCheck::Same(text_equal(current.snapshot_id.as_str(), snapshot_id)),
        FieldCheck::Same(text_equal(current.query_version.as_str(), query_version)),
        FieldCheck::Count { field, stored: current.as_of_epoch, owed: as_of_epoch },
    ];
    proof {
        let s = checks@;
        assert(s =~= run_fields(
            *current,
            run_id@,
            snapshot_id@,
            query_version@,
            as_of_epoch,
            field,
        ));
        assert(all_agree(s) ==> field_agrees(s[0]) && field_agrees(s[1]) && field_agrees(s[2])
            && field_agrees(s[3]));
    }
    reconcile_fields(checks.as_slice(), message)
}

} // verus!
