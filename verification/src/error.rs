//! The errors of the analytics products.

use vstd::prelude::*;

verus! {

/// Why an operation of the library was refused.
#[derive(Clone, Debug, PartialEq, Eq)]
#[allow(inconsistent_fields)]
pub enum Error {
    /// Published or candidate state breaks a publication rule.
    Validation(&'static str),
    /// Bounded execution state, configuration or evidence is unusable.
    Invalid(&'static str),
    /// The named unsigned value does not fit a signed column.
    NumericOverflow {
        /// Column or counter.
        field: &'static str,
        /// The value.
        value: u64,
    },
    /// The named stored count is negative.
    NegativeLedgerValue {
        /// Column or counter.
        field: &'static str,
        /// The value.
        value: i64,
    },
    /// `COPY` stored another number of rows than were written.
    CopyCount {
        /// The relation that was filled.
        relation: &'static str,
        /// Rows that the server counted.
        copied: u64,
        /// Rows that were owed.
        owed: u64,
    },
    /// A committed object kept its key and changed its bytes.
    ImmutableObjectChanged {
        /// Key of the object.
        object_key: String,
        /// Digest at the baseline.
        previous_sha256: String,
        /// Digest in the selected catalog.
        selected_sha256: String,
    },
    /// The named total of a plan left the range of its type.
    PlanOverflow(&'static str),
    /// A catalog timestamp is not an unsigned integer.
    InvalidLedgerTimestamp(String),
    /// The plan cannot drive an incremental update.
    InvalidIncrementalPlan(&'static str),
    /// The given number of delta events differ from their stored copies.
    ConflictingDeltaEvents(u64),
    /// The checkpoint belongs to another snapshot.
    CheckpointSnapshotMismatch {
        /// Snapshot of the checkpoint.
        checkpoint: String,
        /// Snapshot that the plan starts from.
        planned: String,
    },
    /// The store identity does not name an S3 namespace.
    UnsupportedStoreId(String),
    /// No file is at the path of a staged object.
    MissingLocalObject(String),
    /// The run was superseded.
    StalePublishedRun(String),
    /// The current run is not the one that the build started from.
    PublicationBaselineChanged {
        /// Run that the build started from.
        expected: Option<String>,
        /// Run that is current.
        actual: Option<String>,
    },
}

/// Result of a library operation.
pub type Result<T> = core::result::Result<T, Error>;

/// `left + right`, or an error with the message.
pub fn checked_add(left: u64, right: u64, message: &'static str) -> (sum: Result<u64>)
    ensures
        left + right <= u64::MAX ==> sum == Ok::<u64, Error>((left + right) as u64),
        left + right > u64::MAX ==> sum == Err::<u64, Error>(Error::Invalid(message)),
{
    match left.checked_add(right) {
        Some(sum) => Ok(sum),
        None => Err(Error::Invalid(message)),
    }
}

/// `left * right`, or an error with the message.
pub fn checked_mul(left: u64, right: u64, message: &'static str) -> (product: Result<u64>)
    ensures
        left * right <= u64::MAX ==> product == Ok::<u64, Error>((left * right) as u64),
        left * right > u64::MAX ==> product == Err::<u64, Error>(Error::Invalid(message)),
{
    match left.checked_mul(right) {
        Some(product) => Ok(product),
        None => Err(Error::Invalid(message)),
    }
}

/// `left * right`, or the largest count where it leaves the `u64` range.
pub fn saturating_product(left: u64, right: u64) -> (product: u64)
    ensures
        left * right <= u64::MAX ==> product == left * right,
        left * right > u64::MAX ==> product == u64::MAX,
{
    match left.checked_mul(right) {
        Some(product) => product,
        None => u64::MAX,
    }
}

/// `value` as a signed column value.
pub fn to_i64(field: &'static str, value: u64) -> (column: Result<i64>)
    ensures
        value <= i64::MAX ==> column == Ok::<i64, Error>(value as i64),
        value > i64::MAX ==> column == Err::<i64, Error>(Error::NumericOverflow { field, value }),
{
    if value <= i64::MAX as u64 {
        Ok(value as i64)
    } else {
        Err(Error::NumericOverflow { field, value })
    }
}

/// A signed column value as a count.
pub fn from_i64(field: &'static str, value: i64) -> (count: Result<u64>)
    ensures
        value >= 0 ==> count == Ok::<u64, Error>(value as u64),
        value < 0 ==> count == Err::<u64, Error>(Error::NegativeLedgerValue { field, value }),
{
    if value >= 0 {
        Ok(value as u64)
    } else {
        Err(Error::NegativeLedgerValue { field, value })
    }
}

} // verus!
