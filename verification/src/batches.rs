//! Progress of a build over its input batches.
//!
//! The batches of a build cover the locations of its snapshot in order. Every
//! batch becomes one sorted run.

use vstd::prelude::*;

use crate::artifact::InputBatch;
use crate::error::{checked_add, Error, Result};
use crate::merge::{larger, CompletedRun};

verus! {

/// What the batches so far have produced.
pub struct BatchProgress {
    /// Locations behind.
    pub offset: usize,
    /// Runs of the batches.
    pub runs: Vec<CompletedRun>,
    /// Checkpoints of the batches.
    pub checkpoints: Vec<String>,
    /// Rows that the batches read.
    pub physical_rows: u64,
    /// Rows that the batches suppressed.
    pub duplicate_rows: u64,
    /// Most input bytes of one batch.
    pub max_batch_bytes: u64,
    /// Most input rows of one batch.
    pub max_batch_rows: u64,
}

impl BatchProgress {
    /// Start with the runs that the build does not make itself.
    pub fn new(runs: Vec<CompletedRun>) -> (progress: Self)
        ensures
            progress.offset == 0,
            progress.runs@ == runs@,
            progress.checkpoints@ == Seq::<String>::empty(),
            progress.physical_rows == 0,
            progress.duplicate_rows == 0,
            progress.max_batch_bytes == 0,
            progress.max_batch_rows == 0,
    {
        BatchProgress {
            offset: 0,
            runs,
            checkpoints: Vec::new(),
            physical_rows: 0,
            duplicate_rows: 0,
            max_batch_bytes: 0,
            max_batch_rows: 0,
        }
    }

    /// End of the locations of the next batch.
    pub fn batch_end(&self, batch: &InputBatch, locations: usize) -> (end: Result<usize>)
        ensures
            self.offset + batch.inputs@.len() > usize::MAX ==> end == Err::<usize, Error>(
                Error::Invalid("batch offset overflowed"),
            ),
            locations < self.offset + batch.inputs@.len() <= usize::MAX ==> end == Err::<
                usize,
                Error,
            >(Error::Invalid("batch locations are incomplete")),
            self.offset + batch.inputs@.len() <= locations ==> end == Ok::<usize, Error>(
                (self.offset + batch.inputs@.len()) as usize,
            ),
    {
        match self.offset.checked_add(batch.inputs.len()) {
            None => Err(Error::Invalid("batch offset overflowed")),
            Some(end) => {
                if end > locations {
                    Err(Error::Invalid("batch locations are incomplete"))
                } else {
                    Ok(end)
                }
            },
        }
    }

    /// Take the run of the next batch, whose locations end at `end`.
    pub fn accept(
        &mut self,
        batch: &InputBatch,
        end: usize,
        run: CompletedRun,
        physical_rows: u64,
        duplicate_rows: u64,
    ) -> (outcome: Result<()>)
        ensures
            match outcome {
                Ok(_) => {
                    &&& final(self).offset == end
                    &&& final(self).runs@ == old(self).runs@.push(run)
                    &&& final(self).checkpoints@ == old(self).checkpoints@.push(
                        run.checkpoint_path,
                    )
                    &&& final(self).physical_rows == old(self).physical_rows + physical_rows
                    &&& final(self).duplicate_rows == old(self).duplicate_rows + duplicate_rows
                    &&& final(self).max_batch_bytes == larger(
                        old(self).max_batch_bytes as int,
                        batch.byte_size as int,
                    )
                    &&& final(self).max_batch_rows == larger(
                        old(self).max_batch_rows as int,
                        batch.row_count as int,
                    )
                },
                Err(error) => {
                    &&& *final(self) == *old(self)
                    &&& {
                        ||| old(self).physical_rows + physical_rows > u64::MAX && error
                            == Error::Invalid("batch physical rows overflowed")
                        ||| old(self).physical_rows + physical_rows <= u64::MAX
                            && old(self).duplicate_rows + duplicate_rows > u64::MAX && error
                            == Error::Invalid("batch duplicate rows overflowed")
                    }
                },
            },
    {
        let physical: u64 = match checked_add(
            self.physical_rows,
            physical_rows,
            "batch physical rows overflowed",
        ) {
            Ok(total) => total,
            Err(error) => {
                return Err(error);
            },
        };
        let duplicates: u64 = match checked_add(
            self.duplicate_rows,
            duplicate_rows,
            "batch duplicate rows overflowed",
        ) {
            Ok(total) => total,
            Err(error) => {
                return Err(error);
            },
        };
        self.physical_rows = physical;
        self.duplicate_rows = duplicates;
        if batch.byte_size > self.max_batch_bytes {
            self.max_batch_bytes = batch.byte_size;
        }
        if batch.row_count > self.max_batch_rows {
            self.max_batch_rows = batch.row_count;
        }
        self.checkpoints.push(run.checkpoint_path.clone());
        self.runs.push(run);
        self.offset = end;
        Ok(())
    }

    /// Check that the batches consumed every location.
    pub fn check_complete(&self, locations: usize) -> (outcome: Result<()>)
        ensures
            self.offset == locations ==> outcome is Ok,
            self.offset != locations ==> outcome == Err::<(), Error>(
                Error::Invalid("batches did not consume all locations"),
            ),
    {
        if self.offset != locations {
            Err(Error::Invalid("batches did not consume all locations"))
        } else {
            Ok(())
        }
    }
}

/// The duplicates of all stages account for the rows that are gone.
pub open spec fn reconciles(physical: u64, logical: u64, batches: u64, merges: u64) -> bool {
    logical + batches + merges == physical
}

/// Rows that batches and merges suppressed together, where they account for
/// the difference between physical and logical rows.
pub fn reconcile_duplicates(physical: u64, logical: u64, batches: u64, merges: u64) -> (duplicates:
    Result<u64>)
    ensures
        match duplicates {
            Ok(rows) => reconciles(physical, logical, batches, merges) && rows == physical
                - logical,
            Err(error) => {
                &&& !reconciles(physical, logical, batches, merges)
                &&& if logical > physical {
                    error == Error::Invalid("logical rows exceed physical rows")
                } else if batches + merges > u64::MAX {
                    error == Error::Invalid("duplicate reconciliation overflowed")
                } else {
                    error == Error::Invalid("batch and merge duplicates do not reconcile")
                }
            },
        },
{
    match physical.checked_sub(logical) {
        None => Err(Error::Invalid("logical rows exceed physical rows")),
        Some(rows) => match checked_add(batches, merges, "duplicate reconciliation overflowed") {
            Err(error) => Err(error),
            Ok(total) => {
                if total != rows {
                    Err(Error::Invalid("batch and merge duplicates do not reconcile"))
                } else {
                    Ok(rows)
                }
            },
        },
    }
}

/// Rows that a content batch suppressed.
pub fn batch_duplicates(physical_rows: u64, kept_rows: u64) -> (rows: Result<u64>)
    ensures
        kept_rows <= physical_rows ==> rows == Ok::<u64, Error>((physical_rows - kept_rows) as u64),
        kept_rows > physical_rows ==> rows == Err::<u64, Error>(
            Error::Invalid("content batch output exceeds physical rows"),
        ),
{
    match physical_rows.checked_sub(kept_rows) {
        Some(rows) => Ok(rows),
        None => Err(Error::Invalid("content batch output exceeds physical rows")),
    }
}

} // verus!
