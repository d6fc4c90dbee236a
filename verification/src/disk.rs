//! Disk space that a build asks for before it starts.

use vstd::prelude::*;

use crate::error::{checked_add, Error, Result};
use crate::text::text_equal;

verus! {

/// A file below the work root of a build.
#[derive(Clone, Debug, PartialEq, Eq)]
pub struct WorkFile {
    /// Extension of the name, if any.
    pub extension: Option<String>,
    /// Size in bytes.
    pub byte_size: u64,
}

/// Bytes that a build needs and leaves free.
#[derive(Clone, Copy, Debug, PartialEq, Eq, Structural)]
pub struct DiskBudget {
    /// Bytes that are still to be written.
    pub output_bytes: u64,
    /// Bytes that are freed again.
    pub temporary_bytes: u64,
    /// Bytes of runs that are kept from before.
    pub retained_bytes: u64,
    /// Bytes that stay free.
    pub reserve_bytes: u64,
}

/// The file holds a completed run; a build of leaves counts their streams too.
pub open spec fn is_completed_run(file: WorkFile, with_leaves: bool) -> bool {
    &&& file.extension is Some
    &&& file.extension->0@ == "run"@ || (with_leaves && file.extension->0@ == "leaves"@)
}

/// Bytes of the completed runs.
pub open spec fn run_bytes(files: Seq<WorkFile>, with_leaves: bool) -> int
    decreases files.len(),
{
    if files.len() == 0 {
        0
    } else {
        run_bytes(files.drop_last(), with_leaves) + if is_completed_run(
            files.last(),
            with_leaves,
        ) {
            files.last().byte_size as int
        } else {
            0
        }
    }
}

/// More files hold no fewer bytes.
proof fn lemma_run_bytes_grow(files: Seq<WorkFile>, with_leaves: bool, count: int)
    requires
        0 <= count <= files.len(),
    ensures
        0 <= run_bytes(files.take(count), with_leaves) <= run_bytes(files, with_leaves),
    decreases files.len(),
{
    if count == files.len() {
        assert(files.take(count) =~= files);
        if count > 0 {
            lemma_run_bytes_grow(files.drop_last(), with_leaves, 0);
            assert(files.drop_last().take(0) =~= Seq::empty());
        }
    } else {
        lemma_run_bytes_grow(files.drop_last(), with_leaves, count);
        assert(files.drop_last().take(count) =~= files.take(count));
    }
}

/// The bytes of the completed runs among the files below a work root.
pub fn completed_run_bytes(files: &Vec<WorkFile>, with_leaves: bool) -> (bytes: Result<u64>)
    ensures
        match bytes {
            Ok(total) => total == run_bytes(files@, with_leaves),
            Err(error) => run_bytes(files@, with_leaves) > u64::MAX && error == Error::Invalid(
                "completed run bytes overflowed",
            ),
        },
{
    let mut total: u64 = 0;
    let mut i: usize = 0;
    assert(files@.take(0) =~= Seq::empty());
    while i < files.len()
        invariant
            i <= files@.len(),
            total == run_bytes(files@.take(i as int), with_leaves),
        decreases files.len() - i,
    {
        let is_run: bool = match &files[i].extension {
            Some(extension) => text_equal(extension.as_str(), "run") || (with_leaves && text_equal(
                extension.as_str(),
                "leaves",
            )),
            None => false,
        };
        proof {
            assert(files@.take(i + 1).drop_last() =~= files@.take(i as int));
            lemma_run_bytes_grow(files@, with_leaves, i + 1);
        }
        if is_run {
            total =
            match checked_add(total, files[i].byte_size, "completed run bytes overflowed") {
                Ok(sum) => sum,
                Err(error) => {
                    return Err(error);
                },
            };
        }
        i += 1;
    }
    assert(files@.take(files@.len() as int) =~= files@);
    Ok(total)
}

/// The budget of a build that keeps the runs it has already.
pub open spec fn budget_of(bytes: u64, retained: u64, reserve: u64) -> DiskBudget {
    DiskBudget {
        output_bytes: if retained <= bytes {
            (bytes - retained) as u64
        } else {
            0
        },
        temporary_bytes: 0,
        retained_bytes: retained,
        reserve_bytes: reserve,
    }
}

/// The budget of a build that resumes: what is retained need not be written
/// again.
pub fn run_budget(estimated_bytes: u64, retained_bytes: u64, reserve_bytes: u64) -> (budget:
    DiskBudget)
    ensures
        budget == budget_of(estimated_bytes, retained_bytes, reserve_bytes),
{
    let output_bytes: u64 = if retained_bytes <= estimated_bytes {
        estimated_bytes - retained_bytes
    } else {
        0
    };
    DiskBudget { output_bytes, temporary_bytes: 0, retained_bytes, reserve_bytes }
}

} // verus!
