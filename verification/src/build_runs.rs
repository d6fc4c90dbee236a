//! The runs of a build: one for each batch, merged into one.
//!
//! A build reserves disk space, makes a run of every batch of its inputs, and
//! merges the runs. What a batch reads and what a merge writes is outside: the
//! build is handed the functions that do it.

use vstd::prelude::*;

use crate::artifact::{BatchLimits, InputBatch, InputIdentity};
use crate::batches::{batch_duplicates, BatchProgress};
use crate::disk::DiskBudget;
use crate::error::{Error, Result};
use crate::merge::{larger, merge_to_single, merges_outcome, CompletedRun, MergeOutcome};

verus! {

/// The run of a batch.
pub struct BatchRun {
    /// The run.
    pub run: CompletedRun,
    /// Rows that the batch read.
    pub physical_rows: u64,
    /// Rows that the batch suppressed.
    pub duplicate_rows: u64,
}

/// Runs that are merged, as far as they can be counted.
pub open spec fn run_count(batches: int, first: int) -> int {
    if batches + first <= usize::MAX {
        batches + first
    } else {
        usize::MAX as int
    }
}

/// Inputs of the first `n` batches.
pub open spec fn inputs_before(batches: Seq<InputBatch>, n: int) -> int
    decreases n,
{
    if n <= 0 {
        0
    } else {
        inputs_before(batches, n - 1) + batches[n - 1].inputs@.len()
    }
}

/// Rows that the first `n` batches read.
pub open spec fn physical_before(built: Seq<BatchRun>, n: int) -> int
    decreases n,
{
    if n <= 0 {
        0
    } else {
        physical_before(built, n - 1) + built[n - 1].physical_rows
    }
}

/// Rows that the first `n` batches suppressed.
pub open spec fn duplicates_before(built: Seq<BatchRun>, n: int) -> int
    decreases n,
{
    if n <= 0 {
        0
    } else {
        duplicates_before(built, n - 1) + built[n - 1].duplicate_rows
    }
}

/// Most input bytes of one of the first `n` batches.
pub open spec fn largest_bytes(batches: Seq<InputBatch>, n: int) -> int
    decreases n,
{
    if n <= 0 {
        0
    } else {
        larger(largest_bytes(batches, n - 1), batches[n - 1].byte_size as int)
    }
}

/// Most input rows of one of the first `n` batches.
pub open spec fn largest_rows(batches: Seq<InputBatch>, n: int) -> int
    decreases n,
{
    if n <= 0 {
        0
    } else {
        larger(largest_rows(batches, n - 1), batches[n - 1].row_count as int)
    }
}

/// The run of a batch that keeps one row of every input row it read, and
/// suppresses the others.
pub open spec fn counted(batch: InputBatch, made: BatchRun) -> BatchRun {
    BatchRun {
        run: made.run,
        physical_rows: batch.row_count,
        duplicate_rows: (batch.row_count - made.run.checkpoint.artifact.row_count) as u64,
    }
}

/// `outcome` is one of the batch with the number `i`, whose locations follow
/// those of the batches before.
pub open spec fn batch_gives<B: Fn(&InputBatch, usize, usize) -> Result<BatchRun>>(
    build: B,
    batches: Seq<InputBatch>,
    i: int,
    outcome: Result<BatchRun>,
) -> bool {
    call_ensures(
        build,
        (
            &batches[i],
            inputs_before(batches, i) as usize,
            inputs_before(batches, i + 1) as usize,
        ),
        outcome,
    )
}

/// `built` is the run of the batch with the number `i`.
///
/// Where `derived` holds, the rows that it suppresses follow from its inputs.
pub open spec fn builds_batch<B: Fn(&InputBatch, usize, usize) -> Result<BatchRun>>(
    build: B,
    derived: bool,
    batches: Seq<InputBatch>,
    i: int,
    built: BatchRun,
) -> bool {
    if derived {
        exists|made: BatchRun| #[trigger]
            batch_gives(build, batches, i, Ok(made)) && built == counted(batches[i], made)
                && made.run.checkpoint.artifact.row_count <= batches[i].row_count
    } else {
        batch_gives(build, batches, i, Ok(built))
    }
}

/// `built` are runs of the first batches.
pub open spec fn builds_batches<B: Fn(&InputBatch, usize, usize) -> Result<BatchRun>>(
    build: B,
    derived: bool,
    batches: Seq<InputBatch>,
    built: Seq<BatchRun>,
) -> bool {
    &&& built.len() <= batches.len()
    &&& forall|i: int|
        0 <= i < built.len() ==> builds_batch(build, derived, batches, i, #[trigger] built[i])
}

/// What the runs of the batches add up to, behind `first`.
pub open spec fn sums_batches(
    progress: BatchProgress,
    first: Seq<CompletedRun>,
    batches: Seq<InputBatch>,
    built: Seq<BatchRun>,
) -> bool {
    let n = built.len() as int;
    &&& progress.offset == inputs_before(batches, n)
    &&& progress.runs@ == first + Seq::new(n as nat, |i: int| built[i].run)
    &&& progress.checkpoints@ == Seq::new(n as nat, |i: int| built[i].run.checkpoint_path)
    &&& progress.physical_rows == physical_before(built, n)
    &&& progress.duplicate_rows == duplicates_before(built, n)
    &&& progress.max_batch_bytes == largest_bytes(batches, n)
    &&& progress.max_batch_rows == largest_rows(batches, n)
}

/// The batch with the number `i` fails, or its run has more rows than it read.
pub open spec fn next_batch_fails<B: Fn(&InputBatch, usize, usize) -> Result<BatchRun>>(
    build: B,
    derived: bool,
    batches: Seq<InputBatch>,
    i: int,
    error: Error,
) -> bool {
    &&& 0 <= i < batches.len()
    &&& {
        ||| batch_gives(build, batches, i, Err(error))
        ||| derived && error is Invalid && exists|made: BatchRun| #[trigger]
            batch_gives(build, batches, i, Ok(made)) && made.run.checkpoint.artifact.row_count
                > batches[i].row_count
    }
}

/// What running the batches of a build comes to.
pub open spec fn batches_outcome<B: Fn(&InputBatch, usize, usize) -> Result<BatchRun>>(
    build: B,
    derived: bool,
    first: Seq<CompletedRun>,
    batches: Seq<InputBatch>,
    locations: int,
    outcome: Result<BatchProgress>,
) -> bool {
    match outcome {
        Ok(progress) => {
            &&& inputs_before(batches, batches.len() as int) == locations
            &&& exists|built: Seq<BatchRun>| #[trigger]
                builds_batches(build, derived, batches, built) && built.len() == batches.len()
                    && sums_batches(progress, first, batches, built)
        },
        Err(error) => {
            ||| error is Invalid && inputs_before(batches, batches.len() as int) != locations
            ||| exists|built: Seq<BatchRun>| #[trigger]
                builds_batches(build, derived, batches, built) && next_batch_fails(
                    build,
                    derived,
                    batches,
                    built.len() as int,
                    error,
                )
            ||| error is Invalid && exists|built: Seq<BatchRun>| #[trigger]
                builds_batches(build, derived, batches, built) && (physical_before(
                    built,
                    built.len() as int,
                ) > u64::MAX || duplicates_before(built, built.len() as int) > u64::MAX)
        },
    }
}

/// More batches have more inputs.
pub proof fn lemma_inputs_grow(batches: Seq<InputBatch>, a: int, b: int)
    requires
        a <= b,
    ensures
        inputs_before(batches, a) <= inputs_before(batches, b),
        0 <= inputs_before(batches, a),
    decreases b - a, b,
{
    if a < b {
        lemma_inputs_grow(batches, a, b - 1);
    } else if b > 0 {
        lemma_inputs_grow(batches, a - 1, b - 1);
    }
}

/// One more run keeps the sums of the runs before.
proof fn lemma_sums_prefix(built: Seq<BatchRun>, more: Seq<BatchRun>, n: int)
    requires
        n <= built.len() <= more.len(),
        forall|i: int| 0 <= i < built.len() ==> more[i] == built[i],
    ensures
        physical_before(more, n) == physical_before(built, n),
        duplicates_before(more, n) == duplicates_before(built, n),
    decreases n,
{
    if n > 0 {
        lemma_sums_prefix(built, more, n - 1);
    }
}

/// Make a run of every batch, behind the runs that the build starts with.
///
/// `build` takes a batch and the range of its locations. Where `derived` holds,
/// the rows that a batch suppresses are those of its inputs that its run lacks.
pub fn run_batches<B: Fn(&InputBatch, usize, usize) -> Result<BatchRun>>(
    first: Vec<CompletedRun>,
    batches: &Vec<InputBatch>,
    locations: usize,
    derived: bool,
    build: &B,
) -> (outcome: Result<BatchProgress>)
    requires
        forall|batch: &InputBatch, start: usize, end: usize| #[trigger]
            call_requires(*build, (batch, start, end)),
    ensures
        batches_outcome(*build, derived, first@, batches@, locations as int, outcome),
{
    let ghost runs = first@;
    let ghost mut built: Seq<BatchRun> = Seq::empty();
    let mut progress: BatchProgress = BatchProgress::new(first);
    let mut i: usize = 0;
    proof {
        assert(progress.runs@ =~= runs + Seq::new(built.len(), |i: int| built[i].run));
        assert(progress.checkpoints@ =~= Seq::new(
            built.len(),
            |i: int| built[i].run.checkpoint_path,
        ));
    }
    while i < batches.len()
        invariant
            i <= batches@.len(),
            runs == first@,
            forall|batch: &InputBatch, start: usize, end: usize| #[trigger]
                call_requires(*build, (batch, start, end)),
            built.len() == i,
            builds_batches(*build, derived, batches@, built),
            sums_batches(progress, runs, batches@, built),
            progress.offset <= locations,
        decreases batches.len() - i,
    {
        let batch: &InputBatch = &batches[i];
        proof {
            lemma_inputs_grow(batches@, i + 1, batches@.len() as int);
            lemma_inputs_grow(batches@, i as int, i + 1);
        }
        let start: usize = progress.offset;
        let end: usize = match progress.batch_end(batch, locations) {
            Ok(end) => end,
            Err(error) => {
                return Err(error);
            },
        };
        let mut made: BatchRun = match build(batch, start, end) {
            Ok(made) => made,
            Err(error) => {
                assert(batch_gives(*build, batches@, i as int, Err(error)));
                return Err(error);
            },
        };
        let ghost given = made;
        assert(batch_gives(*build, batches@, i as int, Ok(given)));
        if derived {
            match batch_duplicates(batch.row_count, made.run.checkpoint.artifact.row_count) {
                Ok(rows) => {
                    made.physical_rows = batch.row_count;
                    made.duplicate_rows = rows;
                },
                Err(error) => {
                    return Err(error);
                },
            }
            assert(made == counted(batches@[i as int], given));
        }
        let ghost more = built.push(made);
        proof {
            lemma_sums_prefix(built, more, i as int);
            assert(builds_batch(*build, derived, batches@, i as int, made));
            assert forall|j: int| 0 <= j < more.len() implies builds_batch(
                *build,
                derived,
                batches@,
                j,
                #[trigger] more[j],
            ) by {
                if j < i {
                    assert(more[j] == built[j]);
                }
            }
            assert(builds_batches(*build, derived, batches@, more));
        }
        match progress.accept(batch, end, made.run, made.physical_rows, made.duplicate_rows) {
            Ok(()) => {},
            Err(error) => {
                return Err(error);
            },
        }
        proof {
            assert(progress.runs@ =~= runs + Seq::new(more.len(), |i: int| more[i].run));
            assert(progress.checkpoints@ =~= Seq::new(
                more.len(),
                |i: int| more[i].run.checkpoint_path,
            ));
            built = more;
        }
        i += 1;
    }
    match progress.check_complete(locations) {
        Ok(()) => Ok(progress),
        Err(error) => Err(error),
    }
}

/// The functions that a build is handed.
pub struct BuildSteps<'a, L, P, B, E, M> {
    /// Cuts inputs into batches.
    pub plan: &'a L,
    /// Reserves disk space.
    pub reserve: &'a P,
    /// Makes the run of a batch from the range of its locations.
    pub build: &'a B,
    /// Makes the empty run of a build without batches.
    pub empty: &'a E,
    /// Merges a group of a round.
    pub merge: &'a M,
}

/// The steps may be called on everything.
pub open spec fn steps_callable<
    L: Fn(&Vec<InputIdentity>, BatchLimits) -> Result<Vec<InputBatch>>,
    P: Fn(DiskBudget) -> Result<()>,
    B: Fn(&InputBatch, usize, usize) -> Result<BatchRun>,
    E: Fn() -> Result<CompletedRun>,
    M: Fn(u32, usize, &[CompletedRun]) -> Result<(CompletedRun, usize)>,
>(steps: BuildSteps<L, P, B, E, M>) -> bool {
    &&& forall|inputs: &Vec<InputIdentity>, limits: BatchLimits| #[trigger]
        call_requires(*steps.plan, (inputs, limits))
    &&& forall|budget: DiskBudget| #[trigger] call_requires(*steps.reserve, (budget,))
    &&& forall|batch: &InputBatch, start: usize, end: usize| #[trigger]
        call_requires(*steps.build, (batch, start, end))
    &&& call_requires(*steps.empty, ())
    &&& forall|round: u32, group: usize, given: &[CompletedRun]| #[trigger]
        call_requires(*steps.merge, (round, group, given))
}

/// `planned` is a plan of the inputs in batches.
pub open spec fn plan_gives<
    L: Fn(&Vec<InputIdentity>, BatchLimits) -> Result<Vec<InputBatch>>,
>(
    plan: L,
    inputs: Seq<InputIdentity>,
    limits: BatchLimits,
    planned: Result<Vec<InputBatch>>,
) -> bool {
    exists|given: &Vec<InputIdentity>|
        given@ == inputs && #[trigger] call_ensures(plan, (given, limits), planned)
}

/// How a build counts and merges its runs.
pub struct MergeSettings {
    /// Most runs of one merge.
    pub fan_in: usize,
    /// Width of a record.
    pub width: usize,
    /// Whether the build counts the rows that merges suppress.
    pub reconcile: bool,
    /// Whether the rows that a batch suppresses follow from its inputs.
    pub derived: bool,
}

/// The runs that are merged: those of the batches, or an empty one.
pub open spec fn starts_with<E: Fn() -> Result<CompletedRun>>(
    empty: E,
    runs: Seq<CompletedRun>,
    started: Result<Seq<CompletedRun>>,
) -> bool {
    if runs.len() > 0 {
        started == Ok::<Seq<CompletedRun>, Error>(runs)
    } else {
        exists|made: Result<CompletedRun>| #[trigger]
            call_ensures(empty, (), made) && started == match made {
                Ok(run) => Ok::<Seq<CompletedRun>, Error>(seq![run]),
                Err(error) => Err(error),
            }
    }
}

/// The totals of two builds are the same.
pub open spec fn same_totals(a: BatchProgress, b: BatchProgress) -> bool {
    &&& a.offset == b.offset
    &&& a.checkpoints@ == b.checkpoints@
    &&& a.physical_rows == b.physical_rows
    &&& a.duplicate_rows == b.duplicate_rows
    &&& a.max_batch_bytes == b.max_batch_bytes
    &&& a.max_batch_rows == b.max_batch_rows
}

/// What merging the runs of the batches comes to.
pub open spec fn merged_outcome<
    E: Fn() -> Result<CompletedRun>,
    M: Fn(u32, usize, &[CompletedRun]) -> Result<(CompletedRun, usize)>,
>(
    empty: E,
    merge: M,
    progress: BatchProgress,
    settings: MergeSettings,
    outcome: Result<(BatchProgress, MergeOutcome)>,
) -> bool {
    exists|started: Result<Seq<CompletedRun>>| #[trigger]
        starts_with(empty, progress.runs@, started) && match started {
            Err(error) => outcome == Err::<(BatchProgress, MergeOutcome), Error>(error),
            Ok(runs) => match outcome {
                Err(error) => merges_outcome(
                    merge,
                    runs,
                    settings.fan_in as int,
                    settings.width as int,
                    settings.reconcile,
                    Err(error),
                ),
                Ok((totals, done)) => same_totals(totals, progress) && merges_outcome(
                    merge,
                    runs,
                    settings.fan_in as int,
                    settings.width as int,
                    settings.reconcile,
                    Ok(done),
                ),
            },
        }
}

/// What the runs of a build come to.
pub open spec fn runs_outcome<
    L: Fn(&Vec<InputIdentity>, BatchLimits) -> Result<Vec<InputBatch>>,
    P: Fn(DiskBudget) -> Result<()>,
    B: Fn(&InputBatch, usize, usize) -> Result<BatchRun>,
    E: Fn() -> Result<CompletedRun>,
    M: Fn(u32, usize, &[CompletedRun]) -> Result<(CompletedRun, usize)>,
>(
    steps: BuildSteps<L, P, B, E, M>,
    budget: DiskBudget,
    first: Seq<CompletedRun>,
    batches: Seq<InputBatch>,
    locations: int,
    settings: MergeSettings,
    outcome: Result<(BatchProgress, MergeOutcome)>,
) -> bool {
    ||| outcome is Err && call_ensures(*steps.reserve, (budget,), Err(outcome->Err_0))
    ||| call_ensures(*steps.reserve, (budget,), Ok(())) && exists|batched: Result<BatchProgress>|
        #[trigger]
        batches_outcome(*steps.build, settings.derived, first, batches, locations, batched) && match batched {
            Err(error) => outcome == Err::<(BatchProgress, MergeOutcome), Error>(error),
            Ok(progress) => merged_outcome(
                *steps.empty,
                *steps.merge,
                progress,
                settings,
                outcome,
            ),
        }
}

/// Reserve disk space, make a run of every batch behind the runs that the build
/// starts with, and merge all of them into one.
///
/// The totals that come back hold no runs.
pub fn build_runs<
    L: Fn(&Vec<InputIdentity>, BatchLimits) -> Result<Vec<InputBatch>>,
    P: Fn(DiskBudget) -> Result<()>,
    B: Fn(&InputBatch, usize, usize) -> Result<BatchRun>,
    E: Fn() -> Result<CompletedRun>,
    M: Fn(u32, usize, &[CompletedRun]) -> Result<(CompletedRun, usize)>,
>(
    steps: &BuildSteps<L, P, B, E, M>,
    budget: DiskBudget,
    first: Vec<CompletedRun>,
    batches: &Vec<InputBatch>,
    locations: usize,
    settings: MergeSettings,
) -> (outcome: Result<(BatchProgress, MergeOutcome)>)
    requires
        2 <= settings.fan_in,
        0 < settings.width,
        steps_callable(*steps),
    ensures
        runs_outcome(
            *steps,
            budget,
            first@,
            batches@,
            locations as int,
            settings,
            outcome,
        ),
{
    let reserve: &P = steps.reserve;
    match reserve(budget) {
        Ok(done) => {
            assert(done == ());
            assert(call_ensures(*steps.reserve, (budget,), Ok(())));
        },
        Err(error) => {
            return Err(error);
        },
    }
    let batched: Result<BatchProgress> = run_batches(
        first,
        batches,
        locations,
        settings.derived,
        steps.build,
    );
    let mut progress: BatchProgress = match batched {
        Ok(progress) => progress,
        Err(error) => {
            assert(batches_outcome(
                *steps.build,
                settings.derived,
                first@,
                batches@,
                locations as int,
                Err(error),
            ));
            return Err(error);
        },
    };
    let ghost whole = progress;
    let mut runs: Vec<CompletedRun> = Vec::new();
    core::mem::swap(&mut runs, &mut progress.runs);
    proof {
        assert(batches_outcome(
            *steps.build,
            settings.derived,
            first@,
            batches@,
            locations as int,
            Ok(whole),
        ));
        assert(runs@ == whole.runs@);
        assert(same_totals(progress, whole));
    }
    if runs.len() == 0 {
        let empty: &E = steps.empty;
        match empty() {
            Ok(run) => {
                let ghost only = run;
                runs.push(run);
                assert(runs@ =~= seq![only]);
                assert(starts_with(*steps.empty, whole.runs@, Ok(runs@)));
            },
            Err(error) => {
                assert(starts_with(*steps.empty, whole.runs@, Err(error)));
                return Err(error);
            },
        }
    } else {
        assert(starts_with(*steps.empty, whole.runs@, Ok(runs@)));
    }
    match merge_to_single(
        runs,
        settings.fan_in,
        settings.width,
        settings.reconcile,
        steps.merge,
    ) {
        Ok(done) => {
            let built: (BatchProgress, MergeOutcome) = (progress, done);
            assert(merged_outcome(*steps.empty, *steps.merge, whole, settings, Ok(built)));
            Ok(built)
        },
        Err(error) => {
            assert(merged_outcome(*steps.empty, *steps.merge, whole, settings, Err(error)));
            Err(error)
        },
    }
}

} // verus!
