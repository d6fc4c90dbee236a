//! Planning and accounting of streaming merges.
//!
//! Sorted runs are merged in rounds. A round cuts the runs into groups of at
//! most `fan_in` neighbours; a group of two or more becomes one run, and a
//! single run passes on to the next round. Merging ends with one run.

use vstd::arithmetic::power2::pow2;
use vstd::prelude::*;
use vstd::slice::slice_subrange;

use crate::artifact::{MergeStats, RunCheckpoint};
use crate::error::{checked_add, Error, Result};

verus! {

/// A run with its checkpoint.
#[derive(Clone, Debug, PartialEq, Eq)]
pub struct CompletedRun {
    /// Name of the run as an input.
    pub identity: String,
    /// Location of the records.
    pub path: String,
    /// Location of the checkpoint.
    pub checkpoint_path: String,
    /// The checkpoint.
    pub checkpoint: RunCheckpoint,
}

/// `a / b`, rounded up.
pub open spec fn div_up(a: int, b: int) -> int {
    if a % b == 0 {
        a / b
    } else {
        a / b + 1
    }
}

/// How often a row is written while `runs` runs are merged into one: once for
/// the initial run and once for each round.
pub open spec fn generations(runs: int, fan_in: int) -> nat
    decreases runs,
{
    if runs <= 1 || fan_in < 2 {
        1
    } else if div_up(runs, fan_in) < runs {
        1 + generations(div_up(runs, fan_in), fan_in)
    } else {
        1
    }
}

/// A round leaves fewer runs, and at most half of them, rounded up.
pub proof fn lemma_round_shrinks(runs: int, fan_in: int)
    requires
        2 <= runs,
        2 <= fan_in,
    ensures
        1 <= div_up(runs, fan_in) < runs,
        2 * div_up(runs, fan_in) <= runs + 1,
{
    assert(runs / fan_in <= runs / 2 && 0 <= runs / fan_in) by (nonlinear_arith)
        requires
            2 <= runs,
            2 <= fan_in,
    ;
    let q = runs / fan_in;
    let r = runs % fan_in;
    assert(runs == fan_in * q + r && 0 <= r < fan_in) by {
        vstd::arithmetic::div_mod::lemma_fundamental_div_mod(runs, fan_in);
        vstd::arithmetic::div_mod::lemma_mod_bound(runs, fan_in);
    }
    assert(fan_in * q >= 2 * q) by (nonlinear_arith)
        requires
            fan_in >= 2,
            q >= 0,
    ;
    if q == 0 {
        assert(fan_in * q == 0) by (nonlinear_arith)
            requires
                q == 0,
        ;
    }
}

/// The number of generations is at most one more than the binary logarithm of
/// the number of runs.
pub proof fn lemma_generations_bound(runs: int, fan_in: int, k: nat)
    requires
        runs <= pow2(k),
        2 <= fan_in,
    ensures
        1 <= generations(runs, fan_in) <= k + 1,
    decreases k,
{
    if runs > 1 {
        vstd::arithmetic::power2::lemma2_to64();
        if k == 0 {
            assert(false);
        }
        vstd::arithmetic::power2::lemma_pow2_unfold(k);
        lemma_round_shrinks(runs, fan_in);
        lemma_generations_bound(div_up(runs, fan_in), fan_in, (k - 1) as nat);
    }
}

/// Runs of any machine count take at most 65 generations.
pub proof fn lemma_machine_generations(runs: usize, fan_in: int)
    requires
        2 <= fan_in,
    ensures
        1 <= generations(runs as int, fan_in) <= 65,
{
    vstd::arithmetic::power2::lemma2_to64();
    assert(runs <= 0xffff_ffff_ffff_ffff);
    assert(pow2(64) == 0x1_0000_0000_0000_0000);
    lemma_generations_bound(runs as int, fan_in, 64);
}

/// `a / b`, rounded up.
fn divide_up(a: usize, b: usize) -> (q: usize)
    requires
        0 < b,
    ensures
        q == div_up(a as int, b as int),
{
    proof {
        let x = a as int;
        let y = b as int;
        assert(0 <= x / y <= x) by (nonlinear_arith)
            requires
                0 <= x,
                0 < y,
        ;
        if x % y != 0 {
            assert(x / y < x) by (nonlinear_arith)
                requires
                    0 <= x,
                    0 < y,
                    x % y != 0,
            ;
        }
    }
    if a % b == 0 {
        a / b
    } else {
        a / b + 1
    }
}

/// How often a row is written while `runs` runs are merged into one.
pub fn merge_generations(runs: usize, fan_in: usize) -> (count: u64)
    requires
        2 <= fan_in,
    ensures
        count == generations(runs as int, fan_in as int),
        1 <= count <= 65,
{
    let mut left: usize = runs;
    let mut count: u64 = 1;
    let ghost total = generations(runs as int, fan_in as int);
    proof {
        lemma_machine_generations(runs, fan_in as int);
    }
    while left > 1
        invariant
            2 <= fan_in,
            count + generations(left as int, fan_in as int) == total + 1,
            total <= 65,
            1 <= count,
        decreases left,
    {
        proof {
            lemma_round_shrinks(left as int, fan_in as int);
            lemma_machine_generations(left, fan_in as int);
            lemma_machine_generations(
                div_up(left as int, fan_in as int) as usize,
                fan_in as int,
            );
        }
        left = divide_up(left, fan_in);
        count = count + 1;
    }
    count
}

/// Bytes that all generations of a merge write.
pub open spec fn merge_bytes(rows: int, width: int, runs: int, fan_in: int) -> int {
    rows * width * generations(runs, fan_in)
}

/// Bytes that all generations of a merge write, or an error that names the
/// estimate where they leave the `u64` range.
pub fn estimate_merge_bytes(
    rows: u64,
    width: u64,
    runs: usize,
    fan_in: usize,
    name: &'static str,
) -> (bytes: Result<u64>)
    requires
        2 <= fan_in,
    ensures
        ({
            let exact = merge_bytes(rows as int, width as int, runs as int, fan_in as int);
            &&& exact <= u64::MAX ==> bytes == Ok::<u64, Error>(exact as u64)
            &&& exact > u64::MAX ==> bytes == Err::<u64, Error>(Error::Invalid(name))
        }),
{
    let count: u64 = merge_generations(runs, fan_in);
    match rows.checked_mul(width) {
        None => {
            proof {
                let base = rows * width;
                assert(base * count >= base) by (nonlinear_arith)
                    requires
                        base >= 0,
                        count >= 1,
                ;
            }
            Err(Error::Invalid(name))
        },
        Some(base) => match base.checked_mul(count) {
            None => Err(Error::Invalid(name)),
            Some(total) => Ok(total),
        },
    }
}

/// Rows of the runs.
pub open spec fn total_rows(runs: Seq<CompletedRun>) -> int
    decreases runs.len(),
{
    if runs.len() == 0 {
        0
    } else {
        total_rows(runs.drop_last()) + runs.last().checkpoint.artifact.row_count
    }
}

/// Rows of joined lists of runs.
pub proof fn lemma_total_rows_join(a: Seq<CompletedRun>, b: Seq<CompletedRun>)
    ensures
        total_rows(a + b) == total_rows(a) + total_rows(b),
        0 <= total_rows(a),
    decreases b.len(), a.len(),
{
    if a.len() > 0 {
        lemma_total_rows_join(a.drop_last(), Seq::empty());
    }
    if b.len() == 0 {
        assert(a + b =~= a);
    } else {
        assert((a + b).drop_last() =~= a + b.drop_last());
        lemma_total_rows_join(a, b.drop_last());
    }
}

/// Rows of the runs, or an error where they leave the `u64` range.
pub fn sum_rows(runs: &Vec<CompletedRun>, start: usize, end: usize, name: &'static str) -> (total:
    Result<u64>)
    requires
        start <= end <= runs.len(),
    ensures
        ({
            let exact = total_rows(runs@.subrange(start as int, end as int));
            &&& 0 <= exact
            &&& exact <= u64::MAX ==> total == Ok::<u64, Error>(exact as u64)
            &&& exact > u64::MAX ==> total == Err::<u64, Error>(Error::Invalid(name))
        }),
{
    let mut total: u64 = 0;
    let mut i: usize = start;
    let ghost all = runs@.subrange(start as int, end as int);
    proof {
        assert(runs@.subrange(start as int, start as int) =~= Seq::empty());
        lemma_total_rows_join(all, Seq::empty());
    }
    while i < end
        invariant
            start <= i <= end <= runs.len(),
            all == runs@.subrange(start as int, end as int),
            total == total_rows(runs@.subrange(start as int, i as int)),
        decreases end - i,
    {
        let ghost head = runs@.subrange(start as int, i as int);
        let ghost next = runs@.subrange(start as int, i + 1);
        proof {
            assert(next.drop_last() =~= head);
            let tail = runs@.subrange(i + 1, end as int);
            assert(all =~= next + tail);
            lemma_total_rows_join(next, tail);
            lemma_total_rows_join(tail, Seq::empty());
            assert(next.last() == runs@[i as int]);
        }
        match checked_add(total, runs[i].checkpoint.artifact.row_count, name) {
            Ok(sum) => {
                total = sum;
            },
            Err(error) => {
                return Err(error);
            },
        }
        i += 1;
    }
    Ok(total)
}

/// A merge that read `expected` rows accounts for each of them.
pub open spec fn merge_accounts(stats: MergeStats, expected: int) -> bool {
    &&& stats.input_records == expected
    &&& stats.output_records + stats.duplicate_records == expected
}

/// Check what a merge of `runs[start..end]` read and wrote.
pub fn validate_merge(
    runs: &Vec<CompletedRun>,
    start: usize,
    end: usize,
    stats: MergeStats,
) -> (outcome: Result<()>)
    requires
        start <= end <= runs.len(),
    ensures
        ({
            let expected = total_rows(runs@.subrange(start as int, end as int));
            &&& outcome is Ok <==> merge_accounts(stats, expected)
            &&& expected > u64::MAX ==> outcome == Err::<(), Error>(
                Error::Invalid("merge input rows overflowed"),
            )
            &&& outcome is Err && expected <= u64::MAX ==> outcome == Err::<(), Error>(
                Error::Invalid("merge accounting mismatch"),
            )
        }),
{
    match sum_rows(runs, start, end, "merge input rows overflowed") {
        Err(error) => Err(error),
        Ok(expected) => {
            let accounted: bool = match stats.output_records.checked_add(stats.duplicate_records) {
                Some(sum) => sum == expected,
                None => false,
            };
            if stats.input_records != expected || !accounted {
                Err(Error::Invalid("merge accounting mismatch"))
            } else {
                Ok(())
            }
        },
    }
}

/// What to do next to reach a single run.
#[derive(Clone, Copy, Debug, PartialEq, Eq, Structural)]
pub enum MergeStep {
    /// Merge the runs `start..end` of the current round.
    Merge {
        /// Number of the round.
        round: u32,
        /// Number of the group in the round.
        group: usize,
        /// First run of the group.
        start: usize,
        /// End of the group.
        end: usize,
    },
    /// One run is left.
    Done,
}

/// Progress of the rounds.
pub struct MergeState {
    runs: Vec<CompletedRun>,
    merged: Vec<CompletedRun>,
    start: usize,
    round: u32,
    fan_in: usize,
    width: usize,
    merge_count: u64,
    duplicate_rows: u64,
    max_buffered_bytes: usize,
    checkpoints: Vec<String>,
}

impl MergeState {
    /// Runs of the current round.
    pub closed spec fn runs(&self) -> Seq<CompletedRun> {
        self.runs@
    }

    /// Runs that the current round has produced.
    pub closed spec fn merged(&self) -> Seq<CompletedRun> {
        self.merged@
    }

    /// Runs of the current round that are behind.
    pub closed spec fn start(&self) -> int {
        self.start as int
    }

    /// Number of the current round.
    pub closed spec fn round(&self) -> int {
        self.round as int
    }

    /// Most runs of one group.
    pub closed spec fn fan_in(&self) -> int {
        self.fan_in as int
    }

    /// Width of a record.
    pub closed spec fn width(&self) -> int {
        self.width as int
    }

    /// Merges so far.
    pub closed spec fn merge_count(&self) -> int {
        self.merge_count as int
    }

    /// Rows that merges have suppressed so far.
    pub closed spec fn duplicate_rows(&self) -> int {
        self.duplicate_rows as int
    }

    /// Most record bytes held by one merge so far.
    pub closed spec fn max_buffered_bytes(&self) -> int {
        self.max_buffered_bytes as int
    }

    /// Checkpoints of the merges so far.
    pub closed spec fn checkpoints(&self) -> Seq<String> {
        self.checkpoints@
    }

    /// The runs that are still to be merged into one.
    pub open spec fn remaining(&self) -> Seq<CompletedRun> {
        self.merged() + self.runs().skip(self.start())
    }

    /// The state is one that merging reaches.
    pub closed spec fn wf(&self) -> bool {
        &&& 2 <= self.fan_in
        &&& 0 < self.width
        &&& 0 < self.runs@.len()
        &&& self.start <= self.runs@.len()
        &&& self.merged@.len() == div_up(self.start as int, self.fan_in as int)
        &&& self.start % self.fan_in == 0 || self.start == self.runs@.len()
        &&& self.round + generations(self.runs@.len() as int, self.fan_in as int) <= 66
        &&& self.checkpoints@.len() == self.merge_count
        &&& self.runs@.len() == 1 ==> self.start == 0
        &&& self.start == self.runs@.len() ==> self.runs@.len() as int % self.fan_in as int != 1
        &&& self.merge_count + self.merged@.len() + self.runs@.len() - self.start <= usize::MAX
    }

    /// The current round has another group of two or more runs.
    pub open spec fn has_group(&self) -> bool {
        self.start() + 2 <= self.runs().len()
    }

    /// The state begins the round after that of `before`.
    pub open spec fn begins_round(&self, before: MergeState) -> bool {
        &&& self.runs() == before.remaining()
        &&& self.merged() == Seq::<CompletedRun>::empty()
        &&& self.start() == 0
        &&& self.round() == before.round() + 1
    }

    /// One run is left.
    pub closed spec fn done(&self) -> bool {
        self.runs@.len() == 1 && self.start == 0
    }

    /// End of the next group of the current round.
    pub open spec fn group_end(&self) -> int {
        if self.start() + self.fan_in() <= self.runs().len() {
            self.start() + self.fan_in()
        } else {
            self.runs().len() as int
        }
    }

    /// Start merging `runs`.
    pub fn new(runs: Vec<CompletedRun>, fan_in: usize, width: usize) -> (state: Self)
        requires
            2 <= fan_in,
            0 < width,
            0 < runs@.len(),
        ensures
            state.wf(),
            state.runs() == runs@,
            state.merged() == Seq::<CompletedRun>::empty(),
            state.start() == 0,
            state.round() == 0,
            state.remaining() == runs@,
            state.fan_in() == fan_in,
            state.width() == width,
            state.merge_count() == 0,
            state.duplicate_rows() == 0,
            state.max_buffered_bytes() == 0,
            state.checkpoints() == Seq::<String>::empty(),
    {
        let count: usize = runs.len();
        proof {
            lemma_machine_generations(count, fan_in as int);
            assert(0int % (fan_in as int) == 0 && 0int / (fan_in as int) == 0) by (nonlinear_arith)
                requires
                    2 <= fan_in,
            ;
        }
        let state = MergeState {
            runs,
            merged: Vec::new(),
            start: 0,
            round: 0,
            fan_in,
            width,
            merge_count: 0,
            duplicate_rows: 0,
            max_buffered_bytes: 0,
            checkpoints: Vec::new(),
        };
        assert(state.remaining() =~= runs@);
        state
    }

    /// Advance to the next group of two or more runs, or to the end.
    pub fn next_step(&mut self) -> (step: MergeStep)
        requires
            old(self).wf(),
        ensures
            final(self).wf(),
            final(self).remaining() == old(self).remaining(),
            final(self).fan_in() == old(self).fan_in(),
            final(self).width() == old(self).width(),
            final(self).merge_count() == old(self).merge_count(),
            final(self).duplicate_rows() == old(self).duplicate_rows(),
            final(self).max_buffered_bytes() == old(self).max_buffered_bytes(),
            final(self).checkpoints() == old(self).checkpoints(),
            step is Done <==> old(self).remaining().len() == 1,
            match step {
                MergeStep::Done => final(self).done(),
                MergeStep::Merge { round, group, start, end } => {
                    &&& final(self).has_group()
                    &&& round == final(self).round()
                    &&& group == final(self).merged().len()
                    &&& start == final(self).start()
                    &&& end == final(self).group_end()
                    &&& 2 <= end - start <= final(self).fan_in()
                },
            },
            old(self).has_group() || old(self).runs().len() == 1 ==> *final(self) == *old(self),
            !old(self).has_group() && old(self).runs().len() > 1 ==> final(self).begins_round(
                *old(self),
            ),
    {
        let ghost before = self.remaining();
        if self.runs.len() == 1 {
            assert(before =~= self.merged@ + self.runs@);
            proof {
                let f = self.fan_in as int;
                assert(0int % f == 0 && 0int / f == 0) by (nonlinear_arith)
                    requires
                        2 <= f,
                ;
            }
            return MergeStep::Done;
        }
        if self.runs.len() - self.start == 1 {
            proof {
                let f = self.fan_in as int;
                let a = self.start as int;
                lemma_one_more_group(a, a + 1, f);
                lemma_round_shrinks(self.runs@.len() as int, f);
            }
            if let Some(run) = self.runs.pop() {
                self.merged.push(run);
            }
            assert(before =~= self.merged@);
            return self.next_round(Ghost(before));
        }
        if self.start == self.runs.len() {
            proof {
                lemma_round_shrinks(self.runs@.len() as int, self.fan_in as int);
            }
            assert(before =~= self.merged@);
            return self.next_round(Ghost(before));
        }
        self.group_step()
    }

    /// Start the next round with the runs of the finished one.
    fn next_round(&mut self, Ghost(before): Ghost<Seq<CompletedRun>>) -> (step: MergeStep)
        requires
            2 <= old(self).fan_in(),
            0 < old(self).width(),
            old(self).merged() == before,
            old(self).checkpoints().len() == old(self).merge_count(),
            ({
                let count = before.len() as int;
                let f = old(self).fan_in();
                &&& 0 < count
                &&& old(self).round + generations(count, f) <= 65
                &&& old(self).merge_count() + count <= usize::MAX
            }),
        ensures
            final(self).wf(),
            final(self).remaining() == before,
            final(self).fan_in() == old(self).fan_in(),
            final(self).width() == old(self).width(),
            final(self).merge_count() == old(self).merge_count(),
            final(self).duplicate_rows() == old(self).duplicate_rows(),
            final(self).max_buffered_bytes() == old(self).max_buffered_bytes(),
            final(self).checkpoints() == old(self).checkpoints(),
            step is Done <==> before.len() == 1,
            match step {
                MergeStep::Done => final(self).done(),
                MergeStep::Merge { round, group, start, end } => {
                    &&& final(self).has_group()
                    &&& round == final(self).round()
                    &&& group == final(self).merged().len()
                    &&& start == final(self).start()
                    &&& end == final(self).group_end()
                    &&& 2 <= end - start <= final(self).fan_in()
                },
            },
            final(self).runs() == before,
            final(self).merged() == Seq::<CompletedRun>::empty(),
            final(self).start() == 0,
            final(self).round() == old(self).round() + 1,
    {
        core::mem::swap(&mut self.runs, &mut self.merged);
        self.merged = Vec::new();
        self.start = 0;
        proof {
            let f = self.fan_in as int;
            assert(0int % f == 0 && 0int / f == 0) by (nonlinear_arith)
                requires
                    2 <= f,
            ;
        }
        self.round = self.round + 1;
        assert(self.remaining() =~= before);
        if self.runs.len() == 1 {
            return MergeStep::Done;
        }
        self.group_step()
    }

    /// The next group of the current round.
    fn group_step(&self) -> (step: MergeStep)
        requires
            self.wf(),
            self.has_group(),
        ensures
            match step {
                MergeStep::Done => false,
                MergeStep::Merge { round, group, start, end } => {
                    &&& round == self.round()
                    &&& group == self.merged().len()
                    &&& start == self.start()
                    &&& end == self.group_end()
                    &&& 2 <= end - start <= self.fan_in()
                },
            },
    {
        let left: usize = self.runs.len() - self.start;
        let size: usize = if left < self.fan_in {
            left
        } else {
            self.fan_in
        };
        MergeStep::Merge {
            round: self.round,
            group: self.merged.len(),
            start: self.start,
            end: self.start + size,
        }
    }

    /// Take the merged run of the next group.
    ///
    /// `peak` is the most record bytes that the merge held. A reconciling
    /// product also counts the rows that the merge suppressed.
    pub fn complete(&mut self, built: CompletedRun, peak: usize, reconcile: bool) -> (outcome:
        Result<()>)
        requires
            old(self).wf(),
            old(self).has_group(),
        ensures
            ({
                let group = old(self).runs().subrange(old(self).start(), old(self).group_end());
                let inputs = total_rows(group);
                let output = built.checkpoint.artifact.row_count;
                let buffered = (group.len() + 1) * old(self).width();
                match outcome {
                    Ok(_) => {
                        &&& final(self).wf()
                        &&& final(self).runs() == old(self).runs()
                        &&& final(self).merged() == old(self).merged().push(built)
                        &&& final(self).start() == old(self).group_end()
                        &&& final(self).round() == old(self).round()
                        &&& final(self).remaining() == old(self).merged().push(built)
                            + old(self).runs().skip(old(self).group_end())
                        &&& final(self).fan_in() == old(self).fan_in()
                        &&& final(self).width() == old(self).width()
                        &&& final(self).merge_count() == old(self).merge_count() + 1
                        &&& final(self).checkpoints() == old(self).checkpoints().push(
                            built.checkpoint_path,
                        )
                        &&& final(self).max_buffered_bytes() == larger(
                            larger(old(self).max_buffered_bytes(), peak as int),
                            if buffered <= usize::MAX {
                                buffered
                            } else {
                                usize::MAX as int
                            },
                        )
                        &&& reconcile ==> output <= inputs && final(self).duplicate_rows() == old(
                            self,
                        ).duplicate_rows() + inputs - output && buffered <= usize::MAX
                            && total_rows(final(self).remaining()) + final(self).duplicate_rows()
                            == total_rows(old(self).remaining()) + old(self).duplicate_rows()
                        &&& !reconcile ==> final(self).duplicate_rows() == old(
                            self,
                        ).duplicate_rows()
                    },
                    Err(error) => {
                        ||| inputs > u64::MAX && error == Error::Invalid("merge input rows overflowed")
                        ||| output > inputs && error == Error::Invalid("merge output exceeds inputs")
                        ||| old(self).duplicate_rows() + inputs - output > u64::MAX && error
                            == Error::Invalid("merge duplicate rows overflowed")
                        ||| buffered > usize::MAX && error == Error::Invalid("merge memory overflowed")
                    },
                }
            }),
            !reconcile ==> outcome is Ok,
    {
        let left: usize = self.runs.len() - self.start;
        let size: usize = if left < self.fan_in {
            left
        } else {
            self.fan_in
        };
        let end: usize = self.start + size;
        let mut duplicates: u64 = self.duplicate_rows;
        let needed: Option<usize> = buffered_bytes(size, self.width);
        if reconcile {
            match sum_duplicates(
                &self.runs,
                self.start,
                end,
                built.checkpoint.artifact.row_count,
                self.duplicate_rows,
            ) {
                Ok(total) => {
                    duplicates = total;
                },
                Err(error) => {
                    return Err(error);
                },
            }
            if needed.is_none() {
                return Err(Error::Invalid("merge memory overflowed"));
            }
        }
        let buffered: usize = match needed {
            Some(bytes) => bytes,
            None => usize::MAX,
        };
        proof {
            lemma_one_more_group(self.start as int, end as int, self.fan_in as int);
            lemma_group_rows(self.merged@, self.runs@, self.start as int, end as int, built);
        }
        if peak > self.max_buffered_bytes {
            self.max_buffered_bytes = peak;
        }
        if buffered > self.max_buffered_bytes {
            self.max_buffered_bytes = buffered;
        }
        self.duplicate_rows = duplicates;
        self.merge_count = self.merge_count + 1;
        self.checkpoints.push(built.checkpoint_path.clone());
        self.merged.push(built);
        self.start = end;
        Ok(())
    }

    /// The last run and the totals of all merges.
    pub fn finish(self) -> (outcome: MergeOutcome)
        requires
            self.wf(),
            self.done(),
        ensures
            self.remaining() == seq![outcome.final_run],
            outcome.merge_count == self.merge_count(),
            outcome.duplicate_rows == self.duplicate_rows(),
            outcome.max_buffered_bytes == self.max_buffered_bytes(),
            outcome.checkpoints@ == self.checkpoints(),
            outcome.checkpoints@.len() == outcome.merge_count,
    {
        let mut state = self;
        proof {
            let f = state.fan_in as int;
            assert(0int % f == 0 && 0int / f == 0) by (nonlinear_arith)
                requires
                    2 <= f,
            ;
        }
        let last: Option<CompletedRun> = state.runs.pop();
        let final_run: CompletedRun = last.unwrap();
        assert(self.remaining() =~= seq![final_run]);
        MergeOutcome {
            final_run,
            merge_count: state.merge_count,
            duplicate_rows: state.duplicate_rows,
            max_buffered_bytes: state.max_buffered_bytes,
            checkpoints: state.checkpoints,
        }
    }
}

/// The group of runs with the number `g`.
pub open spec fn group_of(runs: Seq<CompletedRun>, fan_in: int, g: int) -> Seq<CompletedRun> {
    let start = g * fan_in;
    if start + fan_in <= runs.len() {
        runs.subrange(start, start + fan_in)
    } else {
        runs.subrange(start, runs.len() as int)
    }
}

/// `run` is what a round makes of the group with the number `g`, and `peak` the
/// most record bytes that the merge says it held.
pub open spec fn is_group<M: Fn(u32, usize, &[CompletedRun]) -> Result<(CompletedRun, usize)>>(
    merge: M,
    round: int,
    fan_in: int,
    before: Seq<CompletedRun>,
    g: int,
    run: CompletedRun,
    peak: usize,
) -> bool {
    let group = group_of(before, fan_in, g);
    if group.len() == 1 {
        run == group[0]
    } else {
        exists|given: &[CompletedRun]|
            given@ == group && #[trigger] call_ensures(
                merge,
                (round as u32, g as usize, given),
                Ok((run, peak)),
            )
    }
}

/// `after` is what a round makes of `before`, with the peaks of its merges.
pub open spec fn is_round<M: Fn(u32, usize, &[CompletedRun]) -> Result<(CompletedRun, usize)>>(
    merge: M,
    round: int,
    fan_in: int,
    before: Seq<CompletedRun>,
    after: Seq<CompletedRun>,
    peaks: Seq<usize>,
) -> bool {
    &&& 2 <= before.len()
    &&& after.len() == div_up(before.len() as int, fan_in)
    &&& peaks.len() == after.len()
    &&& forall|g: int|
        0 <= g < after.len() ==> is_group(
            merge,
            round,
            fan_in,
            before,
            g,
            #[trigger] after[g],
            peaks[g],
        )
}

/// Record bytes that the merge of a group held: what it says, and a record for
/// each run and one for the output. A run that stands alone is not merged.
pub open spec fn group_held(size: int, width: int, peak: usize) -> int {
    let buffered = (size + 1) * width;
    if size == 1 {
        0
    } else {
        larger(
            peak as int,
            if buffered <= usize::MAX {
                buffered
            } else {
                usize::MAX as int
            },
        )
    }
}

/// Most record bytes that one of the first `count` groups of a round held.
pub open spec fn round_held(
    before: Seq<CompletedRun>,
    fan_in: int,
    width: int,
    peaks: Seq<usize>,
    count: int,
) -> int
    decreases count,
{
    if count <= 0 {
        0
    } else {
        larger(
            round_held(before, fan_in, width, peaks, count - 1),
            group_held(
                group_of(before, fan_in, count - 1).len() as int,
                width,
                peaks[count - 1],
            ),
        )
    }
}

/// Most record bytes that one merge of the first `count` rounds held.
pub open spec fn rounds_held(
    rounds: Seq<Seq<CompletedRun>>,
    peaks: Seq<Seq<usize>>,
    fan_in: int,
    width: int,
    count: int,
) -> int
    decreases count,
{
    if count <= 0 {
        0
    } else {
        larger(
            rounds_held(rounds, peaks, fan_in, width, count - 1),
            round_held(
                rounds[count - 1],
                fan_in,
                width,
                peaks[count - 1],
                peaks[count - 1].len() as int,
            ),
        )
    }
}

/// Checkpoints of the merges of a round: a last run that stands alone is not
/// merged.
pub open spec fn round_paths(
    before: Seq<CompletedRun>,
    after: Seq<CompletedRun>,
    fan_in: int,
) -> Seq<String> {
    let merges = if before.len() as int % fan_in == 1 {
        after.len() - 1
    } else {
        after.len() as int
    };
    Seq::new(merges as nat, |g: int| after[g].checkpoint_path)
}

/// Checkpoints of the merges of all rounds.
pub open spec fn merge_paths(rounds: Seq<Seq<CompletedRun>>, fan_in: int) -> Seq<String>
    decreases rounds.len(),
{
    if rounds.len() < 2 {
        Seq::empty()
    } else {
        merge_paths(rounds.drop_last(), fan_in) + round_paths(
            rounds[rounds.len() - 2],
            rounds[rounds.len() - 1],
            fan_in,
        )
    }
}

/// `rounds` leads from the runs to its last runs, with the peaks of the merges.
pub open spec fn reaches<M: Fn(u32, usize, &[CompletedRun]) -> Result<(CompletedRun, usize)>>(
    rounds: Seq<Seq<CompletedRun>>,
    peaks: Seq<Seq<usize>>,
    merge: M,
    fan_in: int,
    runs: Seq<CompletedRun>,
) -> bool {
    &&& rounds.len() > 0
    &&& rounds[0] == runs
    &&& peaks.len() == rounds.len() - 1
    &&& forall|r: int|
        0 <= r < rounds.len() - 1 ==> is_round(
            merge,
            r,
            fan_in,
            #[trigger] rounds[r],
            rounds[r + 1],
            peaks[r],
        )
}

/// How far merging runs into one has come: its rounds, and the groups of the
/// last round that are merged.
pub struct MergePlace {
    /// The runs of every round.
    pub rounds: Seq<Seq<CompletedRun>>,
    /// The peaks of every complete round.
    pub peaks: Seq<Seq<usize>>,
    /// The merged groups of the last round.
    pub merged: Seq<CompletedRun>,
    /// Their peaks.
    pub held: Seq<usize>,
}

/// Runs that are left at the place: the merged groups and what was not merged
/// yet.
pub open spec fn left_at(place: MergePlace, fan_in: int) -> Seq<CompletedRun> {
    place.merged + place.rounds.last().skip(place.merged.len() * fan_in)
}

/// `given` is the group that is merged next at the place.
pub open spec fn next_at<M: Fn(u32, usize, &[CompletedRun]) -> Result<(CompletedRun, usize)>>(
    place: MergePlace,
    merge: M,
    fan_in: int,
    runs: Seq<CompletedRun>,
    given: Seq<CompletedRun>,
) -> bool {
    &&& reaches(place.rounds, place.peaks, merge, fan_in, runs)
    &&& place.held.len() == place.merged.len()
    &&& forall|g: int|
        0 <= g < place.merged.len() ==> is_group(
            merge,
            place.rounds.len() - 1,
            fan_in,
            place.rounds.last(),
            g,
            #[trigger] place.merged[g],
            place.held[g],
        )
    &&& given == group_of(place.rounds.last(), fan_in, place.merged.len() as int)
    &&& given.len() >= 2
}

/// The merged run of a group does not account for its rows, or its record bytes
/// are too many to count.
pub open spec fn group_unaccounted(
    place: MergePlace,
    fan_in: int,
    width: int,
    runs: Seq<CompletedRun>,
    given: Seq<CompletedRun>,
    built: CompletedRun,
    error: Error,
) -> bool {
    let inputs = total_rows(given);
    let output = built.checkpoint.artifact.row_count;
    let suppressed = total_rows(runs) - total_rows(left_at(place, fan_in));
    ||| inputs > u64::MAX && error == Error::Invalid("merge input rows overflowed")
    ||| output > inputs && error == Error::Invalid("merge output exceeds inputs")
    ||| suppressed + inputs - output > u64::MAX && error == Error::Invalid(
        "merge duplicate rows overflowed",
    )
    ||| (given.len() + 1) * width > usize::MAX && error == Error::Invalid("merge memory overflowed")
}

/// Merging the next group at the place fails: `merge` fails, or its run does
/// not account for the group.
pub open spec fn group_fails<M: Fn(u32, usize, &[CompletedRun]) -> Result<(CompletedRun, usize)>>(
    place: MergePlace,
    merge: M,
    fan_in: int,
    width: int,
    runs: Seq<CompletedRun>,
    reconcile: bool,
    given: &[CompletedRun],
    error: Error,
) -> bool {
    let round = (place.rounds.len() - 1) as u32;
    let group = place.merged.len() as usize;
    &&& next_at(place, merge, fan_in, runs, given@)
    &&& {
        ||| call_ensures(merge, (round, group, given), Err(error))
        ||| reconcile && exists|run: CompletedRun, peak: usize| #[trigger]
            call_ensures(merge, (round, group, given), Ok((run, peak))) && group_unaccounted(
                place,
                fan_in,
                width,
                runs,
                given@,
                run,
                error,
            )
    }
}

/// `rounds` leads from the runs to a single one, with the peaks of the merges.
pub open spec fn merges_to<M: Fn(u32, usize, &[CompletedRun]) -> Result<(CompletedRun, usize)>>(
    rounds: Seq<Seq<CompletedRun>>,
    peaks: Seq<Seq<usize>>,
    merge: M,
    fan_in: int,
    width: int,
    runs: Seq<CompletedRun>,
    done: MergeOutcome,
) -> bool {
    &&& reaches(rounds, peaks, merge, fan_in, runs)
    &&& done.max_buffered_bytes == rounds_held(rounds, peaks, fan_in, width, peaks.len() as int)
    &&& rounds.last() == seq![done.final_run]
    &&& done.checkpoints@ == merge_paths(rounds, fan_in)
}

/// What merging runs into one comes to.
pub open spec fn merges_outcome<
    M: Fn(u32, usize, &[CompletedRun]) -> Result<(CompletedRun, usize)>,
>(
    merge: M,
    runs: Seq<CompletedRun>,
    fan_in: int,
    width: int,
    reconcile: bool,
    outcome: Result<MergeOutcome>,
) -> bool {
    match outcome {
        Ok(done) => {
            &&& exists|rounds: Seq<Seq<CompletedRun>>, peaks: Seq<Seq<usize>>| #[trigger]
                merges_to(rounds, peaks, merge, fan_in, width, runs, done)
            &&& done.checkpoints@.len() == done.merge_count
            &&& reconcile ==> done.final_run.checkpoint.artifact.row_count + done.duplicate_rows
                == total_rows(runs)
            &&& !reconcile ==> done.duplicate_rows == 0
        },
        Err(error) => exists|place: MergePlace, given: &[CompletedRun]| #[trigger]
            group_fails(place, merge, fan_in, width, runs, reconcile, given, error),
    }
}

/// The next group of a state is the group with the number of merged runs.
proof fn lemma_group_at(state: MergeState)
    requires
        state.wf(),
        state.start() < state.runs().len(),
    ensures
        state.start() == state.merged().len() * state.fan_in(),
        group_of(state.runs(), state.fan_in(), state.merged().len() as int)
            == state.runs().subrange(state.start(), state.group_end()),
{
    let f = state.fan_in();
    let q = state.start() / f;
    vstd::arithmetic::div_mod::lemma_fundamental_div_mod(state.start(), f);
    assert(q * f == f * q) by (nonlinear_arith);
}

/// The peaks of a round: a last run that stands alone has none.
spec fn round_peaks(state: MergeState, peaks: Seq<usize>) -> Seq<usize> {
    if state.start() == state.runs().len() {
        peaks
    } else {
        peaks.push(0)
    }
}

/// More peaks keep what the groups before held.
proof fn lemma_held_prefix(
    before: Seq<CompletedRun>,
    fan_in: int,
    width: int,
    peaks: Seq<usize>,
    more: Seq<usize>,
    count: int,
)
    requires
        count <= peaks.len() <= more.len(),
        forall|i: int| 0 <= i < peaks.len() ==> more[i] == peaks[i],
    ensures
        round_held(before, fan_in, width, more, count) == round_held(
            before,
            fan_in,
            width,
            peaks,
            count,
        ),
        0 <= round_held(before, fan_in, width, peaks, count),
    decreases count,
{
    if count > 0 {
        lemma_held_prefix(before, fan_in, width, peaks, more, count - 1);
    }
}

/// More rounds keep what the merges before held.
proof fn lemma_rounds_held_prefix(
    rounds: Seq<Seq<CompletedRun>>,
    peaks: Seq<Seq<usize>>,
    longer: Seq<Seq<CompletedRun>>,
    more: Seq<Seq<usize>>,
    fan_in: int,
    width: int,
    count: int,
)
    requires
        count <= peaks.len() <= more.len(),
        count <= rounds.len() <= longer.len(),
        forall|i: int| 0 <= i < peaks.len() ==> more[i] == peaks[i],
        forall|i: int| 0 <= i < rounds.len() ==> longer[i] == rounds[i],
    ensures
        rounds_held(longer, more, fan_in, width, count) == rounds_held(
            rounds,
            peaks,
            fan_in,
            width,
            count,
        ),
    decreases count,
{
    if count > 0 {
        lemma_rounds_held_prefix(rounds, peaks, longer, more, fan_in, width, count - 1);
    }
}

/// A round without another group makes its remaining runs of its runs.
proof fn lemma_round_ends<M: Fn(u32, usize, &[CompletedRun]) -> Result<(CompletedRun, usize)>>(
    state: MergeState,
    merge: M,
    peaks: Seq<usize>,
)
    requires
        state.wf(),
        !state.has_group(),
        state.runs().len() > 1,
        peaks.len() == state.merged().len(),
        forall|g: int|
            0 <= g < state.merged().len() ==> is_group(
                merge,
                state.round(),
                state.fan_in(),
                state.runs(),
                g,
                #[trigger] state.merged()[g],
                peaks[g],
            ),
    ensures
        is_round(
            merge,
            state.round(),
            state.fan_in(),
            state.runs(),
            state.remaining(),
            round_peaks(state, peaks),
        ),
        round_held(
            state.runs(),
            state.fan_in(),
            state.width(),
            round_peaks(state, peaks),
            round_peaks(state, peaks).len() as int,
        ) == larger(
            0,
            round_held(
                state.runs(),
                state.fan_in(),
                state.width(),
                peaks,
                peaks.len() as int,
            ),
        ),
        round_paths(state.runs(), state.remaining(), state.fan_in()) == Seq::new(
            state.merged().len(),
            |g: int| state.merged()[g].checkpoint_path,
        ),
{
    let f = state.fan_in();
    let runs = state.runs();
    let merged = state.merged();
    let after = state.remaining();
    let all = round_peaks(state, peaks);
    if state.start() == runs.len() {
        assert(after =~= merged);
    } else {
        lemma_group_at(state);
        lemma_one_more_group(state.start(), state.start() + 1, f);
        assert(after =~= merged.push(runs[state.start()]));
        let q = state.start() / f;
        vstd::arithmetic::div_mod::lemma_fundamental_div_mod(state.start(), f);
        assert(q * f == f * q) by (nonlinear_arith);
        vstd::arithmetic::div_mod::lemma_fundamental_div_mod_converse(
            runs.len() as int,
            f,
            q,
            1,
        );
        assert forall|g: int| 0 <= g < after.len() implies is_group(
            merge,
            state.round(),
            f,
            runs,
            g,
            #[trigger] after[g],
            all[g],
        ) by {
            if g < merged.len() {
                assert(after[g] == merged[g]);
            } else {
                assert(group_of(runs, f, g) =~= seq![runs[state.start()]]);
            }
        }
        assert(group_of(runs, f, merged.len() as int) =~= seq![runs[state.start()]]);
    }
    lemma_held_prefix(runs, f, state.width(), peaks, all, peaks.len() as int);
    lemma_held_prefix(runs, f, state.width(), peaks, peaks, peaks.len() as int);
    assert(round_paths(runs, after, f) =~= Seq::new(
        merged.len(),
        |g: int| merged[g].checkpoint_path,
    ));
}

/// The rows and the record bytes of a group are bounded by those of its state.
proof fn lemma_group_bounded(state: MergeState)
    requires
        state.wf(),
        state.has_group(),
    ensures
        ({
            let group = state.runs().subrange(state.start(), state.group_end());
            &&& 0 <= total_rows(group) <= total_rows(state.remaining())
            &&& (group.len() + 1) * state.width() <= (state.fan_in() + 1) * state.width()
        }),
{
    let group = state.runs().subrange(state.start(), state.group_end());
    let rest = state.runs().skip(state.group_end());
    assert(state.runs().skip(state.start()) =~= group + rest);
    lemma_total_rows_join(state.merged(), group + rest);
    lemma_total_rows_join(group, rest);
    lemma_total_rows_join(rest, Seq::empty());
    let size = group.len() as int;
    let f = state.fan_in();
    let w = state.width();
    assert((size + 1) * w <= (f + 1) * w) by (nonlinear_arith)
        requires
            size <= f,
            0 < w,
    ;
}

/// Merge `runs` into one, with `merge` for the groups of every round.
///
/// `merge` takes the number of the round, the number of the group in it and the
/// runs of the group. It returns the merged run and the most record bytes that
/// it held.
#[verifier::rlimit(60)]
pub fn merge_to_single<M: Fn(u32, usize, &[CompletedRun]) -> Result<(CompletedRun, usize)>>(
    runs: Vec<CompletedRun>,
    fan_in: usize,
    width: usize,
    reconcile: bool,
    merge: &M,
) -> (outcome: Result<MergeOutcome>)
    requires
        2 <= fan_in,
        0 < width,
        0 < runs@.len(),
        forall|round: u32, group: usize, given: &[CompletedRun]| #[trigger]
            call_requires(*merge, (round, group, given)),
    ensures
        merges_outcome(*merge, runs@, fan_in as int, width as int, reconcile, outcome),
{
    let ghost first = runs@;
    let ghost mut rounds: Seq<Seq<CompletedRun>> = seq![runs@];
    let ghost mut peaks: Seq<Seq<usize>> = Seq::empty();
    let ghost mut held: Seq<usize> = Seq::empty();
    let mut state: MergeState = MergeState::new(runs, fan_in, width);
    loop
        invariant
            state.wf(),
            state.fan_in() == fan_in,
            state.width() == width,
            2 <= fan_in,
            0 < width,
            first == runs@,
            forall|round: u32, group: usize, given: &[CompletedRun]| #[trigger]
                call_requires(*merge, (round, group, given)),
            rounds.len() == state.round() + 1,
            rounds[0] == first,
            rounds.last() == state.runs(),
            peaks.len() == rounds.len() - 1,
            held.len() == state.merged().len(),
            state.max_buffered_bytes() == larger(
                rounds_held(rounds, peaks, fan_in as int, width as int, peaks.len() as int),
                round_held(
                    state.runs(),
                    fan_in as int,
                    width as int,
                    held,
                    held.len() as int,
                ),
            ),
            forall|r: int|
                0 <= r < rounds.len() - 1 ==> is_round(
                    *merge,
                    r,
                    fan_in as int,
                    #[trigger] rounds[r],
                    rounds[r + 1],
                    peaks[r],
                ),
            forall|g: int|
                0 <= g < state.merged().len() ==> is_group(
                    *merge,
                    state.round(),
                    fan_in as int,
                    state.runs(),
                    g,
                    #[trigger] state.merged()[g],
                    held[g],
                ),
            state.checkpoints() == merge_paths(rounds, fan_in as int) + Seq::new(
                state.merged().len(),
                |g: int| state.merged()[g].checkpoint_path,
            ),
            reconcile ==> total_rows(state.remaining()) + state.duplicate_rows() == total_rows(
                first,
            ),
            !reconcile ==> state.duplicate_rows() == 0,
        decreases state.remaining().len(),
    {
        let ghost before = state;
        let step: MergeStep = state.next_step();
        proof {
            if !before.has_group() && before.runs().len() > 1 {
                lemma_round_ends(before, *merge, held);
                let all = round_peaks(before, held);
                let more = peaks.push(all);
                let longer = rounds.push(before.remaining());
                assert(longer.drop_last() =~= rounds);
                assert(state.checkpoints() =~= merge_paths(longer, fan_in as int));
                assert forall|r: int| 0 <= r < longer.len() - 1 implies is_round(
                    *merge,
                    r,
                    fan_in as int,
                    #[trigger] longer[r],
                    longer[r + 1],
                    more[r],
                ) by {
                    if r < rounds.len() - 1 {
                        assert(is_round(
                            *merge,
                            r,
                            fan_in as int,
                            rounds[r],
                            rounds[r + 1],
                            peaks[r],
                        ));
                    }
                }
                lemma_rounds_held_prefix(
                    rounds,
                    peaks,
                    longer,
                    more,
                    fan_in as int,
                    width as int,
                    peaks.len() as int,
                );
                lemma_held_prefix(
                    before.runs(),
                    fan_in as int,
                    width as int,
                    held,
                    held,
                    held.len() as int,
                );
                rounds = longer;
                peaks = more;
                held = Seq::empty();
            }
        }
        match step {
            MergeStep::Done => {
                let ghost last = state;
                let done: MergeOutcome = state.finish();
                proof {
                    assert(last.remaining() =~= last.runs());
                    assert(last.checkpoints() =~= merge_paths(rounds, fan_in as int));
                    assert(merges_to(
                        rounds,
                        peaks,
                        *merge,
                        fan_in as int,
                        width as int,
                        first,
                        done,
                    ));
                    reveal_with_fuel(total_rows, 2);
                    assert(seq![done.final_run].drop_last() =~= Seq::empty());
                }
                return Ok(done);
            },
            MergeStep::Merge { round, group, start, end } => {
                let ghost at = state;
                let given: &[CompletedRun] = slice_subrange(state.runs.as_slice(), start, end);
                let ghost place = MergePlace { rounds, peaks, merged: at.merged(), held };
                proof {
                    lemma_group_at(at);
                    assert(next_at(place, *merge, fan_in as int, first, given@));
                    assert(left_at(place, fan_in as int) =~= at.remaining());
                }
                match merge(round, group, given) {
                    Err(error) => {
                        assert(group_fails(
                            place,
                            *merge,
                            fan_in as int,
                            width as int,
                            first,
                            reconcile,
                            given,
                            error,
                        ));
                        return Err(error);
                    },
                    Ok((run, peak)) => {
                        proof {
                            lemma_group_bounded(at);
                            assert(call_ensures(*merge, (round, group, given), Ok((run, peak))));
                            let g = at.merged().len() as int;
                            assert(given@ == group_of(at.runs(), fan_in as int, g));
                            assert(at.round() as u32 == round);
                            assert(g as usize == group);
                            assert(call_ensures(
                                *merge,
                                (at.round() as u32, g as usize, given),
                                Ok((run, peak)),
                            ));
                            assert(is_group(
                                *merge,
                                at.round(),
                                fan_in as int,
                                at.runs(),
                                g,
                                run,
                                peak,
                            ));
                        }
                        let ghost built = run;
                        match state.complete(run, peak, reconcile) {
                            Ok(()) => {
                                proof {
                                    let merged = at.merged().push(built);
                                    let more = held.push(peak);
                                    lemma_held_prefix(
                                        at.runs(),
                                        fan_in as int,
                                        width as int,
                                        held,
                                        more,
                                        held.len() as int,
                                    );
                                    assert forall|g: int|
                                        0 <= g < state.merged().len() implies is_group(
                                        *merge,
                                        state.round(),
                                        fan_in as int,
                                        state.runs(),
                                        g,
                                        #[trigger] state.merged()[g],
                                        more[g],
                                    ) by {
                                        assert(state.merged()[g] == merged[g]);
                                        if g < at.merged().len() {
                                            assert(merged[g] == at.merged()[g]);
                                        }
                                    }
                                    assert(state.checkpoints() =~= merge_paths(
                                        rounds,
                                        fan_in as int,
                                    ) + Seq::new(
                                        state.merged().len(),
                                        |g: int| state.merged()[g].checkpoint_path,
                                    ));
                                    held = more;
                                }
                            },
                            Err(error) => {
                                proof {
                                    assert(group_unaccounted(
                                        place,
                                        fan_in as int,
                                        width as int,
                                        first,
                                        given@,
                                        built,
                                        error,
                                    ));
                                    assert(group_fails(
                                        place,
                                        *merge,
                                        fan_in as int,
                                        width as int,
                                        first,
                                        reconcile,
                                        given,
                                        error,
                                    ));
                                }
                                return Err(error);
                            },
                        }
                    },
                }
            },
        }
    }
}

/// Record bytes that a merge of `size` runs holds: one record for each run and
/// one for the output.
fn buffered_bytes(size: usize, width: usize) -> (bytes: Option<usize>)
    requires
        0 < width,
    ensures
        ({
            let exact = (size + 1) * width;
            match bytes {
                Some(count) => count == exact,
                None => exact > usize::MAX,
            }
        }),
{
    match size.checked_add(1) {
        Some(count) => count.checked_mul(width),
        None => {
            proof {
                let exact = (size + 1) * width;
                assert(exact >= size + 1) by (nonlinear_arith)
                    requires
                        exact == (size + 1) * width,
                        width >= 1,
                ;
            }
            None
        },
    }
}

/// `suppressed` plus the rows of a group that its merged run does not have.
fn sum_duplicates(
    runs: &Vec<CompletedRun>,
    start: usize,
    end: usize,
    output: u64,
    suppressed: u64,
) -> (total: Result<u64>)
    requires
        start <= end <= runs.len(),
    ensures
        ({
            let inputs = total_rows(runs@.subrange(start as int, end as int));
            match total {
                Ok(sum) => inputs <= u64::MAX && output <= inputs && sum == suppressed + inputs
                    - output,
                Err(error) => {
                    ||| inputs > u64::MAX && error == Error::Invalid("merge input rows overflowed")
                    ||| output > inputs && error == Error::Invalid("merge output exceeds inputs")
                    ||| suppressed + inputs - output > u64::MAX && error == Error::Invalid(
                        "merge duplicate rows overflowed",
                    )
                },
            }
        }),
{
    match sum_rows(runs, start, end, "merge input rows overflowed") {
        Err(error) => Err(error),
        Ok(inputs) => {
            if output > inputs {
                return Err(Error::Invalid("merge output exceeds inputs"));
            }
            checked_add(suppressed, inputs - output, "merge duplicate rows overflowed")
        },
    }
}

/// Replacing a group by its merged run changes the rows by what it suppressed.
proof fn lemma_group_rows(
    merged: Seq<CompletedRun>,
    runs: Seq<CompletedRun>,
    start: int,
    end: int,
    built: CompletedRun,
)
    requires
        0 <= start <= end <= runs.len(),
    ensures
        total_rows(merged.push(built) + runs.skip(end)) == total_rows(merged + runs.skip(start))
            - total_rows(runs.subrange(start, end)) + built.checkpoint.artifact.row_count,
{
    let group = runs.subrange(start, end);
    let rest = runs.skip(end);
    assert(runs.skip(start) =~= group + rest);
    lemma_total_rows_join(merged, group + rest);
    lemma_total_rows_join(group, rest);
    lemma_total_rows_join(merged.push(built), rest);
    assert(merged.push(built).drop_last() =~= merged);
}

/// The larger of two numbers.
pub open spec fn larger(a: int, b: int) -> int {
    if a < b {
        b
    } else {
        a
    }
}

/// The last run and the totals of all merges.
pub struct MergeOutcome {
    /// The only run that is left.
    pub final_run: CompletedRun,
    /// Number of merges.
    pub merge_count: u64,
    /// Rows that merges suppressed.
    pub duplicate_rows: u64,
    /// Most record bytes held by one merge.
    pub max_buffered_bytes: usize,
    /// Checkpoints of the merges.
    pub checkpoints: Vec<String>,
}

/// One more group, whole or the last of its round.
proof fn lemma_one_more_group(start: int, end: int, fan_in: int)
    requires
        2 <= fan_in,
        0 <= start < end <= start + fan_in,
        start % fan_in == 0,
    ensures
        div_up(end, fan_in) == div_up(start, fan_in) + 1,
        end == start + fan_in ==> end % fan_in == 0,
        start + 2 <= end ==> end % fan_in != 1,
{
    let q = start / fan_in;
    vstd::arithmetic::div_mod::lemma_fundamental_div_mod(start, fan_in);
    let r = end - start;
    assert(start == q * fan_in) by (nonlinear_arith)
        requires
            start == fan_in * q + start % fan_in,
            start % fan_in == 0,
    ;
    if r == fan_in {
        assert((q + 1) * fan_in == q * fan_in + fan_in) by (nonlinear_arith);
        vstd::arithmetic::div_mod::lemma_fundamental_div_mod_converse(end, fan_in, q + 1, 0);
    } else {
        vstd::arithmetic::div_mod::lemma_fundamental_div_mod_converse(end, fan_in, q, r);
    }
}

} // verus!
