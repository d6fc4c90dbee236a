//! How the runs of a build are counted, merged and carried on.

use vstd::prelude::*;

use crate::advance::{estimate_rows, input_rows, plan_advances};
use crate::artifact::{CatalogObject, InputBatch, InputIdentity};
use crate::batches::{reconcile_duplicates, BatchProgress};
use crate::build_runs::{
    duplicates_before, inputs_before, largest_bytes, largest_rows, physical_before, sums_batches,
    BatchRun,
};
use crate::error::Result;
use crate::incremental::{holds_object, is_last_with_key, validate_plan};
use crate::input::ResolvedSnapshot;
use crate::merge::{div_up, generations, group_of, is_group, is_round, CompletedRun};
use crate::plan::CatalogDeltaPlan;

verus! {

/// A round puts every run into one group, after as many whole groups as go
/// before it, and makes one run of each group.
pub proof fn lemma_round_groups_its_runs<
    M: Fn(u32, usize, &[CompletedRun]) -> Result<(CompletedRun, usize)>,
>(
    merge: M,
    round: int,
    fan_in: int,
    before: Seq<CompletedRun>,
    after: Seq<CompletedRun>,
    peaks: Seq<usize>,
    i: int,
)
    requires
        is_round(merge, round, fan_in, before, after, peaks),
        2 <= fan_in,
        0 <= i < before.len(),
    ensures
        ({
            let g = i / fan_in;
            let group = group_of(before, fan_in, g);
            &&& 0 <= g < after.len() < before.len()
            &&& (after.len() - 1) * fan_in < before.len() <= after.len() * fan_in
            &&& group[i % fan_in] == before[i]
            &&& g + 1 < after.len() ==> group.len() == fan_in
            &&& g + 1 == after.len() ==> group.len() == before.len() - g * fan_in
            &&& group.len() == 1 ==> after[g] == before[i]
            &&& group.len() > 1 ==> exists|given: &[CompletedRun]|
                given@ == group && #[trigger] call_ensures(
                    merge,
                    (round as u32, g as usize, given),
                    Ok((after[g], peaks[g])),
                )
        }),
{
    let n = before.len() as int;
    let f = fan_in;
    let g = i / f;
    let k = after.len() as int;
    vstd::arithmetic::div_mod::lemma_fundamental_div_mod(n, f);
    vstd::arithmetic::div_mod::lemma_fundamental_div_mod(i, f);
    let q = n / f;
    let m = n % f;
    assert(k == if m == 0 { q } else { q + 1 });
    assert((k - 1) * f < n <= k * f) by (nonlinear_arith)
        requires
            n == f * q + m,
            0 <= m < f,
            k == (if m == 0 { q } else { q + 1 }),
            n >= 2,
            f >= 2,
    ;
    assert(k < n) by (nonlinear_arith)
        requires
            (k - 1) * f < n,
            f >= 2,
            n >= 2,
    ;
    assert(0 <= g < k) by (nonlinear_arith)
        requires
            i == f * g + i % f,
            0 <= i % f < f,
            0 <= i < n,
            n <= k * f,
            f >= 2,
    ;
    assert(f * g == g * f) by (nonlinear_arith);
    assert(is_group(merge, round, f, before, g, after[g], peaks[g]));
    if g + 1 < k {
        assert((g + 1) * f <= (k - 1) * f) by (nonlinear_arith)
            requires
                g + 1 <= k - 1,
                f >= 2,
        ;
        assert((g + 1) * f == g * f + f) by (nonlinear_arith);
    } else {
        assert((g + 1) * f == g * f + f) by (nonlinear_arith);
        assert((g + 1) * f == k * f);
        if g * f + f == n {
            assert(group_of(before, f, g).len() == f);
        }
    }
    if group_of(before, f, g).len() == 1 {
        assert(group_of(before, f, g)[0] == before[i]);
    }
}

proof fn lemma_progress_folds(batches: Seq<InputBatch>, built: Seq<BatchRun>, n: int)
    requires
        0 <= n <= batches.len(),
        n <= built.len(),
    ensures
        inputs_before(batches, n) == batches.take(n).fold_left(
            0int,
            |sum: int, batch: InputBatch| sum + batch.inputs@.len(),
        ),
        physical_before(built, n) == built.take(n).fold_left(
            0int,
            |sum: int, run: BatchRun| sum + run.physical_rows,
        ),
        duplicates_before(built, n) == built.take(n).fold_left(
            0int,
            |sum: int, run: BatchRun| sum + run.duplicate_rows,
        ),
        forall|i: int|
            0 <= i < n ==> (#[trigger] batches[i]).byte_size <= largest_bytes(batches, n)
                && batches[i].row_count <= largest_rows(batches, n),
        n > 0 ==> exists|i: int|
            0 <= i < n && (#[trigger] batches[i]).byte_size == largest_bytes(batches, n),
        n > 0 ==> exists|i: int|
            0 <= i < n && (#[trigger] batches[i]).row_count == largest_rows(batches, n),
    decreases n,
{
    if n > 0 {
        lemma_progress_folds(batches, built, n - 1);
        assert(batches.take(n).drop_last() =~= batches.take(n - 1));
        assert(built.take(n).drop_last() =~= built.take(n - 1));
        if largest_bytes(batches, n) == batches[n - 1].byte_size {
            assert(batches[n - 1].byte_size == largest_bytes(batches, n));
        } else if n == 1 {
            assert(largest_bytes(batches, 0) == 0);
        }
        if largest_rows(batches, n) == batches[n - 1].row_count {
            assert(batches[n - 1].row_count == largest_rows(batches, n));
        } else if n == 1 {
            assert(largest_rows(batches, 0) == 0);
        }
    }
}

/// The progress of a build adds up the inputs, the rows and the duplicates of
/// its batches, and holds the largest of them.
pub proof fn lemma_progress_adds_batches(
    progress: BatchProgress,
    first: Seq<CompletedRun>,
    batches: Seq<InputBatch>,
    built: Seq<BatchRun>,
)
    requires
        sums_batches(progress, first, batches, built),
        built.len() == batches.len(),
    ensures
        progress.runs@.len() == first.len() + built.len(),
        forall|i: int|
            0 <= i < built.len() ==> progress.runs@[first.len() + i] == (#[trigger] built[i]).run
                && progress.checkpoints@[i] == built[i].run.checkpoint_path,
        progress.offset == batches.fold_left(
            0int,
            |sum: int, batch: InputBatch| sum + batch.inputs@.len(),
        ),
        progress.physical_rows == built.fold_left(
            0int,
            |sum: int, run: BatchRun| sum + run.physical_rows,
        ),
        progress.duplicate_rows == built.fold_left(
            0int,
            |sum: int, run: BatchRun| sum + run.duplicate_rows,
        ),
        forall|i: int|
            0 <= i < batches.len() ==> (#[trigger] batches[i]).byte_size <= progress.max_batch_bytes
                && batches[i].row_count <= progress.max_batch_rows,
        batches.len() > 0 ==> exists|i: int|
            0 <= i < batches.len() && (#[trigger] batches[i]).byte_size
                == progress.max_batch_bytes,
        batches.len() > 0 ==> exists|i: int|
            0 <= i < batches.len() && (#[trigger] batches[i]).row_count == progress.max_batch_rows,
{
    let n = built.len() as int;
    lemma_progress_folds(batches, built, n);
    assert(batches.take(n) =~= batches);
    assert(built.take(n) =~= built);
}

/// Rows that are read are kept, or dropped as duplicates inside a batch or
/// between batches.
pub proof fn lemma_rows_are_kept_or_dropped(
    physical: u64,
    logical: u64,
    batches: u64,
    merges: u64,
    outcome: Result<u64>,
)
    requires
        call_ensures(reconcile_duplicates, (physical, logical, batches, merges), outcome),
    ensures
        outcome is Ok <==> physical == logical + batches + merges,
        outcome is Ok ==> outcome->Ok_0 == batches + merges && outcome->Ok_0 + logical == physical,
{
}

/// A plan carries on from a snapshot where it is incremental, leads from that
/// snapshot to the target, removes nothing and places every added object.
pub proof fn lemma_plan_carries_on(
    plan: &CatalogDeltaPlan,
    target: &str,
    baseline: &str,
    locations: usize,
    advances: bool,
)
    requires
        call_ensures(plan_advances, (plan, target, baseline, locations), advances),
    ensures
        advances <==> {
            &&& plan.run_kind is Incremental
            &&& plan.snapshot_id@ == target@
            &&& plan.previous_snapshot_id is Some
            &&& plan.previous_snapshot_id->0@ == baseline@
            &&& plan.removed_objects@.len() == 0
            &&& plan.added_objects@.len() == locations
        },
{
}

proof fn lemma_input_rows_fold(inputs: Seq<InputIdentity>)
    ensures
        input_rows(inputs) == inputs.fold_left(
            0int,
            |sum: int, input: InputIdentity| sum + input.row_count,
        ),
    decreases inputs.len(),
{
    if inputs.len() > 0 {
        lemma_input_rows_fold(inputs.drop_last());
    }
}

/// The rows that are expected are those of the baseline and of every added
/// input.
pub proof fn lemma_expected_rows_add_up(
    baseline_rows: u64,
    inputs: &Vec<InputIdentity>,
    name: &'static str,
    outcome: Result<u64>,
)
    requires
        call_ensures(estimate_rows, (baseline_rows, inputs, name), outcome),
        outcome is Ok,
    ensures
        outcome->Ok_0 == inputs@.fold_left(
            baseline_rows as int,
            |sum: int, input: InputIdentity| sum + input.row_count,
        ),
{
    lemma_input_rows_fold(inputs@);
    lemma_rows_fold_from(inputs@, baseline_rows as int);
}

proof fn lemma_rows_fold_from(inputs: Seq<InputIdentity>, start: int)
    ensures
        inputs.fold_left(start, |sum: int, input: InputIdentity| sum + input.row_count) == start
            + inputs.fold_left(0int, |sum: int, input: InputIdentity| sum + input.row_count),
    decreases inputs.len(),
{
    if inputs.len() > 0 {
        lemma_rows_fold_from(inputs.drop_last(), start);
    }
}

/// A plan is accepted for a target only where it is incremental, every object
/// that it adds is one of the target's, as it stands there, and the objects that
/// it adds and leaves are all of the target's.
pub proof fn lemma_accepted_plan_leads_to_the_target(
    target: &ResolvedSnapshot,
    plan: &CatalogDeltaPlan,
    locations: usize,
    outcome: Result<()>,
    i: int,
)
    requires
        call_ensures(validate_plan, (target, plan, locations), outcome),
        outcome is Ok,
    ensures
        plan.run_kind is Incremental,
        plan.previous_run_id is Some,
        plan.previous_snapshot_id is Some,
        plan.snapshot_id@ == target.catalog.snapshot_id@,
        plan.removed_objects@.len() == 0,
        plan.added_objects@.len() == locations,
        plan.unchanged_objects + plan.added_objects@.len() == target.catalog.objects@.len(),
        0 <= i < plan.added_objects@.len() ==> exists|j: int|
            {
                let held = #[trigger] target.catalog.objects@[j];
                let added = plan.added_objects@[i];
                &&& 0 <= j < target.catalog.objects@.len()
                &&& held.object_key@ == added.object_key@
                &&& held.work_unit_id@ == added.work_unit_id@
                &&& held.sha256@ == added.sha256@
                &&& held.byte_size == added.byte_size
                &&& held.row_count == added.row_count
            },
        plan.added_bytes == plan.added_objects@.fold_left(
            0int,
            |sum: int, object: CatalogObject| sum + object.byte_size,
        ),
        plan.added_physical_rows == plan.added_objects@.fold_left(
            0int,
            |sum: int, object: CatalogObject| sum + object.row_count,
        ),
{
    lemma_objects_fold(plan.added_objects@);
    if 0 <= i < plan.added_objects@.len() {
        let objects = target.catalog.objects@;
        let added = plan.added_objects@[i];
        assert(holds_object(objects, added));
        let j = choose|j: int| #[trigger]
            is_last_with_key(objects, j, added.object_key@) && crate::incremental::same_object(
                objects[j],
                added,
            );
        assert(objects[j].object_key@ == added.object_key@);
    }
}

proof fn lemma_objects_fold(objects: Seq<CatalogObject>)
    ensures
        crate::plan::total_bytes(objects) == objects.fold_left(
            0int,
            |sum: int, object: CatalogObject| sum + object.byte_size,
        ),
        crate::plan::total_object_rows(objects) == objects.fold_left(
            0int,
            |sum: int, object: CatalogObject| sum + object.row_count,
        ),
    decreases objects.len(),
{
    if objects.len() > 0 {
        lemma_objects_fold(objects.drop_last());
    }
}

/// A build of activity needs room for the 70 bytes of every row in every
/// generation of its runs, and for 33 bytes of flags. One of distinct publishers
/// needs 38 bytes, and 128 for the sketches.
pub proof fn lemma_builds_need_room(
    rows: u64,
    runs: usize,
    fan_in: usize,
    activity: Result<u64>,
    flexible: Result<u64>,
)
    requires
        call_ensures(crate::activity_build::estimate_run_bytes, (rows, runs, fan_in), activity),
        call_ensures(crate::flexible_build::estimate_run_bytes, (rows, runs, fan_in), flexible),
        fan_in >= 2,
    ensures
        activity is Ok ==> activity->Ok_0 == rows * (70 * generations(
            runs as int,
            fan_in as int,
        ) + 33),
        flexible is Ok && rows * 128 <= u64::MAX ==> flexible->Ok_0 == rows * (38 * generations(
            runs as int,
            fan_in as int,
        ) + 128),
{
    let g = generations(runs as int, fan_in as int) as int;
    let r = rows as int;
    lemma_one_generation(runs as int, fan_in as int);
    assert(r * 70 * g + r * 33 == r * (70 * g + 33)) by (nonlinear_arith);
    assert(r * 38 * g + r * 128 == r * (38 * g + 128)) by (nonlinear_arith);
    assert(r * 70 * g >= r * 70) by (nonlinear_arith)
        requires
            g >= 1,
            r >= 0,
    ;
}

proof fn lemma_one_generation(runs: int, fan_in: int)
    ensures
        generations(runs, fan_in) >= 1,
    decreases runs,
{
    if runs > 1 && fan_in >= 2 && div_up(runs, fan_in) < runs {
        lemma_one_generation(div_up(runs, fan_in), fan_in);
    }
}

} // verus!
