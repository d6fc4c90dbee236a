//! What a plan does with each object.

use vstd::prelude::*;

use crate::artifact::CatalogObject;
use crate::input::CatalogSnapshot;
use crate::plan::{
    has_key, is_changed, is_difference, is_known, ledger, new_objects, plans, total_bytes,
    total_object_rows, usable, AppliedObject, Baseline, CatalogDeltaPlan,
};

verus! {

/// An object of the snapshot has the key.
pub open spec fn in_snapshot(objects: Seq<CatalogObject>, key: Seq<char>) -> bool {
    exists|i: int| 0 <= i < objects.len() && (#[trigger] objects[i]).object_key@ == key
}

/// An object of the ledger has the key.
pub open spec fn in_ledger(applied: Seq<AppliedObject>, key: Seq<char>) -> bool {
    exists|i: int| 0 <= i < applied.len() && (#[trigger] applied[i]).object_key@ == key
}

/// No two objects have the same key.
pub open spec fn keys_differ(objects: Seq<CatalogObject>) -> bool {
    forall|i: int, j: int|
        0 <= i < j < objects.len() ==> (#[trigger] objects[i]).object_key@ != (
        #[trigger] objects[j]).object_key@
}

/// The ledger knows exactly the keys of its objects.
proof fn lemma_ledger_keys(applied: Seq<AppliedObject>, key: Seq<char>)
    ensures
        ledger(applied).contains_key(key) <==> in_ledger(applied, key),
        ledger(applied).contains_key(key) ==> exists|i: int|
            0 <= i < applied.len() && #[trigger] applied[i] == ledger(applied)[key]
                && applied[i].object_key@ == key,
    decreases applied.len(),
{
    if applied.len() > 0 {
        let fewer = applied.drop_last();
        lemma_ledger_keys(fewer, key);
        let last = applied.len() - 1;
        if applied[last].object_key@ == key {
            assert(applied[last] == ledger(applied)[key]);
        } else if ledger(fewer).contains_key(key) {
            let i = choose|i: int|
                0 <= i < fewer.len() && #[trigger] fewer[i] == ledger(fewer)[key]
                    && fewer[i].object_key@ == key;
            assert(applied[i] == fewer[i]);
        }
        if in_ledger(applied, key) && applied[last].object_key@ != key {
            let i = choose|i: int|
                0 <= i < applied.len() && (#[trigger] applied[i]).object_key@ == key;
            assert(fewer[i].object_key@ == key);
        }
    }
}

/// New objects are those that the ledger does not know.
proof fn lemma_new(
    objects: Seq<CatalogObject>,
    applied: Seq<AppliedObject>,
    count: int,
    object: CatalogObject,
)
    requires
        keys_differ(objects),
        0 <= count <= objects.len(),
    ensures
        new_objects(objects, ledger(applied), count).contains(object) <==> exists|i: int|
            0 <= i < count && #[trigger] objects[i] == object && !in_ledger(
                applied,
                objects[i].object_key@,
            ),
        new_objects(objects, ledger(applied), count).len() <= count,
    decreases count,
{
    let made = new_objects(objects, ledger(applied), count);
    if count > 0 {
        let last = count - 1;
        let before = new_objects(objects, ledger(applied), last);
        lemma_new(objects, applied, last, object);
        lemma_ledger_keys(applied, objects[last].object_key@);
        if has_key(objects, last, objects[last].object_key@) {
            let j = choose|j: int|
                0 <= j < last && #[trigger] objects[j].object_key@ == objects[last].object_key@;
            assert(objects[j].object_key@ != objects[last].object_key@);
        }
        if made.contains(object) {
            let k = choose|k: int| 0 <= k < made.len() && made[k] == object;
            if k < before.len() {
                assert(before[k] == object);
                let i = choose|i: int|
                    0 <= i < last && #[trigger] objects[i] == object && !in_ledger(
                        applied,
                        objects[i].object_key@,
                    );
                assert(objects[i] == object);
            } else {
                assert(objects[last] == object);
            }
        }
        if exists|i: int|
            0 <= i < count && #[trigger] objects[i] == object && !in_ledger(
                applied,
                objects[i].object_key@,
            ) {
            let i = choose|i: int|
                0 <= i < count && #[trigger] objects[i] == object && !in_ledger(
                    applied,
                    objects[i].object_key@,
                );
            if i < last {
                let k = choose|k: int| 0 <= k < before.len() && before[k] == object;
                assert(made[k] == object);
            } else {
                assert(made[made.len() - 1] == object);
            }
        }
    }
}

/// Behind a run of the same queries, a plan adds exactly the objects whose key
/// the ledger does not know, removes those of the ledger whose key the snapshot
/// lacks, and keeps the rest unchanged: with the same work unit, digest, size
/// and rows.
pub proof fn lemma_plan_parts_objects(
    snapshot: CatalogSnapshot,
    baseline: Baseline,
    query_version: Seq<char>,
    plan: CatalogDeltaPlan,
    i: int,
    key: Seq<char>,
)
    requires
        plans(snapshot, Some(baseline), query_version, Ok(plan)),
        baseline.query_version@ == query_version,
        keys_differ(snapshot.objects@),
        0 <= i < snapshot.objects@.len(),
    ensures
        ({
            let object = snapshot.objects@[i];
            let known = in_ledger(baseline.objects@, object.object_key@);
            &&& plan.added_objects@.contains(object) <==> !known
            &&& known ==> exists|j: int|
                {
                    &&& 0 <= j < baseline.objects@.len()
                    &&& (#[trigger] baseline.objects@[j]).object_key@ == object.object_key@
                    &&& baseline.objects@[j].work_unit_id@ == object.work_unit_id@
                    &&& baseline.objects@[j].sha256@ == object.sha256@
                    &&& baseline.objects@[j].byte_size == object.byte_size
                    &&& baseline.objects@[j].physical_rows == object.row_count
                }
            &&& in_ledger(baseline.objects@, key) && !in_snapshot(snapshot.objects@, key)
                <==> exists|r: int|
                0 <= r < plan.removed_objects@.len() && (
                #[trigger] plan.removed_objects@[r]).object_key@ == key
            &&& plan.unchanged_objects + plan.added_objects@.len() == snapshot.objects@.len()
            &&& plan.previous_run_id == Some(baseline.run_id)
            &&& plan.previous_snapshot_id == Some(baseline.snapshot_id)
        }),
{
    let objects = snapshot.objects@;
    let object = objects[i];
    let applied = baseline.objects@;
    let map = ledger(applied);
    assert(usable(Some(baseline), query_version));
    assert(is_difference(plan, snapshot, baseline));
    lemma_new(objects, applied, objects.len() as int, object);
    lemma_ledger_keys(applied, object.object_key@);
    lemma_ledger_keys(applied, key);
    if plan.added_objects@.contains(object) {
        let k = choose|k: int|
            0 <= k < objects.len() && #[trigger] objects[k] == object && !in_ledger(
                applied,
                objects[k].object_key@,
            );
    }
    if in_ledger(applied, object.object_key@) {
        assert(!has_key(objects, i, object.object_key@)) by {
            if has_key(objects, i, object.object_key@) {
                let j = choose|j: int|
                    0 <= j < i && #[trigger] objects[j].object_key@ == object.object_key@;
                assert(objects[j].object_key@ != objects[i].object_key@);
            }
        }
        assert(is_known(objects, map, i));
        assert(!is_changed(objects, map, i));
        let j = choose|j: int|
            0 <= j < applied.len() && #[trigger] applied[j] == map[object.object_key@]
                && applied[j].object_key@ == object.object_key@;
        assert(applied[j].object_key@ == object.object_key@);
    } else {
        assert(objects[i] == object);
    }
    assert(has_key(objects, objects.len() as int, key) <==> in_snapshot(objects, key)) by {
        if has_key(objects, objects.len() as int, key) {
            let j = choose|j: int|
                0 <= j < objects.len() && #[trigger] objects[j].object_key@ == key;
            assert(objects[j].object_key@ == key);
        }
    }
    let removed = plan.removed_objects@;
    if in_ledger(applied, key) && !in_snapshot(objects, key) {
        assert(map.contains_key(key));
        assert(removed.contains(map[key]));
        let r = choose|r: int| 0 <= r < removed.len() && removed[r] == map[key];
        let j = choose|j: int|
            0 <= j < applied.len() && #[trigger] applied[j] == map[key] && applied[j].object_key@
                == key;
        assert(removed[r].object_key@ == key);
    }
    if exists|r: int| 0 <= r < removed.len() && (#[trigger] removed[r]).object_key@ == key {
        let r = choose|r: int| 0 <= r < removed.len() && (#[trigger] removed[r]).object_key@
            == key;
        assert(map.contains_key(removed[r].object_key@));
    }
}

/// Without a run of the same queries everything is built anew; else removals
/// rebuild what they affect, additions alone are taken in, and no change needs
/// no run.
pub proof fn lemma_plan_chooses_the_run(
    snapshot: CatalogSnapshot,
    published: Option<Baseline>,
    query_version: Seq<char>,
    plan: CatalogDeltaPlan,
)
    requires
        plans(snapshot, published, query_version, Ok(plan)),
    ensures
        published is None || published->0.query_version@ != query_version ==> plan.run_kind
            is FullRebuild && plan.added_objects@ == snapshot.objects@
            && plan.removed_objects@.len() == 0 && plan.previous_run_id is None,
        published is Some && published->0.query_version@ == query_version ==> {
            &&& plan.run_kind is AffectedPeriodRebuild <==> plan.removed_objects@.len() > 0
            &&& plan.run_kind is Incremental <==> plan.removed_objects@.len() == 0
                && plan.added_objects@.len() > 0
            &&& plan.run_kind is NoChange <==> plan.removed_objects@.len() == 0
                && plan.added_objects@.len() == 0
        },
        plan.snapshot_id == snapshot.snapshot_id,
{
    if published is Some && published->0.query_version@ == query_version {
        assert(usable(published, query_version));
    }
}

/// The totals of a plan add up the bytes and rows of the added objects.
pub proof fn lemma_totals_add_objects(objects: Seq<CatalogObject>, object: CatalogObject)
    ensures
        total_bytes(Seq::empty()) == 0,
        total_object_rows(Seq::empty()) == 0,
        total_bytes(objects.push(object)) == total_bytes(objects) + object.byte_size,
        total_object_rows(objects.push(object)) == total_object_rows(objects) + object.row_count,
{
    assert(objects.push(object).drop_last() =~= objects);
}

} // verus!
