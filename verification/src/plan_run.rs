//! Planning a catalog against the ledger.

use vstd::prelude::*;
use vstd::string::*;

use crate::error::{Error, Result};
use crate::input::CatalogSnapshot;
use crate::plan::{
    applied_object, decoded, plan_from_baseline, plans, AppliedColumns, AppliedObject, Baseline,
    CatalogDeltaPlan,
};
use crate::text::copy_optional;

verus! {

/// The run that is current.
pub struct PublishedRun {
    /// Deterministic run identifier.
    pub run_id: String,
    /// Snapshot of the run.
    pub snapshot_id: String,
    /// Version of the queries that made it.
    pub query_version: String,
}

/// `objects` are those that the columns hold.
pub open spec fn decodes(columns: Seq<AppliedColumns>, objects: Seq<AppliedObject>) -> bool {
    &&& objects.len() == columns.len()
    &&& forall|i: int|
        0 <= i < columns.len() ==> decoded(columns[i]) == Ok::<AppliedObject, Error>(
            #[trigger] objects[i],
        )
}

/// The columns of an object hold none; `error` is that of the first.
pub open spec fn undecodable(columns: Seq<AppliedColumns>, error: Error) -> bool {
    exists|i: int|
        {
            &&& 0 <= i < columns.len()
            &&& decoded(#[trigger] columns[i]) == Err::<AppliedObject, Error>(error)
            &&& forall|j: int| 0 <= j < i ==> decoded(#[trigger] columns[j]) is Ok
        }
}

/// Decode the objects of a run.
fn decode_objects(columns: Vec<AppliedColumns>) -> (outcome: Result<Vec<AppliedObject>>)
    ensures
        match outcome {
            Ok(objects) => decodes(columns@, objects@),
            Err(error) => undecodable(columns@, error),
        },
{
    let ghost all = columns@;
    let mut objects: Vec<AppliedObject> = Vec::new();
    let mut i: usize = 0;
    while i < columns.len()
        invariant
            i <= columns@.len(),
            all == columns@,
            objects@.len() == i,
            forall|j: int|
                0 <= j < i ==> decoded(all[j]) == Ok::<AppliedObject, Error>(
                    #[trigger] objects@[j],
                ),
        decreases columns.len() - i,
    {
        let own: AppliedColumns = copy_columns(&columns[i]);
        match applied_object(own) {
            Ok(object) => {
                objects.push(object);
            },
            Err(error) => {
                proof {
                    assert(decoded(all[i as int]) == Err::<AppliedObject, Error>(error));
                    assert forall|j: int| 0 <= j < i implies decoded(#[trigger] all[j]) is Ok by {
                        assert(decoded(all[j]) == Ok::<AppliedObject, Error>(objects@[j]));
                    }
                }
                return Err(error);
            },
        }
        i += 1;
    }
    Ok(objects)
}

/// A copy of the columns of an object.
fn copy_columns(columns: &AppliedColumns) -> (copy: AppliedColumns)
    ensures
        copy == *columns,
{
    AppliedColumns {
        object_key: columns.object_key.clone(),
        work_unit_id: columns.work_unit_id.clone(),
        sha256: columns.sha256.clone(),
        byte_size: columns.byte_size,
        physical_rows: columns.physical_rows,
        min_created_at: copy_optional(&columns.min_created_at),
        max_created_at: copy_optional(&columns.max_created_at),
    }
}

/// `baseline` is the run with its objects.
pub open spec fn is_baseline_of(
    baseline: Baseline,
    run: PublishedRun,
    objects: Seq<AppliedObject>,
) -> bool {
    &&& baseline.run_id == run.run_id
    &&& baseline.snapshot_id == run.snapshot_id
    &&& baseline.query_version == run.query_version
    &&& baseline.objects@ == objects
}

/// Reading the objects of the run gives `read`.
pub open spec fn objects_give<O: Fn(&str) -> Result<Vec<AppliedColumns>>>(
    objects: O,
    run_id: Seq<char>,
    read: Result<Vec<AppliedColumns>>,
) -> bool {
    exists|id: &str| id@ == run_id && #[trigger] call_ensures(objects, (id,), read)
}

/// What planning behind the current run comes to.
pub open spec fn plans_behind<O: Fn(&str) -> Result<Vec<AppliedColumns>>>(
    objects: O,
    snapshot: CatalogSnapshot,
    run: PublishedRun,
    query_version: Seq<char>,
    outcome: Result<CatalogDeltaPlan>,
) -> bool {
    exists|read: Result<Vec<AppliedColumns>>| #[trigger]
        objects_give(objects, run.run_id@, read) && match read {
            Err(error) => outcome == Err::<CatalogDeltaPlan, Error>(error),
            Ok(columns) => {
                ||| outcome is Err && undecodable(columns@, outcome->Err_0)
                ||| exists|baseline: Baseline| #[trigger]
                    plans(snapshot, Some(baseline), query_version, outcome) && decodes(
                        columns@,
                        baseline.objects@,
                    ) && is_baseline_of(baseline, run, baseline.objects@)
            },
        }
}

/// What comparing the ledger with a catalog comes to.
pub open spec fn plans_delta<
    C: Fn() -> Result<Option<PublishedRun>>,
    O: Fn(&str) -> Result<Vec<AppliedColumns>>,
>(
    current: C,
    objects: O,
    snapshot: CatalogSnapshot,
    query_version: Seq<char>,
    outcome: Result<CatalogDeltaPlan>,
) -> bool {
    exists|read: Result<Option<PublishedRun>>| #[trigger]
        call_ensures(current, (), read) && match read {
            Err(error) => outcome == Err::<CatalogDeltaPlan, Error>(error),
            Ok(None) => plans(snapshot, None, query_version, outcome),
            Ok(Some(run)) => plans_behind(objects, snapshot, run, query_version, outcome),
        }
}

/// Plan behind the current run.
fn plan_behind<O: Fn(&str) -> Result<Vec<AppliedColumns>>>(
    objects: &O,
    snapshot: &CatalogSnapshot,
    run: PublishedRun,
    query_version: &str,
) -> (outcome: Result<CatalogDeltaPlan>)
    requires
        forall|run_id: &str| #[trigger] call_requires(*objects, (run_id,)),
    ensures
        plans_behind(*objects, *snapshot, run, query_version@, outcome),
{
    let ghost given = run;
    let columns: Vec<AppliedColumns> = match objects(run.run_id.as_str()) {
        Ok(columns) => columns,
        Err(error) => {
            assert(objects_give(*objects, run.run_id@, Err(error)));
            return Err(error);
        },
    };
    assert(objects_give(*objects, run.run_id@, Ok(columns)));
    let ghost read = columns;
    let applied: Vec<AppliedObject> = match decode_objects(columns) {
        Ok(applied) => applied,
        Err(error) => {
            return Err(error);
        },
    };
    let baseline: Baseline = Baseline {
        run_id: run.run_id,
        snapshot_id: run.snapshot_id,
        query_version: run.query_version,
        objects: applied,
    };
    let ghost held = baseline;
    assert(decodes(read@, held.objects@));
    assert(is_baseline_of(held, given, held.objects@));
    let outcome: Result<CatalogDeltaPlan> = plan_from_baseline(
        snapshot,
        Some(baseline),
        query_version,
    );
    assert(plans(*snapshot, Some(held), query_version@, outcome));
    outcome
}

/// Compare the ledger with a catalog.
///
/// `current` reads the current run, and `objects` the objects of a run.
pub fn plan_catalog_delta<
    C: Fn() -> Result<Option<PublishedRun>>,
    O: Fn(&str) -> Result<Vec<AppliedColumns>>,
>(snapshot: &CatalogSnapshot, query_version: &str, current: &C, objects: &O) -> (outcome: Result<
    CatalogDeltaPlan,
>)
    requires
        call_requires(*current, ()),
        forall|run_id: &str| #[trigger] call_requires(*objects, (run_id,)),
    ensures
        plans_delta(*current, *objects, *snapshot, query_version@, outcome),
{
    match current() {
        Ok(Some(run)) => {
            let ghost given = run;
            assert(call_ensures(*current, (), Ok(Some(given))));
            let outcome: Result<CatalogDeltaPlan> = plan_behind(
                objects,
                snapshot,
                run,
                query_version,
            );
            assert(plans_behind(*objects, *snapshot, given, query_version@, outcome));
            outcome
        },
        Ok(None) => {
            assert(call_ensures(*current, (), Ok(None)));
            plan_from_baseline(snapshot, None, query_version)
        },
        Err(error) => {
            assert(call_ensures(*current, (), Err(error)));
            Err(error)
        },
    }
}

} // verus!
