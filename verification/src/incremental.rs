//! Decisions of an incremental update to one durable checkpoint.
//!
//! The update runs in one transaction of the query engine. What it found comes
//! in as counts; whether it may go on, what it must do first and how it ends
//! are decided here.

use vstd::prelude::*;

use crate::artifact::CatalogObject;
use crate::error::{Error, Result};
use crate::input::{ObjectLocation, ResolvedSnapshot};
use crate::plan::{total_bytes, total_object_rows, CatalogDeltaPlan, PlannedRunKind};
use crate::text::{optional_text, optional_text_equal, text_equal};
use crate::text_map::TextMap;

verus! {

/// Work performed while advancing one checkpoint.
#[derive(Clone, Copy, Debug, PartialEq, Eq, Structural)]
pub struct IncrementalSummary {
    /// Physical rows asserted by the added catalog objects.
    pub delta_physical_rows: u64,
    /// Distinct event IDs within the delta.
    pub delta_logical_events: u64,
    /// Duplicate physical rows within the delta.
    pub delta_internal_duplicates: u64,
    /// Delta IDs already represented by the checkpoint.
    pub existing_events: u64,
    /// Event IDs newly inserted into the checkpoint.
    pub inserted_events: u64,
    /// Whether the checkpoint already represented the target snapshot.
    pub already_applied: bool,
}

/// The state that a checkpoint records of itself.
#[derive(Clone, Debug, PartialEq, Eq)]
pub struct CheckpointState {
    /// Snapshot that the checkpoint represents.
    pub snapshot_id: String,
    /// Boundary that it was made for.
    pub as_of_epoch: u64,
    /// Version of the queries that made it.
    pub query_version: String,
}

/// Where an update starts.
#[derive(Clone, Copy, Debug, PartialEq, Eq, Structural)]
pub enum IncrementalStart {
    /// The checkpoint represents the target already.
    AlreadyApplied(IncrementalSummary),
    /// The checkpoint records no state yet; it must hold this many physical rows.
    Initialize {
        /// Physical rows of the baseline.
        baseline_physical_rows: u64,
    },
    /// The checkpoint represents the baseline.
    Resume,
}

/// The objects agree in every field.
pub open spec fn same_object(a: CatalogObject, b: CatalogObject) -> bool {
    &&& a.object_key@ == b.object_key@
    &&& a.work_unit_id@ == b.work_unit_id@
    &&& a.sha256@ == b.sha256@
    &&& a.byte_size == b.byte_size
    &&& a.row_count == b.row_count
    &&& optional_text(a.min_created_at) == optional_text(b.min_created_at)
    &&& optional_text(a.max_created_at) == optional_text(b.max_created_at)
}

/// Whether the objects agree in every field.
fn objects_equal(a: &CatalogObject, b: &CatalogObject) -> (same: bool)
    ensures
        same == same_object(*a, *b),
{
    text_equal(a.object_key.as_str(), b.object_key.as_str()) && text_equal(
        a.work_unit_id.as_str(),
        b.work_unit_id.as_str(),
    ) && text_equal(a.sha256.as_str(), b.sha256.as_str()) && a.byte_size == b.byte_size
        && a.row_count == b.row_count && optional_text_equal(&a.min_created_at, &b.min_created_at)
        && optional_text_equal(&a.max_created_at, &b.max_created_at)
}

/// Object `j` is the last with its key.
pub open spec fn is_last_with_key(objects: Seq<CatalogObject>, j: int, key: Seq<char>) -> bool {
    &&& 0 <= j < objects.len()
    &&& objects[j].object_key@ == key
    &&& forall|k: int| j < k < objects.len() ==> (#[trigger] objects[k]).object_key@ != key
}

/// The catalog holds exactly this object under its key.
pub open spec fn holds_object(objects: Seq<CatalogObject>, object: CatalogObject) -> bool {
    exists|j: int| #[trigger]
        is_last_with_key(objects, j, object.object_key@) && same_object(objects[j], object)
}

/// The last place of every key.
fn index_objects(objects: &Vec<CatalogObject>) -> (map: TextMap<usize>)
    ensures
        map.wf(),
        forall|key: Seq<char>| #[trigger]
            map.map().contains_key(key) ==> is_last_with_key(
                objects@,
                map.map()[key] as int,
                key,
            ),
        forall|j: int|
            0 <= j < objects@.len() ==> map.map().contains_key(
                (#[trigger] objects@[j]).object_key@,
            ),
{
    let mut map: TextMap<usize> = TextMap::new();
    let mut i: usize = 0;
    while i < objects.len()
        invariant
            i <= objects@.len(),
            map.wf(),
            forall|key: Seq<char>| #[trigger]
                map.map().contains_key(key) ==> is_last_with_key(
                    objects@.take(i as int),
                    map.map()[key] as int,
                    key,
                ),
            forall|j: int|
                0 <= j < i ==> map.map().contains_key((#[trigger] objects@[j]).object_key@),
        decreases objects.len() - i,
    {
        let ghost before = map.map();
        let ghost name = objects@[i as int].object_key@;
        map.insert(objects[i].object_key.clone(), i);
        proof {
            let less = objects@.take(i as int);
            let more = objects@.take(i + 1);
            assert forall|key: Seq<char>| #[trigger] map.map().contains_key(key) implies is_last_with_key(
                more,
                map.map()[key] as int,
                key,
            ) by {
                if key != name {
                    assert(before.contains_key(key));
                    let at = before[key] as int;
                    assert(is_last_with_key(less, at, key));
                    assert forall|k: int| at < k < more.len() implies (
                    #[trigger] more[k]).object_key@ != key by {
                        if k < i {
                            assert(less[k] == more[k]);
                        }
                    }
                    assert(more[at] == less[at]);
                }
            }
        }
        i += 1;
    }
    assert(objects@.take(objects@.len() as int) =~= objects@);
    map
}

/// The plan is an incremental one with a baseline and without removals.
pub open spec fn is_incremental(plan: CatalogDeltaPlan) -> bool {
    &&& plan.run_kind == PlannedRunKind::Incremental
    &&& plan.previous_run_id is Some
    &&& plan.previous_snapshot_id is Some
    &&& plan.removed_objects@.len() == 0
}

/// The added objects of the plan stand in the target.
pub open spec fn objects_linked(
    target: ResolvedSnapshot,
    plan: CatalogDeltaPlan,
    locations: int,
) -> bool {
    &&& is_incremental(plan)
    &&& plan.snapshot_id@ == target.catalog.snapshot_id@
    &&& locations == plan.added_objects@.len()
    &&& forall|i: int|
        0 <= i < plan.added_objects@.len() ==> holds_object(
            target.catalog.objects@,
            #[trigger] plan.added_objects@[i],
        )
}

/// The objects of the plan lead to the target.
pub open spec fn plan_linked(
    target: ResolvedSnapshot,
    plan: CatalogDeltaPlan,
    locations: int,
) -> bool {
    &&& objects_linked(target, plan, locations)
    &&& plan.unchanged_objects + plan.added_objects@.len() == target.catalog.objects@.len()
}

/// The plan leads to the target with the given number of staged objects, and
/// its totals are those of the added objects.
pub open spec fn plan_fits(
    target: ResolvedSnapshot,
    plan: CatalogDeltaPlan,
    locations: int,
) -> bool {
    &&& plan_linked(target, plan, locations)
    &&& plan.added_bytes == total_bytes(plan.added_objects@)
    &&& plan.added_physical_rows == total_object_rows(plan.added_objects@)
}

/// A total of the objects leaves the `u64` range.
pub open spec fn totals_overflow(objects: Seq<CatalogObject>) -> bool {
    total_bytes(objects) > u64::MAX || total_object_rows(objects) > u64::MAX
}

/// How a plan that does not fit is reported.
pub open spec fn plan_refused(
    target: ResolvedSnapshot,
    plan: CatalogDeltaPlan,
    locations: int,
    error: Error,
) -> bool {
    if objects_linked(target, plan, locations) && plan.unchanged_objects
        + plan.added_objects@.len() > u64::MAX {
        error is PlanOverflow
    } else if plan_linked(target, plan, locations) && totals_overflow(plan.added_objects@) {
        error is PlanOverflow
    } else {
        error is InvalidIncrementalPlan
    }
}

/// What is at the path of an added object.
#[derive(Clone, Debug, PartialEq, Eq)]
pub struct StagedObject {
    /// Path of the object.
    pub path: String,
    /// The file there, if any.
    pub file: Option<StagedFile>,
}

/// A staged file.
#[derive(Clone, Debug, PartialEq, Eq)]
pub struct StagedFile {
    /// Size in bytes.
    pub byte_size: u64,
    /// Hexadecimal SHA-256 digest of the bytes.
    pub sha256: String,
}

/// The staged file is the object.
pub open spec fn is_staged(staged: StagedObject, object: CatalogObject) -> bool {
    &&& staged.file is Some
    &&& staged.file->0.byte_size == object.byte_size
    &&& staged.file->0.sha256@ == object.sha256@
}

/// The first `count` added objects are staged.
pub open spec fn all_staged(
    staged: Seq<StagedObject>,
    objects: Seq<CatalogObject>,
    count: int,
) -> bool {
    forall|i: int| 0 <= i < count ==> #[trigger] is_staged(staged[i], objects[i])
}

/// The locations are those of the staged objects.
pub open spec fn are_staged(locations: Seq<ObjectLocation>, staged: Seq<StagedObject>) -> bool {
    &&& locations.len() == staged.len()
    &&& forall|i: int|
        0 <= i < staged.len() ==> (#[trigger] locations[i]) is Local && locations[i].address()
            == staged[i].path@
}

/// Resolve and validate the locally staged objects named by a plan.
pub fn resolve_delta_locations(plan: &CatalogDeltaPlan, staged: &Vec<StagedObject>) -> (outcome:
    Result<Vec<ObjectLocation>>)
    requires
        staged@.len() == plan.added_objects@.len(),
    ensures
        outcome is Ok <==> all_staged(staged@, plan.added_objects@, staged@.len() as int),
        match outcome {
            Ok(locations) => are_staged(locations@, staged@),
            Err(error) => exists|i: int|
                {
                    &&& 0 <= i < staged@.len()
                    &&& all_staged(staged@, plan.added_objects@, i)
                    &&& !#[trigger] is_staged(staged@[i], plan.added_objects@[i])
                    &&& if staged@[i].file is None {
                        error == Error::MissingLocalObject(staged@[i].path)
                    } else {
                        error is InvalidIncrementalPlan
                    }
                },
        },
{
    let mut locations: Vec<ObjectLocation> = Vec::new();
    let mut i: usize = 0;
    while i < staged.len()
        invariant
            i <= staged@.len(),
            staged@.len() == plan.added_objects@.len(),
            all_staged(staged@, plan.added_objects@, i as int),
            are_staged(locations@, staged@.take(i as int)),
        decreases staged.len() - i,
    {
        let object: &CatalogObject = &plan.added_objects[i];
        match &staged[i].file {
            None => {
                let path: String = staged[i].path.clone();
                assert(!is_staged(staged@[i as int], plan.added_objects@[i as int]));
                return Err(Error::MissingLocalObject(path));
            },
            Some(file) => {
                if file.byte_size != object.byte_size {
                    assert(!is_staged(staged@[i as int], plan.added_objects@[i as int]));
                    return Err(
                        Error::InvalidIncrementalPlan("staged object has another size"),
                    );
                }
                if !text_equal(file.sha256.as_str(), object.sha256.as_str()) {
                    assert(!is_staged(staged@[i as int], plan.added_objects@[i as int]));
                    return Err(
                        Error::InvalidIncrementalPlan("staged object has another SHA-256"),
                    );
                }
            },
        }
        locations.push(ObjectLocation::Local(staged[i].path.clone()));
        i += 1;
    }
    assert(staged@.take(staged@.len() as int) =~= staged@);
    Ok(locations)
}

/// Check that a plan can drive an incremental update.
pub fn validate_plan(
    target: &ResolvedSnapshot,
    plan: &CatalogDeltaPlan,
    locations: usize,
) -> (outcome: Result<()>)
    ensures
        outcome is Ok <==> plan_fits(*target, *plan, locations as int),
        outcome is Err ==> plan_refused(*target, *plan, locations as int, outcome->Err_0),
{
    if plan.run_kind != PlannedRunKind::Incremental || plan.previous_run_id.is_none()
        || plan.previous_snapshot_id.is_none() || plan.removed_objects.len() > 0 {
        return Err(
            Error::InvalidIncrementalPlan(
                "executor requires an incremental plan with a published baseline and no removals",
            ),
        );
    }
    if !text_equal(plan.snapshot_id.as_str(), target.catalog.snapshot_id.as_str()) {
        return Err(
            Error::InvalidIncrementalPlan("plan targets another snapshot than the catalog"),
        );
    }
    if locations != plan.added_objects.len() {
        return Err(
            Error::InvalidIncrementalPlan("delta locations do not match the added objects"),
        );
    }
    let index: TextMap<usize> = index_objects(&target.catalog.objects);
    let ghost objects = target.catalog.objects@;
    let mut i: usize = 0;
    while i < plan.added_objects.len()
        invariant
            i <= plan.added_objects@.len(),
            objects == target.catalog.objects@,
            index.wf(),
            forall|key: Seq<char>| #[trigger]
                index.map().contains_key(key) ==> is_last_with_key(
                    objects,
                    index.map()[key] as int,
                    key,
                ),
            forall|j: int|
                0 <= j < objects.len() ==> index.map().contains_key(
                    (#[trigger] objects[j]).object_key@,
                ),
            forall|j: int|
                0 <= j < i ==> holds_object(objects, #[trigger] plan.added_objects@[j]),
        decreases plan.added_objects.len() - i,
    {
        let object: &CatalogObject = &plan.added_objects[i];
        let ghost key = object.object_key@;
        let held: bool = match index.find(object.object_key.as_str()) {
            None => {
                assert(!holds_object(objects, *object)) by {
                    if holds_object(objects, *object) {
                        let j = choose|j: int| #[trigger]
                            is_last_with_key(objects, j, key) && same_object(objects[j], *object);
                        assert(index.map().contains_key(objects[j].object_key@));
                    }
                }
                false
            },
            Some(place) => {
                let at: usize = index.entries[place].1;
                assert(is_last_with_key(objects, at as int, key));
                let same: bool = objects_equal(&target.catalog.objects[at], object);
                proof {
                    if holds_object(objects, *object) {
                        let j = choose|j: int| #[trigger]
                            is_last_with_key(objects, j, key) && same_object(objects[j], *object);
                        if j < at {
                            assert(objects[at as int].object_key@ != key);
                        }
                        if at < j {
                            assert(objects[j].object_key@ != key);
                        }
                    }
                }
                same
            },
        };
        assert(held == holds_object(objects, plan.added_objects@[i as int]));
        if !held {
            return Err(
                Error::InvalidIncrementalPlan(
                    "an added object does not exactly match the target catalog",
                ),
            );
        }
        i += 1;
    }
    let object_count: u64 = target.catalog.objects.len() as u64;
    let added_count: u64 = plan.added_objects.len() as u64;
    match plan.unchanged_objects.checked_add(added_count) {
        None => {
            return Err(Error::PlanOverflow("target object count"));
        },
        Some(covered) => {
            if covered != object_count {
                return Err(
                    Error::InvalidIncrementalPlan(
                        "unchanged and added object counts do not cover the target catalog",
                    ),
                );
            }
        },
    }
    validate_added_totals(&plan.added_objects, plan)
}

/// Check the totals of a plan against its added objects.
pub fn validate_added_totals(objects: &Vec<CatalogObject>, plan: &CatalogDeltaPlan) -> (outcome:
    Result<()>)
    ensures
        outcome is Ok <==> plan.added_bytes == total_bytes(objects@) && plan.added_physical_rows
            == total_object_rows(objects@),
        outcome is Err ==> if totals_overflow(objects@) {
            outcome->Err_0 is PlanOverflow
        } else {
            outcome->Err_0 is InvalidIncrementalPlan
        },
{
    match crate::plan::sum_added(objects) {
        Err(error) => Err(error),
        Ok((bytes, rows)) => {
            if bytes != plan.added_bytes || rows != plan.added_physical_rows {
                Err(
                    Error::InvalidIncrementalPlan(
                        "added object totals do not match plan accounting",
                    ),
                )
            } else {
                Ok(())
            }
        },
    }
}

/// Physical rows of the baseline: those of the target without the added ones.
pub fn baseline_physical_rows(target: &ResolvedSnapshot, plan: &CatalogDeltaPlan) -> (rows: Result<
    u64,
>)
    ensures
        plan.added_physical_rows <= target.catalog.physical_rows ==> rows == Ok::<u64, Error>(
            (target.catalog.physical_rows - plan.added_physical_rows) as u64,
        ),
        plan.added_physical_rows > target.catalog.physical_rows ==> rows == Err::<u64, Error>(
            Error::PlanOverflow("baseline physical rows"),
        ),
{
    match target.catalog.physical_rows.checked_sub(plan.added_physical_rows) {
        Some(rows) => Ok(rows),
        None => Err(Error::PlanOverflow("baseline physical rows")),
    }
}

/// What a valid update starts with.
pub open spec fn starts(
    target: ResolvedSnapshot,
    plan: CatalogDeltaPlan,
    state: Option<CheckpointState>,
    as_of_epoch: u64,
    query_version: Seq<char>,
    outcome: Result<IncrementalStart>,
) -> bool {
    match state {
        None => {
            &&& plan.added_physical_rows <= target.catalog.physical_rows ==> outcome == Ok::<
                IncrementalStart,
                Error,
            >(
                IncrementalStart::Initialize {
                    baseline_physical_rows: (target.catalog.physical_rows
                        - plan.added_physical_rows) as u64,
                },
            )
            &&& plan.added_physical_rows > target.catalog.physical_rows ==> outcome == Err::<
                IncrementalStart,
                Error,
            >(Error::PlanOverflow("baseline physical rows"))
        },
        Some(found) => {
            if found.snapshot_id@ == target.catalog.snapshot_id@ {
                if found.as_of_epoch == as_of_epoch && found.query_version@ == query_version {
                    outcome == Ok::<IncrementalStart, Error>(
                        IncrementalStart::AlreadyApplied(
                            IncrementalSummary {
                                delta_physical_rows: plan.added_physical_rows,
                                delta_logical_events: 0,
                                delta_internal_duplicates: 0,
                                existing_events: 0,
                                inserted_events: 0,
                                already_applied: true,
                            },
                        ),
                    )
                } else {
                    outcome == Err::<IncrementalStart, Error>(
                        Error::InvalidIncrementalPlan(
                            "checkpoint target was materialized for another boundary or query version",
                        ),
                    )
                }
            } else if found.snapshot_id@ == plan.previous_snapshot_id->0@ {
                outcome == Ok::<IncrementalStart, Error>(IncrementalStart::Resume)
            } else {
                &&& outcome is Err
                &&& outcome->Err_0 matches Error::CheckpointSnapshotMismatch {
                    checkpoint,
                    planned,
                } && checkpoint@ == found.snapshot_id@ && planned@
                    == plan.previous_snapshot_id->0@
            }
        },
    }
}

/// Decide what a valid update starts with.
pub fn decide_start(
    target: &ResolvedSnapshot,
    plan: &CatalogDeltaPlan,
    state: &Option<CheckpointState>,
    as_of_epoch: u64,
    query_version: &str,
) -> (outcome: Result<IncrementalStart>)
    requires
        plan.previous_snapshot_id is Some,
    ensures
        starts(*target, *plan, *state, as_of_epoch, query_version@, outcome),
{
    match state {
        None => match baseline_physical_rows(target, plan) {
            Ok(rows) => Ok(IncrementalStart::Initialize { baseline_physical_rows: rows }),
            Err(error) => Err(error),
        },
        Some(found) => {
            if text_equal(found.snapshot_id.as_str(), target.catalog.snapshot_id.as_str()) {
                if found.as_of_epoch != as_of_epoch || !text_equal(
                    found.query_version.as_str(),
                    query_version,
                ) {
                    return Err(
                        Error::InvalidIncrementalPlan(
                            "checkpoint target was materialized for another boundary or query version",
                        ),
                    );
                }
                return Ok(
                    IncrementalStart::AlreadyApplied(
                        IncrementalSummary {
                            delta_physical_rows: plan.added_physical_rows,
                            delta_logical_events: 0,
                            delta_internal_duplicates: 0,
                            existing_events: 0,
                            inserted_events: 0,
                            already_applied: true,
                        },
                    ),
                );
            }
            let expected: &String = plan.previous_snapshot_id.as_ref().unwrap();
            if text_equal(found.snapshot_id.as_str(), expected.as_str()) {
                Ok(IncrementalStart::Resume)
            } else {
                Err(
                    Error::CheckpointSnapshotMismatch {
                        checkpoint: found.snapshot_id.clone(),
                        planned: expected.clone(),
                    },
                )
            }
        },
    }
}

/// What the query engine counted in the delta.
#[derive(Clone, Copy, Debug, PartialEq, Eq, Structural)]
pub struct DeltaCounts {
    /// Event IDs that stand in the delta with different contents.
    pub conflicting_ids: u64,
    /// Distinct event IDs of the delta.
    pub logical_events: u64,
    /// Event IDs that differ from their stored copies.
    pub conflicting_copies: u64,
    /// Event IDs that the checkpoint holds already.
    pub existing_events: u64,
    /// Event IDs that the checkpoint does not hold.
    pub inserted_events: u64,
}

/// The delta agrees with itself, with the catalog and with the checkpoint.
pub open spec fn delta_reconciles(counts: DeltaCounts, added_rows: u64) -> bool {
    &&& counts.conflicting_ids == 0
    &&& counts.logical_events <= added_rows
    &&& counts.conflicting_copies == 0
    &&& counts.inserted_events + counts.existing_events == counts.logical_events
}

/// What the counts of a delta come to.
pub open spec fn summarizes(
    plan: CatalogDeltaPlan,
    counts: DeltaCounts,
    outcome: Result<IncrementalSummary>,
) -> bool {
    match outcome {
        Ok(summary) => {
            &&& delta_reconciles(counts, plan.added_physical_rows)
            &&& summary == (IncrementalSummary {
                delta_physical_rows: plan.added_physical_rows,
                delta_logical_events: counts.logical_events,
                delta_internal_duplicates: (plan.added_physical_rows
                    - counts.logical_events) as u64,
                existing_events: counts.existing_events,
                inserted_events: counts.inserted_events,
                already_applied: false,
            })
        },
        Err(error) => {
            &&& !delta_reconciles(counts, plan.added_physical_rows)
            &&& if counts.conflicting_ids != 0 {
                error == Error::ConflictingDeltaEvents(counts.conflicting_ids)
            } else if counts.logical_events > plan.added_physical_rows {
                error == Error::InvalidIncrementalPlan(
                    "delta holds more distinct IDs than the catalog claims physical rows",
                )
            } else if counts.conflicting_copies != 0 {
                error == Error::ConflictingDeltaEvents(counts.conflicting_copies)
            } else if counts.inserted_events + counts.existing_events > u64::MAX {
                error == Error::PlanOverflow("incremental logical events")
            } else {
                error == Error::Validation("new and existing delta IDs do not reconcile")
            }
        },
    }
}

/// Account for a delta, or say what does not agree.
pub fn summarize_delta(plan: &CatalogDeltaPlan, counts: DeltaCounts) -> (outcome: Result<
    IncrementalSummary,
>)
    ensures
        summarizes(*plan, counts, outcome),
{
    if counts.conflicting_ids != 0 {
        return Err(Error::ConflictingDeltaEvents(counts.conflicting_ids));
    }
    let duplicates: u64 = match plan.added_physical_rows.checked_sub(counts.logical_events) {
        Some(duplicates) => duplicates,
        None => {
            return Err(
                Error::InvalidIncrementalPlan(
                    "delta holds more distinct IDs than the catalog claims physical rows",
                ),
            );
        },
    };
    if counts.conflicting_copies != 0 {
        return Err(Error::ConflictingDeltaEvents(counts.conflicting_copies));
    }
    match counts.inserted_events.checked_add(counts.existing_events) {
        None => {
            return Err(Error::PlanOverflow("incremental logical events"));
        },
        Some(covered) => {
            if covered != counts.logical_events {
                return Err(Error::Validation("new and existing delta IDs do not reconcile"));
            }
        },
    }
    Ok(
        IncrementalSummary {
            delta_physical_rows: plan.added_physical_rows,
            delta_logical_events: counts.logical_events,
            delta_internal_duplicates: duplicates,
            existing_events: counts.existing_events,
            inserted_events: counts.inserted_events,
            already_applied: false,
        },
    )
}

/// An accepted delta accounts for every physical row: each is a duplicate
/// within the delta, an event that the checkpoint has, or one that it gains.
pub proof fn lemma_summary_partitions_rows(counts: DeltaCounts, added_rows: u64)
    requires
        delta_reconciles(counts, added_rows),
    ensures
        added_rows == (added_rows - counts.logical_events) + counts.existing_events
            + counts.inserted_events,
{
}

} // verus!
