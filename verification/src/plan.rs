//! Catalog difference planning for bounded incremental analytics work.

use vstd::prelude::*;
use vstd::string::*;

use crate::artifact::CatalogObject;
use crate::error::{from_i64, Error, Result};
use crate::input::CatalogSnapshot;
use crate::text::{
    decimal, optional_text, parse_unsigned, push_decimal, text_equal, unsigned_value,
};
use crate::text_map::{text_less, TextMap};

verus! {

/// Execution mode required to advance from the currently published snapshot.
#[derive(Clone, Copy, Debug, PartialEq, Eq, Structural)]
pub enum PlannedRunKind {
    /// There is no usable published analytics baseline.
    FullRebuild,
    /// The selected catalog exactly matches the applied-object ledger.
    NoChange,
    /// The selected catalog only adds immutable objects.
    Incremental,
    /// The selected catalog removes objects and requires partition replacement.
    AffectedPeriodRebuild,
}

/// One object from the durable applied-object ledger.
#[derive(Clone, Debug, PartialEq, Eq)]
pub struct AppliedObject {
    /// Immutable object-store key.
    pub object_key: String,
    /// Owning source work unit.
    pub work_unit_id: String,
    /// Lower-case SHA-256 of the object bytes.
    pub sha256: String,
    /// Exact object byte size.
    pub byte_size: u64,
    /// Physical rows asserted by the catalog.
    pub physical_rows: u64,
    /// Minimum unsigned event timestamp, when recorded.
    pub min_created_at: Option<String>,
    /// Maximum unsigned event timestamp, when recorded.
    pub max_created_at: Option<String>,
}

/// The published run that a plan starts from, with its objects.
#[derive(Clone, Debug, PartialEq, Eq)]
pub struct Baseline {
    /// Current run.
    pub run_id: String,
    /// Snapshot of the run.
    pub snapshot_id: String,
    /// Version of the queries that made the run.
    pub query_version: String,
    /// Objects that the run applied.
    pub objects: Vec<AppliedObject>,
}

/// Exact catalog work required after the current successful publication.
#[derive(Clone, Debug, PartialEq, Eq)]
pub struct CatalogDeltaPlan {
    /// Selected target snapshot.
    pub snapshot_id: String,
    /// Current successful run used as the baseline.
    pub previous_run_id: Option<String>,
    /// Snapshot associated with the baseline run.
    pub previous_snapshot_id: Option<String>,
    /// Required execution mode.
    pub run_kind: PlannedRunKind,
    /// New immutable objects that need staging and processing.
    pub added_objects: Vec<CatalogObject>,
    /// Previously applied objects absent from the selected snapshot.
    pub removed_objects: Vec<AppliedObject>,
    /// Objects whose identity is unchanged.
    pub unchanged_objects: u64,
    /// Bytes that need staging for this plan.
    pub added_bytes: u64,
    /// Physical rows in newly added objects.
    pub added_physical_rows: u64,
    /// Earliest timestamp touched by added or removed objects, when known.
    pub affected_min_created_at: Option<String>,
    /// Latest timestamp touched by added or removed objects, when known.
    pub affected_max_created_at: Option<String>,
    /// Whether every changed object supplied timestamp bounds.
    pub affected_range_complete: bool,
}

/// The object kept its work unit, digest, size and rows.
pub open spec fn keeps_identity(object: CatalogObject, applied: AppliedObject) -> bool {
    &&& object.work_unit_id@ == applied.work_unit_id@
    &&& object.sha256@ == applied.sha256@
    &&& object.byte_size == applied.byte_size
    &&& object.row_count == applied.physical_rows
}

/// An applied object as the ledger holds it.
#[derive(Clone, Debug, PartialEq, Eq)]
pub struct AppliedColumns {
    /// Key of the object in its store.
    pub object_key: String,
    /// Work unit that wrote the object.
    pub work_unit_id: String,
    /// Hexadecimal SHA-256 digest of the bytes.
    pub sha256: String,
    /// Size in bytes.
    pub byte_size: i64,
    /// Number of rows.
    pub physical_rows: i64,
    /// Earliest event timestamp, as decimal text.
    pub min_created_at: Option<String>,
    /// Latest event timestamp, as decimal text.
    pub max_created_at: Option<String>,
}

/// The object that the columns of a ledger hold.
pub open spec fn decoded(columns: AppliedColumns) -> Result<AppliedObject> {
    if columns.byte_size < 0 {
        Err(Error::NegativeLedgerValue { field: "object byte_size", value: columns.byte_size })
    } else if columns.physical_rows < 0 {
        Err(
            Error::NegativeLedgerValue {
                field: "object physical_rows",
                value: columns.physical_rows,
            },
        )
    } else {
        Ok(
            AppliedObject {
                object_key: columns.object_key,
                work_unit_id: columns.work_unit_id,
                sha256: columns.sha256,
                byte_size: columns.byte_size as u64,
                physical_rows: columns.physical_rows as u64,
                min_created_at: columns.min_created_at,
                max_created_at: columns.max_created_at,
            },
        )
    }
}

/// Read the columns of an applied object.
pub fn applied_object(columns: AppliedColumns) -> (outcome: Result<AppliedObject>)
    ensures
        outcome == decoded(columns),
{
    let byte_size: u64 = match from_i64("object byte_size", columns.byte_size) {
        Ok(value) => value,
        Err(error) => {
            return Err(error);
        },
    };
    let physical_rows: u64 = match from_i64("object physical_rows", columns.physical_rows) {
        Ok(value) => value,
        Err(error) => {
            return Err(error);
        },
    };
    Ok(
        AppliedObject {
            object_key: columns.object_key,
            work_unit_id: columns.work_unit_id,
            sha256: columns.sha256,
            byte_size,
            physical_rows,
            min_created_at: columns.min_created_at,
            max_created_at: columns.max_created_at,
        },
    )
}

/// Whether the object kept its work unit, digest, size and rows.
pub fn same_identity(object: &CatalogObject, applied: &AppliedObject) -> (same: bool)
    ensures
        same == keeps_identity(*object, *applied),
{
    text_equal(object.work_unit_id.as_str(), applied.work_unit_id.as_str()) && text_equal(
        object.sha256.as_str(),
        applied.sha256.as_str(),
    ) && object.byte_size == applied.byte_size && object.row_count == applied.physical_rows
}

/// A copy of an object.
fn copy_object(object: &CatalogObject) -> (copy: CatalogObject)
    ensures
        copy == *object,
{
    CatalogObject {
        object_key: object.object_key.clone(),
        work_unit_id: object.work_unit_id.clone(),
        sha256: object.sha256.clone(),
        byte_size: object.byte_size,
        row_count: object.row_count,
        min_created_at: match &object.min_created_at {
            Some(text) => Some(text.clone()),
            None => None,
        },
        max_created_at: match &object.max_created_at {
            Some(text) => Some(text.clone()),
            None => None,
        },
    }
}

/// The ledger by object key; a later entry replaces an earlier one.
pub open spec fn ledger(objects: Seq<AppliedObject>) -> Map<Seq<char>, AppliedObject>
    decreases objects.len(),
{
    if objects.len() == 0 {
        Map::empty()
    } else {
        ledger(objects.drop_last()).insert(objects.last().object_key@, objects.last())
    }
}

/// One of the first `count` objects has the key.
pub open spec fn has_key(objects: Seq<CatalogObject>, count: int, key: Seq<char>) -> bool {
    exists|j: int| 0 <= j < count && #[trigger] objects[j].object_key@ == key
}

/// Object `i` is the first with its key, and the ledger has this key.
pub open spec fn is_known(
    objects: Seq<CatalogObject>,
    applied: Map<Seq<char>, AppliedObject>,
    i: int,
) -> bool {
    applied.contains_key(objects[i].object_key@) && !has_key(objects, i, objects[i].object_key@)
}

/// The first `count` objects without those that the ledger knows, in order.
pub open spec fn new_objects(
    objects: Seq<CatalogObject>,
    applied: Map<Seq<char>, AppliedObject>,
    count: int,
) -> Seq<CatalogObject>
    decreases count,
{
    if count <= 0 {
        Seq::empty()
    } else if is_known(objects, applied, count - 1) {
        new_objects(objects, applied, count - 1)
    } else {
        new_objects(objects, applied, count - 1).push(objects[count - 1])
    }
}

/// Object `i` is known to the ledger under another identity.
pub open spec fn is_changed(
    objects: Seq<CatalogObject>,
    applied: Map<Seq<char>, AppliedObject>,
    i: int,
) -> bool {
    is_known(objects, applied, i) && !keeps_identity(objects[i], applied[objects[i].object_key@])
}

/// Exactly the ledger entries whose key no object has, by increasing key.
pub open spec fn lists_removed(
    removed: Seq<AppliedObject>,
    objects: Seq<CatalogObject>,
    applied: Map<Seq<char>, AppliedObject>,
) -> bool {
    &&& forall|i: int, j: int|
        0 <= i < j < removed.len() ==> text_less(
            #[trigger] removed[i].object_key@,
            #[trigger] removed[j].object_key@,
        )
    &&& forall|i: int|
        0 <= i < removed.len() ==> {
            let key = (#[trigger] removed[i]).object_key@;
            &&& applied.contains_key(key)
            &&& applied[key] == removed[i]
            &&& !has_key(objects, objects.len() as int, key)
        }
    &&& forall|key: Seq<char>|
        #![trigger applied.contains_key(key)]
        applied.contains_key(key) && !has_key(objects, objects.len() as int, key)
            ==> removed.contains(applied[key])
}

/// Bytes of the objects.
pub open spec fn total_bytes(objects: Seq<CatalogObject>) -> int
    decreases objects.len(),
{
    if objects.len() == 0 {
        0
    } else {
        total_bytes(objects.drop_last()) + objects.last().byte_size
    }
}

/// Rows of the objects.
pub open spec fn total_object_rows(objects: Seq<CatalogObject>) -> int
    decreases objects.len(),
{
    if objects.len() == 0 {
        0
    } else {
        total_object_rows(objects.drop_last()) + objects.last().row_count
    }
}

/// Totals only grow.
proof fn lemma_totals_grow(objects: Seq<CatalogObject>, count: int)
    requires
        0 <= count <= objects.len(),
    ensures
        0 <= total_bytes(objects.take(count)) <= total_bytes(objects),
        0 <= total_object_rows(objects.take(count)) <= total_object_rows(objects),
    decreases objects.len(),
{
    if count == objects.len() {
        assert(objects.take(count) =~= objects);
        if count > 0 {
            assert(objects.drop_last() =~= objects.take(count - 1));
            lemma_totals_grow(objects.drop_last(), count - 1);
            assert(objects.drop_last().take(count - 1) =~= objects.drop_last());
        }
    } else {
        lemma_totals_grow(objects.drop_last(), count);
        assert(objects.drop_last().take(count) =~= objects.take(count));
    }
}

/// The recorded timestamps of the changed objects, in order: their lower
/// bounds, or their upper bounds.
pub open spec fn recorded(
    added: Seq<CatalogObject>,
    removed: Seq<AppliedObject>,
    upper: bool,
) -> Seq<Option<Seq<char>>> {
    Seq::new(
        added.len() + removed.len(),
        |i: int|
            if i < added.len() {
                if upper {
                    optional_text(added[i].max_created_at)
                } else {
                    optional_text(added[i].min_created_at)
                }
            } else {
                if upper {
                    optional_text(removed[i - added.len()].max_created_at)
                } else {
                    optional_text(removed[i - added.len()].min_created_at)
                }
            },
    )
}

/// Entry `i` is a recorded timestamp of this value.
pub open spec fn records_value(bounds: Seq<Option<Seq<char>>>, i: int, value: u64) -> bool {
    &&& 0 <= i < bounds.len()
    &&& bounds[i] is Some
    &&& unsigned_value(bounds[i]->0) == Some(value)
}

/// Entry `i` is recorded and is no unsigned number.
pub open spec fn is_malformed(bounds: Seq<Option<Seq<char>>>, i: int) -> bool {
    &&& 0 <= i < bounds.len()
    &&& bounds[i] is Some
    &&& unsigned_value(bounds[i]->0) is None
}

/// `text` is the smallest (or largest) of the recorded timestamps in decimal,
/// absent where none is recorded.
pub open spec fn is_extreme(
    bounds: Seq<Option<Seq<char>>>,
    upper: bool,
    text: Option<Seq<char>>,
) -> bool {
    match text {
        None => forall|i: int| 0 <= i < bounds.len() ==> (#[trigger] bounds[i]) is None,
        Some(written) => exists|i: int, value: u64| #[trigger]
            records_value(bounds, i, value) && written == decimal(value as nat) && (forall|
                j: int,
                other: u64,
            | #[trigger]
                records_value(bounds, j, other) ==> if upper {
                    other <= value
                } else {
                    value <= other
                }),
    }
}

/// Bytes and rows of the objects, each an error where it leaves its range.
pub(crate) fn sum_added(objects: &Vec<CatalogObject>) -> (totals: Result<(u64, u64)>)
    ensures
        match totals {
            Ok((bytes, rows)) => bytes == total_bytes(objects@) && rows == total_object_rows(
                objects@,
            ),
            Err(error) => {
                ||| total_bytes(objects@) > u64::MAX && error == Error::PlanOverflow(
                    "added object bytes",
                )
                ||| total_bytes(objects@) <= u64::MAX && total_object_rows(objects@) > u64::MAX
                    && error == Error::PlanOverflow("added physical rows")
            },
        },
{
    let mut bytes: u64 = 0;
    let mut i: usize = 0;
    assert(objects@.take(0) =~= Seq::empty());
    while i < objects.len()
        invariant
            i <= objects@.len(),
            bytes == total_bytes(objects@.take(i as int)),
        decreases objects.len() - i,
    {
        proof {
            assert(objects@.take(i + 1).drop_last() =~= objects@.take(i as int));
            lemma_totals_grow(objects@, i + 1);
        }
        match bytes.checked_add(objects[i].byte_size) {
            Some(sum) => {
                bytes = sum;
            },
            None => {
                return Err(Error::PlanOverflow("added object bytes"));
            },
        }
        i += 1;
    }
    assert(objects@.take(objects@.len() as int) =~= objects@);
    let mut rows: u64 = 0;
    let mut j: usize = 0;
    while j < objects.len()
        invariant
            j <= objects@.len(),
            rows == total_object_rows(objects@.take(j as int)),
            bytes == total_bytes(objects@),
        decreases objects.len() - j,
    {
        proof {
            assert(objects@.take(j + 1).drop_last() =~= objects@.take(j as int));
            lemma_totals_grow(objects@, j + 1);
        }
        match rows.checked_add(objects[j].row_count) {
            Some(sum) => {
                rows = sum;
            },
            None => {
                return Err(Error::PlanOverflow("added physical rows"));
            },
        }
        j += 1;
    }
    Ok((bytes, rows))
}

/// A timestamp of the ledger.
pub fn parse_timestamp(value: &str) -> (timestamp: Result<u64>)
    ensures
        match timestamp {
            Ok(number) => unsigned_value(value@) == Some(number),
            Err(error) => {
                &&& unsigned_value(value@) is None
                &&& error is InvalidLedgerTimestamp
                &&& error->InvalidLedgerTimestamp_0@ == value@
            },
        },
{
    match parse_unsigned(value) {
        Some(number) => Ok(number),
        None => Err(Error::InvalidLedgerTimestamp(value.to_owned())),
    }
}

/// `best` is the smallest (or largest) of the first `count` timestamps.
spec fn is_best(
    bounds: Seq<Option<Seq<char>>>,
    count: int,
    upper: bool,
    best: Option<u64>,
) -> bool {
    match best {
        None => forall|j: int| 0 <= j < count ==> (#[trigger] bounds[j]) is None,
        Some(value) => {
            &&& exists|j: int| j < count && #[trigger] records_value(bounds, j, value)
            &&& forall|j: int, other: u64| #[trigger]
                records_value(bounds, j, other) && j < count ==> !beats(upper, other, value)
        },
    }
}

/// `a` is larger (or smaller) than `b`.
spec fn beats(upper: bool, a: u64, b: u64) -> bool {
    if upper {
        b < a
    } else {
        a < b
    }
}

/// One more timestamp keeps or replaces the best one.
proof fn lemma_best_step(
    bounds: Seq<Option<Seq<char>>>,
    at: int,
    upper: bool,
    earlier: Option<u64>,
    best: Option<u64>,
)
    requires
        0 <= at < bounds.len(),
        is_best(bounds, at, upper, earlier),
        bounds[at] is None ==> best == earlier,
        bounds[at] is Some ==> unsigned_value(bounds[at]->0) is Some && ({
            let number = unsigned_value(bounds[at]->0)->0;
            match earlier {
                None => best == Some(number),
                Some(value) => best == Some(
                    if beats(upper, number, value) {
                        number
                    } else {
                        value
                    },
                ),
            }
        }),
    ensures
        is_best(bounds, at + 1, upper, best),
{
    if best is Some {
        let value = best->0;
        if bounds[at] is Some && unsigned_value(bounds[at]->0) == Some(value) {
            assert(records_value(bounds, at, value));
        } else {
            let j = choose|j: int| j < at && #[trigger] records_value(bounds, j, value);
            assert(records_value(bounds, j, value));
        }
        assert forall|j: int, other: u64| #[trigger]
            records_value(bounds, j, other) && j < at + 1 implies !beats(upper, other, value) by {
            if j < at {
                if earlier is None {
                    assert(bounds[j] is None);
                }
            }
        }
    }
}

/// The smallest (or largest) recorded timestamp of the changed objects.
fn extreme_timestamp(
    added: &Vec<CatalogObject>,
    removed: &Vec<AppliedObject>,
    upper: bool,
) -> (outcome: Result<Option<String>>)
    ensures
        ({
            let bounds = recorded(added@, removed@, upper);
            match outcome {
                Ok(text) => {
                    &&& forall|i: int| !#[trigger] is_malformed(bounds, i)
                    &&& is_extreme(bounds, upper, optional_text(text))
                },
                Err(error) => {
                    &&& error is InvalidLedgerTimestamp
                    &&& exists|i: int| #[trigger]
                        is_malformed(bounds, i) && error->InvalidLedgerTimestamp_0@ == bounds[i]->0
                            && forall|j: int| 0 <= j < i ==> !#[trigger] is_malformed(bounds, j)
                },
            }
        }),
{
    let ghost bounds = recorded(added@, removed@, upper);
    let mut best: Option<u64> = None;
    let total_added: usize = added.len();
    let mut i: usize = 0;
    let mut k: usize = 0;
    while i < added.len() || k < removed.len()
        invariant
            total_added == added@.len(),
            i <= added@.len(),
            k <= removed@.len(),
            k > 0 ==> i == added@.len(),
            bounds == recorded(added@, removed@, upper),
            forall|j: int| 0 <= j < i + k ==> !#[trigger] is_malformed(bounds, j),
            is_best(bounds, i + k, upper, best),
        decreases added@.len() - i + removed@.len() - k,
    {
        let ghost at = (i + k) as int;
        let ghost earlier = best;
        let bound: &Option<String> = if i < added.len() {
            if upper {
                &added[i].max_created_at
            } else {
                &added[i].min_created_at
            }
        } else {
            if upper {
                &removed[k].max_created_at
            } else {
                &removed[k].min_created_at
            }
        };
        assert(bounds[at] == optional_text(*bound));
        if let Some(text) = bound {
            let number: u64 = match parse_timestamp(text.as_str()) {
                Ok(number) => number,
                Err(error) => {
                    assert(is_malformed(bounds, at));
                    return Err(error);
                },
            };
            assert(records_value(bounds, at, number));
            assert(!is_malformed(bounds, at));
            best = match best {
                None => Some(number),
                Some(value) => {
                    if upper {
                        if number > value {
                            Some(number)
                        } else {
                            Some(value)
                        }
                    } else {
                        if number < value {
                            Some(number)
                        } else {
                            Some(value)
                        }
                    }
                },
            };
        } else {
            assert(!is_malformed(bounds, at));
        }
        proof {
            lemma_best_step(bounds, at, upper, earlier, best);
        }
        if i < added.len() {
            i += 1;
        } else {
            k += 1;
        }
    }
    match best {
        None => Ok(None),
        Some(value) => {
            let mut text: String = String::new();
            push_decimal(&mut text, value);
            proof {
                assert(text@ =~= decimal(value as nat));
                let j = choose|j: int| j < i + k && #[trigger] records_value(bounds, j, value);
                assert(records_value(bounds, j, value) && text@ == decimal(value as nat));
            }
            Ok(Some(text))
        },
    }
}

/// A copy of a ledger entry.
fn copy_applied(object: &AppliedObject) -> (copy: AppliedObject)
    ensures
        copy == *object,
{
    AppliedObject {
        object_key: object.object_key.clone(),
        work_unit_id: object.work_unit_id.clone(),
        sha256: object.sha256.clone(),
        byte_size: object.byte_size,
        physical_rows: object.physical_rows,
        min_created_at: match &object.min_created_at {
            Some(text) => Some(text.clone()),
            None => None,
        },
        max_created_at: match &object.max_created_at {
            Some(text) => Some(text.clone()),
            None => None,
        },
    }
}

/// A ledger entry stands under its own key.
proof fn lemma_ledger_keys(objects: Seq<AppliedObject>)
    ensures
        forall|key: Seq<char>| #[trigger]
            ledger(objects).contains_key(key) ==> ledger(objects)[key].object_key@ == key,
    decreases objects.len(),
{
    if objects.len() > 0 {
        lemma_ledger_keys(objects.drop_last());
    }
}

/// The ledger of a baseline.
fn build_ledger(objects: &Vec<AppliedObject>) -> (map: TextMap<AppliedObject>)
    ensures
        map.wf(),
        map.map() == ledger(objects@),
{
    let mut map: TextMap<AppliedObject> = TextMap::new();
    let mut i: usize = 0;
    assert(objects@.take(0) =~= Seq::empty());
    while i < objects.len()
        invariant
            i <= objects@.len(),
            map.wf(),
            map.map() == ledger(objects@.take(i as int)),
        decreases objects.len() - i,
    {
        let object: AppliedObject = copy_applied(&objects[i]);
        assert(objects@.take(i + 1).drop_last() =~= objects@.take(i as int));
        map.insert(object.object_key.clone(), object);
        i += 1;
    }
    assert(objects@.take(objects@.len() as int) =~= objects@);
    map
}

/// The run kind that a difference requires.
pub open spec fn required_run(
    has_baseline: bool,
    added: Seq<CatalogObject>,
    removed: Seq<AppliedObject>,
) -> PlannedRunKind {
    if !has_baseline {
        PlannedRunKind::FullRebuild
    } else if removed.len() > 0 {
        PlannedRunKind::AffectedPeriodRebuild
    } else if added.len() > 0 {
        PlannedRunKind::Incremental
    } else {
        PlannedRunKind::NoChange
    }
}

/// The totals, the run kind and the affected range of the plan are those of its
/// added and removed objects.
pub open spec fn accounts_for_changes(plan: CatalogDeltaPlan) -> bool {
    let lower = recorded(plan.added_objects@, plan.removed_objects@, false);
    let upper = recorded(plan.added_objects@, plan.removed_objects@, true);
    &&& plan.run_kind == required_run(
        plan.previous_run_id is Some,
        plan.added_objects@,
        plan.removed_objects@,
    )
    &&& plan.added_bytes == total_bytes(plan.added_objects@)
    &&& plan.added_physical_rows == total_object_rows(plan.added_objects@)
    &&& is_extreme(lower, false, optional_text(plan.affected_min_created_at))
    &&& is_extreme(upper, true, optional_text(plan.affected_max_created_at))
    &&& plan.affected_range_complete <==> forall|i: int|
        0 <= i < lower.len() ==> (#[trigger] lower[i]) is Some && upper[i] is Some
}

/// Why a difference has no plan.
pub open spec fn refuses_changes(
    error: Error,
    added: Seq<CatalogObject>,
    removed: Seq<AppliedObject>,
) -> bool {
    match error {
        Error::PlanOverflow(what) => {
            ||| what == "added object bytes" && total_bytes(added) > u64::MAX
            ||| what == "added physical rows" && total_bytes(added) <= u64::MAX
                && total_object_rows(added) > u64::MAX
        },
        Error::InvalidLedgerTimestamp(text) => {
            ||| exists|i: int| #[trigger]
                is_malformed(recorded(added, removed, false), i) && text@ == recorded(
                    added,
                    removed,
                    false,
                )[i]->0
            ||| exists|i: int| #[trigger]
                is_malformed(recorded(added, removed, true), i) && text@ == recorded(
                    added,
                    removed,
                    true,
                )[i]->0
        },
        _ => false,
    }
}

/// Whether every changed object recorded both bounds.
fn range_complete(added: &Vec<CatalogObject>, removed: &Vec<AppliedObject>) -> (complete: bool)
    ensures
        ({
            let lower = recorded(added@, removed@, false);
            let upper = recorded(added@, removed@, true);
            complete <==> forall|i: int|
                0 <= i < lower.len() ==> (#[trigger] lower[i]) is Some && upper[i] is Some
        }),
{
    let ghost lower = recorded(added@, removed@, false);
    let ghost upper = recorded(added@, removed@, true);
    let mut i: usize = 0;
    while i < added.len()
        invariant
            i <= added@.len(),
            lower == recorded(added@, removed@, false),
            upper == recorded(added@, removed@, true),
            forall|j: int| 0 <= j < i ==> (#[trigger] lower[j]) is Some && upper[j] is Some,
        decreases added.len() - i,
    {
        if added[i].min_created_at.is_none() || added[i].max_created_at.is_none() {
            assert(!(lower[i as int] is Some && upper[i as int] is Some));
            return false;
        }
        i += 1;
    }
    let mut k: usize = 0;
    while k < removed.len()
        invariant
            k <= removed@.len(),
            lower == recorded(added@, removed@, false),
            upper == recorded(added@, removed@, true),
            forall|j: int|
                0 <= j < added@.len() + k ==> (#[trigger] lower[j]) is Some && upper[j] is Some,
        decreases removed.len() - k,
    {
        if removed[k].min_created_at.is_none() || removed[k].max_created_at.is_none() {
            assert(!(lower[added@.len() + k] is Some && upper[added@.len() + k] is Some));
            return false;
        }
        k += 1;
    }
    true
}

/// Account for the changed objects of a plan.
pub fn finish_plan(
    snapshot_id: &String,
    previous_run_id: Option<String>,
    previous_snapshot_id: Option<String>,
    added_objects: Vec<CatalogObject>,
    removed_objects: Vec<AppliedObject>,
    unchanged_objects: u64,
) -> (outcome: Result<CatalogDeltaPlan>)
    ensures
        match outcome {
            Ok(plan) => {
                &&& plan.snapshot_id == *snapshot_id
                &&& plan.previous_run_id == previous_run_id
                &&& plan.previous_snapshot_id == previous_snapshot_id
                &&& plan.added_objects@ == added_objects@
                &&& plan.removed_objects@ == removed_objects@
                &&& plan.unchanged_objects == unchanged_objects
                &&& accounts_for_changes(plan)
            },
            Err(error) => refuses_changes(error, added_objects@, removed_objects@),
        },
{
    let run_kind: PlannedRunKind = if previous_run_id.is_none() {
        PlannedRunKind::FullRebuild
    } else if removed_objects.len() > 0 {
        PlannedRunKind::AffectedPeriodRebuild
    } else if added_objects.len() > 0 {
        PlannedRunKind::Incremental
    } else {
        PlannedRunKind::NoChange
    };
    let (added_bytes, added_physical_rows): (u64, u64) = match sum_added(&added_objects) {
        Ok(totals) => totals,
        Err(error) => {
            return Err(error);
        },
    };
    let affected_range_complete: bool = range_complete(&added_objects, &removed_objects);
    let affected_min_created_at: Option<String> = match extreme_timestamp(
        &added_objects,
        &removed_objects,
        false,
    ) {
        Ok(text) => text,
        Err(error) => {
            return Err(error);
        },
    };
    let affected_max_created_at: Option<String> = match extreme_timestamp(
        &added_objects,
        &removed_objects,
        true,
    ) {
        Ok(text) => text,
        Err(error) => {
            return Err(error);
        },
    };
    Ok(
        CatalogDeltaPlan {
            snapshot_id: snapshot_id.clone(),
            previous_run_id,
            previous_snapshot_id,
            run_kind,
            added_objects,
            removed_objects,
            unchanged_objects,
            added_bytes,
            added_physical_rows,
            affected_min_created_at,
            affected_max_created_at,
            affected_range_complete,
        },
    )
}

/// The baseline exists and was made by the queries in use.
pub open spec fn usable(baseline: Option<Baseline>, query_version: Seq<char>) -> bool {
    baseline is Some && baseline->0.query_version@ == query_version
}

/// The plan rebuilds everything.
pub open spec fn is_full_rebuild(plan: CatalogDeltaPlan, snapshot: CatalogSnapshot) -> bool {
    &&& plan.run_kind == PlannedRunKind::FullRebuild
    &&& plan.previous_run_id is None
    &&& plan.previous_snapshot_id is None
    &&& plan.added_objects@ == snapshot.objects@
    &&& plan.removed_objects@.len() == 0
    &&& plan.unchanged_objects == 0
}

/// The plan is the difference between the baseline and the snapshot.
pub open spec fn is_difference(
    plan: CatalogDeltaPlan,
    snapshot: CatalogSnapshot,
    baseline: Baseline,
) -> bool {
    let objects = snapshot.objects@;
    let applied = ledger(baseline.objects@);
    &&& plan.previous_run_id == Some(baseline.run_id)
    &&& plan.previous_snapshot_id == Some(baseline.snapshot_id)
    &&& forall|i: int| 0 <= i < objects.len() ==> !#[trigger] is_changed(objects, applied, i)
    &&& plan.added_objects@ == new_objects(objects, applied, objects.len() as int)
    &&& lists_removed(plan.removed_objects@, objects, applied)
    &&& plan.unchanged_objects == objects.len() - plan.added_objects@.len()
}

/// The first changed object is reported, with both digests.
pub open spec fn reports_change(
    error: Error,
    objects: Seq<CatalogObject>,
    applied: Map<Seq<char>, AppliedObject>,
) -> bool {
    match error {
        Error::ImmutableObjectChanged { object_key, previous_sha256, selected_sha256 } => exists|
            i: int,
        |
            0 <= i < objects.len() && #[trigger] is_changed(objects, applied, i) && object_key@
                == objects[i].object_key@ && selected_sha256@ == objects[i].sha256@
                && previous_sha256@ == applied[objects[i].object_key@].sha256@ && forall|j: int|
                0 <= j < i ==> !#[trigger] is_changed(objects, applied, j),
        _ => false,
    }
}

/// Every object of the snapshot.
fn copy_objects(objects: &Vec<CatalogObject>) -> (copies: Vec<CatalogObject>)
    ensures
        copies@ == objects@,
{
    let mut copies: Vec<CatalogObject> = Vec::new();
    let mut i: usize = 0;
    while i < objects.len()
        invariant
            i <= objects@.len(),
            copies@ == objects@.take(i as int),
        decreases objects.len() - i,
    {
        copies.push(copy_object(&objects[i]));
        assert(objects@.take(i + 1) =~= objects@.take(i as int).push(objects@[i as int]));
        i += 1;
    }
    assert(objects@.take(objects@.len() as int) =~= objects@);
    copies
}

/// What planning a snapshot against what is published comes to.
pub open spec fn plans(
    snapshot: CatalogSnapshot,
    published: Option<Baseline>,
    query_version: Seq<char>,
    outcome: Result<CatalogDeltaPlan>,
) -> bool {
    match outcome {
        Ok(plan) => {
            &&& plan.snapshot_id == snapshot.snapshot_id
            &&& accounts_for_changes(plan)
            &&& usable(published, query_version) ==> is_difference(
                plan,
                snapshot,
                published->0,
            )
            &&& !usable(published, query_version) ==> is_full_rebuild(plan, snapshot)
        },
        Err(error) => {
            let objects = snapshot.objects@;
            if usable(published, query_version) {
                let applied = ledger(published->0.objects@);
                ||| reports_change(error, objects, applied)
                ||| exists|removed: Seq<AppliedObject>| #[trigger]
                    lists_removed(removed, objects, applied) && refuses_changes(
                        error,
                        new_objects(objects, applied, objects.len() as int),
                        removed,
                    ) && forall|i: int|
                        0 <= i < objects.len() ==> !#[trigger] is_changed(objects, applied, i)
            } else {
                refuses_changes(error, objects, Seq::empty())
            }
        },
    }
}

/// Compare a snapshot with the ledger of the published baseline.
///
/// `query_version` is the version of the queries in use: a baseline of another
/// version is rebuilt in full.
pub fn plan_from_baseline(
    snapshot: &CatalogSnapshot,
    published: Option<Baseline>,
    query_version: &str,
) -> (outcome: Result<CatalogDeltaPlan>)
    ensures
        plans(*snapshot, published, query_version@, outcome),
{
    let ghost given = published;
    let baseline: Baseline = match published {
        Some(baseline) => baseline,
        None => {
            return finish_plan(
                &snapshot.snapshot_id,
                None,
                None,
                copy_objects(&snapshot.objects),
                Vec::new(),
                0,
            );
        },
    };
    if !text_equal(baseline.query_version.as_str(), query_version) {
        return finish_plan(
            &snapshot.snapshot_id,
            None,
            None,
            copy_objects(&snapshot.objects),
            Vec::new(),
            0,
        );
    }
    let ghost applied = ledger(baseline.objects@);
    let ghost objects = snapshot.objects@;
    let mut previous: TextMap<AppliedObject> = build_ledger(&baseline.objects);
    proof {
        lemma_ledger_keys(baseline.objects@);
    }
    let mut added: Vec<CatalogObject> = Vec::new();
    let mut unchanged: u64 = 0;
    let mut i: usize = 0;
    while i < snapshot.objects.len()
        invariant
            i <= objects.len(),
            objects == snapshot.objects@,
            given == published,
            usable(given, query_version@),
            applied == ledger(given->0.objects@),
            previous.wf(),
            forall|key: Seq<char>| #[trigger]
                previous.map().contains_key(key) <==> applied.contains_key(key) && !has_key(
                    objects,
                    i as int,
                    key,
                ),
            forall|key: Seq<char>| #[trigger]
                previous.map().contains_key(key) ==> previous.map()[key] == applied[key],
            forall|key: Seq<char>| #[trigger]
                applied.contains_key(key) ==> applied[key].object_key@ == key,
            added@ == new_objects(objects, applied, i as int),
            unchanged == i - added@.len(),
            added@.len() <= i,
            forall|j: int| 0 <= j < i ==> !#[trigger] is_changed(objects, applied, j),
        decreases snapshot.objects.len() - i,
    {
        let object: &CatalogObject = &snapshot.objects[i];
        let ghost key = object.object_key@;
        let ghost before = previous.map();
        let found: Option<AppliedObject> = previous.remove(object.object_key.as_str());
        assert(found is Some <==> is_known(objects, applied, i as int)) by {
            assert(before.contains_key(key) <==> applied.contains_key(key) && !has_key(
                objects,
                i as int,
                key,
            ));
        }
        match found {
            None => {
                added.push(copy_object(object));
            },
            Some(entry) => {
                if !same_identity(object, &entry) {
                    assert(is_changed(objects, applied, i as int));
                    let error: Error = Error::ImmutableObjectChanged {
                        object_key: object.object_key.clone(),
                        previous_sha256: entry.sha256,
                        selected_sha256: object.sha256.clone(),
                    };
                    assert(reports_change(error, objects, applied));
                    return Err(error);
                }
                unchanged = unchanged + 1;
            },
        }
        proof {
            assert(!is_changed(objects, applied, i as int));
            assert forall|name: Seq<char>| #[trigger]
                previous.map().contains_key(name) <==> applied.contains_key(name) && !has_key(
                    objects,
                    i + 1,
                    name,
                ) by {
                assert(before.contains_key(name) <==> applied.contains_key(name) && !has_key(
                    objects,
                    i as int,
                    name,
                ));
                assert(objects[i as int].object_key@ == key);
                if has_key(objects, i + 1, name) && name != key {
                    let j = choose|j: int|
                        0 <= j < i + 1 && #[trigger] objects[j].object_key@ == name;
                    assert(has_key(objects, i as int, name));
                }
                if has_key(objects, i as int, name) {
                    let j = choose|j: int|
                        0 <= j < i && #[trigger] objects[j].object_key@ == name;
                    assert(has_key(objects, i + 1, name));
                }
                if name == key {
                    assert(has_key(objects, i + 1, name));
                }
            }
        }
        i += 1;
    }
    let mut removed: Vec<AppliedObject> = Vec::new();
    let mut k: usize = 0;
    while k < previous.entries.len()
        invariant
            k <= previous.entries@.len(),
            removed@.len() == k,
            forall|j: int| 0 <= j < k ==> #[trigger] removed@[j] == previous.entries@[j].1,
        decreases previous.entries.len() - k,
    {
        removed.push(copy_applied(&previous.entries[k].1));
        k += 1;
    }
    proof {
        assert forall|j: int| 0 <= j < removed@.len() implies {
            let key = (#[trigger] removed@[j]).object_key@;
            &&& key == previous.entries@[j].0@
            &&& applied.contains_key(key)
            &&& applied[key] == removed@[j]
            &&& !has_key(objects, objects.len() as int, key)
        } by {
            let name = previous.entries@[j].0@;
            assert(previous.at(name, j));
            previous.lemma_at(name, j);
            assert(previous.map().contains_key(name));
        }
        assert forall|key: Seq<char>|
            #![trigger applied.contains_key(key)]
            applied.contains_key(key) && !has_key(objects, objects.len() as int, key) implies
            removed@.contains(applied[key]) by {
            assert(previous.map().contains_key(key));
            assert(previous.has(key));
            let j = choose|j: int| #[trigger] previous.at(key, j);
            previous.lemma_at(key, j);
            assert(removed@[j] == applied[key]);
        }
        assert(lists_removed(removed@, objects, applied));
    }
    finish_plan(
        &snapshot.snapshot_id,
        Some(baseline.run_id),
        Some(baseline.snapshot_id),
        added,
        removed,
        unchanged,
    )
}

/// A difference leaves nothing to do exactly where the ledger knows every
/// object and no entry of the ledger is missing from the catalog.
pub proof fn lemma_no_change(
    plan: CatalogDeltaPlan,
    snapshot: CatalogSnapshot,
    baseline: Baseline,
)
    requires
        is_difference(plan, snapshot, baseline),
        accounts_for_changes(plan),
    ensures
        ({
            let objects = snapshot.objects@;
            let applied = ledger(baseline.objects@);
            plan.run_kind == PlannedRunKind::NoChange <==> {
                &&& forall|i: int| 0 <= i < objects.len() ==> #[trigger] is_known(objects, applied, i)
                &&& forall|key: Seq<char>| #[trigger]
                    applied.contains_key(key) ==> has_key(objects, objects.len() as int, key)
            }
        }),
{
    let objects = snapshot.objects@;
    let applied = ledger(baseline.objects@);
    lemma_new_objects_empty(objects, applied, objects.len() as int);
    if plan.removed_objects@.len() == 0 {
        assert forall|key: Seq<char>| #[trigger] applied.contains_key(key) implies has_key(
            objects,
            objects.len() as int,
            key,
        ) by {
            if !has_key(objects, objects.len() as int, key) {
                assert(plan.removed_objects@.contains(applied[key]));
            }
        }
    } else {
        let entry = plan.removed_objects@[0];
        assert(applied.contains_key(entry.object_key@));
    }
}

/// An incremental plan keeps every object of the ledger, under its identity.
pub proof fn lemma_incremental_keeps_baseline(
    plan: CatalogDeltaPlan,
    snapshot: CatalogSnapshot,
    baseline: Baseline,
    key: Seq<char>,
)
    requires
        is_difference(plan, snapshot, baseline),
        accounts_for_changes(plan),
        plan.run_kind == PlannedRunKind::Incremental,
        ledger(baseline.objects@).contains_key(key),
    ensures
        exists|i: int|
            0 <= i < snapshot.objects@.len() && #[trigger] snapshot.objects@[i].object_key@ == key
                && keeps_identity(snapshot.objects@[i], ledger(baseline.objects@)[key]),
{
    let objects = snapshot.objects@;
    let applied = ledger(baseline.objects@);
    if !has_key(objects, objects.len() as int, key) {
        assert(plan.removed_objects@.contains(applied[key]));
    }
    let j = choose|j: int| 0 <= j < objects.len() && #[trigger] objects[j].object_key@ == key;
    lemma_first_with_key(objects, key, j);
    let i = choose|i: int|
        0 <= i < objects.len() && #[trigger] objects[i].object_key@ == key && !has_key(
            objects,
            i,
            key,
        );
    assert(!is_changed(objects, applied, i));
}

/// Some object is the first with its key.
proof fn lemma_first_with_key(objects: Seq<CatalogObject>, key: Seq<char>, j: int)
    requires
        0 <= j < objects.len(),
        objects[j].object_key@ == key,
    ensures
        exists|i: int|
            0 <= i < objects.len() && #[trigger] objects[i].object_key@ == key && !has_key(
                objects,
                i,
                key,
            ),
    decreases j,
{
    if has_key(objects, j, key) {
        let k = choose|k: int| 0 <= k < j && #[trigger] objects[k].object_key@ == key;
        lemma_first_with_key(objects, key, k);
    }
}

/// There are no new objects exactly where the ledger knows every one.
proof fn lemma_new_objects_empty(
    objects: Seq<CatalogObject>,
    applied: Map<Seq<char>, AppliedObject>,
    count: int,
)
    requires
        0 <= count <= objects.len(),
    ensures
        new_objects(objects, applied, count).len() == 0 <==> forall|i: int|
            0 <= i < count ==> #[trigger] is_known(objects, applied, i),
    decreases count,
{
    if count > 0 {
        lemma_new_objects_empty(objects, applied, count - 1);
        if is_known(objects, applied, count - 1) && new_objects(objects, applied, count).len()
            == 0 {
            assert forall|i: int| 0 <= i < count implies #[trigger] is_known(objects, applied, i)
                by {}
        }
    }
}

} // verus!
