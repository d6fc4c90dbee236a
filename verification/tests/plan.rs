use pensieve_analytics::artifact::CatalogObject;
use pensieve_analytics::error::{Error, Result};
use pensieve_analytics::incremental::{
    decide_start, resolve_delta_locations, summarize_delta, validate_plan, CheckpointState,
    DeltaCounts, IncrementalStart, IncrementalSummary, StagedFile, StagedObject,
};
use pensieve_analytics::incremental_run::{
    apply_incremental, UpdateRequest, WorkReply, WorkRequest,
};
use pensieve_analytics::input::{
    parse_s3_store_id, resolve_snapshot, CatalogSnapshot, LocalFile, ObjectLocation,
    ResolvedSnapshot,
};
use pensieve_analytics::plan::{
    parse_timestamp, plan_from_baseline, AppliedColumns, AppliedObject, Baseline,
    CatalogDeltaPlan, PlannedRunKind,
};
use pensieve_analytics::plan_run::{plan_catalog_delta, PublishedRun};
use pensieve_analytics::publish::BuildSummary;

const QUERY_VERSION: &str = "slice-a-v2";

fn snapshot(objects: &[(&str, &str, u64, u64, u64, u64)]) -> CatalogSnapshot {
    let objects: Vec<CatalogObject> = objects
        .iter()
        .enumerate()
        .map(
            |(index, (key, sha256, bytes, rows, minimum, maximum))| CatalogObject {
                object_key: (*key).to_owned(),
                work_unit_id: format!("work-{index}"),
                sha256: (*sha256).to_owned(),
                byte_size: *bytes,
                row_count: *rows,
                min_created_at: Some(minimum.to_string()),
                max_created_at: Some(maximum.to_string()),
            },
        )
        .collect();
    CatalogSnapshot {
        snapshot_id: "sha256:selected".to_owned(),
        store_id: "s3+https://example.test/bucket".to_owned(),
        physical_rows: objects.iter().map(|object| object.row_count).sum(),
        objects,
    }
}

fn applied(object: &CatalogObject) -> AppliedObject {
    AppliedObject {
        object_key: object.object_key.clone(),
        work_unit_id: object.work_unit_id.clone(),
        sha256: object.sha256.clone(),
        byte_size: object.byte_size,
        physical_rows: object.row_count,
        min_created_at: object.min_created_at.clone(),
        max_created_at: object.max_created_at.clone(),
    }
}

fn baseline(query_version: &str, objects: Vec<AppliedObject>) -> Baseline {
    Baseline {
        run_id: "run-1".to_owned(),
        snapshot_id: "snapshot-1".to_owned(),
        query_version: query_version.to_owned(),
        objects,
    }
}

#[test]
fn append_only_catalog_plans_only_new_objects() {
    let selected = snapshot(&[
        ("nostr/v1/a.parquet", &"aa".repeat(32), 10, 2, 100, 200),
        ("nostr/v1/b.parquet", &"bb".repeat(32), 20, 3, 50, 300),
    ]);
    let published = baseline(QUERY_VERSION, vec![applied(&selected.objects[0])]);
    let plan = plan_from_baseline(&selected, Some(published), QUERY_VERSION).expect("plan");
    assert_eq!(plan.run_kind, PlannedRunKind::Incremental);
    assert_eq!(plan.unchanged_objects, 1);
    assert_eq!(plan.added_objects.len(), 1);
    assert_eq!(plan.added_bytes, 20);
    assert_eq!(plan.added_physical_rows, 3);
    assert_eq!(plan.affected_min_created_at.as_deref(), Some("50"));
    assert_eq!(plan.affected_max_created_at.as_deref(), Some("300"));
    assert!(plan.affected_range_complete);
}

#[test]
fn removal_requires_affected_period_rebuild() {
    let selected = snapshot(&[("nostr/v1/b.parquet", &"bb".repeat(32), 20, 3, 50, 300)]);
    let removed_catalog = snapshot(&[("nostr/v1/a.parquet", &"aa".repeat(32), 10, 2, 100, 200)]);
    let published = baseline(QUERY_VERSION, vec![applied(&removed_catalog.objects[0])]);
    let plan = plan_from_baseline(&selected, Some(published), QUERY_VERSION).expect("plan");
    assert_eq!(plan.run_kind, PlannedRunKind::AffectedPeriodRebuild);
    assert_eq!(plan.added_objects.len(), 1);
    assert_eq!(plan.removed_objects.len(), 1);
    assert_eq!(plan.affected_min_created_at.as_deref(), Some("50"));
    assert_eq!(plan.affected_max_created_at.as_deref(), Some("300"));
}

#[test]
fn changed_immutable_key_is_rejected() {
    let selected = snapshot(&[("nostr/v1/a.parquet", &"aa".repeat(32), 10, 2, 100, 200)]);
    let mut old = applied(&selected.objects[0]);
    old.sha256 = "bb".repeat(32);
    let error = plan_from_baseline(
        &selected,
        Some(baseline(QUERY_VERSION, vec![old])),
        QUERY_VERSION,
    )
    .expect_err("changed key must fail");
    assert!(matches!(error, Error::ImmutableObjectChanged { .. }));
}

#[test]
fn query_version_change_requires_full_rebuild() {
    let selected = snapshot(&[("nostr/v1/a.parquet", &"aa".repeat(32), 10, 2, 100, 200)]);
    let plan = plan_from_baseline(
        &selected,
        Some(baseline(
            "slice-a-v1",
            vec![applied(&selected.objects[0])],
        )),
        QUERY_VERSION,
    )
    .expect("version upgrade plan");
    assert_eq!(plan.run_kind, PlannedRunKind::FullRebuild);
    assert_eq!(plan.added_objects, selected.objects);
    assert_eq!(plan.unchanged_objects, 0);
}

#[test]
fn an_unchanged_catalog_plans_nothing() {
    let selected = snapshot(&[("nostr/v1/a.parquet", &"aa".repeat(32), 10, 2, 100, 200)]);
    let published = baseline(QUERY_VERSION, vec![applied(&selected.objects[0])]);
    let plan = plan_from_baseline(&selected, Some(published), QUERY_VERSION).unwrap();
    assert_eq!(plan.run_kind, PlannedRunKind::NoChange);
    assert!(plan.added_objects.is_empty());
    assert!(plan.removed_objects.is_empty());
    assert_eq!(plan.unchanged_objects, 1);
    assert_eq!(plan.affected_min_created_at, None);
}

#[test]
fn a_first_run_rebuilds_everything() {
    let selected = snapshot(&[("nostr/v1/a.parquet", &"aa".repeat(32), 10, 2, 100, 200)]);
    let plan = plan_from_baseline(&selected, None, QUERY_VERSION).unwrap();
    assert_eq!(plan.run_kind, PlannedRunKind::FullRebuild);
    assert_eq!(plan.previous_run_id, None);
    assert_eq!(plan.added_objects, selected.objects);
}

#[test]
fn plan_totals_that_overflow_are_refused() {
    let selected = snapshot(&[
        ("a", &"aa".repeat(32), u64::MAX, 1, 1, 2),
        ("b", &"bb".repeat(32), 1, 1, 1, 2),
    ]);
    assert!(matches!(
        plan_from_baseline(&selected, None, QUERY_VERSION),
        Err(Error::PlanOverflow(_))
    ));
}

#[test]
fn a_catalog_time_is_an_unsigned_number() {
    assert_eq!(parse_timestamp("300"), Ok(300));
    assert_eq!(
        parse_timestamp("soon"),
        Err(Error::InvalidLedgerTimestamp("soon".to_owned()))
    );
    let mut selected = snapshot(&[("a", &"aa".repeat(32), 1, 1, 1, 2)]);
    selected.objects[0].min_created_at = Some("-1".to_owned());
    assert_eq!(
        plan_from_baseline(&selected, None, QUERY_VERSION),
        Err(Error::InvalidLedgerTimestamp("-1".to_owned()))
    );
}

#[test]
fn parses_full_s3_namespace_identity() {
    assert_eq!(
        parse_s3_store_id("s3+https://hel1.your-objectstorage.com/pensieve-parquet")
            .expect("valid namespace"),
        (
            "hel1.your-objectstorage.com".to_owned(),
            "pensieve-parquet".to_owned()
        )
    );
}

#[test]
fn rejects_ambiguous_store_identity() {
    assert!(parse_s3_store_id("pensieve-parquet").is_err());
    assert!(parse_s3_store_id("s3+https://host/bucket/prefix").is_err());
}

#[test]
fn a_store_identity_has_no_query_or_fragment() {
    for id in [
        "s3+https:///bucket",
        "s3+https://host/",
        "s3+https://host",
        "s3+https://host?x/bucket",
        "s3+https://host/bucket#x",
    ] {
        assert_eq!(
            parse_s3_store_id(id),
            Err(Error::UnsupportedStoreId(id.to_owned()))
        );
    }
}

#[test]
fn a_snapshot_resolves_remotely_or_below_a_root() {
    let selected = snapshot(&[("nostr/v1/a.parquet", &"aa".repeat(32), 10, 2, 100, 200)]);
    let remote = resolve_snapshot(selected.clone(), None).unwrap();
    assert_eq!(
        remote.locations,
        vec![ObjectLocation::S3(
            "s3://bucket/nostr/v1/a.parquet".to_owned()
        )]
    );
    assert_eq!(remote.s3_endpoint.as_deref(), Some("example.test"));
    assert_eq!(remote.s3_bucket.as_deref(), Some("bucket"));

    let path = "/lake/nostr/v1/a.parquet".to_owned();
    let local = resolve_snapshot(
        selected.clone(),
        Some(vec![LocalFile {
            path: path.clone(),
            is_file: true,
        }]),
    )
    .unwrap();
    assert_eq!(local.locations, vec![ObjectLocation::Local(path.clone())]);
    assert_eq!(local.locations[0].duckdb_path(), path);
    assert_eq!(local.s3_endpoint, None);

    assert_eq!(
        resolve_snapshot(
            selected,
            Some(vec![LocalFile {
                path: path.clone(),
                is_file: false,
            }]),
        ),
        Err(Error::MissingLocalObject(path))
    );
}

fn target_and_plan() -> (ResolvedSnapshot, CatalogDeltaPlan) {
    let selected = snapshot(&[
        ("a", &"aa".repeat(32), 10, 2, 100, 200),
        ("b", &"bb".repeat(32), 20, 3, 50, 300),
    ]);
    let published = baseline(QUERY_VERSION, vec![applied(&selected.objects[0])]);
    let plan = plan_from_baseline(&selected, Some(published), QUERY_VERSION).unwrap();
    (resolve_snapshot(selected, None).unwrap(), plan)
}

#[test]
fn staged_objects_are_held_against_the_plan() {
    let (_, plan) = target_and_plan();
    let staged = |file: Option<StagedFile>| {
        vec![StagedObject {
            path: "/stage/b".to_owned(),
            file,
        }]
    };
    let good = StagedFile {
        byte_size: 20,
        sha256: "bb".repeat(32),
    };
    assert_eq!(
        resolve_delta_locations(&plan, &staged(Some(good.clone()))),
        Ok(vec![ObjectLocation::Local("/stage/b".to_owned())])
    );
    assert_eq!(
        resolve_delta_locations(&plan, &staged(None)),
        Err(Error::MissingLocalObject("/stage/b".to_owned()))
    );
    assert!(matches!(
        resolve_delta_locations(
            &plan,
            &staged(Some(StagedFile {
                byte_size: 21,
                sha256: "bb".repeat(32),
            }))
        ),
        Err(Error::InvalidIncrementalPlan(_))
    ));
    assert!(matches!(
        resolve_delta_locations(
            &plan,
            &staged(Some(StagedFile {
                byte_size: 20,
                sha256: "cc".repeat(32),
            }))
        ),
        Err(Error::InvalidIncrementalPlan(_))
    ));
}

#[test]
fn an_update_starts_from_what_the_checkpoint_represents() {
    let (target, plan) = target_and_plan();
    assert_eq!(validate_plan(&target, &plan, 1), Ok(()));
    assert!(validate_plan(&target, &plan, 2).is_err());
    let start = |state: Option<CheckpointState>| {
        decide_start(&target, &plan, &state, 400, QUERY_VERSION)
    };
    let state = |snapshot_id: &str, as_of_epoch: u64| {
        Some(CheckpointState {
            snapshot_id: snapshot_id.to_owned(),
            as_of_epoch,
            query_version: QUERY_VERSION.to_owned(),
        })
    };
    assert_eq!(
        start(None),
        Ok(IncrementalStart::Initialize {
            baseline_physical_rows: 2
        })
    );
    assert_eq!(start(state("snapshot-1", 300)), Ok(IncrementalStart::Resume));
    assert_eq!(
        start(state("sha256:selected", 400)),
        Ok(IncrementalStart::AlreadyApplied(IncrementalSummary {
            delta_physical_rows: 3,
            delta_logical_events: 0,
            delta_internal_duplicates: 0,
            existing_events: 0,
            inserted_events: 0,
            already_applied: true,
        }))
    );
    assert!(matches!(
        start(state("sha256:selected", 401)),
        Err(Error::InvalidIncrementalPlan(_))
    ));
    assert_eq!(
        start(state("other", 300)),
        Err(Error::CheckpointSnapshotMismatch {
            checkpoint: "other".to_owned(),
            planned: "snapshot-1".to_owned(),
        })
    );
}

#[test]
fn a_delta_partitions_its_rows() {
    let (target, plan) = target_and_plan();
    let counts = DeltaCounts {
        conflicting_ids: 0,
        logical_events: 2,
        conflicting_copies: 0,
        existing_events: 1,
        inserted_events: 1,
    };
    let summary = summarize_delta(&plan, counts).unwrap();
    assert_eq!(
        summary.delta_physical_rows,
        summary.delta_internal_duplicates + summary.existing_events + summary.inserted_events
    );
    assert_eq!(summary.delta_internal_duplicates, 1);
    assert_eq!(
        summarize_delta(
            &plan,
            DeltaCounts {
                conflicting_ids: 4,
                ..counts
            }
        ),
        Err(Error::ConflictingDeltaEvents(4))
    );
    assert_eq!(
        summarize_delta(
            &plan,
            DeltaCounts {
                conflicting_copies: 5,
                ..counts
            }
        ),
        Err(Error::ConflictingDeltaEvents(5))
    );
    assert!(matches!(
        summarize_delta(
            &plan,
            DeltaCounts {
                logical_events: 4,
                ..counts
            }
        ),
        Err(Error::InvalidIncrementalPlan(_))
    ));
    assert!(matches!(
        summarize_delta(
            &plan,
            DeltaCounts {
                existing_events: 2,
                ..counts
            }
        ),
        Err(Error::Validation(_))
    ));
}

#[derive(Clone, Copy, PartialEq)]
enum Failing {
    Nothing,
    Scan,
    Advance,
    Validate,
}

/// A work database in memory.
#[derive(Clone, Debug, PartialEq)]
struct Work {
    log: Vec<String>,
    kept: Option<CheckpointState>,
    open: Option<Option<CheckpointState>>,
}

/// Run an update, and log the steps that it takes.
fn update(
    state: Option<CheckpointState>,
    as_of_epoch: u64,
    dry_run: bool,
    failing: Failing,
) -> (Work, Result<(BuildSummary, IncrementalSummary)>) {
    let (target, plan) = target_and_plan();
    let ask = |mut work: Work, request: &WorkRequest| {
        let (name, failed) = match request {
            WorkRequest::State => return (work.clone(), Ok(WorkReply::State(work.kept))),
            WorkRequest::Begin => {
                work.open = Some(work.kept.clone());
                ("begin".to_owned(), false)
            }
            WorkRequest::Validate(rows) => (
                format!("validate {rows}"),
                failing == Failing::Validate,
            ),
            WorkRequest::Record(state) => {
                work.open = Some(Some(state.clone()));
                (
                    format!("record {} {}", state.snapshot_id, state.as_of_epoch),
                    false,
                )
            }
            WorkRequest::Scan(locations) => {
                assert_eq!(*locations, [ObjectLocation::Local("delta".to_owned())]);
                ("scan".to_owned(), failing == Failing::Scan)
            }
            WorkRequest::Advance(state) => {
                assert_eq!(state.query_version, QUERY_VERSION);
                work.open = Some(Some(state.clone()));
                (
                    format!("advance {} {}", state.snapshot_id, state.as_of_epoch),
                    failing == Failing::Advance,
                )
            }
            WorkRequest::Commit => {
                work.kept = work.open.take().unwrap();
                ("commit".to_owned(), false)
            }
            WorkRequest::Rollback => {
                work.open = None;
                ("rollback".to_owned(), false)
            }
        };
        work.log.push(name);
        let reply = if failed {
            Err(Error::Validation("step failed"))
        } else {
            Ok(match request {
                WorkRequest::Validate(rows) => WorkReply::Summary(BuildSummary {
                    physical_rows: *rows,
                    logical_events: *rows,
                    duplicate_rows: 0,
                    api_representable_events: 0,
                    event_daily_rows: 0,
                    event_daily_kind_rows: 0,
                    kind_all_time_rows: 0,
                }),
                WorkRequest::Scan(_) => WorkReply::Counts(DeltaCounts {
                    conflicting_ids: 0,
                    logical_events: 2,
                    conflicting_copies: 0,
                    existing_events: 1,
                    inserted_events: 1,
                }),
                _ => WorkReply::Done,
            })
        };
        (work, reply)
    };
    apply_incremental(
        &UpdateRequest {
            target: &target,
            plan: &plan,
            baseline_as_of_epoch: 300,
            as_of_epoch,
            api_max: 1_000,
            query_version: QUERY_VERSION,
            dry_run,
        },
        vec![ObjectLocation::Local("delta".to_owned())],
        Work {
            log: Vec::new(),
            kept: state,
            open: None,
        },
        &ask,
    )
}

fn checkpoint(snapshot_id: &str) -> Option<CheckpointState> {
    Some(CheckpointState {
        snapshot_id: snapshot_id.to_owned(),
        as_of_epoch: 400,
        query_version: QUERY_VERSION.to_owned(),
    })
}

#[test]
fn an_update_is_committed_or_dropped_as_a_whole() {
    let (work, outcome) = update(None, 400, false, Failing::Nothing);
    assert_eq!(
        work.log,
        [
            "begin",
            "validate 2",
            "record snapshot-1 300",
            "scan",
            "advance sha256:selected 400",
            "validate 5",
            "commit"
        ]
    );
    assert_eq!(work.kept, checkpoint("sha256:selected"));
    let (summary, delta) = outcome.unwrap();
    assert_eq!(summary.physical_rows, 5);
    assert_eq!(delta.delta_internal_duplicates, 1);
    assert_eq!(delta.inserted_events, 1);
    assert!(!delta.already_applied);
    let (work, outcome) = update(checkpoint("snapshot-1"), 400, true, Failing::Nothing);
    assert_eq!(work.log, ["begin", "scan", "rollback", "validate 2"]);
    assert_eq!(work.kept, checkpoint("snapshot-1"));
    assert_eq!(outcome.unwrap().0.physical_rows, 2);
    let (work, outcome) = update(checkpoint("sha256:selected"), 400, false, Failing::Nothing);
    assert_eq!(work.log, ["validate 5"]);
    assert_eq!(work.kept, checkpoint("sha256:selected"));
    assert!(outcome.unwrap().1.already_applied);
    for (failing, taken) in [
        (Failing::Scan, 3),
        (Failing::Advance, 4),
        (Failing::Validate, 5),
    ] {
        let (work, outcome) = update(checkpoint("snapshot-1"), 400, false, failing);
        assert_eq!(work.log.len(), taken);
        assert_eq!(work.log.last().unwrap(), "rollback");
        assert_eq!(work.kept, checkpoint("snapshot-1"));
        assert_eq!(outcome, Err(Error::Validation("step failed")));
    }
    let (work, outcome) = update(None, 1_001, false, Failing::Nothing);
    assert!(work.log.is_empty());
    assert!(matches!(outcome, Err(Error::Validation(_))));
    let (work, outcome) = update(checkpoint("other"), 400, false, Failing::Nothing);
    assert!(work.log.is_empty());
    assert!(matches!(
        outcome,
        Err(Error::CheckpointSnapshotMismatch { .. })
    ));
}

#[test]
fn a_catalog_is_planned_behind_the_current_run() {
    let selected = snapshot(&[
        ("a", &"aa".repeat(32), 10, 2, 100, 200),
        ("b", &"bb".repeat(32), 20, 3, 50, 300),
    ]);
    let none = || Ok(None);
    let run = || {
        Ok(Some(PublishedRun {
            run_id: "run-1".to_owned(),
            snapshot_id: "snapshot-1".to_owned(),
            query_version: QUERY_VERSION.to_owned(),
        }))
    };
    let columns = |physical_rows: i64| AppliedColumns {
        object_key: "a".to_owned(),
        work_unit_id: selected.objects[0].work_unit_id.clone(),
        sha256: "aa".repeat(32),
        byte_size: 10,
        physical_rows,
        min_created_at: None,
        max_created_at: None,
    };
    let objects = |run_id: &str| {
        assert_eq!(run_id, "run-1");
        Ok(vec![columns(2)])
    };
    let full = plan_catalog_delta(&selected, QUERY_VERSION, &none, &objects).unwrap();
    assert_eq!(full.added_objects.len(), 2);
    let plan = plan_catalog_delta(&selected, QUERY_VERSION, &run, &objects).unwrap();
    assert_eq!(plan.added_objects.len(), 1);
    assert_eq!(plan.previous_run_id.as_deref(), Some("run-1"));
    let broken = |_: &str| Ok(vec![columns(-2)]);
    assert!(matches!(
        plan_catalog_delta(&selected, QUERY_VERSION, &run, &broken),
        Err(Error::NegativeLedgerValue { .. })
    ));
    let refused = || Err(Error::Validation("refused"));
    assert_eq!(
        plan_catalog_delta(&selected, QUERY_VERSION, &refused, &objects),
        Err(Error::Validation("refused"))
    );
}
