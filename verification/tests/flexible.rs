use std::cell::RefCell;

use pensieve_analytics::activity_build::{
    complete_fixed_activity, load_bounded_fixed_activity, scan_activity, ActivityBuild,
    ScannedActivity,
};
use pensieve_analytics::artifact::{ArtifactIdentity, RunCheckpoint, RunIdentity};
use pensieve_analytics::batches::BatchProgress;
use pensieve_analytics::digest::sha256_hex;
use pensieve_analytics::fixed_activity::{finalize, has_full_weeks, BoundedFixedActivity};
use pensieve_analytics::input::{CatalogSnapshot, ResolvedSnapshot};
use pensieve_analytics::merge::{CompletedRun, MergeOutcome};
use pensieve_analytics::publisher_flags::build_flags;
use pensieve_analytics::calendar::parse_day;
use pensieve_analytics::flexible_build::{
    complete_flexible_distinct, estimate_run_bytes, plan_source_chunks, source_chunk_input,
    CompletedLeaves, SourceChunk,
};
use pensieve_analytics::flexible_distinct::{
    build_leaves, validate_leaf_stream, BoundedFlexibleDistinct, FlexibleDistinctConfig,
    FlexibleDistinctWindow, FlexibleRevalidation,
};
use pensieve_analytics::flexible_publish::{
    flexible_product_id, flexible_product_row, leaf_line, published_window,
    reconcile_flexible_product, validate_flexible_distinct_publication, validate_window,
    PublishedFlexible,
};
use pensieve_analytics::flexible_publish::FlexibleDistinctPublishOutcome;
use pensieve_analytics::flexible_samples::select_samples;
use pensieve_analytics::publish_flexible::publish_flexible_distinct_leaves;
use pensieve_analytics::ledger::{
    Ledger, LedgerReply, LedgerRequest, LedgerRun, SideRow, SideStored,
};
use pensieve_analytics::flexible_validation::{
    build_flexible_distinct_validation, relative_error_ppm, report_validation, ActivityState,
    FlexibleDistinctValidationEvidence, FLEXIBLE_DISTINCT_TOLERANCE_PPM,
};
use pensieve_analytics::activity_tables::DistinctPubkeysPeriod;
use pensieve_analytics::flexible_windows::{
    estimate_flexible_distinct_window, estimate_flexible_distinct_windows,
    load_and_estimate_flexible_distinct_windows, read_flexible_distinct_leaves,
    visit_flexible_distinct_leaves,
};
use pensieve_analytics::error::{Error, Result};
use pensieve_analytics::hour_identities::{leaf_groups, transform_batch};
use pensieve_analytics::leaf_stream::FlexibleLeaf;

const BASE: u32 = 1_767_225_600;
const AS_OF: u64 = 1_767_398_399;

fn fact(pubkey: u8, created_at: u32, kind: u16, id: u8) -> ScannedActivity {
    ScannedActivity {
        pubkey: vec![pubkey; 32],
        created_at,
        kind,
        id: vec![id; 32],
    }
}

fn facts() -> Vec<ScannedActivity> {
    vec![
        fact(1, BASE + 10, 1, 1),
        fact(1, BASE + 11, 1, 7),
        fact(1, BASE + 20, 0, 2),
        fact(1, BASE + 86_400, 1, 3),
        fact(2, BASE + 30, 3, 4),
        fact(2, BASE + 31, 445, 5),
        fact(3, BASE + 3_601, 1_059, 6),
        fact(3, BASE + 200_000, 1, 8),
    ]
}

fn artifact(path: &str, bytes: &[u8], rows: u64) -> ArtifactIdentity {
    ArtifactIdentity {
        path: path.to_owned(),
        byte_size: bytes.len() as u64,
        row_count: rows,
        min_key: None,
        max_key: None,
        sha256: sha256_hex(bytes),
    }
}

fn completed(identity: &str, artifact: ArtifactIdentity) -> CompletedRun {
    CompletedRun {
        identity: identity.to_owned(),
        path: artifact.path.clone(),
        checkpoint_path: format!("{identity}.json"),
        checkpoint: RunCheckpoint {
            schema_version: 1,
            runner_version: "runner".to_owned(),
            run: RunIdentity {
                snapshot_id: "sha256:snapshot".to_owned(),
                as_of: AS_OF,
                product: "product".to_owned(),
                product_version: "v1".to_owned(),
                key_space: "key".to_owned(),
            },
            inputs: Vec::new(),
            artifact,
        },
    }
}

fn single(identity: &str, artifact: ArtifactIdentity) -> MergeOutcome {
    MergeOutcome {
        final_run: completed(identity, artifact),
        merge_count: 0,
        duplicate_rows: 0,
        max_buffered_bytes: 0,
        checkpoints: Vec::new(),
    }
}

fn snapshot() -> ResolvedSnapshot {
    ResolvedSnapshot {
        catalog: CatalogSnapshot {
            snapshot_id: "sha256:snapshot".to_owned(),
            store_id: "s3+https://example.test/bucket".to_owned(),
            objects: Vec::new(),
            physical_rows: 8,
        },
        locations: Vec::new(),
        s3_endpoint: None,
        s3_bucket: None,
    }
}

struct Activity {
    product: BoundedFixedActivity,
    bytes: Vec<u8>,
    flags: Vec<u8>,
    json: Vec<u8>,
}

fn activity() -> Activity {
    let run = scan_activity(&facts()).unwrap();
    let flags = build_flags(&run.bytes, AS_OF).unwrap();
    let activity_artifact = artifact("activity.run", &run.bytes, run.rows);
    let flags_artifact = artifact("flags.run", &flags.bytes, flags.rows);
    assert!(has_full_weeks(&run.bytes, AS_OF));
    let finalized = finalize(
        &run.bytes,
        &flags.bytes,
        &activity_artifact,
        &flags_artifact,
        AS_OF,
    )
    .unwrap();
    let json = b"metric".to_vec();
    let evidence = complete_fixed_activity(
        &snapshot(),
        ActivityBuild {
            as_of_epoch: AS_OF,
            delta_objects: 0,
            baseline_evidence_sha256: None,
            batch_count: 1,
            estimated_run_bytes: 0,
            disk_reserve_bytes: 0,
        },
        BatchProgress::new(Vec::new()),
        single("activity", activity_artifact),
        flags_artifact,
        finalized,
        &json,
    );
    let product =
        load_bounded_fixed_activity(evidence, b"evidence", &run.bytes, &flags.bytes, &json)
            .unwrap();
    Activity {
        product,
        bytes: run.bytes,
        flags: flags.bytes,
        json,
    }
}

#[test]
fn published_windows_are_complete_hour_aligned_and_bounded() {
    assert!(validate_window(3_600, 7_200, 10_800).is_ok());
    assert!(validate_window(1, 7_200, 10_800).is_err());
    assert!(validate_window(7_200, 3_600, 10_800).is_err());
    assert!(validate_window(3_600, 14_400, 10_800).is_err());
}

#[test]
fn relative_error_is_conservative_and_exact_at_zero() {
    assert_eq!(relative_error_ppm(0, 10).expect("exact"), 0);
    assert_eq!(relative_error_ppm(1, 3).expect("rounded"), 333_334);
    assert_eq!(relative_error_ppm(0, 0).expect("both zero"), 0);
    assert_eq!(relative_error_ppm(1, 0).expect("invalid zero"), u64::MAX);
}

#[test]
fn production_tolerance_accepts_observed_successor_drift() {
    let observed_ppm = relative_error_ppm(524, 26_031).expect("observed drift");
    assert_eq!(observed_ppm, 20_130);
    assert!(observed_ppm <= FLEXIBLE_DISTINCT_TOLERANCE_PPM);
}

fn row(period_start: &str, kind: Option<u16>, unique_pubkeys: u64) -> DistinctPubkeysPeriod {
    DistinctPubkeysPeriod {
        grain: "day".to_owned(),
        period_start: period_start.to_owned(),
        kind,
        unique_pubkeys,
    }
}

#[test]
fn sample_selection_covers_all_kind_per_kind_and_long_form() {
    let rows = [
        row("2026-01-01", None, 10),
        row("2026-01-02", None, 100),
        row("2026-01-01", Some(1), 5),
        row("2026-01-02", Some(1), 50),
        row("2026-01-01", Some(30_023), 2),
        row("2026-01-02", Some(30_023), 20),
    ];
    let selected = select_samples(&rows, parse_day("2026-01-03").expect("day")).expect("samples");
    assert_eq!(selected.len(), 6);
    assert!(selected.iter().any(|sample| sample.row.kind.is_none()));
    assert!(selected.iter().any(|sample| sample.row.kind == Some(1)));
    assert!(selected.iter().any(|sample| sample.row.kind == Some(30_023)));
}

#[test]
fn samples_leave_out_incomplete_days() {
    let rows = [row("2026-01-01", None, 10), row("2026-01-02", None, 100)];
    let selected = select_samples(&rows, parse_day("2026-01-02").unwrap()).unwrap();
    assert!(selected
        .iter()
        .all(|sample| sample.period_start == "2026-01-01"));
    assert!(select_samples(&[row("soon", None, 10)], 0).is_err());
}

#[test]
fn source_chunks_cover_every_record_once() {
    assert_eq!(
        plan_source_chunks(5, 2).unwrap(),
        vec![
            SourceChunk { offset: 0, rows: 2 },
            SourceChunk { offset: 2, rows: 2 },
            SourceChunk { offset: 4, rows: 1 },
        ]
    );
    assert!(plan_source_chunks(0, 2).unwrap().is_empty());
    let source = artifact("activity.run", &[0; 350], 5);
    let input = source_chunk_input(&source, SourceChunk { offset: 4, rows: 1 });
    assert_eq!(input.identity, format!("activity:{}:4:1", source.sha256));
    assert_eq!(input.row_count, 5);
    assert_eq!(input.sha256, source.sha256);
    assert_eq!(estimate_run_bytes(10, 1, 2), Ok(1_660));
}

fn union(sketches: Vec<Vec<u8>>) -> Result<u64> {
    let mut keys: Vec<u8> = sketches.concat();
    keys.sort_unstable();
    keys.dedup();
    Ok(keys.len() as u64)
}

struct Flexible {
    activity: Activity,
    product: BoundedFlexibleDistinct,
    identities: Vec<u8>,
    leaves: Vec<u8>,
    sketches: Vec<Vec<u8>>,
}

impl Flexible {
    fn read(&self) -> FlexibleRevalidation<'_> {
        FlexibleRevalidation {
            activity: &self.activity.bytes,
            identities: &self.identities,
            leaves: &self.leaves,
            rebuilt: &self.sketches,
        }
    }
}

fn flexible() -> Flexible {
    let activity = activity();
    let complete_through = AS_OF - AS_OF % 3_600;
    let run = transform_batch(&activity.bytes, complete_through).unwrap();
    let groups = leaf_groups(&run.bytes).unwrap();
    let sketches: Vec<Vec<u8>> = groups
        .iter()
        .map(|group| {
            (0..group.exact_identities as usize)
                .map(|k| run.bytes[(group.start + k) * 38 + 6])
                .collect()
        })
        .collect();
    let (leaves, largest) = build_leaves(&groups, &sketches).unwrap();
    let evidence = complete_flexible_distinct(
        &activity.product,
        &FlexibleDistinctConfig {
            work_root: "work".to_owned(),
            source_records_per_batch: 100,
            merge_fan_in: 2,
            disk_reserve_bytes: 0,
        },
        vec!["batch-00000000.json".to_owned()],
        single("identities", artifact("identities.run", &run.bytes, run.rows)),
        CompletedLeaves {
            artifact: artifact("leaves.run", &leaves.bytes, leaves.rows),
            checkpoint_path: "leaves.json".to_owned(),
            max_leaf_bytes: largest,
        },
        0,
    )
    .unwrap();
    Flexible {
        activity,
        product: BoundedFlexibleDistinct {
            evidence,
            evidence_sha256: sha256_hex(b"flexible evidence"),
        },
        identities: run.bytes,
        leaves: leaves.bytes,
        sketches,
    }
}

#[test]
fn completed_leaves_revalidate() {
    let flexible = flexible();
    assert_eq!(flexible.identities.len(), 6 * 38);
    assert_eq!(
        flexible
            .product
            .validate_for_publication("sha256:snapshot", AS_OF, &flexible.read()),
        Ok(())
    );
    assert!(flexible
        .product
        .validate_for_publication("sha256:other", AS_OF, &flexible.read())
        .is_err());
    let mut other = flexible.sketches.clone();
    other[0].push(9);
    let mut read = flexible.read();
    read.rebuilt = &other;
    assert!(flexible
        .product
        .validate_for_publication("sha256:snapshot", AS_OF, &read)
        .is_err());
    let leaves = read_flexible_distinct_leaves(&flexible.product, &flexible.leaves).unwrap();
    let visit = |bytes: &[u8], stop: usize| {
        let visitor = |mut seen: Vec<FlexibleLeaf>, hour: u32, kind: u16, sketch: &[u8]| {
            seen.push(FlexibleLeaf {
                hour,
                kind,
                sketch: sketch.to_vec(),
            });
            let outcome = if seen.len() == stop {
                Err(Error::Validation("enough"))
            } else {
                Ok(())
            };
            (seen, outcome)
        };
        visit_flexible_distinct_leaves(&flexible.product, bytes, Vec::new(), &visitor)
    };
    let rows = flexible.product.evidence.leaf_artifact.row_count;
    assert!(rows > 2);
    assert_eq!(visit(&flexible.leaves, 0), (leaves.clone(), Ok(rows)));
    assert_eq!(
        visit(&flexible.leaves, 2),
        (leaves[..2].to_vec(), Err(Error::Validation("enough")))
    );
    let whole = flexible.leaves.len() - 10 - leaves[leaves.len() - 1].sketch.len();
    for end in [whole, whole + 3] {
        let (seen, outcome) = visit(&flexible.leaves[..end], 0);
        assert_eq!(seen, leaves[..leaves.len() - 1]);
        assert!(matches!(outcome, Err(Error::Invalid(_))));
    }
    assert_eq!(leaves.len() as u64, flexible.product.evidence.leaf_artifact.row_count);
    assert!(validate_leaf_stream(&flexible.leaves, 1, AS_OF).is_err());
}

#[test]
fn windows_join_the_leaves_of_their_hours() {
    let flexible = flexible();
    let base = u64::from(BASE);
    let window = |since: u64, until: u64, kind: Option<u16>| FlexibleDistinctWindow {
        since_epoch: since,
        until_epoch: until,
        kind,
    };
    let estimates = estimate_flexible_distinct_windows(
        &flexible.product,
        &flexible.read(),
        &[
            window(base, base + 7_200, None),
            window(base, base + 3_600, None),
            window(base, base + 90_000, Some(1)),
            window(base + 7_200, base + 10_800, None),
        ],
        &union,
    )
    .unwrap();
    assert_eq!(estimates, vec![3, 2, 1, 0]);
    let alone = |since: u64, until: u64, kind: Option<u16>| {
        estimate_flexible_distinct_window(
            &flexible.product,
            &flexible.read(),
            since,
            until,
            kind,
            &union,
        )
    };
    assert_eq!(alone(base, base + 3_600, None), Ok(2));
    assert_eq!(alone(base, base + 90_000, Some(1)), Ok(1));
    assert_eq!(alone(base + 7_200, base + 10_800, None), Ok(0));
    assert!(estimate_flexible_distinct_windows(
        &flexible.product,
        &flexible.read(),
        &[
            window(base, base + 7_200, None),
            window(base + 1, base + 7_200, None),
        ],
        &union,
    )
    .is_err());
    assert_eq!(
        estimate_flexible_distinct_window(
            &flexible.product,
            &flexible.read(),
            base,
            base + 7_200,
            None,
            &union
        ),
        Ok(3)
    );
    assert!(estimate_flexible_distinct_window(
        &flexible.product,
        &flexible.read(),
        base + 1,
        base + 7_200,
        None,
        &union
    )
    .is_err());
    let (loaded, estimates) = load_and_estimate_flexible_distinct_windows(
        flexible.product.evidence.clone(),
        b"flexible evidence",
        &flexible.read(),
        &[window(base, base + 3_600, Some(3))],
        &union,
    )
    .unwrap();
    assert_eq!(loaded.evidence_sha256, flexible.product.evidence_sha256);
    assert_eq!(estimates, vec![1]);
}

#[test]
fn exact_samples_pass_the_tolerance() {
    let flexible = flexible();
    let written = RefCell::new(Vec::new());
    let write = |evidence: &FlexibleDistinctValidationEvidence| {
        written.borrow_mut().push(evidence.clone());
        Ok(())
    };
    let validation = build_flexible_distinct_validation(
        &flexible.activity.product,
        &ActivityState {
            activity: &flexible.activity.bytes,
            flags: &flexible.activity.flags,
            metric_json: &flexible.activity.json,
        },
        flexible.product.evidence.clone(),
        b"flexible evidence",
        &flexible.read(),
        FLEXIBLE_DISTINCT_TOLERANCE_PPM,
        &union,
        &write,
    )
    .unwrap();
    assert_eq!(*written.borrow(), [validation.clone()]);
    assert_eq!(validation.status, "passed");
    assert_eq!(validation.max_relative_error_ppm, 0);
    assert_eq!(validation.sample_count as usize, validation.samples.len());
    let json = b"validation".to_vec();
    let validated = validate_flexible_distinct_publication(
        &flexible.product,
        &flexible.read(),
        &validation,
        &json,
        &sha256_hex(&json),
    )
    .unwrap();
    assert_eq!(validated.validation_sha256, sha256_hex(&json));
    assert!(validate_flexible_distinct_publication(
        &flexible.product,
        &flexible.read(),
        &validation,
        &json,
        &sha256_hex(b"other"),
    )
    .is_err());
    let columns = flexible_product_row("run", &flexible.product, &validated).unwrap();
    assert_eq!(
        columns.product_id,
        flexible_product_id("run", &flexible.product, &sha256_hex(&json))
    );
    let published = PublishedFlexible {
        snapshot_id: columns.snapshot_id.clone(),
        as_of_epoch: columns.as_of_epoch,
        complete_through_epoch: columns.complete_through_epoch,
        product_version: columns.product_version.clone(),
        evidence_sha256: columns.evidence_sha256.clone(),
        leaf_artifact_sha256: columns.leaf_artifact_sha256.clone(),
        leaf_rows: columns.leaf_rows,
        sketch_bytes: columns.sketch_bytes,
        max_leaf_bytes: columns.max_leaf_bytes,
        table_rows: columns.leaf_rows,
        table_bytes: columns.sketch_bytes,
        table_max_leaf: columns.max_leaf_bytes,
    };
    assert_eq!(
        reconcile_flexible_product(&published, &flexible.product),
        Ok(())
    );
    let publish = |known: bool, lost: u64, sha256: &str| {
        let ask = |transaction: (), request: &LedgerRequest| {
            let reply = match request {
                LedgerRequest::CurrentRun => Ok(LedgerReply::Run(LedgerRun {
                    run_id: "run".to_owned(),
                    snapshot_id: "sha256:snapshot".to_owned(),
                    query_version: "v".to_owned(),
                    as_of_epoch: AS_OF as i64,
                    activity_evidence_sha256: None,
                })),
                LedgerRequest::ProductStored { .. } => Ok(LedgerReply::Known(known)),
                LedgerRequest::InsertProduct {
                    product_id,
                    row: SideRow::Flexible(row),
                    ..
                } => {
                    assert_eq!(row.product_id, *product_id);
                    Ok(LedgerReply::Done)
                }
                LedgerRequest::CopyProduct { lines, .. } => {
                    Ok(LedgerReply::Rows(lines.len() as u64 - lost))
                }
                LedgerRequest::StoredProduct { .. } => Ok(LedgerReply::Product(
                    SideStored::Flexible(published.clone()),
                )),
                _ => Err(Error::Validation("another question")),
            };
            (transaction, reply)
        };
        let commit = |_: ()| Ok(());
        let rollback = |_: ()| ();
        publish_flexible_distinct_leaves(
            "run",
            &flexible.product,
            &flexible.read(),
            &validation,
            &json,
            sha256,
            "v",
            || Ok(()),
            &Ledger {
                ask: &ask,
                commit: &commit,
                rollback: &rollback,
            },
        )
    };
    let validation_sha256 = sha256_hex(&json);
    assert_eq!(
        publish(false, 0, &validation_sha256),
        Ok(FlexibleDistinctPublishOutcome::Published {
            product_id: columns.product_id.clone(),
        })
    );
    assert_eq!(
        publish(true, 0, &validation_sha256),
        Ok(FlexibleDistinctPublishOutcome::AlreadyPublished {
            product_id: columns.product_id.clone(),
        })
    );
    assert!(publish(false, 0, "other").is_err());
    assert!(publish(false, 1, &validation_sha256).is_err());
    assert!(reconcile_flexible_product(
        &PublishedFlexible {
            table_rows: 0,
            ..published
        },
        &flexible.product
    )
    .is_err());
}

#[test]
fn a_large_error_fails_the_tolerance() {
    let flexible = flexible();
    let exact = select_samples(
        &flexible.activity.product.evidence.distinct_pubkeys,
        flexible.product.evidence.complete_through_epoch,
    )
    .unwrap();
    assert!(!exact.is_empty());
    let estimates: Vec<u64> = exact
        .iter()
        .map(|sample| sample.row.unique_pubkeys + 1)
        .collect();
    let validation = report_validation(
        &flexible.activity.product,
        &flexible.product,
        &exact,
        &estimates,
        FLEXIBLE_DISTINCT_TOLERANCE_PPM,
    )
    .unwrap();
    assert_eq!(validation.status, "failed");
    assert_eq!(validation.max_absolute_error, 1);
    let written = RefCell::new(Vec::new());
    let write = |evidence: &FlexibleDistinctValidationEvidence| {
        written.borrow_mut().push(evidence.clone());
        Ok(())
    };
    let high = |sketches: Vec<Vec<u8>>| union(sketches).map(|estimate| estimate + 1);
    let refused = build_flexible_distinct_validation(
        &flexible.activity.product,
        &ActivityState {
            activity: &flexible.activity.bytes,
            flags: &flexible.activity.flags,
            metric_json: &flexible.activity.json,
        },
        flexible.product.evidence.clone(),
        b"flexible evidence",
        &flexible.read(),
        FLEXIBLE_DISTINCT_TOLERANCE_PPM,
        &high,
        &write,
    );
    assert!(refused.is_err());
    let written = written.borrow();
    assert_eq!(written.len(), 1);
    assert_eq!(written[0].status, "failed");
    assert_eq!(written[0].sample_count as usize, written[0].samples.len());
    assert_eq!(
        written[0].max_relative_error_ppm,
        validation.max_relative_error_ppm
    );
}

#[test]
fn flexible_leaves_are_written_as_columns() {
    let leaf = FlexibleLeaf {
        hour: 2,
        kind: 7,
        sketch: vec![0xab, 0x01],
    };
    assert_eq!(leaf_line("p", &leaf), "p,7200,7,\\xab01\n");
    let window = published_window(10_800, 3_600, 7_200, Some(1)).unwrap();
    assert_eq!(window.kind, Some(1));
    assert!(published_window(-1, 3_600, 7_200, None).is_err());
}
