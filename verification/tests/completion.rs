use pensieve_analytics::advance::{baseline_run, plan_advances, CheckpointVersion};
use pensieve_analytics::artifact::{
    ArtifactIdentity, BatchLimits, CatalogObject, InputBatch, InputIdentity, RunCheckpoint,
    RunIdentity,
};
use pensieve_analytics::batches::{batch_duplicates, BatchProgress};
use pensieve_analytics::digest::sha256_hex;
use pensieve_analytics::error::Error;
use pensieve_analytics::first_seen_build::{
    complete_first_seen, estimate_advance_bytes, scan_first_seen, FirstSeenBuild, ScannedFirstSeen,
};
use pensieve_analytics::input::{CatalogSnapshot, ResolvedSnapshot};
use pensieve_analytics::merge::{CompletedRun, MergeOutcome};
use pensieve_analytics::plan::{
    applied_object, plan_from_baseline, AppliedColumns, Baseline, CatalogDeltaPlan,
};
use pensieve_analytics::ledger::{
    Ledger, LedgerReply, LedgerRequest, LedgerRun, SideRow, SideStored, SideTable,
};
use pensieve_analytics::publish_serving::{publish_serving_facts, StoredServing};
use pensieve_analytics::publish_zap::publish_zap_distinct;
use pensieve_analytics::pubkey_first_seen::{
    finalize as finalize_first_seen, load_bounded_pubkey_first_seen, SeenBounds,
};
use pensieve_analytics::semantic_build::{
    catalog_inputs, complete_semantic_facts, finalize as finalize_facts, validate_batch_evidence,
    BatchEvidence, BoundedSemanticFacts, SemanticFactsConfig,
};
use pensieve_analytics::semantic_publish::validate_semantic_publication;
use pensieve_analytics::semantic_totals::{SemanticPayload, SemanticRecord};
use pensieve_analytics::serving_compact::TimestampBounds;
use pensieve_analytics::serving_facts::{
    check_sources, complete_serving_facts, finalize as finalize_serving,
    load_bounded_serving_facts, read_serving_hourly_rows, read_serving_kind_rows,
    visit_serving_hourly_rows, visit_serving_kind_rows,
    ServingArtifacts, ServingFactsConfig, ServingSource,
};
use pensieve_analytics::serving_publish::{
    check_serving_baseline, decode_hour, reconcile_metadata, serving_product_row,
    CurrentServingRun, HourlyColumns, KindColumns, PublishedServing, ServingFactsPublishOutcome,
};
use pensieve_analytics::serving_records::{
    ContentFact, EventFact, ServingHourlyRow, ServingKindRow,
};
use pensieve_analytics::zap_chunks::chunk_identities;
use pensieve_analytics::zap_distinct::{
    build_groups, check_reused_chunk, SketchResult, MAX_RELATIVE_ERROR_PPM,
};
use pensieve_analytics::zap_evidence::{
    build_leaves, chunk_input, complete_zap_distinct, load_bounded_zap_distinct, run_identity,
    semantic_input, DecodedSketch, ZapDistinctConfig, ZapRevalidation,
};
use pensieve_analytics::zap_publish::{
    check_zap_baseline, reconcile_zap_product, validate_zap_distinct_publication,
    zap_distinct_product_id, zap_product_row, PublishedZapDistinct, SemanticBaseline,
    ZapDistinctPublishOutcome,
};

const AS_OF: u64 = 200_000;

fn artifact(path: &str, bytes: &[u8], rows: u64) -> ArtifactIdentity {
    ArtifactIdentity {
        path: path.to_owned(),
        byte_size: bytes.len() as u64,
        row_count: rows,
        min_key: None,
        max_key: None,
        sha256: sha256_hex(bytes),
    }
}

fn checkpoint(run: RunIdentity, artifact: ArtifactIdentity) -> RunCheckpoint {
    RunCheckpoint {
        schema_version: 1,
        runner_version: "runner".to_owned(),
        run,
        inputs: Vec::new(),
        artifact,
    }
}

fn run(product: &str) -> RunIdentity {
    RunIdentity {
        snapshot_id: "sha256:snapshot".to_owned(),
        as_of: AS_OF,
        product: product.to_owned(),
        product_version: "v1".to_owned(),
        key_space: "key".to_owned(),
    }
}

fn merged(artifact: ArtifactIdentity, duplicate_rows: u64) -> MergeOutcome {
    MergeOutcome {
        final_run: CompletedRun {
            identity: "final".to_owned(),
            path: artifact.path.clone(),
            checkpoint_path: "final.json".to_owned(),
            checkpoint: checkpoint(run("final"), artifact),
        },
        merge_count: 0,
        duplicate_rows,
        max_buffered_bytes: 0,
        checkpoints: Vec::new(),
    }
}

fn snapshot(physical_rows: u64) -> ResolvedSnapshot {
    ResolvedSnapshot {
        catalog: CatalogSnapshot {
            snapshot_id: "sha256:snapshot".to_owned(),
            store_id: "s3+https://example.test/bucket".to_owned(),
            objects: Vec::new(),
            physical_rows,
        },
        locations: Vec::new(),
        s3_endpoint: None,
        s3_bucket: None,
    }
}

fn limits() -> BatchLimits {
    BatchLimits {
        max_bytes: 1_000,
        max_rows: 1_000,
    }
}

#[test]
fn completed_first_seen_evidence_loads_again() {
    let rows = [(1_u8, 90_000_u64), (2, 100), (3, 180_000)]
        .iter()
        .map(|(key, first_seen)| ScannedFirstSeen {
            pubkey: vec![*key; 32],
            first_seen: *first_seen,
        })
        .collect();
    let run = scan_first_seen(&rows).unwrap();
    let state = artifact("first-seen.run", &run.bytes, run.rows);
    let bounds = SeenBounds {
        genesis: 1_000,
        as_of: AS_OF,
    };
    let finalized = finalize_first_seen(&run.bytes, &state, bounds).unwrap();
    let evidence = complete_first_seen(
        &snapshot(3),
        FirstSeenBuild {
            as_of_epoch: AS_OF,
            delta_objects: 0,
            baseline_evidence_sha256: None,
            batch_count: 1,
            estimated_run_bytes: 120,
            disk_reserve_bytes: 0,
        },
        BatchProgress::new(Vec::new()),
        merged(state, 0),
        finalized,
        b"rows",
    );
    let product =
        load_bounded_pubkey_first_seen(evidence.clone(), b"json", &run.bytes, b"rows", 1_000)
            .unwrap();
    assert_eq!(product.evidence.eligible_pubkeys, 2);
    assert_eq!(product.evidence_sha256, sha256_hex(b"json"));
    assert!(
        load_bounded_pubkey_first_seen(evidence.clone(), b"json", &run.bytes, b"rows", 1_001)
            .is_ok()
    );
    assert!(
        load_bounded_pubkey_first_seen(evidence.clone(), b"json", &run.bytes, b"other", 1_000)
            .is_err()
    );
    assert!(
        load_bounded_pubkey_first_seen(evidence, b"json", &run.bytes, b"rows", 100_000).is_err()
    );
    let plan = plan();
    assert_eq!(
        estimate_advance_bytes(&product, &plan, 1, 2),
        Ok((3 + 4) * 40 * 2)
    );
    let baseline = baseline_run(
        &product.evidence_sha256,
        &product.evidence.final_artifact,
        self::run("first-seen-batch"),
        CheckpointVersion {
            schema_version: 1,
            runner_version: "runner".to_owned(),
        },
    );
    assert_eq!(
        baseline.identity,
        format!("baseline-evidence:{}", sha256_hex(b"json"))
    );
    assert!(plan_advances(&plan, "sha256:target", "sha256:snapshot", 1));
    assert!(!plan_advances(&plan, "sha256:target", "sha256:other", 1));
    assert!(!plan_advances(&plan, "sha256:target", "sha256:snapshot", 2));
}

fn plan() -> CatalogDeltaPlan {
    let target = CatalogSnapshot {
        snapshot_id: "sha256:target".to_owned(),
        store_id: "s3+https://example.test/bucket".to_owned(),
        objects: vec![CatalogObject {
            object_key: "a".to_owned(),
            work_unit_id: "w".to_owned(),
            sha256: "aa".repeat(32),
            byte_size: 10,
            row_count: 4,
            min_created_at: None,
            max_created_at: None,
        }],
        physical_rows: 4,
    };
    plan_from_baseline(
        &target,
        Some(Baseline {
            run_id: "r".to_owned(),
            snapshot_id: "sha256:snapshot".to_owned(),
            query_version: "v".to_owned(),
            objects: Vec::new(),
        }),
        "v",
    )
    .unwrap()
}

#[test]
fn ledger_objects_have_no_negative_counts() {
    let columns = |byte_size: i64, physical_rows: i64| AppliedColumns {
        object_key: "a".to_owned(),
        work_unit_id: "w".to_owned(),
        sha256: "aa".repeat(32),
        byte_size,
        physical_rows,
        min_created_at: Some("1".to_owned()),
        max_created_at: None,
    };
    assert_eq!(applied_object(columns(3, 2)).unwrap().byte_size, 3);
    assert_eq!(
        applied_object(columns(3, -2)),
        Err(Error::NegativeLedgerValue {
            field: "object physical_rows",
            value: -2,
        })
    );
}

fn records() -> Vec<SemanticRecord> {
    let zap = |created_at: u64, sender: u8, recipient: Option<u8>| SemanticRecord {
        created_at,
        payload: SemanticPayload::Zap {
            amount_msats: 2_000,
            sender_pubkey: Some([sender; 32]),
            recipient_pubkey: recipient.map(|key| [key; 32]),
        },
    };
    vec![
        zap(90_000, 2, Some(1)),
        zap(90_001, 2, None),
        zap(180_000, 1, Some(3)),
        SemanticRecord {
            created_at: 180_001,
            payload: SemanticPayload::OriginalNote,
        },
    ]
}

fn semantic() -> (BoundedSemanticFacts, Vec<u8>) {
    let bytes = vec![7_u8; 4 * 115];
    let (rollups, counts) = finalize_facts(&records()).unwrap();
    let mut progress = BatchProgress::new(Vec::new());
    progress.physical_rows = 5;
    progress.duplicate_rows = 1;
    let evidence = complete_semantic_facts(
        &snapshot(5),
        AS_OF,
        &SemanticFactsConfig {
            work_root: "work".to_owned(),
            batch_limits: limits(),
            merge_fan_in: 2,
            disk_reserve_bytes: 0,
        },
        1,
        progress,
        merged(artifact("facts.run", &bytes, 4), 0),
        rollups,
        counts,
        b"rollups",
    )
    .unwrap();
    (
        BoundedSemanticFacts {
            artifact_path: "facts.run".to_owned(),
            evidence,
            evidence_sha256: sha256_hex(b"semantic"),
        },
        bytes,
    )
}

#[test]
fn completed_facts_may_be_published() {
    let (product, bytes) = semantic();
    assert_eq!(product.evidence.logical_relevant_events, 4);
    assert_eq!(product.evidence.duplicate_relevant_rows, 1);
    assert_eq!(product.evidence.memory.zap_days, 2);
    assert_eq!(validate_semantic_publication(&product, &bytes), Ok(()));
    let mut progress = BatchProgress::new(Vec::new());
    progress.physical_rows = 5;
    let (rollups, counts) = finalize_facts(&records()).unwrap();
    assert!(complete_semantic_facts(
        &snapshot(5),
        AS_OF,
        &SemanticFactsConfig {
            work_root: "work".to_owned(),
            batch_limits: limits(),
            merge_fan_in: 2,
            disk_reserve_bytes: 0,
        },
        1,
        progress,
        merged(artifact("facts.run", &bytes, 4), 0),
        rollups,
        counts,
        b"rollups",
    )
    .is_err());
    assert!(catalog_inputs(&snapshot(0).catalog).unwrap().is_empty());
}

#[test]
fn reused_batches_agree_with_their_checkpoint() {
    let input = InputIdentity {
        identity: "a".to_owned(),
        byte_size: 10,
        row_count: 4,
        sha256: "aa".repeat(32),
    };
    let batch = InputBatch {
        index: 2,
        inputs: vec![input.clone()],
        byte_size: 10,
        row_count: 4,
    };
    let checkpoint = checkpoint(run("semantic-batch"), artifact("batch.run", b"run", 3));
    let mut stats = BatchEvidence {
        schema_version: 1,
        runner_version: "pensieve-analytics-semantic-facts-v1".to_owned(),
        snapshot_id: "sha256:snapshot".to_owned(),
        as_of_epoch: AS_OF,
        batch_index: 2,
        inputs: vec![input],
        physical_relevant_rows: 4,
        logical_relevant_events: 3,
        duplicate_relevant_rows: 1,
        min_event_id: None,
        max_event_id: None,
        artifact_sha256: sha256_hex(b"run"),
    };
    assert_eq!(
        validate_batch_evidence(&stats, "sha256:snapshot", AS_OF, &batch, &checkpoint),
        Ok(())
    );
    stats.duplicate_relevant_rows = 0;
    assert!(
        validate_batch_evidence(&stats, "sha256:snapshot", AS_OF, &batch, &checkpoint).is_err()
    );
}

#[test]
fn completed_participants_load_publish_and_reconcile() {
    let (semantic, _) = semantic();
    let chunked = chunk_identities(&records(), AS_OF, 100).unwrap();
    assert_eq!(chunked.chunks.len(), 1);
    let chunk = &chunked.chunks[0];
    let bytes = chunk.run.bytes.clone();
    let groups = build_groups(&bytes).unwrap();
    assert_eq!(groups.len(), 4);
    let sketches = || {
        groups
            .iter()
            .map(|group| SketchResult {
                estimate: group.exact_identities,
                sketch: vec![1, 2],
            })
            .collect::<Vec<_>>()
    };
    let leaves = build_leaves(&groups, sketches()).unwrap();
    let identities = artifact("identities.run", &bytes, chunk.run.rows);
    let mut reused = checkpoint(run_identity(&semantic, "chunk"), identities.clone());
    assert_eq!(check_reused_chunk(&reused, chunk), Ok(()));
    let source = semantic_input(&semantic);
    assert_eq!(
        chunk_input(&source, 3).identity,
        format!("{}#chunk-00000003", source.identity)
    );
    let evidence = complete_zap_distinct(
        &semantic,
        &ZapDistinctConfig {
            work_root: "work".to_owned(),
            chunk_records: 100,
            merge_fan_in: 2,
            disk_reserve_bytes: 0,
        },
        chunked.physical_identities,
        chunked.max_buffered_bytes,
        chunked.duplicate_rows,
        vec!["chunk-00000000.json".to_owned()],
        merged(identities, 0),
        leaves,
        12,
    )
    .unwrap();
    assert_eq!(evidence.tolerance_ppm, MAX_RELATIVE_ERROR_PPM);
    let read = |estimate: u64| ZapRevalidation {
        identities: &bytes,
        rebuilt: sketches(),
        decoded: (0..4)
            .map(|_| Some(DecodedSketch { estimate, lg_k: 12 }))
            .collect(),
        chunk_checkpoints: vec![reused.clone()],
        merge_checkpoints: Vec::new(),
    };
    let product = load_bounded_zap_distinct(
        evidence.clone(),
        b"zap",
        "identities.run".to_owned(),
        &semantic,
        read(1),
        12,
    )
    .unwrap();
    assert!(load_bounded_zap_distinct(
        evidence.clone(),
        b"zap",
        "identities.run".to_owned(),
        &semantic,
        read(2),
        12
    )
    .is_err());
    assert_eq!(
        validate_zap_distinct_publication(&semantic, &product, read(1), 12),
        Ok(())
    );
    assert!(validate_zap_distinct_publication(&semantic, &product, read(1), 11).is_err());
    assert_eq!(
        zap_distinct_product_id("p", &product),
        sha256_hex(
            format!("pensieve-zap-distinct-product-v1\0p\0{}", sha256_hex(b"zap")).as_bytes()
        )
    );
    let row = zap_product_row(&evidence).unwrap();
    assert_eq!(row.complete_through_epoch, 172_800);
    assert_eq!(row.sketch_bytes, 8);
    let mut published = PublishedZapDistinct {
        product_version: "zap-distinct-daily-v3".to_owned(),
        evidence_sha256: sha256_hex(b"zap"),
        identity_artifact_sha256: sha256_hex(&bytes),
        physical_identities: row.physical_identities,
        logical_identities: row.logical_identities,
        duplicate_identities: row.duplicate_identities,
        leaf_rows: 4,
        sketch_bytes: 8,
        max_leaf_bytes: 2,
        table_rows: 4,
        table_bytes: 8,
        table_max_leaf: 2,
        table_identities: row.logical_identities,
    };
    assert_eq!(reconcile_zap_product(&published, &product), Ok(()));
    let publish = |known: bool, lost: u64, run_id: &str| {
        let ask = |transaction: (), request: &LedgerRequest| {
            let reply = match request {
                LedgerRequest::SemanticProduct { product_id } => {
                    assert_eq!(product_id, "p");
                    Ok(LedgerReply::Semantic(
                        run_id.to_owned(),
                        SemanticBaseline {
                            run_id: "r".to_owned(),
                            snapshot_id: "sha256:snapshot".to_owned(),
                            as_of_epoch: AS_OF as i64,
                            evidence_sha256: sha256_hex(b"semantic"),
                            query_version: "v".to_owned(),
                        },
                    ))
                }
                LedgerRequest::ProductStored { .. } => Ok(LedgerReply::Known(known)),
                LedgerRequest::InsertProduct {
                    row: SideRow::Zap(row),
                    ..
                } => {
                    assert_eq!(row.sketch_bytes, 8);
                    Ok(LedgerReply::Done)
                }
                LedgerRequest::CopyProduct { lines, .. } => {
                    Ok(LedgerReply::Rows(lines.len() as u64 - lost))
                }
                LedgerRequest::StoredProduct { .. } => {
                    Ok(LedgerReply::Product(SideStored::Zap(published.clone())))
                }
                _ => Err(Error::Validation("another question")),
            };
            (transaction, reply)
        };
        let commit = |_: ()| Ok(());
        let rollback = |_: ()| ();
        publish_zap_distinct(
            "p",
            &semantic,
            &product,
            read(1),
            12,
            "v",
            || Ok(()),
            &Ledger {
                ask: &ask,
                commit: &commit,
                rollback: &rollback,
            },
        )
    };
    assert_eq!(
        publish(false, 0, "r"),
        Ok(ZapDistinctPublishOutcome::Published {
            product_id: zap_distinct_product_id("p", &product),
        })
    );
    assert!(matches!(
        publish(true, 0, "r"),
        Ok(ZapDistinctPublishOutcome::AlreadyPublished { .. })
    ));
    assert!(publish(false, 0, "other").is_err());
    assert!(matches!(
        publish(false, 1, "r"),
        Err(Error::CopyCount { .. })
    ));
    published.table_rows = -1;
    assert_eq!(
        reconcile_zap_product(&published, &product),
        Err(Error::NegativeLedgerValue {
            field: "published zap leaf rows",
            value: -1,
        })
    );
    let mut baseline = SemanticBaseline {
        run_id: "r".to_owned(),
        snapshot_id: "sha256:snapshot".to_owned(),
        as_of_epoch: AS_OF as i64,
        evidence_sha256: sha256_hex(b"semantic"),
        query_version: "v".to_owned(),
    };
    assert_eq!(check_zap_baseline(&baseline, "r", &evidence, "v"), Ok(()));
    assert!(check_zap_baseline(&baseline, "other", &evidence, "v").is_err());
    baseline.as_of_epoch = -1;
    assert!(matches!(
        check_zap_baseline(&baseline, "r", &evidence, "v"),
        Err(Error::NegativeLedgerValue { .. })
    ));
    assert!(matches!(
        check_zap_baseline(&baseline, "other", &evidence, "v"),
        Err(Error::Validation(_))
    ));
    reused.artifact.row_count += 1;
    assert!(check_reused_chunk(&reused, chunk).is_err());
}

fn source(evidence: &[u8], artifact: ArtifactIdentity, logical_events: u64) -> ServingSource {
    ServingSource {
        snapshot_id: "sha256:snapshot".to_owned(),
        as_of_epoch: 20_000,
        evidence_sha256: sha256_hex(evidence),
        artifact,
        logical_events,
    }
}

#[test]
fn completed_serving_facts_load_and_reconcile() {
    let as_of = 20_000_u64;
    let bounds = TimestampBounds {
        genesis: 3_600,
        api_max: 1_000_000,
    };
    let mut events = Vec::new();
    let mut content = Vec::new();
    let mut activity = Vec::new();
    for (id, created_at) in [(1_u8, 7_300_u64), (2, 19_000)] {
        events.extend(
            EventFact {
                id: [id; 32],
                created_at,
                kind: 1,
            }
            .encode(),
        );
        content.extend(
            ContentFact {
                id: [id; 32],
                content_bytes: 3,
            }
            .encode(),
        );
        activity.extend_from_slice(&[9; 32]);
        activity.extend_from_slice(&(created_at as u32).to_be_bytes());
        activity.extend_from_slice(&1_u16.to_be_bytes());
        activity.extend_from_slice(&[id; 32]);
    }
    let finalized = finalize_serving(&events, 2, &content, &activity, as_of, bounds).unwrap();
    let event_source = || source(b"events", artifact("events.run", &events, 2), 2);
    let activity_source = || source(b"activity", artifact("activity.run", &activity, 2), 2);
    assert_eq!(
        check_sources(&snapshot(3), as_of, &event_source(), &activity_source()),
        Ok(())
    );
    assert!(check_sources(&snapshot(3), 1, &event_source(), &activity_source()).is_err());
    assert_eq!(batch_duplicates(3, 2), Ok(1));
    assert!(batch_duplicates(2, 3).is_err());
    let mut progress = BatchProgress::new(Vec::new());
    progress.duplicate_rows = 1;
    let evidence = complete_serving_facts(
        &snapshot(3),
        as_of,
        &ServingFactsConfig {
            work_root: "work".to_owned(),
            batch_limits: limits(),
            merge_fan_in: 2,
            disk_reserve_bytes: 0,
        },
        1,
        0,
        event_source(),
        activity_source(),
        progress,
        merged(artifact("content.run", &content, 2), 0),
        &finalized,
        artifact("hourly.run", &finalized.hourly.bytes, finalized.hourly.rows),
        artifact("kinds.run", &finalized.kinds.bytes, finalized.kinds.rows),
    )
    .unwrap();
    assert_eq!(evidence.complete_hour_events, 1);
    assert_eq!(evidence.eligible_kind_events, 2);
    let artifacts = ServingArtifacts {
        events: &events,
        content: &content,
        hourly: &finalized.hourly.bytes,
        kinds: &finalized.kinds.bytes,
        activity: &activity,
    };
    let product =
        load_bounded_serving_facts(evidence.clone(), b"serving", &artifacts, bounds).unwrap();
    assert_eq!(
        product.validate_for_publication(
            "sha256:snapshot",
            as_of,
            &sha256_hex(b"activity"),
            &artifacts,
            bounds
        ),
        Ok(())
    );
    let mut broken = evidence.clone();
    broken.complete_hour_events += 1;
    assert!(load_bounded_serving_facts(broken, b"serving", &artifacts, bounds).is_err());
    let row = serving_product_row(&evidence).unwrap();
    let mut published = PublishedServing {
        snapshot_id: "sha256:snapshot".to_owned(),
        product_version: "serving-facts-v1".to_owned(),
        evidence_sha256: sha256_hex(b"serving"),
        activity_evidence_sha256: sha256_hex(b"activity"),
        content_artifact_sha256: sha256_hex(&content),
        hourly_artifact_sha256: sha256_hex(&finalized.hourly.bytes),
        kind_artifact_sha256: sha256_hex(&finalized.kinds.bytes),
        row,
    };
    assert_eq!(reconcile_metadata(&published, &product), Ok(()));
    let hours = read_serving_hourly_rows(&product, &finalized.hourly.bytes).unwrap();
    let summaries = read_serving_kind_rows(&product, &finalized.kinds.bytes).unwrap();
    let visit_hours = |bytes: &[u8], stop: usize| {
        let visitor = |mut seen: Vec<ServingHourlyRow>, row: ServingHourlyRow| {
            seen.push(row);
            let outcome = if seen.len() == stop {
                Err(Error::Validation("enough"))
            } else {
                Ok(())
            };
            (seen, outcome)
        };
        visit_serving_hourly_rows(&product, bytes, Vec::new(), &visitor)
    };
    let bytes = &finalized.hourly.bytes;
    assert_eq!(hours.len(), 2);
    assert_eq!(visit_hours(bytes, 0), (hours.clone(), Ok(())));
    assert_eq!(
        visit_hours(bytes, 1),
        (hours[..1].to_vec(), Err(Error::Validation("enough")))
    );
    let mut zero = bytes.clone();
    zero[31] = 0;
    for broken in [&bytes[..17], &bytes[..16], zero.as_slice()] {
        let (seen, outcome) = visit_hours(broken, 0);
        assert_eq!(seen, hours[..1]);
        assert!(matches!(outcome, Err(Error::Invalid(_))));
    }
    let swapped = [&bytes[16..], &bytes[..16]].concat();
    let (seen, outcome) = visit_hours(&swapped, 0);
    assert_eq!(seen, hours[1..]);
    assert_eq!(
        outcome,
        Err(Error::Invalid("hourly artifact is not strictly sorted"))
    );
    let visit_kinds = |bytes: &[u8], refuses: bool| {
        let visitor = |mut seen: Vec<ServingKindRow>, row: ServingKindRow| {
            seen.push(row);
            let outcome = if refuses {
                Err(Error::Validation("enough"))
            } else {
                Ok(())
            };
            (seen, outcome)
        };
        visit_serving_kind_rows(&product, bytes, Vec::new(), &visitor)
    };
    assert_eq!(
        visit_kinds(&finalized.kinds.bytes, false),
        (summaries.clone(), Ok(()))
    );
    assert_eq!(
        visit_kinds(&finalized.kinds.bytes, true),
        (summaries[..1].to_vec(), Err(Error::Validation("enough")))
    );
    assert!(matches!(
        visit_kinds(&[], false),
        (seen, Err(Error::Invalid(_))) if seen.is_empty()
    ));
    let publish = |known: bool, lost: u64, events: i64| {
        let ask = |transaction: (), request: &LedgerRequest| {
            let reply = match request {
                LedgerRequest::CurrentRun => Ok(LedgerReply::Run(LedgerRun {
                    run_id: "r".to_owned(),
                    snapshot_id: "sha256:snapshot".to_owned(),
                    query_version: "v".to_owned(),
                    as_of_epoch: as_of as i64,
                    activity_evidence_sha256: Some(sha256_hex(b"activity")),
                })),
                LedgerRequest::ProductStored { .. } => Ok(LedgerReply::Known(known)),
                LedgerRequest::InsertProduct {
                    row: SideRow::Serving(row),
                    ..
                } => {
                    assert_eq!(row.complete_hour_events, 1);
                    Ok(LedgerReply::Done)
                }
                LedgerRequest::CopyProduct { table, lines } => {
                    Ok(LedgerReply::Rows(if *table == SideTable::Kinds {
                        lines.len() as u64 - lost
                    } else {
                        lines.len() as u64
                    }))
                }
                LedgerRequest::StoredProduct { .. } => {
                    Ok(LedgerReply::Product(SideStored::Serving(StoredServing {
                metadata: published.clone(),
                hours: hours
                    .iter()
                    .map(|row| HourlyColumns {
                        hour_epoch: i64::from(row.hour_epoch),
                        kind: row.kind.map_or(-1, i32::from),
                        event_count: row.event_count as i64 + events,
                    })
                    .collect(),
                kinds: summaries
                    .iter()
                    .map(|row| KindColumns {
                        kind: i32::from(row.kind),
                        event_count: row.event_count as i64,
                        unique_pubkeys: row.unique_pubkeys as i64,
                        first_seen: i64::from(row.first_seen),
                        last_seen: i64::from(row.last_seen),
                        content_bytes: row.content_bytes as i64,
                        content_rows: row.content_rows as i64,
                    })
                    .collect(),
            })))
                }
                _ => Err(Error::Validation("another question")),
            };
            (transaction, reply)
        };
        let commit = |_: ()| Ok(());
        let rollback = |_: ()| ();
        publish_serving_facts(
            "r",
            &product,
            &artifacts,
            bounds,
            || Ok(()),
            &Ledger {
                ask: &ask,
                commit: &commit,
                rollback: &rollback,
            },
        )
    };
    assert!(matches!(
        publish(false, 0, 0),
        Ok(ServingFactsPublishOutcome::Published { .. })
    ));
    assert!(matches!(
        publish(true, 0, 0),
        Ok(ServingFactsPublishOutcome::AlreadyPublished { .. })
    ));
    assert!(publish(true, 0, 1).is_err());
    assert!(matches!(
        publish(false, 1, 0),
        Err(Error::CopyCount { .. })
    ));
    published.row.kind_rows = 7;
    assert!(reconcile_metadata(&published, &product).is_err());
    let current = CurrentServingRun {
        run_id: "r".to_owned(),
        snapshot_id: "sha256:snapshot".to_owned(),
        as_of_epoch: as_of as i64,
        activity_evidence_sha256: Some(sha256_hex(b"activity")),
    };
    assert_eq!(check_serving_baseline(&current, "r", &evidence), Ok(()));
    assert!(check_serving_baseline(&current, "s", &evidence).is_err());
    assert_eq!(decode_hour(None, 2, 5).unwrap().event_count, 5);
    assert!(decode_hour(None, -1, 5).is_err());
}
