use std::cell::{Cell, RefCell};
use std::collections::BTreeMap;

use pensieve_analytics::activity_build::{
    complete_fixed_activity, load_bounded_fixed_activity, scan_activity, ActivityBuild,
    ScannedActivity,
};
use pensieve_analytics::artifact::{ArtifactIdentity, RunCheckpoint, RunIdentity};
use pensieve_analytics::batches::BatchProgress;
use pensieve_analytics::digest::sha256_hex;
use pensieve_analytics::fixed_activity::{finalize, has_full_weeks, BoundedFixedActivity};
use pensieve_analytics::input::{CatalogSnapshot, ResolvedSnapshot};
use pensieve_analytics::merge::{CompletedRun, MergeOutcome};
use pensieve_analytics::publisher_flags::build_flags;
use pensieve_analytics::activity_tables::{ActiveUsersPeriod, DistinctPubkeysPeriod};
use pensieve_analytics::artifact::CatalogObject;
use pensieve_analytics::error::{Error, Result};
use pensieve_analytics::flexible_build::{complete_flexible_distinct, CompletedLeaves};
use pensieve_analytics::flexible_distinct::{
    build_leaves, BoundedFlexibleDistinct, FlexibleDistinctConfig, FlexibleRevalidation,
};
use pensieve_analytics::flexible_publish::{FlexibleProductRow, PublishedFlexible};
use pensieve_analytics::flexible_validation::{
    build_flexible_distinct_validation, ActivityState, FlexibleDistinctValidationEvidence,
    FLEXIBLE_DISTINCT_TOLERANCE_PPM,
};
use pensieve_analytics::hour_identities::{leaf_groups, transform_batch};
use pensieve_analytics::products::{
    validate_products, AllBoundedProducts, BoundedCohortRetention, CohortRetentionEvidence,
    CohortRetentionPeriod, FlexibleDistinctPublication, Generation, ProductReads, PublicationProducts,
};
use pensieve_analytics::pubkey_first_seen::{
    BoundedPubkeyFirstSeen, NewUsersDaily, PubkeyFirstSeenEvidence,
};
use pensieve_analytics::publication::{
    check_baseline, expect_copied, reconcile_fields, reconcile_totals, to_columns, CurrentRun,
    FieldCheck, NamedCount,
};
use pensieve_analytics::publish::{
    active_users_line, cohort_line, decide_publication, distinct_pubkeys_line,
    event_daily_kind_line, event_daily_line, finish_publication, kind_all_time_line,
    new_users_line, object_row, overview_row, product_sizes, query_version,
    reconcile_published_activity, reconcile_published_cohort, reconcile_published_identity,
    run_id, run_row, validation_record, BuildSummary, OverviewCounts, OverviewRow,
    PublicationStep, PublishOutcome, PublishedActivity, PublishedCohort, PublishedIdentity,
    QueryVersions, RunRow,
};
use pensieve_analytics::ledger::{
    Ledger, LedgerReply, LedgerRequest, LedgerRun, PublishedTables, SideProduct, SideRow,
    SideStored, SideTable,
};
use pensieve_analytics::publish_semantic::publish_semantic_facts;
use pensieve_analytics::semantic_publish::SemanticPublishOutcome;
use pensieve_analytics::publish_products::{
    publish, publish_incremental, publish_incremental_with_all_bounded_products,
    publish_incremental_with_all_bounded_products_and_flexible, publish_incremental_with_identity,
    publish_incremental_with_identity_and_activity, publish_with_all_bounded_products,
    publish_with_identity, publish_with_identity_and_activity,
};
use pensieve_analytics::publish_run::RunRequest;
use pensieve_analytics::publish_tables::{EventRows, Relation};
use pensieve_analytics::flexible_publish::PublishedWindow;
use pensieve_analytics::published_queries::{
    estimate_published_flexible_distinct, estimate_published_zap_distinct,
    query_published_publisher_ranking, query_published_relay_distribution,
    query_published_serving_hourly, query_published_serving_kind, HourColumns,
};
use pensieve_analytics::publisher_publish::{PageColumns, RankingQuery};
use pensieve_analytics::relay_publish::RelayColumns;
use pensieve_analytics::rollups::SemanticRollups;
use pensieve_analytics::serving_publish::{HourlyQuery, KindColumns};
use pensieve_analytics::zap_distinct::ZapParticipantRole;
use pensieve_analytics::zap_publish::PublishedZapWindow;
use pensieve_analytics::semantic_build::{
    BoundedSemanticFacts, SemanticDomainCounts, SemanticFactsEvidence, SemanticMemoryEvidence,
};
use pensieve_analytics::semantic_publish::{
    engagement_line, histogram_lines, longform_line,
    reconcile_semantic_product, rejection_lines, semantic_product_id, semantic_product_row,
    validate_semantic_publication, zap_amount, zap_line, PublishedSemantic,
};

const BASE: u32 = 1_767_225_600;
const AS_OF: u64 = 1_767_398_399;

fn fact(pubkey: u8, created_at: u32, kind: u16, id: u8) -> ScannedActivity {
    ScannedActivity {
        pubkey: vec![pubkey; 32],
        created_at,
        kind,
        id: vec![id; 32],
    }
}

fn facts() -> Vec<ScannedActivity> {
    vec![
        fact(1, BASE + 10, 1, 1),
        fact(1, BASE + 11, 1, 7),
        fact(1, BASE + 20, 0, 2),
        fact(1, BASE + 86_400, 1, 3),
        fact(2, BASE + 30, 3, 4),
        fact(2, BASE + 31, 445, 5),
        fact(3, BASE + 3_601, 1_059, 6),
        fact(3, BASE + 200_000, 1, 8),
    ]
}

fn artifact(path: &str, bytes: &[u8], rows: u64) -> ArtifactIdentity {
    ArtifactIdentity {
        path: path.to_owned(),
        byte_size: bytes.len() as u64,
        row_count: rows,
        min_key: None,
        max_key: None,
        sha256: sha256_hex(bytes),
    }
}

fn completed(identity: &str, artifact: ArtifactIdentity) -> CompletedRun {
    CompletedRun {
        identity: identity.to_owned(),
        path: artifact.path.clone(),
        checkpoint_path: format!("{identity}.json"),
        checkpoint: RunCheckpoint {
            schema_version: 1,
            runner_version: "runner".to_owned(),
            run: RunIdentity {
                snapshot_id: "sha256:snapshot".to_owned(),
                as_of: AS_OF,
                product: "product".to_owned(),
                product_version: "v1".to_owned(),
                key_space: "key".to_owned(),
            },
            inputs: Vec::new(),
            artifact,
        },
    }
}

fn single(identity: &str, artifact: ArtifactIdentity) -> MergeOutcome {
    MergeOutcome {
        final_run: completed(identity, artifact),
        merge_count: 0,
        duplicate_rows: 0,
        max_buffered_bytes: 0,
        checkpoints: Vec::new(),
    }
}

fn snapshot() -> ResolvedSnapshot {
    ResolvedSnapshot {
        catalog: CatalogSnapshot {
            snapshot_id: "sha256:snapshot".to_owned(),
            store_id: "s3+https://example.test/bucket".to_owned(),
            objects: Vec::new(),
            physical_rows: 8,
        },
        locations: Vec::new(),
        s3_endpoint: None,
        s3_bucket: None,
    }
}

struct Activity {
    product: BoundedFixedActivity,
    bytes: Vec<u8>,
    flags: Vec<u8>,
    json: Vec<u8>,
}

fn activity() -> Activity {
    let run = scan_activity(&facts()).unwrap();
    let flags = build_flags(&run.bytes, AS_OF).unwrap();
    let activity_artifact = artifact("activity.run", &run.bytes, run.rows);
    let flags_artifact = artifact("flags.run", &flags.bytes, flags.rows);
    assert!(has_full_weeks(&run.bytes, AS_OF));
    let finalized = finalize(
        &run.bytes,
        &flags.bytes,
        &activity_artifact,
        &flags_artifact,
        AS_OF,
    )
    .unwrap();
    let json = b"metric".to_vec();
    let evidence = complete_fixed_activity(
        &snapshot(),
        ActivityBuild {
            as_of_epoch: AS_OF,
            delta_objects: 0,
            baseline_evidence_sha256: None,
            batch_count: 1,
            estimated_run_bytes: 0,
            disk_reserve_bytes: 0,
        },
        BatchProgress::new(Vec::new()),
        single("activity", activity_artifact),
        flags_artifact,
        finalized,
        &json,
    );
    let product =
        load_bounded_fixed_activity(evidence, b"evidence", &run.bytes, &flags.bytes, &json)
            .unwrap();
    Activity {
        product,
        bytes: run.bytes,
        flags: flags.bytes,
        json,
    }
}

fn versions() -> QueryVersions<'static> {
    QueryVersions {
        base: "a",
        identity: "b1",
        activity: "b2",
        cohort: "b3",
    }
}

fn first_seen_bytes() -> Vec<u8> {
    let mut bytes = Vec::new();
    for (key, seen) in [(1_u8, 90_000_u64), (2, 90_001), (3, 180_000)] {
        bytes.extend_from_slice(&[key; 32]);
        bytes.extend_from_slice(&seen.to_be_bytes());
    }
    bytes
}

fn identity() -> BoundedPubkeyFirstSeen {
    let bytes = first_seen_bytes();
    let day = |day: &str, new_pubkeys: u64| NewUsersDaily {
        day: day.to_owned(),
        new_pubkeys,
    };
    BoundedPubkeyFirstSeen {
        evidence: PubkeyFirstSeenEvidence {
            schema_version: 1,
            runner_version: "pensieve-analytics-pubkey-first-seen-v1".to_owned(),
            status: "completed".to_owned(),
            snapshot_id: "sha256:snapshot".to_owned(),
            as_of_epoch: AS_OF,
            object_count: 0,
            batch_count: 0,
            merge_count: 0,
            physical_rows: 3,
            baseline_evidence_sha256: None,
            delta_object_count: 0,
            first_seen_records: 3,
            eligible_pubkeys: 3,
            new_users_daily: vec![day("1970-01-02", 2), day("1970-01-03", 1)],
            metric_sha256: pensieve_analytics::fixed_activity::metric_sha256(b"first"),
            final_artifact: artifact("first-seen.run", &bytes, 3),
            max_merge_buffered_bytes: 0,
            estimated_run_bytes: 0,
            disk_reserve_bytes: 0,
            batch_checkpoints: Vec::new(),
            merge_checkpoints: Vec::new(),
        },
        evidence_sha256: "1".repeat(64),
    }
}

fn cohort(activity: &BoundedFixedActivity) -> BoundedCohortRetention {
    let period = |start: &str, active: &str, active_pubkeys: u64| CohortRetentionPeriod {
        grain: "week".to_owned(),
        cohort_start: start.to_owned(),
        activity_period: active.to_owned(),
        active_pubkeys,
    };
    BoundedCohortRetention {
        evidence: CohortRetentionEvidence {
            snapshot_id: "sha256:snapshot".to_owned(),
            as_of_epoch: AS_OF,
            identity_evidence_sha256: "1".repeat(64),
            activity_evidence_sha256: activity.evidence_sha256.clone(),
            metric_sha256: "2".repeat(64),
            period_rows: 2,
            active_pubkeys_sum: 5,
            periods: vec![
                period("2025-12-29", "2025-12-29", 3),
                period("2025-12-29", "2026-01-05", 2),
            ],
        },
        evidence_sha256: "3".repeat(64),
    }
}

#[test]
fn a_generation_publishes_products_that_belong_together() {
    let activity = activity();
    let identity = identity();
    let cohort = cohort(&activity.product);
    let first_seen = first_seen_bytes();
    let none = Vec::new();
    let flexible = FlexibleRevalidation {
        activity: &[],
        identities: &[],
        leaves: &[],
        rebuilt: &none,
    };
    let reads = ProductReads {
        first_seen: &first_seen,
        first_seen_json: b"first",
        genesis: 0,
        activity: &activity.bytes,
        flags: &activity.flags,
        activity_json: &activity.json,
        cohort_valid: true,
        flexible: &flexible,
        semantic: &[],
        sketch_lg_k: 12,
        relay_json: &[],
        ranking: &[],
    };
    let generation = Generation {
        snapshot_id: "sha256:snapshot",
        as_of_epoch: AS_OF,
    };
    let other = Generation {
        snapshot_id: "sha256:other",
        as_of_epoch: AS_OF,
    };
    let none = PublicationProducts::none();
    assert_eq!(validate_products(generation, none, reads, None), Ok(()));
    let first = PublicationProducts::with_identity(&identity);
    assert_eq!(validate_products(generation, first, reads, None), Ok(()));
    assert!(validate_products(other, first, reads, None).is_err());
    let both = PublicationProducts::with_activity(&identity, &activity.product);
    assert_eq!(validate_products(generation, both, reads, None), Ok(()));
    let alone = PublicationProducts {
        activity: Some(&activity.product),
        ..none
    };
    assert!(matches!(
        validate_products(generation, alone, reads, None),
        Err(Error::Validation(_))
    ));
    let bounded = |cohort| {
        PublicationProducts::with_bounded(AllBoundedProducts {
            identity: &identity,
            activity: &activity.product,
            cohort,
        })
    };
    assert_eq!(
        validate_products(generation, bounded(&cohort), reads, None),
        Ok(())
    );
    let broken = ProductReads {
        cohort_valid: false,
        ..reads
    };
    assert!(validate_products(generation, bounded(&cohort), broken, None).is_err());
    let mut stranger = cohort.clone();
    stranger.evidence.identity_evidence_sha256 = "9".repeat(64);
    assert!(validate_products(generation, bounded(&stranger), reads, None).is_err());
}

#[test]
fn a_run_is_named_by_its_inputs() {
    let activity = activity();
    let identity = identity();
    let generation = Generation {
        snapshot_id: "s",
        as_of_epoch: 258,
    };
    let none = PublicationProducts::none();
    assert_eq!(
        run_id(generation, versions(), "code", &none),
        sha256_hex(b"s\0\0\0\0\0\0\0\x01\x02\0a\0code")
    );
    let first = PublicationProducts::with_identity(&identity);
    let message = [
        b"s\0\0\0\0\0\0\0\x01\x02\0b1\0code\0".to_vec(),
        identity.evidence_sha256.clone().into_bytes(),
        vec![0],
        identity.evidence.metric_sha256.clone().into_bytes(),
        vec![0],
        identity.evidence.final_artifact.sha256.clone().into_bytes(),
    ]
    .concat();
    assert_eq!(
        run_id(generation, versions(), "code", &first),
        sha256_hex(&message)
    );
    let both = PublicationProducts::with_activity(&identity, &activity.product);
    assert_eq!(query_version(versions(), &both), "b2");
    let cohort = cohort(&activity.product);
    let all = PublicationProducts::with_bounded(AllBoundedProducts {
        identity: &identity,
        activity: &activity.product,
        cohort: &cohort,
    });
    assert_eq!(query_version(versions(), &all), "b3");
    assert_ne!(
        run_id(generation, versions(), "code", &both),
        run_id(generation, versions(), "code", &all)
    );
}

#[test]
fn a_publication_is_written_once() {
    let current = |run: &str| Some(run.to_owned());
    assert_eq!(
        decide_publication("r2", false, &current("r1"), Some("r1")),
        Ok(PublicationStep::Insert)
    );
    assert_eq!(
        decide_publication("r2", true, &current("r2"), Some("r1")),
        Ok(PublicationStep::Reconcile)
    );
    assert_eq!(
        decide_publication("r2", true, &current("r3"), None),
        Err(Error::StalePublishedRun("r2".to_owned()))
    );
    assert_eq!(
        decide_publication("r2", false, &current("r3"), Some("r1")),
        Err(Error::PublicationBaselineChanged {
            expected: current("r1"),
            actual: current("r3"),
        })
    );
    assert_eq!(
        decide_publication("r1", false, &None, None),
        Ok(PublicationStep::Insert)
    );
    assert!(decide_publication("r1", false, &None, Some("r0")).is_err());
    assert_eq!(
        finish_publication(PublicationStep::Insert, "r2".to_owned(), current("r1")),
        PublishOutcome::Published {
            run_id: "r2".to_owned(),
            previous_run_id: current("r1"),
        }
    );
    assert_eq!(
        finish_publication(PublicationStep::Reconcile, "r2".to_owned(), current("r2")),
        PublishOutcome::AlreadyCurrent {
            run_id: "r2".to_owned(),
        }
    );
}

fn summary() -> BuildSummary {
    BuildSummary {
        physical_rows: 10,
        logical_events: 8,
        duplicate_rows: 2,
        api_representable_events: 7,
        event_daily_rows: 3,
        event_daily_kind_rows: 5,
        kind_all_time_rows: 4,
    }
}

#[test]
fn a_run_records_its_counts_and_digests() {
    let activity = activity();
    let identity = identity();
    let products = PublicationProducts::with_activity(&identity, &activity.product);
    let sizes = product_sizes(&products);
    assert_eq!(sizes.eligible_pubkeys, 3);
    assert_eq!(sizes.new_users_daily_rows, 2);
    assert_eq!(sizes.cohort_retention_rows, 0);
    let row = run_row(AS_OF, summary(), sizes).unwrap();
    assert_eq!(row.physical_rows, 10);
    assert_eq!(row.kind_all_time_rows, 4);
    assert_eq!(
        row.distinct_pubkeys_period_rows as usize,
        activity.product.evidence.distinct_pubkeys.len()
    );
    assert!(matches!(
        run_row(u64::MAX, summary(), sizes),
        Err(Error::NumericOverflow {
            field: "as_of_epoch",
            ..
        })
    ));
    let record = validation_record(summary(), &products);
    assert_eq!(record.event_daily_sum, 7);
    assert_eq!(record.kind_all_time_sum, 8);
    assert_eq!(record.new_users_daily_sum, 3);
    assert_eq!(
        record.identity_evidence_sha256,
        Some(identity.evidence_sha256.clone())
    );
    assert_eq!(record.cohort_retention_evidence_sha256, None);
    assert_eq!(record.result, "passed");
    let overview = overview_row(
        OverviewCounts {
            total_events: 8,
            api_representable_events: 7,
            events_7d: 6,
            kinds_30d: 5,
            earliest_event: BASE,
            latest_event: BASE + 9,
        },
        3,
    )
    .unwrap();
    assert_eq!(overview.total_pubkeys, 3);
    assert_eq!(overview.earliest_event, i64::from(BASE));
    assert_eq!(overview.latest_event, i64::from(BASE) + 9);
    assert_eq!(overview.events_7d, 6);
}

#[test]
fn published_accounting_is_held_against_the_products() {
    let activity = activity();
    let identity = identity();
    let cohort = cohort(&activity.product);
    let products = PublicationProducts::with_bounded(AllBoundedProducts {
        identity: &identity,
        activity: &activity.product,
        cohort: &cohort,
    });
    let seen = PublishedIdentity {
        eligible_pubkeys: 3,
        new_users_daily_rows: 2,
        total_pubkeys: 3,
        table_rows: 2,
        table_sum: 3,
    };
    assert_eq!(reconcile_published_identity(seen, &products), Ok(()));
    assert!(reconcile_published_identity(
        PublishedIdentity {
            table_sum: 4,
            ..seen
        },
        &products
    )
    .is_err());
    assert!(matches!(
        reconcile_published_identity(
            PublishedIdentity {
                table_sum: -1,
                ..seen
            },
            &products
        ),
        Err(Error::Validation(_))
    ));
    let evidence = &activity.product.evidence;
    let distinct: u64 = evidence
        .distinct_pubkeys
        .iter()
        .map(|row| row.unique_pubkeys)
        .sum();
    let active: u64 = evidence.active_users.iter().map(|row| row.active_users).sum();
    let counted = PublishedActivity {
        distinct_rows: evidence.distinct_period_rows as i64,
        active_rows: evidence.active_period_rows as i64,
        distinct_table_rows: evidence.distinct_period_rows as i64,
        distinct_sum: distinct as i64,
        active_table_rows: evidence.active_period_rows as i64,
        active_sum: active as i64,
    };
    assert_eq!(reconcile_published_activity(counted, &products), Ok(()));
    assert!(reconcile_published_activity(
        PublishedActivity {
            active_sum: 0,
            ..counted
        },
        &products
    )
    .is_err());
    let retained = PublishedCohort {
        rows: 2,
        table_rows: 2,
        table_sum: 5,
        period_zero_rows: 1,
    };
    assert_eq!(reconcile_published_cohort(retained, &products), Ok(()));
    assert!(reconcile_published_cohort(
        PublishedCohort {
            period_zero_rows: 2,
            ..retained
        },
        &products
    )
    .is_err());
    let empty = PublishedCohort {
        rows: 0,
        table_rows: 0,
        table_sum: 0,
        period_zero_rows: 0,
    };
    assert_eq!(
        reconcile_published_cohort(empty, &PublicationProducts::none()),
        Ok(())
    );
}

#[test]
fn run_lines_hold_every_column() {
    assert_eq!(event_daily_line("r", "2026-01-01", 5), "r,2026-01-01,5\n");
    assert_eq!(
        event_daily_kind_line("r", "2026-01-01", 7, 5),
        "r,2026-01-01,7,5\n"
    );
    assert_eq!(kind_all_time_line("r", 7, 5), "r,7,5\n");
    assert_eq!(new_users_line("r", "2026-01-01", 2), "r,2026-01-01,2\n");
    assert_eq!(
        distinct_pubkeys_line(
            "r",
            &DistinctPubkeysPeriod {
                grain: "week".to_owned(),
                period_start: "2025-12-29".to_owned(),
                kind: None,
                unique_pubkeys: 4,
            }
        ),
        "r,week,2025-12-29,-1,4\n"
    );
    assert_eq!(
        active_users_line(
            "r",
            &ActiveUsersPeriod {
                grain: "day".to_owned(),
                period_start: "2026-01-01".to_owned(),
                active_users: 1,
                has_profile: 2,
                has_follows_list: 3,
                has_profile_and_follows_list: 4,
                total_events: 5,
            }
        ),
        "r,day,2026-01-01,1,2,3,4,5\n"
    );
    assert_eq!(
        cohort_line(
            "r",
            &CohortRetentionPeriod {
                grain: "month".to_owned(),
                cohort_start: "2026-01-01".to_owned(),
                activity_period: "2026-02-01".to_owned(),
                active_pubkeys: 9,
            }
        ),
        "r,month,2026-01-01,2026-02-01,9\n"
    );
}

#[test]
fn the_ledger_keeps_immutable_objects() {
    let object = CatalogObject {
        object_key: "a".to_owned(),
        work_unit_id: "w".to_owned(),
        sha256: "aa".repeat(32),
        byte_size: 10,
        row_count: u64::MAX,
        min_created_at: None,
        max_created_at: None,
    };
    assert_eq!(
        object_row(&object),
        Err(Error::NumericOverflow {
            field: "object row_count",
            value: u64::MAX,
        })
    );
}

#[test]
fn columns_hold_signed_counts() {
    let count = |value: u64| NamedCount {
        field: "rows",
        value,
    };
    assert_eq!(to_columns(&[count(1), count(2)]), Ok(vec![1, 2]));
    assert!(to_columns(&[count(1), count(1 << 63)]).is_err());
    let stored = |stored: i64| FieldCheck::Count {
        field: "rows",
        stored,
        owed: 3,
    };
    assert_eq!(
        reconcile_fields(&[FieldCheck::Same(true), stored(3)], "differs"),
        Ok(())
    );
    assert_eq!(
        reconcile_fields(&[stored(3), stored(4), stored(-1)], "differs"),
        Err(Error::Validation("differs"))
    );
    let negative = Err(Error::NegativeLedgerValue {
        field: "rows",
        value: -1,
    });
    assert_eq!(
        reconcile_fields(&[stored(-1), FieldCheck::Same(false)], "differs"),
        negative
    );
    assert_eq!(
        reconcile_totals(&[stored(-1)], "differs"),
        Err(Error::Validation("rows"))
    );
    assert_eq!(
        expect_copied("event_daily", 2, 3),
        Err(Error::CopyCount {
            relation: "event_daily",
            copied: 2,
            owed: 3,
        })
    );
    let current = CurrentRun {
        run_id: "r".to_owned(),
        snapshot_id: "s".to_owned(),
        query_version: "v".to_owned(),
        as_of_epoch: 9,
    };
    assert_eq!(
        check_baseline(&current, "r", "s", "v", 9, "as-of", "differs"),
        Ok(())
    );
    assert!(check_baseline(&current, "r", "s", "v", 8, "as-of", "differs").is_err());
}

fn rollups() -> SemanticRollups {
    let mut rollups = SemanticRollups::default();
    rollups.observe(86_401, 1, &[], "").unwrap();
    rollups.observe(86_402, 30_023, &[], "four").unwrap();
    let tags = |invoice: &str| vec![vec!["bolt11".to_owned(), invoice.to_owned()]];
    rollups.observe(86_403, 9_735, &tags("lnbc1u1x"), "").unwrap();
    rollups.observe(172_900, 9_735, &tags("bad"), "").unwrap();
    rollups
}

fn semantic() -> BoundedSemanticFacts {
    let facts = vec![0_u8; 115 * 4];
    BoundedSemanticFacts {
        artifact_path: "facts.run".to_owned(),
        evidence: SemanticFactsEvidence {
            schema_version: 1,
            runner_version: "pensieve-analytics-semantic-facts-v1".to_owned(),
            status: "completed".to_owned(),
            snapshot_id: "sha256:snapshot".to_owned(),
            as_of_epoch: AS_OF,
            object_count: 0,
            physical_rows: 4,
            physical_relevant_rows: 4,
            logical_relevant_events: 4,
            duplicate_relevant_rows: 0,
            batch_count: 0,
            merge_count: 0,
            final_artifact: artifact("facts.run", &facts, 4),
            domain_counts: SemanticDomainCounts {
                original_notes: 1,
                replies: 0,
                reactions: 0,
                longform_articles: 1,
                accepted_zaps: 1,
                rejected_zaps: 1,
            },
            rollups: rollups(),
            rollup_sha256: "5".repeat(64),
            disk_reserve_bytes: 0,
            memory: SemanticMemoryEvidence {
                max_batch_bytes: 0,
                max_batch_rows: 0,
                max_merge_buffered_bytes: 0,
                engagement_days: 1,
                longform_days: 1,
                zap_days: 2,
            },
            batch_checkpoints: Vec::new(),
            merge_checkpoints: Vec::new(),
        },
        evidence_sha256: "4".repeat(64),
    }
}

#[test]
fn published_rollups_hold_the_totals_of_the_facts() {
    let mut product = semantic();
    let facts = vec![0_u8; 115 * 4];
    assert_eq!(validate_semantic_publication(&product, &facts), Ok(()));
    assert!(validate_semantic_publication(&product, &facts[1..]).is_err());
    assert_eq!(
        semantic_product_id("r", &product),
        sha256_hex(format!("pensieve-semantic-product-v2\0r\0{}", "4".repeat(64)).as_bytes())
    );
    let row = semantic_product_row(&product.evidence).unwrap();
    assert_eq!(row.engagement_days, 1);
    assert_eq!(row.zap_days, 2);
    assert_eq!(zap_amount(&product.evidence.rollups), Ok(100_000));
    let mut published = PublishedSemantic {
        snapshot_id: "sha256:snapshot".to_owned(),
        product_version: "canonical-semantic-facts-v1".to_owned(),
        evidence_sha256: "4".repeat(64),
        fact_artifact_sha256: sha256_hex(&facts),
        rollup_sha256: "5".repeat(64),
        row,
        engagement_rows: 1,
        original_notes: 1,
        replies: 0,
        reactions: 0,
        longform_rows: 1,
        articles: 1,
        zap_rows: 2,
        accepted: 1,
        amount_msats: 100_000,
        histogram_rows: 34,
        histogram_count: 1,
        histogram_amount: 100_000,
        rejection_rows: 12,
        rejected: 1,
    };
    assert_eq!(reconcile_semantic_product(&published, &product), Ok(()));
    let publish = |known: bool, lost: u64, query_version: &str| {
        let ask = |transaction: (), request: &LedgerRequest| {
            let reply = match request {
                LedgerRequest::CurrentRun => Ok(LedgerReply::Run(LedgerRun {
                    run_id: "run".to_owned(),
                    snapshot_id: "sha256:snapshot".to_owned(),
                    query_version: "v".to_owned(),
                    as_of_epoch: AS_OF as i64,
                    activity_evidence_sha256: None,
                })),
                LedgerRequest::ProductStored { .. } => Ok(LedgerReply::Known(known)),
                LedgerRequest::InsertProduct {
                    row: SideRow::Semantic(row),
                    ..
                } => {
                    assert_eq!(row.zap_days, 2);
                    Ok(LedgerReply::Done)
                }
                LedgerRequest::CopyProduct { table, lines } => {
                    Ok(LedgerReply::Rows(if *table == SideTable::Histogram {
                        assert_eq!(lines.len(), 34);
                        lines.len() as u64 - lost
                    } else {
                        lines.len() as u64
                    }))
                }
                LedgerRequest::StoredProduct { .. } => Ok(LedgerReply::Product(
                    SideStored::Semantic(published.clone()),
                )),
                _ => Err(Error::Validation("another question")),
            };
            (transaction, reply)
        };
        let commit = |_: ()| Ok(());
        let rollback = |_: ()| ();
        publish_semantic_facts(
            "run",
            &product,
            &facts,
            query_version,
            || Ok(()),
            &Ledger {
                ask: &ask,
                commit: &commit,
                rollback: &rollback,
            },
        )
    };
    assert!(matches!(
        publish(false, 0, "v"),
        Ok(SemanticPublishOutcome::Published { .. })
    ));
    assert!(matches!(
        publish(true, 0, "v"),
        Ok(SemanticPublishOutcome::AlreadyPublished { .. })
    ));
    assert!(publish(false, 1, "v").is_err());
    assert!(publish(false, 0, "w").is_err());
    published.rejected = 2;
    assert!(reconcile_semantic_product(&published, &product).is_err());
    published.rejected = 1;
    product.evidence.domain_counts.replies = 1;
    assert!(reconcile_semantic_product(&published, &product).is_err());
}

#[test]
fn rollup_lines_hold_every_column() {
    let rollups = rollups();
    assert_eq!(
        engagement_line("p", &rollups.engagement[&86_400]),
        "p,86400,1,0,0\n"
    );
    assert_eq!(
        longform_line("p", &rollups.longform[&86_400]),
        "p,86400,1,4\n"
    );
    let day = &rollups.zaps[&86_400];
    assert_eq!(zap_line("p", day), "p,86400,1,100000,0,0\n");
    let lines = histogram_lines("p", day);
    assert_eq!(lines.len(), 17);
    assert_eq!(lines[3], "p,86400,3,1,100000\n");
    assert_eq!(lines[0], "p,86400,0,0,0\n");
    let rejected = rejection_lines("p", &rollups.zaps[&172_800]);
    assert_eq!(rejected.len(), 6);
    assert_eq!(rejected[2], "p,172800,2,1\n");
}

fn union(sketches: Vec<Vec<u8>>) -> Result<u64> {
    let mut keys: Vec<u8> = sketches.concat();
    keys.sort_unstable();
    keys.dedup();
    Ok(keys.len() as u64)
}

struct Flexible {
    activity: Activity,
    product: BoundedFlexibleDistinct,
    identities: Vec<u8>,
    leaves: Vec<u8>,
    sketches: Vec<Vec<u8>>,
}

impl Flexible {
    fn read(&self) -> FlexibleRevalidation<'_> {
        FlexibleRevalidation {
            activity: &self.activity.bytes,
            identities: &self.identities,
            leaves: &self.leaves,
            rebuilt: &self.sketches,
        }
    }
}

fn flexible() -> Flexible {
    let activity = activity();
    let complete_through = AS_OF - AS_OF % 3_600;
    let run = transform_batch(&activity.bytes, complete_through).unwrap();
    let groups = leaf_groups(&run.bytes).unwrap();
    let sketches: Vec<Vec<u8>> = groups
        .iter()
        .map(|group| {
            (0..group.exact_identities as usize)
                .map(|k| run.bytes[(group.start + k) * 38 + 6])
                .collect()
        })
        .collect();
    let (leaves, largest) = build_leaves(&groups, &sketches).unwrap();
    let evidence = complete_flexible_distinct(
        &activity.product,
        &FlexibleDistinctConfig {
            work_root: "work".to_owned(),
            source_records_per_batch: 100,
            merge_fan_in: 2,
            disk_reserve_bytes: 0,
        },
        vec!["batch-00000000.json".to_owned()],
        single("identities", artifact("identities.run", &run.bytes, run.rows)),
        CompletedLeaves {
            artifact: artifact("leaves.run", &leaves.bytes, leaves.rows),
            checkpoint_path: "leaves.json".to_owned(),
            max_leaf_bytes: largest,
        },
        0,
    )
    .unwrap();
    Flexible {
        activity,
        product: BoundedFlexibleDistinct {
            evidence,
            evidence_sha256: sha256_hex(b"flexible evidence"),
        },
        identities: run.bytes,
        leaves: leaves.bytes,
        sketches,
    }
}

/// What a ledger in memory holds.
#[derive(Clone, Default)]
struct Tables {
    current: Option<String>,
    runs: Vec<(String, RunRow, OverviewRow)>,
    lines: BTreeMap<String, Vec<String>>,
    active: Vec<String>,
    flexible: Option<FlexibleProductRow>,
    leaves: Vec<String>,
}

/// A ledger in memory: a transaction works on a copy.
struct Store {
    tables: RefCell<Tables>,
    commits: Cell<u32>,
    drops: Cell<u32>,
    changed: Cell<u64>,
    lost: Cell<u64>,
    leaves_lost: Cell<u64>,
    locked: Cell<bool>,
}

impl Store {
    fn new() -> Self {
        Store {
            tables: RefCell::new(Tables::default()),
            commits: Cell::new(0),
            drops: Cell::new(0),
            changed: Cell::new(1),
            lost: Cell::new(0),
            leaves_lost: Cell::new(0),
            locked: Cell::new(false),
        }
    }
}

impl Tables {
    fn table(&self, run_id: &str, relation: Relation) -> Vec<Vec<String>> {
        self.lines
            .get(&format!("{relation:?}"))
            .map(|lines| {
                lines
                    .iter()
                    .map(|line| line.trim_end().split(',').map(str::to_owned).collect())
                    .filter(|columns: &Vec<String>| columns[0] == run_id)
                    .collect()
            })
            .unwrap_or_default()
    }

    fn tables(&self, run_id: &str) -> PublishedTables {
        let (_, row, overview) = self.runs.iter().find(|(id, _, _)| id == run_id).unwrap();
        let sum = |rows: &[Vec<String>], column: usize| {
            rows.iter()
                .map(|columns| columns[column].parse::<i64>().unwrap())
                .sum()
        };
        let daily = self.table(run_id, Relation::NewUsersDaily);
        let distinct = self.table(run_id, Relation::DistinctPubkeysPeriod);
        let active = self.table(run_id, Relation::ActiveUsersPeriod);
        let cohorts = self.table(run_id, Relation::CohortRetentionPeriod);
        PublishedTables {
            identity: PublishedIdentity {
                eligible_pubkeys: row.eligible_pubkeys,
                new_users_daily_rows: row.new_users_daily_rows,
                total_pubkeys: overview.total_pubkeys,
                table_rows: daily.len() as i64,
                table_sum: sum(&daily, 2),
            },
            activity: PublishedActivity {
                distinct_rows: row.distinct_pubkeys_period_rows,
                active_rows: row.active_users_period_rows,
                distinct_table_rows: distinct.len() as i64,
                distinct_sum: sum(&distinct, 4),
                active_table_rows: active.len() as i64,
                active_sum: sum(&active, 3),
            },
            cohort: PublishedCohort {
                rows: row.cohort_retention_rows,
                table_rows: cohorts.len() as i64,
                table_sum: sum(&cohorts, 4),
                period_zero_rows: cohorts.iter().filter(|row| row[2] == row[3]).count() as i64,
            },
        }
    }
}

fn event_rows() -> EventRows {
    let day = |day: u8| format!("2026-01-0{day}");
    EventRows {
        daily: vec![(day(1), 4), (day(2), 2), (day(3), 1)],
        daily_kinds: vec![
            (day(1), 1, 3),
            (day(1), 3, 1),
            (day(2), 1, 1),
            (day(2), 0, 1),
            (day(3), 1, 1),
        ],
        kinds: vec![(0, 1), (1, 5), (3, 1), (7, 1)],
    }
}

fn object(key: &str) -> CatalogObject {
    CatalogObject {
        object_key: key.to_owned(),
        work_unit_id: "w".to_owned(),
        sha256: "aa".repeat(32),
        byte_size: 10,
        row_count: 4,
        min_created_at: None,
        max_created_at: None,
    }
}

#[derive(Clone, Copy, PartialEq)]
enum Selected {
    Nothing,
    Identity,
    Activity,
    All,
    Flexible,
}

impl Selected {
    fn version(self) -> &'static str {
        match self {
            Selected::Nothing => "a",
            Selected::Identity => "b1",
            Selected::Activity => "b2",
            Selected::All | Selected::Flexible => "b3",
        }
    }
}

/// What a publication of the test reads.
struct Lane {
    activity: Activity,
    identity: BoundedPubkeyFirstSeen,
    cohort: BoundedCohortRetention,
    first_seen: Vec<u8>,
    objects: Vec<CatalogObject>,
    rows: EventRows,
    flexible: Flexible,
    validation: FlexibleDistinctValidationEvidence,
    summary: BuildSummary,
    overview: OverviewCounts,
}

impl Lane {
    fn new() -> Self {
        let activity = activity();
        let cohort = cohort(&activity.product);
        let flexible = flexible();
        let validation = build_flexible_distinct_validation(
            &activity.product,
            &ActivityState {
                activity: &activity.bytes,
                flags: &activity.flags,
                metric_json: &activity.json,
            },
            flexible.product.evidence.clone(),
            b"flexible evidence",
            &flexible.read(),
            FLEXIBLE_DISTINCT_TOLERANCE_PPM,
            &union,
            &|_: &FlexibleDistinctValidationEvidence| Ok(()),
        )
        .unwrap();
        Lane {
            activity,
            identity: identity(),
            cohort,
            first_seen: first_seen_bytes(),
            objects: vec![object("a"), object("b")],
            rows: event_rows(),
            flexible,
            validation,
            summary: summary(),
            overview: OverviewCounts {
                total_events: 8,
                api_representable_events: 7,
                events_7d: 7,
                kinds_30d: 4,
                earliest_event: BASE,
                latest_event: BASE + 9,
            },
        }
    }

    fn products(&self) -> AllBoundedProducts<'_> {
        AllBoundedProducts {
            identity: &self.identity,
            activity: &self.activity.product,
            cohort: &self.cohort,
        }
    }

    fn request(&self) -> RunRequest<'_> {
        RunRequest {
            generation: Generation {
                snapshot_id: "sha256:snapshot",
                as_of_epoch: AS_OF,
            },
            objects: &self.objects,
            code_version: "code",
            versions: versions(),
            expected_previous: None,
            summary: self.summary,
            overview: self.overview,
            rows: &self.rows,
            started_at: "2026-01-03T00:00:00Z",
            completed_at: "2026-01-03T00:01:00Z",
        }
    }

    /// Publish every bounded product as a full rebuild, or as a run that started
    /// from another.
    fn publish(&self, store: &Store, code_version: &str, expected: Option<&str>) -> Published {
        self.publish_selected(store, code_version, expected, Selected::All)
    }

    /// Publish the selected products.
    fn publish_selected(
        &self,
        store: &Store,
        code_version: &str,
        expected: Option<&str>,
        selected: Selected,
    ) -> Published {
        let flexible = self.flexible.read();
        let reads = ProductReads {
            first_seen: &self.first_seen,
            first_seen_json: b"first",
            genesis: 0,
            activity: &self.activity.bytes,
            flags: &self.activity.flags,
            activity_json: &self.activity.json,
            cohort_valid: true,
            flexible: &flexible,
            semantic: &[],
            sketch_lg_k: 12,
            relay_json: &[],
            ranking: &[],
        };
        let begin = || {
            if store.locked.get() {
                return Err(Error::Validation("locked"));
            }
            Ok(store.tables.borrow().clone())
        };
        let ask = |mut tables: Tables, request: &LedgerRequest| {
            let reply = match request {
                LedgerRequest::LockCurrent => Ok(LedgerReply::Current(tables.current.clone())),
                LedgerRequest::RunStored { run_id } => Ok(LedgerReply::Known(
                    tables.runs.iter().any(|(stored, _, _)| stored == run_id),
                )),
                LedgerRequest::InsertRun(run) => {
                    assert_eq!(run.incremental, expected.is_some());
                    assert_eq!(run.previous, tables.current);
                    assert_eq!(run.query_version, selected.version());
                    assert_eq!(run.snapshot_id, "sha256:snapshot");
                    assert_eq!(run.completed_at, "2026-01-03T00:01:00Z");
                    assert_eq!(run.objects.len(), 2);
                    assert_eq!(run.objects[1].object_key, "b");
                    assert_eq!(run.objects[1].work_unit_id, "w");
                    assert_eq!(run.objects[1].sizes.row_count, 4);
                    assert_eq!(run.validation.result, "passed");
                    tables.runs.push((run.run_id.clone(), run.row, run.overview));
                    Ok(LedgerReply::Done)
                }
                LedgerRequest::RetireObjects => {
                    tables.active.clear();
                    Ok(LedgerReply::Done)
                }
                LedgerRequest::ApplyObject { input, .. } => {
                    assert_eq!(input.sizes.byte_size, 10);
                    assert_eq!(input.sha256, "aa".repeat(32));
                    tables.active.push(input.object_key.clone());
                    Ok(LedgerReply::Rows(store.changed.get()))
                }
                LedgerRequest::CopyRows { relation, lines } => {
                    let table = tables.lines.entry(format!("{relation:?}")).or_default();
                    table.extend(lines.iter().cloned());
                    Ok(LedgerReply::Rows(lines.len() as u64 - store.lost.get()))
                }
                LedgerRequest::RunTables { run_id } => {
                    Ok(LedgerReply::Tables(tables.tables(run_id)))
                }
                LedgerRequest::PointTo { run_id } => {
                    tables.current = Some(run_id.clone());
                    Ok(LedgerReply::Done)
                }
                LedgerRequest::ProductStored { side, product_id } => {
                    assert_eq!(*side, SideProduct::Flexible);
                    let stored = tables.flexible.as_ref();
                    Ok(LedgerReply::Known(
                        stored.is_some_and(|row| row.product_id == *product_id),
                    ))
                }
                LedgerRequest::InsertProduct {
                    row: SideRow::Flexible(row),
                    ..
                } => {
                    tables.flexible = Some(row.clone());
                    Ok(LedgerReply::Done)
                }
                LedgerRequest::CopyProduct { lines, .. } => {
                    tables.leaves.extend(lines.iter().cloned());
                    Ok(LedgerReply::Rows(
                        lines.len() as u64 - store.leaves_lost.get(),
                    ))
                }
                LedgerRequest::StoredProduct { .. } => {
                    let row = tables.flexible.clone().unwrap();
                    Ok(LedgerReply::Product(SideStored::Flexible(
                        PublishedFlexible {
                            snapshot_id: row.snapshot_id,
                            as_of_epoch: row.as_of_epoch,
                            complete_through_epoch: row.complete_through_epoch,
                            product_version: row.product_version,
                            evidence_sha256: row.evidence_sha256,
                            leaf_artifact_sha256: row.leaf_artifact_sha256,
                            leaf_rows: row.leaf_rows,
                            sketch_bytes: row.sketch_bytes,
                            max_leaf_bytes: row.max_leaf_bytes,
                            table_rows: tables.leaves.len() as i64,
                            table_bytes: row.sketch_bytes,
                            table_max_leaf: row.max_leaf_bytes,
                        },
                    )))
                }
                _ => Err(Error::Validation("another question")),
            };
            (tables, reply)
        };
        let commit = |tables: Tables| {
            store.commits.set(store.commits.get() + 1);
            *store.tables.borrow_mut() = tables;
            Ok(())
        };
        let rollback = |_: Tables| store.drops.set(store.drops.get() + 1);
        let ledger = Ledger {
            ask: &ask,
            commit: &commit,
            rollback: &rollback,
        };
        let mut request = self.request();
        request.code_version = code_version;
        let (identity, activity) = (&self.identity, &self.activity.product);
        match (selected, expected) {
            (Selected::Nothing, None) => publish(&request, reads, begin, &ledger),
            (Selected::Nothing, Some(run_id)) => {
                publish_incremental(&request, run_id, reads, begin, &ledger)
            }
            (Selected::Identity, None) => publish_with_identity(&request, identity, reads, begin, &ledger),
            (Selected::Identity, Some(run_id)) => {
                publish_incremental_with_identity(&request, identity, run_id, reads, begin, &ledger)
            }
            (Selected::Activity, None) => {
                publish_with_identity_and_activity(&request, identity, activity, reads, begin, &ledger)
            }
            (Selected::Activity, Some(run_id)) => publish_incremental_with_identity_and_activity(
                &request, identity, activity, run_id, reads, begin, &ledger,
            ),
            (Selected::All, None) => {
                publish_with_all_bounded_products(&request, self.products(), reads, begin, &ledger)
            }
            (Selected::Flexible, None) => unreachable!("a full rebuild selects no leaves"),
            (Selected::Flexible, Some(run_id)) => {
                publish_incremental_with_all_bounded_products_and_flexible(
                    &request,
                    self.products(),
                    FlexibleDistinctPublication {
                        product: &self.flexible.product,
                        validation: &self.validation,
                        validation_json: b"validation",
                        validation_evidence_sha256: &sha256_hex(b"validation"),
                    },
                    run_id,
                    reads,
                    begin,
                    &ledger,
                )
            }
            (Selected::All, Some(run_id)) => publish_incremental_with_all_bounded_products(
                &request,
                self.products(),
                run_id,
                reads,
                begin, &ledger,
            ),
        }
    }
}

type Published = Result<PublishOutcome>;

#[test]
fn a_run_is_staged_reconciled_and_made_current() {
    let lane = Lane::new();
    let ledger = Store::new();
    let selected = PublicationProducts::with_bounded(lane.products());
    let first = run_id(lane.request().generation, versions(), "code", &selected);
    assert_eq!(
        lane.publish(&ledger, "code", None),
        Ok(PublishOutcome::Published {
            run_id: first.clone(),
            previous_run_id: None,
        })
    );
    assert_eq!(ledger.tables.borrow().current, Some(first.clone()));
    assert_eq!(ledger.tables.borrow().active, ["a", "b"]);
    assert_eq!(ledger.commits.get(), 1);
    assert_eq!(ledger.drops.get(), 0);
    assert_eq!(
        ledger.tables.borrow().lines["EventDaily"][0],
        format!("{first},2026-01-01,4\n")
    );
    assert_eq!(ledger.tables.borrow().lines["KindAllTime"].len(), 4);
    assert_eq!(
        lane.publish(&ledger, "code", None),
        Ok(PublishOutcome::AlreadyCurrent {
            run_id: first.clone(),
        })
    );
    assert_eq!(ledger.tables.borrow().runs.len(), 1);
    assert_eq!(ledger.commits.get(), 2);
    assert!(matches!(
        lane.publish(&ledger, "next", Some("other")),
        Err(Error::PublicationBaselineChanged { .. })
    ));
    let next = run_id(lane.request().generation, versions(), "next", &selected);
    assert_eq!(
        lane.publish(&ledger, "next", Some(&first)),
        Ok(PublishOutcome::Published {
            run_id: next,
            previous_run_id: Some(first.clone()),
        })
    );
    assert_eq!(
        lane.publish(&ledger, "code", None),
        Err(Error::StalePublishedRun(first))
    );
    assert_eq!(ledger.commits.get(), 3);
}

#[test]
fn a_run_that_is_not_stored_in_full_is_not_committed() {
    let lane = Lane::new();
    let ledger = Store::new();
    ledger.lost.set(1);
    assert_eq!(
        lane.publish(&ledger, "code", None),
        Err(Error::CopyCount {
            relation: "event_daily",
            copied: 2,
            owed: 3,
        })
    );
    assert!(ledger.tables.borrow().runs.is_empty());
    assert!(ledger.tables.borrow().lines.is_empty());
    assert_eq!(ledger.tables.borrow().current, None);
    assert_eq!((ledger.commits.get(), ledger.drops.get()), (0, 1));
    ledger.lost.set(0);
    assert!(lane.publish(&ledger, "code", None).is_ok());
    assert_eq!((ledger.commits.get(), ledger.drops.get()), (1, 1));
    let ledger = Store::new();
    ledger.changed.set(0);
    assert!(matches!(
        lane.publish(&ledger, "code", None),
        Err(Error::Validation(_))
    ));
    let ledger = Store::new();
    ledger.locked.set(true);
    assert_eq!(
        lane.publish(&ledger, "code", None),
        Err(Error::Validation("locked"))
    );
    let ledger = Store::new();
    lane.publish(&ledger, "code", None).unwrap();
    ledger.tables.borrow_mut().lines.clear();
    assert!(matches!(
        lane.publish(&ledger, "code", None),
        Err(Error::Validation(_))
    ));
    assert_eq!(ledger.commits.get(), 1);
    let mut stranger = Lane::new();
    stranger.cohort.evidence.as_of_epoch += 1;
    let ledger = Store::new();
    assert!(stranger.publish(&ledger, "code", None).is_err());
    assert!(ledger.tables.borrow().runs.is_empty());
    let mut wide = Lane::new();
    wide.objects[1].row_count = u64::MAX;
    assert_eq!(
        wide.publish(&Store::new(), "code", None),
        Err(Error::NumericOverflow {
            field: "object row_count",
            value: u64::MAX,
        })
    );
    wide.overview.kinds_30d = u64::MAX;
    assert_eq!(
        wide.publish(&Store::new(), "code", None),
        Err(Error::NumericOverflow {
            field: "object row_count",
            value: u64::MAX,
        })
    );
    wide.objects[1].row_count = 1;
    assert_eq!(
        wide.publish(&Store::new(), "code", None),
        Err(Error::NumericOverflow {
            field: "kinds_30d",
            value: u64::MAX,
        })
    );
    wide.summary.event_daily_rows = u64::MAX;
    wide.objects[0].byte_size = u64::MAX;
    assert_eq!(
        wide.publish(&Store::new(), "code", None),
        Err(Error::NumericOverflow {
            field: "event_daily_rows",
            value: u64::MAX,
        })
    );
}

#[test]
fn published_products_are_read_within_bounds() {
    let relay = |user_count: i64| RelayColumns {
        relay_url: "wss://a.example".to_owned(),
        user_count,
        read_count: 1,
        write_count: 1,
    };
    let read = |product: &str, limit: i64| {
        assert_eq!((product, limit), ("p", 2));
        Ok(vec![relay(3), relay(2)])
    };
    let rows = query_published_relay_distribution("p", 2, &read).unwrap();
    assert_eq!(rows[1].user_count, 2);
    assert!(query_published_relay_distribution("p", 1_001, &read).is_err());
    let broken = |_: &str, _: i64| Ok(vec![relay(3), relay(-1)]);
    assert!(matches!(
        query_published_relay_distribution("p", 2, &broken),
        Err(Error::NegativeLedgerValue { .. })
    ));

    let page = |_: &str, query: &RankingQuery| {
        assert_eq!((query.days, query.kind, query.limit), (30, -1, 5));
        Ok(vec![PageColumns {
            pubkey: vec![7; 32],
            event_count: 4,
            kinds_count: 2,
            first_event: 1,
            last_event: 9,
        }])
    };
    let ranking = query_published_publisher_ranking("p", 30, None, 5, &page).unwrap();
    assert_eq!(ranking[0].pubkey, [7; 32]);
    assert_eq!(ranking[0].days, 30);
    assert!(query_published_publisher_ranking("p", u32::MAX, None, 5, &page).is_err());

    let hours = |_: &str, query: &HourlyQuery| {
        assert_eq!((query.kind, query.start_hour, query.end_hour), (1, 10, 12));
        Ok(vec![HourColumns {
            hour_epoch: 10,
            event_count: 3,
        }])
    };
    let rows = query_published_serving_hourly("p", 10, 12, Some(1), &hours).unwrap();
    assert_eq!(rows[0].kind, Some(1));
    assert!(query_published_serving_hourly("p", 12, 12, Some(1), &hours).is_err());

    let kind = |_: &str, kind: u16| {
        Ok(if kind == 1 {
            Some(KindColumns {
                kind: 9,
                event_count: 3,
                unique_pubkeys: 2,
                first_seen: 1,
                last_seen: 5,
                content_bytes: 8,
                content_rows: 3,
            })
        } else {
            None
        })
    };
    let row = query_published_serving_kind("p", 1, &kind).unwrap().unwrap();
    assert_eq!((row.kind, row.event_count), (1, 3));
    assert_eq!(query_published_serving_kind("p", 2, &kind), Ok(None));

    let union = |sketches: &Vec<Vec<u8>>| Ok(sketches.concat().len() as u64);
    let end = |_: &str| Ok(10_800);
    let leaves = |_: &str, window: &PublishedWindow| {
        assert_eq!(window.kind, Some(1));
        Ok(vec![vec![1, 2], vec![3]])
    };
    let flexible = |until: u64| {
        estimate_published_flexible_distinct("p", 3_600, until, Some(1), &end, &leaves, &union)
    };
    assert_eq!(flexible(7_200), Ok(3));
    assert!(flexible(14_400).is_err());
    let day_end = |_: &str| Ok(172_800);
    let days = |_: &str, window: &PublishedZapWindow| {
        assert_eq!(window.since_epoch, 86_400);
        Ok(vec![vec![4, 5]])
    };
    let participants = |since: u64| {
        estimate_published_zap_distinct(
            "p",
            since,
            172_800,
            ZapParticipantRole::Sender,
            &day_end,
            &days,
            &union,
        )
    };
    assert_eq!(participants(86_400), Ok(2));
    assert!(participants(86_401).is_err());
    let negative = |_: &str| Ok(-1);
    assert!(matches!(
        estimate_published_zap_distinct(
            "p",
            86_400,
            172_800,
            ZapParticipantRole::Sender,
            &negative,
            &days,
            &union,
        ),
        Err(Error::NegativeLedgerValue { .. })
    ));
}

#[test]
fn every_selection_of_products_is_published() {
    let lane = Lane::new();
    for (selected, tables) in [
        (Selected::Nothing, 3),
        (Selected::Identity, 4),
        (Selected::Activity, 6),
        (Selected::All, 7),
    ] {
        let ledger = Store::new();
        let first = match lane.publish_selected(&ledger, "code", None, selected) {
            Ok(PublishOutcome::Published { run_id, .. }) => run_id,
            other => panic!("not published: {other:?}"),
        };
        assert_eq!(ledger.tables.borrow().lines.len(), tables);
        let next = lane.publish_selected(&ledger, "next", Some(&first), selected);
        assert!(matches!(
            next,
            Ok(PublishOutcome::Published { previous_run_id: Some(run_id), .. }) if run_id == first
        ));
        assert_eq!(ledger.commits.get(), 2);
    }
}

#[test]
fn a_product_beside_a_run_shares_its_transaction() {
    let lane = Lane::new();
    let store = Store::new();
    let first = match lane.publish(&store, "code", None) {
        Ok(PublishOutcome::Published { run_id, .. }) => run_id,
        other => panic!("not published: {other:?}"),
    };
    let publish = || lane.publish_selected(&store, "next", Some(&first), Selected::Flexible);
    store.leaves_lost.set(1);
    assert!(matches!(publish(), Err(Error::CopyCount { .. })));
    assert_eq!(store.tables.borrow().current, Some(first.clone()));
    assert_eq!(store.tables.borrow().runs.len(), 1);
    assert!(store.tables.borrow().flexible.is_none());
    assert!(store.tables.borrow().leaves.is_empty());
    assert_eq!((store.commits.get(), store.drops.get()), (1, 1));
    store.leaves_lost.set(0);
    let next = match publish() {
        Ok(PublishOutcome::Published {
            run_id,
            previous_run_id,
        }) => {
            assert_eq!(previous_run_id, Some(first.clone()));
            run_id
        }
        other => panic!("not published: {other:?}"),
    };
    let leaves = lane.flexible.product.evidence.leaf_artifact.row_count as usize;
    assert_eq!(store.tables.borrow().current, Some(next.clone()));
    assert_eq!(store.tables.borrow().leaves.len(), leaves);
    assert_eq!(
        store.tables.borrow().flexible.as_ref().unwrap().run_id,
        next
    );
    assert_eq!(
        publish(),
        Ok(PublishOutcome::AlreadyCurrent { run_id: next })
    );
    assert_eq!(store.tables.borrow().leaves.len(), leaves);
    assert_eq!(store.tables.borrow().runs.len(), 2);
    assert_eq!((store.commits.get(), store.drops.get()), (3, 1));
}
