use pensieve_analytics::activity_build::{
    complete_fixed_activity, load_bounded_fixed_activity, scan_activity, ActivityBuild,
    ScannedActivity,
};
use pensieve_analytics::artifact::{ArtifactIdentity, RunCheckpoint, RunIdentity};
use pensieve_analytics::batches::BatchProgress;
use pensieve_analytics::digest::sha256_hex;
use pensieve_analytics::fixed_activity::{finalize, has_full_weeks, BoundedFixedActivity};
use pensieve_analytics::input::{CatalogSnapshot, ResolvedSnapshot};
use pensieve_analytics::merge::{CompletedRun, MergeOutcome};
use pensieve_analytics::publisher_flags::build_flags;
use pensieve_analytics::error::Error;

const BASE: u32 = 1_767_225_600;
const AS_OF: u64 = 1_767_398_399;

fn fact(pubkey: u8, created_at: u32, kind: u16, id: u8) -> ScannedActivity {
    ScannedActivity {
        pubkey: vec![pubkey; 32],
        created_at,
        kind,
        id: vec![id; 32],
    }
}

fn facts() -> Vec<ScannedActivity> {
    vec![
        fact(1, BASE + 10, 1, 1),
        fact(1, BASE + 11, 1, 7),
        fact(1, BASE + 20, 0, 2),
        fact(1, BASE + 86_400, 1, 3),
        fact(2, BASE + 30, 3, 4),
        fact(2, BASE + 31, 445, 5),
        fact(3, BASE + 3_601, 1_059, 6),
        fact(3, BASE + 200_000, 1, 8),
    ]
}

fn artifact(path: &str, bytes: &[u8], rows: u64) -> ArtifactIdentity {
    ArtifactIdentity {
        path: path.to_owned(),
        byte_size: bytes.len() as u64,
        row_count: rows,
        min_key: None,
        max_key: None,
        sha256: sha256_hex(bytes),
    }
}

fn completed(identity: &str, artifact: ArtifactIdentity) -> CompletedRun {
    CompletedRun {
        identity: identity.to_owned(),
        path: artifact.path.clone(),
        checkpoint_path: format!("{identity}.json"),
        checkpoint: RunCheckpoint {
            schema_version: 1,
            runner_version: "runner".to_owned(),
            run: RunIdentity {
                snapshot_id: "sha256:snapshot".to_owned(),
                as_of: AS_OF,
                product: "product".to_owned(),
                product_version: "v1".to_owned(),
                key_space: "key".to_owned(),
            },
            inputs: Vec::new(),
            artifact,
        },
    }
}

fn single(identity: &str, artifact: ArtifactIdentity) -> MergeOutcome {
    MergeOutcome {
        final_run: completed(identity, artifact),
        merge_count: 0,
        duplicate_rows: 0,
        max_buffered_bytes: 0,
        checkpoints: Vec::new(),
    }
}

fn snapshot() -> ResolvedSnapshot {
    ResolvedSnapshot {
        catalog: CatalogSnapshot {
            snapshot_id: "sha256:snapshot".to_owned(),
            store_id: "s3+https://example.test/bucket".to_owned(),
            objects: Vec::new(),
            physical_rows: 8,
        },
        locations: Vec::new(),
        s3_endpoint: None,
        s3_bucket: None,
    }
}

struct Activity {
    product: BoundedFixedActivity,
    bytes: Vec<u8>,
    flags: Vec<u8>,
    json: Vec<u8>,
}

fn activity() -> Activity {
    let run = scan_activity(&facts()).unwrap();
    let flags = build_flags(&run.bytes, AS_OF).unwrap();
    let activity_artifact = artifact("activity.run", &run.bytes, run.rows);
    let flags_artifact = artifact("flags.run", &flags.bytes, flags.rows);
    assert!(has_full_weeks(&run.bytes, AS_OF));
    let finalized = finalize(
        &run.bytes,
        &flags.bytes,
        &activity_artifact,
        &flags_artifact,
        AS_OF,
    )
    .unwrap();
    let json = b"metric".to_vec();
    let evidence = complete_fixed_activity(
        &snapshot(),
        ActivityBuild {
            as_of_epoch: AS_OF,
            delta_objects: 0,
            baseline_evidence_sha256: None,
            batch_count: 1,
            estimated_run_bytes: 0,
            disk_reserve_bytes: 0,
        },
        BatchProgress::new(Vec::new()),
        single("activity", activity_artifact),
        flags_artifact,
        finalized,
        &json,
    );
    let product =
        load_bounded_fixed_activity(evidence, b"evidence", &run.bytes, &flags.bytes, &json)
            .unwrap();
    Activity {
        product,
        bytes: run.bytes,
        flags: flags.bytes,
        json,
    }
}

fn distinct(activity: &Activity, grain: &str, start: &str, kind: Option<u16>) -> Option<u64> {
    activity
        .product
        .evidence
        .distinct_pubkeys
        .iter()
        .find(|row| row.grain == grain && row.period_start == start && row.kind == kind)
        .map(|row| row.unique_pubkeys)
}

#[test]
fn every_period_counts_each_publisher_once() {
    let activity = activity();
    assert_eq!(distinct(&activity, "day", "2026-01-01", None), Some(3));
    assert_eq!(distinct(&activity, "day", "2026-01-01", Some(1)), Some(1));
    assert_eq!(distinct(&activity, "day", "2026-01-02", None), Some(1));
    assert_eq!(distinct(&activity, "week", "2025-12-29", None), Some(3));
    assert_eq!(distinct(&activity, "week", "2025-12-29", Some(1)), Some(1));
    assert_eq!(distinct(&activity, "month", "2026-01-01", Some(445)), Some(1));
    assert_eq!(distinct(&activity, "day", "2026-01-03", None), None);
}

#[test]
fn active_users_leave_out_protocol_kinds() {
    let activity = activity();
    let rows = &activity.product.evidence.active_users;
    let day = rows
        .iter()
        .find(|row| row.grain == "day" && row.period_start == "2026-01-01")
        .unwrap();
    assert_eq!(day.active_users, 2);
    assert_eq!(day.has_profile, 1);
    assert_eq!(day.has_follows_list, 1);
    assert_eq!(day.has_profile_and_follows_list, 0);
    assert_eq!(day.total_events, 4);
    assert_eq!(rows.len(), 4);
}

#[test]
fn flags_hold_one_record_for_each_publisher() {
    let activity = activity();
    assert_eq!(activity.flags.len(), 3 * 33);
    assert_eq!(&activity.flags[..32], &[1; 32]);
    assert_eq!(activity.flags[32], 1);
    assert_eq!(activity.flags[65], 2);
    assert_eq!(activity.flags[98], 0);
}

#[test]
fn activity_evidence_is_revalidated_in_full() {
    let mut activity = activity();
    let check = |activity: &Activity, snapshot: &str, as_of: u64, json: &[u8]| {
        activity.product.validate_for_publication(
            snapshot,
            as_of,
            &activity.bytes,
            &activity.flags,
            json,
        )
    };
    assert_eq!(check(&activity, "sha256:snapshot", AS_OF, b"metric"), Ok(()));
    assert!(check(&activity, "sha256:other", AS_OF, b"metric").is_err());
    assert!(check(&activity, "sha256:snapshot", AS_OF + 1, b"metric").is_err());
    assert!(check(&activity, "sha256:snapshot", AS_OF, b"other").is_err());
    activity.product.evidence.active_users[0].total_events += 1;
    assert!(matches!(
        check(&activity, "sha256:snapshot", AS_OF, b"metric"),
        Err(Error::Invalid(_))
    ));
}

#[test]
fn unordered_activity_is_refused() {
    let mut rows = facts();
    rows.swap(0, 1);
    assert!(scan_activity(&rows).is_err());
    let mut rows = facts();
    rows[0].id.pop();
    assert!(scan_activity(&rows).is_err());
}

#[test]
fn weeks_before_the_first_monday_are_not_counted() {
    let run = scan_activity(&vec![fact(1, 345_599, 1, 1)]).unwrap();
    assert!(!has_full_weeks(&run.bytes, AS_OF));
    assert!(has_full_weeks(&run.bytes, 345_598));
}
