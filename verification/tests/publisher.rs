use std::cell::RefCell;

use pensieve_analytics::activity_build::{
    complete_fixed_activity, load_bounded_fixed_activity, scan_activity, ActivityBuild,
    ScannedActivity,
};
use pensieve_analytics::artifact::{ArtifactIdentity, RunCheckpoint, RunIdentity};
use pensieve_analytics::batches::BatchProgress;
use pensieve_analytics::digest::sha256_hex;
use pensieve_analytics::fixed_activity::{finalize, has_full_weeks, BoundedFixedActivity};
use pensieve_analytics::input::{CatalogSnapshot, ResolvedSnapshot};
use pensieve_analytics::merge::{CompletedRun, MergeOutcome};
use pensieve_analytics::publisher_flags::build_flags;
use pensieve_analytics::error::{Error, Result};
use pensieve_analytics::flexible_validation::ActivityState;
use pensieve_analytics::publisher_artifact::{
    decode_ranking, encode_ranking, read_ranking_artifact,
};
use pensieve_analytics::benchmark_run::{benchmark_publishers, BenchmarkSteps};
use pensieve_analytics::publisher_benchmark::{
    report_benchmark, scan_benchmark, validate_evidence as validate_benchmark,
    PublisherBenchmarkConfig, PublisherBenchmarkEvidence, PublisherBenchmarkRow,
};
use pensieve_analytics::publisher_ledger::PublisherRankingRow;
use pensieve_analytics::publisher_product::{
    check_lineage, check_retry, check_successor, BoundedPublisherRanking, PublisherRankingConfig,
    PublisherRankingEvidence, RankingBuild,
};
use pensieve_analytics::ledger::{
    Ledger, LedgerReply, LedgerRequest, LedgerRun, SideRow, SideStored,
};
use pensieve_analytics::publish_ranking::{publish_publisher_ranking, StoredRanking};
use pensieve_analytics::publisher_publish::PublisherRankingPublishOutcome;
use pensieve_analytics::publisher_resume::{CompletedRanking, RankingReply, RankingRequest};
use pensieve_analytics::ranking_run::{
    advance_bounded_publisher_ranking, build_bounded_publisher_ranking,
};
use pensieve_analytics::publisher_publish::{
    check_publisher_baseline, decode_page_row, publisher_product_row, ranking_line, ranking_query,
    reconcile_metadata, reconcile_rows, validate_publisher_ranking_publication, CurrentRankingRun,
    PageColumns, PublishedRanking,
};
use pensieve_analytics::publisher_rank::{rank_ledger, ranking_precedes};
use pensieve_analytics::publisher_state::{
    enforce_state_size, initialize_identity, ledger_columns, ledger_row,
    load_bounded_publisher_ranking, prepare_rank_index_for_build, state_limits, state_progress,
    visit_publisher_ranking_rows, PublisherState, RankIndex, StateIdentity,
};
use pensieve_analytics::publisher_top::{push_top, RankRow};

const BASE: u32 = 1_767_225_600;
const AS_OF: u64 = 1_767_398_399;

fn fact(pubkey: u8, created_at: u32, kind: u16, id: u8) -> ScannedActivity {
    ScannedActivity {
        pubkey: vec![pubkey; 32],
        created_at,
        kind,
        id: vec![id; 32],
    }
}

fn facts() -> Vec<ScannedActivity> {
    vec![
        fact(1, BASE + 10, 1, 1),
        fact(1, BASE + 11, 1, 7),
        fact(1, BASE + 20, 0, 2),
        fact(1, BASE + 86_400, 1, 3),
        fact(2, BASE + 30, 3, 4),
        fact(2, BASE + 31, 445, 5),
        fact(3, BASE + 3_601, 1_059, 6),
        fact(3, BASE + 200_000, 1, 8),
    ]
}

fn artifact(path: &str, bytes: &[u8], rows: u64) -> ArtifactIdentity {
    ArtifactIdentity {
        path: path.to_owned(),
        byte_size: bytes.len() as u64,
        row_count: rows,
        min_key: None,
        max_key: None,
        sha256: sha256_hex(bytes),
    }
}

fn completed(identity: &str, artifact: ArtifactIdentity) -> CompletedRun {
    CompletedRun {
        identity: identity.to_owned(),
        path: artifact.path.clone(),
        checkpoint_path: format!("{identity}.json"),
        checkpoint: RunCheckpoint {
            schema_version: 1,
            runner_version: "runner".to_owned(),
            run: RunIdentity {
                snapshot_id: "sha256:snapshot".to_owned(),
                as_of: AS_OF,
                product: "product".to_owned(),
                product_version: "v1".to_owned(),
                key_space: "key".to_owned(),
            },
            inputs: Vec::new(),
            artifact,
        },
    }
}

fn single(identity: &str, artifact: ArtifactIdentity) -> MergeOutcome {
    MergeOutcome {
        final_run: completed(identity, artifact),
        merge_count: 0,
        duplicate_rows: 0,
        max_buffered_bytes: 0,
        checkpoints: Vec::new(),
    }
}

fn snapshot() -> ResolvedSnapshot {
    ResolvedSnapshot {
        catalog: CatalogSnapshot {
            snapshot_id: "sha256:snapshot".to_owned(),
            store_id: "s3+https://example.test/bucket".to_owned(),
            objects: Vec::new(),
            physical_rows: 8,
        },
        locations: Vec::new(),
        s3_endpoint: None,
        s3_bucket: None,
    }
}

struct Activity {
    product: BoundedFixedActivity,
    bytes: Vec<u8>,
    flags: Vec<u8>,
    json: Vec<u8>,
}

fn activity() -> Activity {
    let run = scan_activity(&facts()).unwrap();
    let flags = build_flags(&run.bytes, AS_OF).unwrap();
    let activity_artifact = artifact("activity.run", &run.bytes, run.rows);
    let flags_artifact = artifact("flags.run", &flags.bytes, flags.rows);
    assert!(has_full_weeks(&run.bytes, AS_OF));
    let finalized = finalize(
        &run.bytes,
        &flags.bytes,
        &activity_artifact,
        &flags_artifact,
        AS_OF,
    )
    .unwrap();
    let json = b"metric".to_vec();
    let evidence = complete_fixed_activity(
        &snapshot(),
        ActivityBuild {
            as_of_epoch: AS_OF,
            delta_objects: 0,
            baseline_evidence_sha256: None,
            batch_count: 1,
            estimated_run_bytes: 0,
            disk_reserve_bytes: 0,
        },
        BatchProgress::new(Vec::new()),
        single("activity", activity_artifact),
        flags_artifact,
        finalized,
        &json,
    );
    let product =
        load_bounded_fixed_activity(evidence, b"evidence", &run.bytes, &flags.bytes, &json)
            .unwrap();
    Activity {
        product,
        bytes: run.bytes,
        flags: flags.bytes,
        json,
    }
}

#[test]
fn bounded_heap_keeps_exact_count_and_pubkey_order() {
    let mut rows = Vec::new();
    for (pubkey, count) in [(3, 5), (2, 5), (1, 4), (4, 6)] {
        push_top(
            &mut rows,
            RankRow {
                pubkey: [pubkey; 32],
                event_count: count,
                kinds_count: 1,
                first_event: 1,
                last_event: 1,
            },
            2,
        );
    }
    assert_eq!(rows[0].pubkey, [4; 32]);
    assert_eq!(rows[1].pubkey, [2; 32]);
}

#[test]
fn ranking_index_exists_only_after_the_source_is_complete() {
    assert_eq!(prepare_rank_index_for_build(1, 2), Ok(RankIndex::Drop));
    assert_eq!(prepare_rank_index_for_build(2, 2), Ok(RankIndex::Ensure));
    assert!(prepare_rank_index_for_build(3, 2).is_err());
}

fn config() -> PublisherRankingConfig {
    PublisherRankingConfig {
        state_database: "publisher.sqlite".to_owned(),
        artifact_path: "ranking.run".to_owned(),
        windows_days: vec![1, 2],
        top_limit: 2,
        publisher_batch_size: 2,
        max_state_bytes: 8_192,
        sqlite_cache_bytes: 1_024,
        disk_reserve_bytes: 0,
    }
}

fn state(activity: &Activity) -> ActivityState<'_> {
    ActivityState {
        activity: &activity.bytes,
        flags: &activity.flags,
        metric_json: &activity.json,
    }
}

fn find(rows: &[PublisherRankingRow], days: u32, kind: Option<u16>, pubkey: u8) -> Vec<u64> {
    rows.iter()
        .filter(|row| row.days == days && row.kind == kind && row.pubkey == [pubkey; 32])
        .map(|row| row.event_count)
        .collect()
}

/// The store of a build in memory.
#[derive(Clone, Debug, Default, PartialEq)]
struct Store {
    rows: Vec<PublisherRankingRow>,
    records: u64,
    kinds: usize,
    commits: usize,
    pages: u64,
    index: bool,
    commits_left: Option<usize>,
    identity: Option<String>,
    artifact: Option<Vec<u8>>,
    evidence: Option<PublisherRankingEvidence>,
}

impl Store {
    fn ledger(&self) -> PublisherState {
        PublisherState {
            identity: self.identity.clone().unwrap(),
            source_records: self.records,
            max_kinds: self.kinds,
            rank_indexes: u64::from(self.index),
            ledger: self.rows.clone(),
        }
    }
}

fn ask_store(mut store: Store, request: &RankingRequest) -> (Store, Result<RankingReply>) {
    let reply = match request {
        RankingRequest::Completed => Ok(RankingReply::Completed(store.evidence.clone().map(
            |evidence| CompletedRanking {
                evidence,
                evidence_json: b"ranking evidence".to_vec(),
                ledger: store.ledger(),
                artifact: store.artifact.clone().unwrap(),
            },
        ))),
        RankingRequest::Identity => Ok(RankingReply::Identity(store.identity.clone())),
        RankingRequest::Name(identity) => {
            store.identity = Some(identity.clone());
            store.records = 0;
            store.kinds = 0;
            Ok(RankingReply::Done)
        }
        RankingRequest::Artifact => Ok(RankingReply::Artifact(
            store.artifact.as_deref().map(sha256_hex),
        )),
        RankingRequest::WriteArtifact(bytes) => {
            assert!(store.artifact.is_none());
            store.artifact = Some(bytes.clone());
            Ok(RankingReply::Done)
        }
        RankingRequest::Ledger => Ok(RankingReply::Ledger(store.ledger())),
        RankingRequest::WriteEvidence(evidence) => {
            store.evidence = Some(evidence.clone());
            Ok(RankingReply::Written(b"ranking evidence".to_vec()))
        }
        RankingRequest::Progress => Ok(RankingReply::Progress(store.records, store.kinds)),
        RankingRequest::Index(index) => {
            store.index = *index == RankIndex::Ensure;
            Ok(RankingReply::Done)
        }
        RankingRequest::Commit {
            rows,
            source_records,
            max_kinds,
        } => {
            if store.commits_left == Some(store.commits) {
                return (store, Err(Error::Validation("the store is closed")));
            }
            assert!(!store.index);
            store.rows.extend(rows.iter().cloned());
            store.records = *source_records;
            store.kinds = *max_kinds;
            store.commits += 1;
            Ok(RankingReply::Done)
        }
        RankingRequest::Size => Ok(RankingReply::Size(store.pages, 4_096)),
        RankingRequest::Rows => {
            assert!(store.index);
            Ok(RankingReply::Rows(store.rows.clone()))
        }
    };
    (store, reply)
}

fn build(
    activity: &Activity,
    config: &PublisherRankingConfig,
    store: Store,
) -> (Store, Result<BoundedPublisherRanking>) {
    build_bounded_publisher_ranking(
        &activity.product,
        &state(activity),
        config,
        store,
        &ask_store,
    )
}

/// The ledger of the activity, in batches of a size.
fn build_ledger(activity: &Activity, size: usize) -> Vec<PublisherRankingRow> {
    let mut config = config();
    config.publisher_batch_size = size;
    let (store, built) = build(activity, &config, Store::default());
    assert!(built.is_ok());
    assert_eq!(store.records, 8);
    store.rows
}

#[test]
fn a_build_goes_on_where_it_stopped() {
    let activity = activity();
    let mut config = config();
    config.publisher_batch_size = 1;
    let (whole, built) = build(&activity, &config, Store::default());
    let product = built.unwrap();
    assert_eq!((whole.commits, whole.kinds), (3, 2));
    assert_eq!(whole.evidence, Some(product.evidence.clone()));
    assert_eq!(product.evidence_sha256, sha256_hex(b"ranking evidence"));
    for stop in 0..3 {
        let closed = Store {
            commits_left: Some(stop),
            ..Store::default()
        };
        let (stopped, refused) = build(&activity, &config, closed);
        assert_eq!(refused, Err(Error::Validation("the store is closed")));
        assert_eq!(stopped.commits, stop);
        assert_eq!(stopped.records, [0, 4, 6][stop]);
        assert_eq!((&stopped.artifact, &stopped.evidence), (&None, &None));
        let open = Store {
            commits_left: None,
            ..stopped
        };
        let (resumed, built) = build(&activity, &config, open);
        assert_eq!(resumed, whole);
        assert_eq!(built, Ok(product.clone()));
    }
    let (again, taken_up) = build(&activity, &config, whole.clone());
    assert_eq!(again, whole);
    assert_eq!(taken_up, Ok(product.clone()));
    let retried = Store {
        evidence: None,
        ..whole.clone()
    };
    let (written, built) = build(&activity, &config, retried);
    assert_eq!(written, whole);
    assert_eq!(built, Ok(product));
    let large = Store {
        pages: 3,
        ..Store::default()
    };
    let (stopped, refused) = build(&activity, &config, large);
    assert_eq!(stopped.commits, 1);
    assert_eq!(
        refused,
        Err(Error::Invalid(
            "publisher SQLite state exceeded its configured ceiling"
        ))
    );
    for records in [1, 9] {
        let strange = Store {
            records,
            evidence: None,
            artifact: None,
            ..whole.clone()
        };
        assert!(matches!(
            build(&activity, &config, strange).1,
            Err(Error::Invalid(_))
        ));
    }
}

#[test]
fn a_build_belongs_to_its_ledger_artifact_and_predecessor() {
    let activity = activity();
    let config = config();
    let (whole, _) = build(&activity, &config, Store::default());
    let stranger = Store {
        identity: Some("{}".to_owned()),
        ..Store::default()
    };
    let (kept, refused) = build(&activity, &config, stranger.clone());
    assert_eq!(kept, stranger);
    assert!(matches!(refused, Err(Error::Invalid(_))));
    let conflicting = Store {
        evidence: None,
        artifact: Some(vec![1]),
        ..whole.clone()
    };
    let (kept, refused) = build(&activity, &config, conflicting.clone());
    assert_eq!(kept, conflicting);
    assert_eq!(
        refused,
        Err(Error::Invalid(
            "publisher completed artifact conflicts with retry output"
        ))
    );
    let mut broken = whole.clone();
    broken.rows.pop();
    broken.evidence = None;
    assert!(build(&activity, &config, broken.clone()).1.is_err());
    broken.evidence = whole.evidence.clone();
    assert!(build(&activity, &config, broken).1.is_err());
    let baseline = build(&activity, &config, whole.clone()).1.unwrap();
    let successor = advance_bounded_publisher_ranking(
        &baseline,
        &activity.product,
        &state(&activity),
        &config,
        whole,
        &ask_store,
    );
    assert_eq!(
        successor.1,
        Err(Error::Invalid(
            "publisher completed evidence has different predecessor lineage"
        ))
    );
}

#[test]
fn the_ledger_counts_every_window_and_kind() {
    let activity = activity();
    let ledger = build_ledger(&activity, 2);
    assert_eq!(ledger.len(), 10);
    assert_eq!(find(&ledger, 1, None, 1), vec![1]);
    assert_eq!(find(&ledger, 2, None, 1), vec![4]);
    assert_eq!(find(&ledger, 2, Some(1), 1), vec![3]);
    assert_eq!(find(&ledger, 2, None, 2), vec![2]);
    assert_eq!(find(&ledger, 2, None, 3), vec![1]);
    assert!(find(&ledger, 1, None, 2).is_empty());
    for size in [1, 3, 100] {
        let other = build_ledger(&activity, size);
        assert_eq!(other, ledger);
    }
    let all = ledger
        .iter()
        .find(|row| row.days == 2 && row.kind.is_none() && row.pubkey == [1; 32])
        .unwrap();
    assert_eq!(all.kinds_count, 2);
    assert_eq!(all.first_event, BASE + 10);
    assert_eq!(all.last_event, BASE + 86_400);
}

#[test]
fn rankings_keep_the_first_rows_of_every_group() {
    let activity = activity();
    let ledger = build_ledger(&activity, 2);
    let (rows, groups) = rank_ledger(ledger, 2).unwrap();
    assert_eq!(groups, 8);
    assert_eq!(rows.len(), 9);
    let two_days: Vec<[u8; 32]> = rows
        .iter()
        .filter(|row| row.days == 2 && row.kind.is_none())
        .map(|row| row.pubkey)
        .collect();
    assert_eq!(two_days, vec![[1; 32], [2; 32]]);
    for pair in rows.windows(2) {
        assert!(ranking_precedes(&pair[0], &pair[1]));
    }
}

fn ranking(activity: &Activity) -> (BoundedPublisherRanking, Vec<u8>) {
    let (store, built) = build(activity, &config(), Store::default());
    (built.unwrap(), store.artifact.unwrap())
}

#[test]
fn a_ranking_is_built_published_and_read_back() {
    let activity = activity();
    let (product, artifact) = ranking(&activity);
    assert_eq!(product.evidence.ledger_rows, 10);
    assert_eq!(product.evidence.ranking_groups, 8);
    assert_eq!(product.evidence.ranking_artifact.row_count, 9);
    assert_eq!(artifact.len(), 9 * 64);
    assert_eq!(
        validate_publisher_ranking_publication(&product, &artifact),
        Ok(())
    );
    let rows = read_ranking_artifact(&artifact, 9).unwrap();
    assert_eq!(decode_ranking(&encode_ranking(&rows[0])).unwrap(), rows[0]);
    assert!(read_ranking_artifact(&artifact, 8).is_err());
    assert!(validate_publisher_ranking_publication(&product, &artifact[..512]).is_err());
    let columns: Vec<_> = rows.iter().map(|row| ledger_columns(row).unwrap()).collect();
    assert_eq!(ledger_row(&columns[0]).unwrap(), rows[0]);
    assert_eq!(reconcile_rows(&columns, &rows), Ok(()));
    assert!(reconcile_rows(&columns[1..].to_vec(), &rows).is_err());
    let mut broken = columns.clone();
    broken[0].event_count = -1;
    assert_eq!(
        reconcile_rows(&broken, &rows),
        Err(Error::NegativeLedgerValue {
            field: "published publisher count",
            value: -1,
        })
    );
    let page = PageColumns {
        pubkey: columns[0].pubkey.clone(),
        event_count: columns[0].event_count,
        kinds_count: columns[0].kinds_count,
        first_event: columns[0].first_event,
        last_event: columns[0].last_event,
    };
    assert_eq!(
        decode_page_row(rows[0].days, rows[0].kind, &page).unwrap(),
        rows[0]
    );
    let row = publisher_product_row(&product.evidence).unwrap();
    assert_eq!(row.windows_days, vec![1, 2]);
    let mut published = PublishedRanking {
        snapshot_id: "sha256:snapshot".to_owned(),
        as_of_epoch: AS_OF as i64,
        product_version: "publisher-ranking-v1".to_owned(),
        evidence_sha256: product.evidence_sha256.clone(),
        activity_evidence_sha256: activity.product.evidence_sha256.clone(),
        activity_artifact_sha256: sha256_hex(&activity.bytes),
        ranking_artifact_sha256: sha256_hex(&artifact),
        top_limit: 2,
        source_records: 8,
        ledger_rows: 10,
        ranking_groups: 8,
        ranking_rows: 9,
    };
    assert_eq!(reconcile_metadata(&published, &product), Ok(()));
    let publish = |known: bool, lost: u64, first: usize| {
        let ask = |transaction: (), request: &LedgerRequest| {
            let reply = match request {
                LedgerRequest::CurrentRun => Ok(LedgerReply::Run(LedgerRun {
                    run_id: "run".to_owned(),
                    snapshot_id: "sha256:snapshot".to_owned(),
                    query_version: "v".to_owned(),
                    as_of_epoch: AS_OF as i64,
                    activity_evidence_sha256: Some(activity.product.evidence_sha256.clone()),
                })),
                LedgerRequest::ProductStored { .. } => Ok(LedgerReply::Known(known)),
                LedgerRequest::InsertProduct {
                    row: SideRow::Ranking(row),
                    ..
                } => {
                    assert_eq!(row.ranking_rows, 9);
                    Ok(LedgerReply::Done)
                }
                LedgerRequest::CopyProduct { lines, .. } => {
                    Ok(LedgerReply::Rows(lines.len() as u64 - lost))
                }
                LedgerRequest::StoredProduct { .. } => {
                    Ok(LedgerReply::Product(SideStored::Ranking(StoredRanking {
                        metadata: published.clone(),
                        rows: columns[first..].to_vec(),
                    })))
                }
                _ => Err(Error::Validation("another question")),
            };
            (transaction, reply)
        };
        let commit = |_: ()| Ok(());
        let rollback = |_: ()| ();
        publish_publisher_ranking(
            "run",
            &product,
            &artifact,
            || Ok(()),
            &Ledger {
                ask: &ask,
                commit: &commit,
                rollback: &rollback,
            },
        )
    };
    assert!(matches!(
        publish(false, 0, 0),
        Ok(PublisherRankingPublishOutcome::Published { .. })
    ));
    assert!(matches!(
        publish(true, 0, 0),
        Ok(PublisherRankingPublishOutcome::AlreadyPublished { .. })
    ));
    assert!(publish(true, 0, 1).is_err());
    assert!(matches!(
        publish(false, 1, 0),
        Err(Error::CopyCount { .. })
    ));
    published.ranking_rows = 8;
    assert!(reconcile_metadata(&published, &product).is_err());
}

#[test]
fn rankings_follow_the_current_run() {
    let activity = activity();
    let (product, _) = ranking(&activity);
    let mut current = CurrentRankingRun {
        run_id: "run".to_owned(),
        snapshot_id: "sha256:snapshot".to_owned(),
        as_of_epoch: AS_OF as i64,
        activity_evidence_sha256: Some(activity.product.evidence_sha256.clone()),
    };
    assert_eq!(
        check_publisher_baseline(&current, "run", &product.evidence),
        Ok(())
    );
    assert!(check_publisher_baseline(&current, "other", &product.evidence).is_err());
    current.activity_evidence_sha256 = None;
    assert!(check_publisher_baseline(&current, "run", &product.evidence).is_err());
}

#[test]
fn a_successor_keeps_the_window_contract() {
    let activity = activity();
    let (baseline, _) = ranking(&activity);
    let successor = advance_bounded_publisher_ranking(
        &baseline,
        &activity.product,
        &state(&activity),
        &config(),
        Store::default(),
        &ask_store,
    )
    .1
    .unwrap();
    assert_eq!(
        successor.evidence.baseline_evidence_sha256,
        Some(baseline.evidence_sha256.clone())
    );
    let mut other = config();
    other.top_limit = 3;
    assert!(advance_bounded_publisher_ranking(
        &baseline,
        &activity.product,
        &state(&activity),
        &other,
        Store::default(),
        &ask_store,
    )
    .1
    .is_err());
    assert_eq!(check_lineage(&baseline, &None), Ok(()));
    assert!(check_lineage(&baseline, &Some("other".to_owned())).is_err());
}

#[test]
fn a_retry_writes_the_same_artifact() {
    let activity = activity();
    let (product, artifact) = ranking(&activity);
    let build = RankingBuild {
        evidence: product.evidence,
        artifact,
    };
    assert_eq!(check_retry(&None, &build), Ok(()));
    assert_eq!(
        check_retry(&Some(sha256_hex(&build.artifact)), &build),
        Ok(())
    );
    assert_eq!(
        check_retry(&Some(sha256_hex(b"other")), &build),
        Err(Error::Invalid(
            "publisher completed artifact conflicts with retry output"
        ))
    );
    let baseline = BoundedPublisherRanking {
        evidence: build.evidence,
        evidence_sha256: sha256_hex(b"evidence"),
    };
    assert_eq!(
        check_successor(&baseline, &activity.product, &config()),
        Ok(())
    );
    let mut changed = config();
    changed.top_limit += 1;
    assert!(check_successor(&baseline, &activity.product, &changed).is_err());
}

#[test]
fn a_ledger_belongs_to_one_build() {
    let activity = activity();
    let stored = match initialize_identity(&activity.product, &config(), &None).unwrap() {
        StateIdentity::Store(text) => text,
        StateIdentity::Known => panic!("nothing was stored"),
    };
    assert!(stored.contains("sha256:snapshot"));
    assert!(stored.contains("publisher-ranking-v1"));
    assert_eq!(
        initialize_identity(&activity.product, &config(), &Some(stored.clone())),
        Ok(StateIdentity::Known)
    );
    let mut other = config();
    other.windows_days = vec![1];
    assert!(initialize_identity(&activity.product, &other, &Some(stored.clone())).is_err());

    let (product, artifact) = ranking(&activity);
    let mut ledger = PublisherState {
        identity: stored,
        source_records: 8,
        max_kinds: 2,
        rank_indexes: 1,
        ledger: build_ledger(&activity, 2),
    };
    let loaded = load_bounded_publisher_ranking(
        product.evidence.clone(),
        b"ranking evidence",
        &ledger,
        &artifact,
    )
    .unwrap();
    assert_eq!(loaded.evidence_sha256, product.evidence_sha256);
    ledger.rank_indexes = 0;
    assert!(load_bounded_publisher_ranking(
        product.evidence,
        b"ranking evidence",
        &ledger,
        &artifact
    )
    .is_err());
}

#[test]
fn ledger_limits_and_progress_are_read_back() {
    assert_eq!(state_limits(&config(), 4_096), Ok((2, -1)));
    assert!(state_limits(&config(), 16_384).is_err());
    assert_eq!(enforce_state_size(2, 4_096, 8_192), Ok(()));
    assert!(enforce_state_size(3, 4_096, 8_192).is_err());
    assert_eq!(state_progress("12", "3"), Ok((12, 3)));
    assert!(state_progress("12", "x").is_err());
}

#[test]
fn ranking_lines_and_queries_hold_the_kind() {
    let row = PublisherRankingRow {
        days: 7,
        kind: None,
        pubkey: [0xab; 32],
        event_count: 5,
        kinds_count: 2,
        first_event: 10,
        last_event: 20,
    };
    assert_eq!(
        ranking_line("p", &row),
        format!("p,7,-1,\\x{},5,2,10,20\n", "ab".repeat(32))
    );
    let query = ranking_query(7, Some(1), 10).unwrap();
    assert_eq!((query.days, query.kind, query.limit), (7, 1, 10));
    assert!(ranking_query(7, None, 0).is_err());
    assert!(ranking_query(7, None, 1_001).is_err());
    assert!(ranking_query(u32::MAX, None, 1).is_err());
}

#[test]
fn a_benchmark_measures_every_window() {
    let activity = activity();
    let config = PublisherBenchmarkConfig {
        windows_days: vec![1, 2],
        sampled_kinds: vec![1],
        top_limit: 2,
    };
    let scan = scan_benchmark(&activity.product, &state(&activity), &config).unwrap();
    assert_eq!(scan.publisher_daily_rows, 4);
    assert_eq!(scan.publisher_daily_kind_rows, 6);
    assert_eq!(scan.all_kind_publishers_by_window, vec![1, 3]);
    assert_eq!(scan.per_kind_publishers_by_window, vec![1, 5]);
    assert_eq!(scan.materialized_top_rows, 9);
    let evidence =
        report_benchmark(&activity.product, &config, scan, b"rows", 2_000).unwrap();
    assert_eq!(evidence.publisher_daily_compact_bytes, 4 * 52);
    assert_eq!(evidence.publisher_daily_kind_compact_bytes, 6 * 54);
    assert_eq!(evidence.materialized_top_compact_bytes, 9 * 62);
    assert_eq!(evidence.scan_records_per_second, 4);
    assert_eq!(evidence.representative_rows_sha256, sha256_hex(b"rows"));
    assert_eq!(validate_benchmark(&evidence, b"rows"), Ok(()));
    assert!(validate_benchmark(&evidence, b"other").is_err());
    let mut unlimited = config.clone();
    unlimited.top_limit = 0;
    let scan = scan_benchmark(&activity.product, &state(&activity), &config).unwrap();
    assert!(report_benchmark(&activity.product, &unlimited, scan, b"rows", 2_000).is_err());
    assert!(scan_benchmark(
        &activity.product,
        &state(&activity),
        &PublisherBenchmarkConfig {
            windows_days: vec![2, 1],
            sampled_kinds: vec![1],
            top_limit: 2,
        }
    )
    .is_err());
}

#[test]
fn a_benchmark_is_scanned_encoded_checked_and_written() {
    let activity = activity();
    let mut config = PublisherBenchmarkConfig {
        windows_days: vec![1, 2],
        sampled_kinds: vec![1],
        top_limit: 2,
    };
    let written = RefCell::new(Vec::new());
    let run = |config: &PublisherBenchmarkConfig, encodes: bool, writes: bool| {
        let encode = |rows: &Vec<PublisherBenchmarkRow>| {
            if encodes {
                Ok(format!("{} rows", rows.len()).into_bytes())
            } else {
                Err(Error::Invalid("not encoded"))
            }
        };
        let elapsed = || 2_000;
        let write = |evidence: &PublisherBenchmarkEvidence| {
            if writes {
                written.borrow_mut().push(evidence.clone());
                Ok(())
            } else {
                Err(Error::Invalid("not written"))
            }
        };
        benchmark_publishers(
            &activity.product,
            &state(&activity),
            config,
            &BenchmarkSteps {
                encode: &encode,
                elapsed: &elapsed,
                write: &write,
            },
        )
    };
    let evidence = run(&config, true, true).unwrap();
    assert_eq!(*written.borrow(), [evidence.clone()]);
    let rows = format!("{} rows", evidence.representative_top_rows.len());
    assert_eq!(
        evidence.representative_rows_sha256,
        sha256_hex(rows.as_bytes())
    );
    assert_eq!(evidence.materialized_top_rows, 9);
    assert_eq!(evidence.scan_records_per_second, 4);
    assert_eq!(
        run(&config, false, true),
        Err(Error::Invalid("not encoded"))
    );
    assert_eq!(
        run(&config, true, false),
        Err(Error::Invalid("not written"))
    );
    config.top_limit = 0;
    assert!(run(&config, true, true).is_err());
    assert_eq!(written.borrow().len(), 1);
}

#[test]
fn ranking_rows_are_visited_up_to_the_first_error() {
    let activity = activity();
    let (product, artifact) = ranking(&activity);
    let rows = read_ranking_artifact(&artifact, 9).unwrap();
    let visit = |bytes: &[u8], stop: usize| {
        let visitor = |mut seen: Vec<PublisherRankingRow>, row: PublisherRankingRow| {
            seen.push(row);
            let outcome = if seen.len() == stop {
                Err(Error::Validation("enough"))
            } else {
                Ok(())
            };
            (seen, outcome)
        };
        visit_publisher_ranking_rows(&product, bytes, Vec::new(), &visitor)
    };
    assert_eq!(visit(&artifact, 0), (rows.clone(), Ok(())));
    assert_eq!(
        visit(&artifact, 3),
        (rows[..3].to_vec(), Err(Error::Validation("enough")))
    );
    let (seen, outcome) = visit(&artifact[..5 * 64 + 1], 0);
    assert_eq!(seen, rows[..5]);
    assert!(matches!(outcome, Err(Error::Invalid(_))));
    let (seen, outcome) = visit(&artifact[..5 * 64], 0);
    assert_eq!(seen, rows[..5]);
    assert!(matches!(outcome, Err(Error::Invalid(_))));
}
