use std::cell::RefCell;

use pensieve_analytics::artifact::{BatchLimits, CatalogObject, InputBatch, InputIdentity};
use pensieve_analytics::digest::sha256_hex;
use pensieve_analytics::disk::DiskBudget;
use pensieve_analytics::error::{Error, Result};
use pensieve_analytics::input::{CatalogSnapshot, ObjectLocation, ResolvedSnapshot};
use pensieve_analytics::input_index::inputs_are_new;
use pensieve_analytics::relay_build::{
    load_bounded_relay_distribution, BoundedRelayDistribution, PhysicalTotals,
    RelayDistributionConfig, RelayDistributionEvidence, RelayState, ScannedRelayEvent,
};
use pensieve_analytics::relay_distribution::RelayDistributionRow;
use pensieve_analytics::relay_run::{
    advance_bounded_relay_distribution, apply_batch, build_bounded_relay_distribution, RelayBuild,
    RelaySteps,
};
use pensieve_analytics::relay_scan::{scan_rows, ScannedRelayRow};

fn relay_row(id: u8, pubkey: u8, created_at: u64, tags_json: &str) -> ScannedRelayRow {
    ScannedRelayRow {
        event: ScannedRelayEvent {
            event_id: vec![id; 32],
            pubkey: vec![pubkey; 32],
            created_at,
            kind: 10_002,
        },
        tags_json: tags_json.to_owned(),
    }
}

fn other_row() -> ScannedRelayRow {
    let mut row = relay_row(200, 1, 5, "no tags");
    row.event.kind = 1;
    row
}

/// Keeps secure URLs, in lower case.
fn normalize(url: &str) -> Option<String> {
    if url.starts_with("wss://") {
        Some(url.to_lowercase())
    } else {
        None
    }
}

const TAGS: &str = r#"[["r","wss://A.example"],["r","wss://a.example","read"],["r","ws://b"],["p","x"],["r"]]"#;

#[test]
fn scanned_lists_are_kept_once_by_increasing_id() {
    let rows = vec![
        relay_row(7, 1, 10, TAGS),
        other_row(),
        relay_row(3, 2, 11, "[]"),
        relay_row(7, 1, 10, TAGS),
    ];
    let (candidates, stats) = scan_rows(Vec::new(), &rows, &normalize).unwrap();
    assert_eq!(candidates.len(), 2);
    assert_eq!(candidates[0].event_id, [3; 32]);
    assert_eq!(candidates[1].event_id, [7; 32]);
    assert_eq!(candidates[1].memberships.len(), 1);
    assert_eq!(candidates[1].memberships[0].relay_url, "wss://a.example");
    assert!(candidates[1].memberships[0].write);
    assert_eq!(stats.physical_rows, 4);
    assert_eq!(stats.physical_relay_events, 3);
    assert_eq!(stats.raw_relay_tags, 8);
    assert_eq!(stats.invalid_relay_tags, 4);
    assert_eq!(stats.duplicate_relay_tags, 2);
    let (again, repeated) = scan_rows(candidates.clone(), &rows, &normalize).unwrap();
    assert_eq!(again, candidates);
    assert_eq!(repeated.physical_relay_events, 3);
    assert_eq!(repeated.raw_relay_tags, 8);
}

#[test]
fn conflicting_or_broken_lists_are_refused() {
    let known = vec![relay_row(7, 1, 10, "[]")];
    let (candidates, _) = scan_rows(Vec::new(), &known, &normalize).unwrap();
    let refused = |row: ScannedRelayRow| {
        scan_rows(candidates.clone(), &vec![row], &normalize)
            .err()
            .unwrap()
    };
    assert_eq!(
        refused(relay_row(7, 2, 10, "[]")),
        Error::Invalid("duplicate relay event ID has conflicting canonical fields")
    );
    assert_eq!(
        refused(relay_row(7, 1, 11, "[]")),
        Error::Invalid("duplicate relay event ID has conflicting canonical fields")
    );
    assert_eq!(
        refused(relay_row(8, 1, 10, "{}")),
        Error::Invalid("relay tags cannot be decoded")
    );
    assert!(matches!(
        refused(relay_row(8, 1, u64::MAX, "[]")),
        Error::Invalid(_)
    ));
    let mut short = relay_row(8, 1, 10, "[]");
    short.event.pubkey.pop();
    assert!(matches!(refused(short), Error::Invalid(_)));
}

fn input(name: &str, row_count: u64) -> InputIdentity {
    InputIdentity {
        identity: name.to_owned(),
        byte_size: 10,
        row_count,
        sha256: sha256_hex(name.as_bytes()),
    }
}

fn empty_state() -> RelayState {
    RelayState {
        snapshot_id: None,
        applied: Vec::new(),
        candidates: Vec::new(),
        physical: PhysicalTotals {
            physical_rows: 0,
            physical_relay_events: 0,
            raw_relay_tags: 0,
            invalid_relay_tags: 0,
            duplicate_relay_tags: 0,
        },
    }
}

#[test]
fn tags_of_every_copy_are_counted() {
    let copy = || {
        let mut row = relay_row(1, 2, 100, r#"[["r","wss://relay.example"]]"#);
        row.event.event_id = vec![1; 32];
        row
    };
    let rows = vec![copy(), copy()];
    let state = apply_batch(empty_state(), &vec![input("a", 2)], &rows, &normalize).unwrap();
    assert_eq!(state.physical.physical_rows, 2);
    assert_eq!(state.physical.physical_relay_events, 2);
    assert_eq!(state.physical.raw_relay_tags, 2);
    assert_eq!(state.candidates.len(), 1);
    assert_eq!(state.candidates[0].memberships.len(), 1);
    let known = vec![copy()];
    let (candidates, _) = scan_rows(Vec::new(), &known, &normalize).unwrap();
    let mut broken = copy();
    broken.tags_json = "not tags".to_owned();
    assert_eq!(
        scan_rows(candidates, &vec![broken], &normalize).err(),
        Some(Error::Invalid("relay tags cannot be decoded"))
    );
}

#[test]
fn batches_are_applied_once() {
    let rows = vec![relay_row(7, 1, 10, TAGS), other_row()];
    let state = apply_batch(empty_state(), &vec![input("a", 2)], &rows, &normalize).unwrap();
    assert_eq!(state.applied, vec![input("a", 2)]);
    assert_eq!(state.physical.physical_rows, 2);
    assert_eq!(state.physical.duplicate_relay_tags, 1);
    assert_eq!(
        apply_batch(state.clone(), &vec![input("a", 2)], &rows, &normalize).err(),
        Some(Error::Invalid("relay object is applied already"))
    );
    let next = apply_batch(state.clone(), &vec![input("b", 2)], &rows, &normalize).unwrap();
    assert_eq!(next.candidates, state.candidates);
    assert_eq!(next.physical.physical_rows, 4);
    assert_eq!(next.physical.raw_relay_tags, 8);
    assert!(matches!(
        apply_batch(state.clone(), &vec![input("b", u64::MAX)], &rows, &normalize),
        Err(Error::NumericOverflow { .. })
    ));
    let mut full = state;
    full.physical.physical_rows = i64::MAX;
    assert!(matches!(
        apply_batch(full, &vec![input("b", 2)], &rows, &normalize),
        Err(Error::Invalid(_))
    ));
    assert!(inputs_are_new(&vec![input("a", 1)], &vec![input("b", 1)]));
    assert!(!inputs_are_new(
        &vec![input("a", 1), input("a", 2)],
        &Vec::new()
    ));
}

fn snapshot(id: &str, names: &[&str]) -> ResolvedSnapshot {
    ResolvedSnapshot {
        catalog: CatalogSnapshot {
            snapshot_id: id.to_owned(),
            store_id: "s3+https://example.test/bucket".to_owned(),
            objects: names
                .iter()
                .map(|name| CatalogObject {
                    object_key: (*name).to_owned(),
                    work_unit_id: "w".to_owned(),
                    sha256: sha256_hex(name.as_bytes()),
                    byte_size: 10,
                    row_count: 2,
                    min_created_at: None,
                    max_created_at: None,
                })
                .collect(),
            physical_rows: 2 * names.len() as u64,
        },
        locations: names
            .iter()
            .map(|name| ObjectLocation::Local((*name).to_owned()))
            .collect(),
        s3_endpoint: None,
        s3_bucket: None,
    }
}

fn config() -> RelayDistributionConfig {
    RelayDistributionConfig {
        state_database: "state.sqlite".to_owned(),
        batch_limits: BatchLimits {
            max_bytes: 100,
            max_rows: 100,
        },
        max_state_bytes: 1_000_000,
        sqlite_cache_bytes: 4_096,
        minimum_users: 1,
        disk_reserve_bytes: 3,
    }
}

fn plan(inputs: &Vec<InputIdentity>, _limits: BatchLimits) -> Result<Vec<InputBatch>> {
    Ok(inputs
        .iter()
        .enumerate()
        .map(|(index, input)| InputBatch {
            index,
            inputs: vec![input.clone()],
            byte_size: input.byte_size,
            row_count: input.row_count,
        })
        .collect())
}

struct Lake {
    state: RefCell<RelayState>,
    scanned: RefCell<Vec<(String, Vec<usize>)>>,
    pages: u64,
}

impl Lake {
    fn new() -> Self {
        Lake {
            state: RefCell::new(empty_state()),
            scanned: RefCell::new(Vec::new()),
            pages: 2,
        }
    }

    fn rows(name: &str) -> Vec<ScannedRelayRow> {
        match name {
            "a" => vec![relay_row(1, 1, 10, TAGS), other_row()],
            "b" => vec![
                relay_row(2, 2, 10, r#"[["r","wss://a.example"]]"#),
                relay_row(1, 1, 10, TAGS),
            ],
            _ => vec![
                relay_row(3, 1, 20, r#"[["r","wss://c.example","write"]]"#),
                relay_row(4, 3, 900, "[]"),
            ],
        }
    }

    fn run(
        &self,
        baseline: Option<&BoundedRelayDistribution>,
        snapshot: &ResolvedSnapshot,
        as_of_epoch: u64,
        config: &RelayDistributionConfig,
    ) -> Result<BoundedRelayDistribution> {
        let reserve = |budget: DiskBudget| {
            assert_eq!(budget.output_bytes, config.max_state_bytes);
            assert_eq!(budget.retained_bytes, 5);
            assert_eq!(budget.reserve_bytes, 3);
            Ok(())
        };
        let open = || Ok(self.state.borrow().clone());
        let scan = |batch: &InputBatch, places: &[usize]| {
            let name = batch.inputs[0].identity.clone();
            let rows = Lake::rows(&name);
            self.scanned.borrow_mut().push((name, places.to_vec()));
            Ok(rows)
        };
        let commit = |state: &RelayState| {
            *self.state.borrow_mut() = state.clone();
            Ok(())
        };
        let size = |_: &RelayState| Ok((self.pages, 4_096));
        let encode = |rows: &Vec<RelayDistributionRow>| Ok(format!("{rows:?}").into_bytes());
        let encode_evidence = |_: &RelayDistributionEvidence| Ok(b"evidence".to_vec());
        let steps = RelaySteps {
            reserve: &reserve,
            open: &open,
            plan: &plan,
            scan: &scan,
            normalize: &normalize,
            commit: &commit,
            size: &size,
            encode: &encode,
            encode_evidence: &encode_evidence,
        };
        let build = RelayBuild {
            snapshot,
            as_of_epoch,
            config,
            retained_bytes: 5,
        };
        match baseline {
            None => build_bounded_relay_distribution(&build, &steps),
            Some(baseline) => advance_bounded_relay_distribution(baseline, &build, &steps),
        }
    }
}

#[test]
fn relay_builds_load_and_advance() {
    let lake = Lake::new();
    let first = snapshot("sha256:first", &["a", "b"]);
    let product = lake.run(None, &first, 100, &config()).unwrap();
    assert_eq!(product.evidence_sha256, sha256_hex(b"evidence"));
    assert_eq!(product.evidence.candidate_events, 2);
    assert_eq!(product.evidence.physical_rows_scanned, 4);
    assert_eq!(product.evidence.physical_relay_events, 3);
    assert_eq!(product.evidence.delta_object_count, 2);
    assert_eq!(product.evidence.rows.len(), 1);
    assert_eq!(product.evidence.rows[0].user_count, 2);
    assert_eq!(
        *lake.scanned.borrow(),
        vec![("a".to_owned(), vec![0]), ("b".to_owned(), vec![1])]
    );
    let state = lake.state.borrow().clone();
    assert_eq!(state.snapshot_id.as_deref(), Some("sha256:first"));
    assert!(load_bounded_relay_distribution(
        product.evidence.clone(),
        b"evidence",
        format!("{:?}", product.evidence.rows).as_bytes(),
        &state,
    )
    .is_ok());

    let target = snapshot("sha256:target", &["a", "b", "c"]);
    assert!(lake.run(Some(&product), &target, 99, &config()).is_err());
    let changed = snapshot("sha256:target", &["a", "c"]);
    assert!(lake.run(Some(&product), &changed, 100, &config()).is_err());
    let later = lake.run(Some(&product), &target, 100, &config()).unwrap();
    assert_eq!(lake.scanned.borrow().len(), 3);
    assert_eq!(lake.scanned.borrow()[2], ("c".to_owned(), vec![2]));
    assert_eq!(later.evidence.delta_object_count, 1);
    assert_eq!(
        later.evidence.baseline_evidence_sha256,
        Some(sha256_hex(b"evidence"))
    );
    assert_eq!(later.evidence.candidate_events, 4);
    assert_eq!(later.evidence.eligible_candidate_events, 3);
    assert_eq!(later.evidence.winning_pubkeys, 2);
    assert_eq!(
        later
            .evidence
            .rows
            .iter()
            .map(|row| (row.relay_url.as_str(), row.user_count))
            .collect::<Vec<_>>(),
        vec![("wss://a.example", 1), ("wss://c.example", 1)]
    );
}

#[test]
fn relay_builds_stay_within_their_bounds() {
    let first = snapshot("sha256:first", &["a", "b"]);
    let mut lake = Lake::new();
    lake.pages = 1_000;
    assert!(lake.run(None, &first, 100, &config()).is_err());
    let lake = Lake::new();
    assert!(lake.run(None, &first, 0, &config()).is_err());
    let mut small = config();
    small.minimum_users = 0;
    assert!(lake.run(None, &first, 100, &small).is_err());
    let product = lake.run(None, &first, 100, &config()).unwrap();
    assert_eq!(product.evidence.object_count, 2);
    let shrunk = snapshot("sha256:shrunk", &["a"]);
    assert_eq!(
        lake.run(None, &shrunk, 100, &config()).err(),
        Some(Error::Invalid(
            "relay target removed or changed a previously applied object"
        ))
    );
    lake.state.borrow_mut().candidates.reverse();
    assert!(lake.run(None, &first, 100, &config()).is_err());
}
