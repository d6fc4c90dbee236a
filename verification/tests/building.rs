use std::cell::RefCell;
use std::collections::BTreeMap;

use pensieve_analytics::activity_build::{
    load_bounded_fixed_activity, scan_activity, FixedActivityConfig, ScannedActivity,
};
use pensieve_analytics::activity_counts::FinalizedActivity;
use pensieve_analytics::activity_run::{
    advance_bounded_fixed_activity, build_bounded_fixed_activity, ActivitySteps,
};
use pensieve_analytics::advance::CheckpointVersion;
use pensieve_analytics::artifact::{
    ArtifactIdentity, BatchLimits, CatalogObject, EncodedRun, InputBatch, InputIdentity,
    RunCheckpoint, RunIdentity,
};
use pensieve_analytics::build_runs::{build_runs, run_batches, BatchRun, BuildSteps, MergeSettings};
use pensieve_analytics::digest::sha256_hex;
use pensieve_analytics::disk::{DiskBudget, WorkFile};
use pensieve_analytics::error::{Error, Result};
use pensieve_analytics::first_seen_build::{
    scan_first_seen, PubkeyFirstSeenConfig, ScannedFirstSeen,
};
use pensieve_analytics::first_seen_run::{
    advance_bounded_pubkey_first_seen, build_bounded_pubkey_first_seen, SeenState,
};
use pensieve_analytics::fixed_activity::has_full_weeks;
use pensieve_analytics::flexible_build::SourceChunk;
use pensieve_analytics::flexible_distinct::FlexibleDistinctConfig;
use pensieve_analytics::flexible_run::{
    build_bounded_flexible_distinct, FlexibleBuild, FlexibleSteps,
};
use pensieve_analytics::flexible_validation::ActivityState;
use pensieve_analytics::hour_identities::LeafGroup;
use pensieve_analytics::input::{CatalogSnapshot, ObjectLocation, ResolvedSnapshot};
use pensieve_analytics::merge::{merge_to_single, CompletedRun};
use pensieve_analytics::plan::{plan_from_baseline, AppliedObject, Baseline, CatalogDeltaPlan};
use pensieve_analytics::pubkey_first_seen::{
    load_bounded_pubkey_first_seen, NewUsersDaily, SeenBounds,
};
use pensieve_analytics::rollups::SemanticRollups;
use pensieve_analytics::semantic_build::{BoundedSemanticFacts, SemanticFactsConfig};
use pensieve_analytics::semantic_run::build_bounded_semantic_facts;
use pensieve_analytics::semantic_totals::{SemanticPayload, SemanticRecord};
use pensieve_analytics::serving_compact::TimestampBounds;
use pensieve_analytics::serving_facts::{
    load_bounded_serving_facts, ServingArtifacts, ServingFactsConfig, ServingFactsEvidence,
    ServingSource,
};
use pensieve_analytics::serving_records::{ContentFact, EventFact};
use pensieve_analytics::serving_run::{
    build_bounded_serving_facts, ServingBuild, ServingSources, ServingSteps,
};
use pensieve_analytics::zap_distinct::{IdentityChunk, SketchResult, ZapGroup};
use pensieve_analytics::zap_evidence::ZapDistinctConfig;
use pensieve_analytics::zap_run::{build_bounded_zap_distinct, ZapBuild, ZapSteps};

const BASE: u32 = 1_767_225_600;
const AS_OF: u64 = 1_767_398_399;
const API_MAX: u64 = 4_000_000_000;

/// Runs in memory, by their path.
struct Store {
    files: RefCell<BTreeMap<String, Vec<u8>>>,
    budgets: RefCell<Vec<DiskBudget>>,
}

impl Store {
    fn new() -> Self {
        Store {
            files: RefCell::new(BTreeMap::new()),
            budgets: RefCell::new(Vec::new()),
        }
    }

    fn put(&self, name: &str, bytes: &[u8], rows: u64) -> CompletedRun {
        let path = format!("{name}.run");
        self.files.borrow_mut().insert(path.clone(), bytes.to_vec());
        CompletedRun {
            identity: name.to_owned(),
            path: path.clone(),
            checkpoint_path: format!("{name}.json"),
            checkpoint: RunCheckpoint {
                schema_version: 1,
                runner_version: "runner".to_owned(),
                run: RunIdentity {
                    snapshot_id: "sha256:snapshot".to_owned(),
                    as_of: AS_OF,
                    product: "product".to_owned(),
                    product_version: "v1".to_owned(),
                    key_space: "key".to_owned(),
                },
                inputs: Vec::new(),
                artifact: artifact(&path, bytes, rows),
            },
        }
    }

    fn read(&self, run: &CompletedRun) -> Result<Vec<u8>> {
        match self.files.borrow().get(&run.path) {
            Some(bytes) => Ok(bytes.clone()),
            None => Err(Error::Invalid("run is missing")),
        }
    }

    fn reserve(&self, budget: DiskBudget) -> Result<()> {
        self.budgets.borrow_mut().push(budget);
        Ok(())
    }

    /// Merge runs of distinct records.
    fn merge(
        &self,
        round: u32,
        group: usize,
        runs: &[CompletedRun],
        width: usize,
    ) -> Result<(CompletedRun, usize)> {
        let mut records: Vec<Vec<u8>> = Vec::new();
        for run in runs {
            records.extend(self.read(run)?.chunks(width).map(|record| record.to_vec()));
        }
        records.sort_unstable();
        records.dedup();
        let bytes = records.concat();
        Ok((
            self.put(
                &format!("merge-{round}-{group}"),
                &bytes,
                records.len() as u64,
            ),
            runs.len() * width,
        ))
    }

    /// Merge runs of keys with their least value.
    fn merge_first(
        &self,
        round: u32,
        group: usize,
        runs: &[CompletedRun],
    ) -> Result<(CompletedRun, usize)> {
        let mut least: BTreeMap<Vec<u8>, Vec<u8>> = BTreeMap::new();
        for run in runs {
            for record in self.read(run)?.chunks(40) {
                let value = record[32..].to_vec();
                let held = least.entry(record[..32].to_vec()).or_insert(value.clone());
                if value < *held {
                    *held = value;
                }
            }
        }
        let bytes: Vec<u8> = least
            .iter()
            .flat_map(|(key, value)| [key.clone(), value.clone()].concat())
            .collect();
        Ok((
            self.put(&format!("merge-{round}-{group}"), &bytes, least.len() as u64),
            80,
        ))
    }
}

fn artifact(path: &str, bytes: &[u8], rows: u64) -> ArtifactIdentity {
    ArtifactIdentity {
        path: path.to_owned(),
        byte_size: bytes.len() as u64,
        row_count: rows,
        min_key: None,
        max_key: None,
        sha256: sha256_hex(bytes),
    }
}

fn object(key: &str, row_count: u64) -> CatalogObject {
    CatalogObject {
        object_key: key.to_owned(),
        work_unit_id: format!("w-{key}"),
        sha256: sha256_hex(key.as_bytes()),
        byte_size: 10 * row_count,
        row_count,
        min_created_at: None,
        max_created_at: None,
    }
}

fn snapshot(id: &str, objects: Vec<CatalogObject>) -> ResolvedSnapshot {
    let locations = objects
        .iter()
        .map(|object| ObjectLocation::Local(object.object_key.clone()))
        .collect();
    let physical_rows = objects.iter().map(|object| object.row_count).sum();
    ResolvedSnapshot {
        catalog: CatalogSnapshot {
            snapshot_id: id.to_owned(),
            store_id: "s3+https://example.test/bucket".to_owned(),
            objects,
            physical_rows,
        },
        locations,
        s3_endpoint: None,
        s3_bucket: None,
    }
}

fn limits() -> BatchLimits {
    BatchLimits {
        max_bytes: 1_000,
        max_rows: 1_000,
    }
}

/// One batch for every input.
fn plan(inputs: &Vec<InputIdentity>, _limits: BatchLimits) -> Result<Vec<InputBatch>> {
    Ok(inputs
        .iter()
        .enumerate()
        .map(|(index, input)| InputBatch {
            index,
            inputs: vec![input.clone()],
            byte_size: input.byte_size,
            row_count: input.row_count,
        })
        .collect())
}

fn refused<T>() -> Result<T> {
    Err(Error::Invalid("refused"))
}

#[test]
fn runs_merge_in_groups_of_the_fan_in() {
    let store = Store::new();
    let runs: Vec<CompletedRun> = (0..5_u8)
        .map(|key| store.put(&format!("r{key}"), &[key, key + 1], 2))
        .collect();
    let merge = |round: u32, group: usize, runs: &[CompletedRun]| {
        assert!(runs.len() <= 2);
        store.merge(round, group, runs, 1)
    };
    let outcome = merge_to_single(runs.clone(), 2, 1, true, &merge).unwrap();
    assert_eq!(store.read(&outcome.final_run), Ok(vec![0, 1, 2, 3, 4, 5]));
    assert_eq!(outcome.merge_count, 4);
    assert_eq!(outcome.duplicate_rows, 4);
    assert_eq!(outcome.checkpoints.len(), 4);
    assert_eq!(outcome.max_buffered_bytes, 3);
    let single = merge_to_single(vec![runs[3].clone()], 2, 1, true, &merge).unwrap();
    assert_eq!(single.final_run.identity, "r3");
    assert_eq!(single.merge_count, 0);
    let refuse = |_: u32, _: usize, _: &[CompletedRun]| refused();
    assert_eq!(
        merge_to_single(runs, 2, 1, true, &refuse).err(),
        Some(Error::Invalid("refused"))
    );
}

fn batches(sizes: &[u64]) -> Vec<InputBatch> {
    plan(
        &sizes
            .iter()
            .enumerate()
            .map(|(i, rows)| InputIdentity {
                identity: format!("i{i}"),
                byte_size: 100 - rows,
                row_count: *rows,
                sha256: sha256_hex(b"i"),
            })
            .collect(),
        limits(),
    )
    .unwrap()
}

#[test]
fn every_batch_becomes_a_run() {
    let store = Store::new();
    let ranges = RefCell::new(Vec::new());
    let build = |batch: &InputBatch, start: usize, end: usize| {
        ranges.borrow_mut().push((start, end));
        Ok(BatchRun {
            run: store.put(&format!("b{}", batch.index), &[batch.index as u8], 1),
            physical_rows: 2,
            duplicate_rows: 0,
        })
    };
    let progress = run_batches(Vec::new(), &batches(&[3, 5]), 2, false, &build).unwrap();
    assert_eq!(*ranges.borrow(), vec![(0, 1), (1, 2)]);
    assert_eq!(progress.physical_rows, 4);
    assert_eq!(progress.duplicate_rows, 0);
    assert_eq!(progress.max_batch_bytes, 97);
    assert_eq!(progress.max_batch_rows, 5);
    assert_eq!(progress.checkpoints, ["b0.json", "b1.json"]);
    let derived = run_batches(Vec::new(), &batches(&[3, 5]), 2, true, &build).unwrap();
    assert_eq!(derived.physical_rows, 8);
    assert_eq!(derived.duplicate_rows, 6);
    assert!(run_batches(Vec::new(), &batches(&[3, 5]), 3, false, &build).is_err());
    assert!(run_batches(Vec::new(), &batches(&[3, 5]), 1, false, &build).is_err());
    assert!(run_batches(Vec::new(), &batches(&[3, 0]), 2, true, &build).is_err());
}

#[test]
fn a_build_without_batches_starts_with_the_empty_run() {
    let store = Store::new();
    let build = |_: &InputBatch, _: usize, _: usize| refused();
    let empty = || Ok(store.put("empty", &[], 0));
    let merge = |_: u32, _: usize, _: &[CompletedRun]| refused();
    let reserve = |budget: DiskBudget| store.reserve(budget);
    let steps = BuildSteps {
        plan: &plan,
        reserve: &reserve,
        build: &build,
        empty: &empty,
        merge: &merge,
    };
    let budget = DiskBudget {
        output_bytes: 1,
        temporary_bytes: 0,
        retained_bytes: 0,
        reserve_bytes: 2,
    };
    let settings = || MergeSettings {
        fan_in: 2,
        width: 1,
        reconcile: true,
        derived: false,
    };
    let (progress, merged) =
        build_runs(&steps, budget, Vec::new(), &Vec::new(), 0, settings()).unwrap();
    assert_eq!(merged.final_run.identity, "empty");
    assert!(progress.checkpoints.is_empty());
    assert_eq!(store.budgets.borrow()[0].reserve_bytes, 2);
    let full = |_: DiskBudget| refused();
    let steps = BuildSteps {
        plan: &plan,
        reserve: &full,
        build: &build,
        empty: &empty,
        merge: &merge,
    };
    assert!(build_runs(&steps, budget, Vec::new(), &Vec::new(), 0, settings()).is_err());
}

fn seen(rows: &[(u8, u64)]) -> EncodedRun {
    scan_first_seen(
        &rows
            .iter()
            .map(|(key, first_seen)| ScannedFirstSeen {
                pubkey: vec![*key; 32],
                first_seen: *first_seen,
            })
            .collect(),
    )
    .unwrap()
}

fn delta(target: &CatalogSnapshot, objects: &[CatalogObject]) -> CatalogDeltaPlan {
    plan_from_baseline(
        target,
        Some(Baseline {
            run_id: "r".to_owned(),
            snapshot_id: "sha256:snapshot".to_owned(),
            query_version: "v".to_owned(),
            objects: objects
                .iter()
                .map(|object| AppliedObject {
                    object_key: object.object_key.clone(),
                    work_unit_id: object.work_unit_id.clone(),
                    sha256: object.sha256.clone(),
                    byte_size: object.byte_size,
                    physical_rows: object.row_count,
                    min_created_at: None,
                    max_created_at: None,
                })
                .collect(),
        }),
        "v",
    )
    .unwrap()
}

fn version() -> CheckpointVersion {
    CheckpointVersion {
        schema_version: 1,
        runner_version: "runner".to_owned(),
    }
}

#[test]
fn first_seen_builds_load_and_advance() {
    let store = Store::new();
    let day = u64::from(BASE);
    let rows = |name: &str| match name {
        "a" => seen(&[(1, day + 5), (2, day + 90_000)]),
        "b" => seen(&[(1, day + 4), (3, 100)]),
        _ => seen(&[(2, day + 6), (4, day + 7)]),
    };
    let reserve = |budget: DiskBudget| store.reserve(budget);
    let build = |batch: &InputBatch, _: usize, _: usize| {
        let name = &batch.inputs[0].identity;
        let run = rows(name);
        Ok(BatchRun {
            run: store.put(name, &run.bytes, run.rows),
            physical_rows: 2,
            duplicate_rows: 0,
        })
    };
    let empty = || Ok(store.put("empty", &[], 0));
    let merge =
        |round: u32, group: usize, runs: &[CompletedRun]| store.merge_first(round, group, runs);
    let steps = BuildSteps {
        plan: &plan,
        reserve: &reserve,
        build: &build,
        empty: &empty,
        merge: &merge,
    };
    let read = |run: &CompletedRun| store.read(run);
    let encode = |rows: &Vec<NewUsersDaily>| Ok(format!("{rows:?}").into_bytes());
    let bounds = SeenBounds {
        genesis: 1_000,
        as_of: AS_OF,
    };
    let config = |merge_fan_in: usize| PubkeyFirstSeenConfig {
        work_root: "work".to_owned(),
        batch_limits: limits(),
        merge_fan_in,
        disk_reserve_bytes: 9,
    };
    let files = vec![WorkFile {
        extension: Some("run".to_owned()),
        byte_size: 7,
    }];
    let source = snapshot("sha256:snapshot", vec![object("a", 2), object("b", 2)]);
    let built = |fan_in: usize, max: u64| {
        build_bounded_pubkey_first_seen(
            &source,
            bounds,
            &config(fan_in),
            max,
            &files,
            &steps,
            &read,
            &encode,
        )
    };
    let evidence = built(2, API_MAX).unwrap();
    assert_eq!(evidence.first_seen_records, 3);
    assert_eq!(evidence.eligible_pubkeys, 2);
    assert_eq!(evidence.merge_count, 1);
    assert_eq!(store.budgets.borrow()[0].retained_bytes, 7);
    assert_eq!(store.budgets.borrow()[0].reserve_bytes, 9);
    assert!(built(1, API_MAX).is_err());
    assert!(built(2, AS_OF - 1).is_err());
    let state = store.files.borrow()["merge-0-0.run"].clone();
    let json = format!("{:?}", evidence.new_users_daily).into_bytes();
    let product =
        load_bounded_pubkey_first_seen(evidence, b"evidence", &state, &json, 1_000).unwrap();
    let target = snapshot(
        "sha256:target",
        vec![object("a", 2), object("b", 2), object("c", 2)],
    );
    let plan = delta(&target.catalog, &source.catalog.objects);
    let advance = |locations: usize| {
        advance_bounded_pubkey_first_seen(
            &product,
            &SeenState {
                state: &state,
                metric_json: &json,
            },
            version(),
            &target,
            &plan,
            locations,
            bounds,
            &config(2),
            API_MAX,
            &files,
            &steps,
            &read,
            &encode,
        )
    };
    let later = advance(1).unwrap();
    assert_eq!(later.first_seen_records, 4);
    assert_eq!(later.delta_object_count, 1);
    assert_eq!(
        later.baseline_evidence_sha256,
        Some(sha256_hex(b"evidence"))
    );
    assert!(advance(2).is_err());
}

fn facts(rows: &[(u8, u32, u16, u8)]) -> EncodedRun {
    scan_activity(
        &rows
            .iter()
            .map(|(pubkey, created_at, kind, id)| ScannedActivity {
                pubkey: vec![*pubkey; 32],
                created_at: *created_at,
                kind: *kind,
                id: vec![*id; 32],
            })
            .collect(),
    )
    .unwrap()
}

#[test]
fn activity_builds_load_advance_and_become_leaves() {
    let store = Store::new();
    let rows = |name: &str| match name {
        "a" => facts(&[(1, BASE + 10, 1, 1), (1, BASE + 20, 0, 2), (2, BASE + 30, 3, 4)]),
        "b" => facts(&[(1, BASE + 10, 1, 1), (3, BASE + 3_601, 1_059, 6)]),
        _ => facts(&[(4, BASE + 40, 1, 7)]),
    };
    let reserve = |budget: DiskBudget| store.reserve(budget);
    let build = |batch: &InputBatch, _: usize, _: usize| {
        let name = &batch.inputs[0].identity;
        let run = rows(name);
        Ok(BatchRun {
            run: store.put(name, &run.bytes, run.rows),
            physical_rows: run.rows,
            duplicate_rows: 0,
        })
    };
    let empty = || Ok(store.put("empty", &[], 0));
    let merge =
        |round: u32, group: usize, runs: &[CompletedRun]| store.merge(round, group, runs, 70);
    let steps = BuildSteps {
        plan: &plan,
        reserve: &reserve,
        build: &build,
        empty: &empty,
        merge: &merge,
    };
    let read = |run: &CompletedRun| store.read(run);
    let keep = |run: &EncodedRun| {
        let stored = store.put("flags", &run.bytes, run.rows);
        Ok((stored.checkpoint.artifact, run.bytes.clone()))
    };
    let encode = |_: &FinalizedActivity| Ok(b"tables".to_vec());
    let tail = ActivitySteps {
        read: &read,
        store: &keep,
        encode: &encode,
    };
    let config = |merge_fan_in: usize| FixedActivityConfig {
        work_root: "work".to_owned(),
        batch_limits: limits(),
        merge_fan_in,
        disk_reserve_bytes: 9,
    };
    let source = snapshot("sha256:snapshot", vec![object("a", 3), object("b", 2)]);
    let built = |fan_in: usize| {
        build_bounded_fixed_activity(
            &source,
            AS_OF,
            &config(fan_in),
            API_MAX,
            &Vec::new(),
            &steps,
            &tail,
        )
    };
    assert!(built(1).is_err());
    let evidence = built(2).unwrap();
    assert_eq!(evidence.activity_artifact.row_count, 4);
    assert_eq!(evidence.merge_count, 1);
    let activity = store.files.borrow()["merge-0-0.run"].clone();
    let flags = store.files.borrow()["flags.run"].clone();
    assert!(has_full_weeks(&activity, AS_OF));
    let product =
        load_bounded_fixed_activity(evidence, b"evidence", &activity, &flags, b"tables").unwrap();
    let state = ActivityState {
        activity: &activity,
        flags: &flags,
        metric_json: b"tables",
    };
    let target = snapshot(
        "sha256:target",
        vec![object("a", 3), object("b", 2), object("c", 1)],
    );
    let delta_plan = delta(&target.catalog, &source.catalog.objects);
    let advance = |max: u64| {
        advance_bounded_fixed_activity(
            &product,
            &state,
            version(),
            &target,
            &delta_plan,
            1,
            AS_OF,
            &config(2),
            max,
            &Vec::new(),
            &steps,
            &tail,
        )
    };
    assert!(advance(AS_OF - 1).is_err());
    let later = advance(API_MAX).unwrap();
    assert_eq!(later.activity_artifact.row_count, 5);
    assert_eq!(later.delta_object_count, 1);
    assert_eq!(
        later.baseline_evidence_sha256,
        Some(sha256_hex(b"evidence"))
    );

    let find = |number: usize, _: SourceChunk| {
        if number == 0 {
            Ok(None)
        } else {
            let path = format!("chunk-{number}.run");
            let bytes = store.files.borrow().get(&path).cloned();
            Ok(bytes.map(|bytes| {
                store.put(&format!("chunk-{number}"), &bytes, bytes.len() as u64 / 38)
            }))
        }
    };
    let chunk = |number: usize, run: &EncodedRun| {
        Ok(store.put(&format!("chunk-{number}"), &run.bytes, run.rows))
    };
    let merge_hours =
        |round: u32, group: usize, runs: &[CompletedRun]| store.merge(round, group, runs, 38);
    let sketch = |groups: &Vec<LeafGroup>, bytes: &Vec<u8>| {
        Ok(groups
            .iter()
            .map(|group| vec![bytes[group.start * 38 + 6]])
            .collect())
    };
    let leaves = |run: &EncodedRun| {
        Ok((
            artifact("leaves.run", &run.bytes, run.rows),
            "leaves.json".to_owned(),
        ))
    };
    let flexible_steps = FlexibleSteps {
        reserve: &reserve,
        find: &find,
        store: &chunk,
        empty: &empty,
        merge: &merge_hours,
        read: &read,
        sketch: &sketch,
        store_leaves: &leaves,
    };
    let flexible = |source_records_per_batch: u64| {
        build_bounded_flexible_distinct(
            &FlexibleBuild {
                activity: &product,
                config: &FlexibleDistinctConfig {
                    work_root: "work".to_owned(),
                    source_records_per_batch,
                    merge_fan_in: 2,
                    disk_reserve_bytes: 9,
                },
            },
            &state,
            &Vec::new(),
            &flexible_steps,
        )
    };
    assert!(flexible(0).is_err());
    let evidence = flexible(3).unwrap();
    assert_eq!(evidence.source_activity_rows, 4);
    assert_eq!(evidence.batch_count, 2);
    assert_eq!(evidence.merge_count, 1);
    assert_eq!(
        evidence.batch_checkpoints,
        ["chunk-0.json", "chunk-1.json"]
    );
    assert_eq!(evidence.leaf_artifact.path, "leaves.run");
    assert_eq!(evidence.activity_evidence_sha256, sha256_hex(b"evidence"));
    assert_eq!(flexible(3).unwrap().leaf_artifact, evidence.leaf_artifact);
}

fn note(created_at: u64) -> SemanticRecord {
    SemanticRecord {
        created_at,
        payload: SemanticPayload::OriginalNote,
    }
}

fn zap(created_at: u64, sender: u8, recipient: u8) -> SemanticRecord {
    SemanticRecord {
        created_at,
        payload: SemanticPayload::Zap {
            amount_msats: 2_000,
            sender_pubkey: Some([sender; 32]),
            recipient_pubkey: Some([recipient; 32]),
        },
    }
}

#[test]
fn semantic_builds_become_participants() {
    let store = Store::new();
    let reserve = |budget: DiskBudget| store.reserve(budget);
    let build = |batch: &InputBatch, _: usize, _: usize| {
        let key = batch.index as u8;
        let bytes = [vec![key; 115], vec![key + 1; 115]].concat();
        Ok(BatchRun {
            run: store.put(&batch.inputs[0].identity, &bytes, 2),
            physical_rows: 2,
            duplicate_rows: 0,
        })
    };
    let empty = || Ok(store.put("empty", &[], 0));
    let merge =
        |round: u32, group: usize, runs: &[CompletedRun]| store.merge(round, group, runs, 115);
    let steps = BuildSteps {
        plan: &plan,
        reserve: &reserve,
        build: &build,
        empty: &empty,
        merge: &merge,
    };
    let records = vec![zap(90_000, 2, 1), zap(90_001, 2, 3), note(180_001)];
    let read = |run: &CompletedRun| {
        assert_eq!(store.read(run).unwrap().len(), 3 * 115);
        Ok(records.clone())
    };
    let encode = |_: &SemanticRollups| Ok(b"rollups".to_vec());
    let config = |merge_fan_in: usize| SemanticFactsConfig {
        work_root: "work".to_owned(),
        batch_limits: limits(),
        merge_fan_in,
        disk_reserve_bytes: 9,
    };
    let source = snapshot("sha256:snapshot", vec![object("a", 2), object("b", 2)]);
    let facts = build_bounded_semantic_facts(&source, AS_OF, &config(2), &steps, &read, &encode);
    let evidence = facts.unwrap();
    assert_eq!(evidence.logical_relevant_events, 3);
    assert_eq!(evidence.duplicate_relevant_rows, 1);
    assert_eq!(store.budgets.borrow()[0].reserve_bytes, 9);
    assert!(
        build_bounded_semantic_facts(&source, AS_OF, &config(1), &steps, &read, &encode).is_err()
    );
    let hollow = snapshot("sha256:snapshot", vec![object("a", 0)]);
    assert!(
        build_bounded_semantic_facts(&hollow, AS_OF, &config(2), &steps, &read, &encode).is_err()
    );
    let few = |_: &CompletedRun| Ok(vec![note(180_001)]);
    assert!(
        build_bounded_semantic_facts(&source, AS_OF, &config(2), &steps, &few, &encode).is_err()
    );

    let semantic = BoundedSemanticFacts {
        artifact_path: "merge-0-0.run".to_owned(),
        evidence,
        evidence_sha256: sha256_hex(b"semantic"),
    };
    let publish = |number: usize, chunk: &IdentityChunk| {
        Ok(store.put(&format!("chunk-{number}"), &chunk.run.bytes, chunk.run.rows))
    };
    let lossy = |number: usize, chunk: &IdentityChunk| {
        Ok(store.put(
            &format!("chunk-{number}"),
            &chunk.run.bytes,
            chunk.run.rows + 1,
        ))
    };
    let merge_identities =
        |round: u32, group: usize, runs: &[CompletedRun]| store.merge(round, group, runs, 41);
    let bytes = |run: &CompletedRun| store.read(run);
    let sketch = |groups: &Vec<ZapGroup>, _: &Vec<u8>| {
        Ok(groups
            .iter()
            .map(|group| SketchResult {
                estimate: group.exact_identities,
                sketch: vec![1, 2],
            })
            .collect())
    };
    let zap_config = |chunk_records: usize| ZapDistinctConfig {
        work_root: "work".to_owned(),
        chunk_records,
        merge_fan_in: 2,
        disk_reserve_bytes: 9,
    };
    let zap_steps = ZapSteps {
        reserve: &reserve,
        publish: &publish,
        empty: &empty,
        merge: &merge_identities,
        read: &bytes,
        sketch: &sketch,
    };
    let config = zap_config(2);
    let zaps = ZapBuild {
        semantic: &semantic,
        config: &config,
        sketch_lg_k: 12,
    };
    let evidence = build_bounded_zap_distinct(&zaps, &records, &Vec::new(), &zap_steps).unwrap();
    assert_eq!(evidence.physical_identities, 4);
    assert_eq!(evidence.logical_identities, 3);
    assert_eq!(evidence.duplicate_identities, 1);
    assert_eq!(evidence.chunk_count, 2);
    assert_eq!(evidence.semantic_evidence_sha256, sha256_hex(b"semantic"));
    let lossy_steps = ZapSteps {
        reserve: &reserve,
        publish: &lossy,
        empty: &empty,
        merge: &merge_identities,
        read: &bytes,
        sketch: &sketch,
    };
    assert!(build_bounded_zap_distinct(&zaps, &records, &Vec::new(), &lossy_steps).is_err());
    let narrow = zap_config(0);
    assert!(build_bounded_zap_distinct(
        &ZapBuild {
            semantic: &semantic,
            config: &narrow,
            sketch_lg_k: 12,
        },
        &records,
        &Vec::new(),
        &zap_steps
    )
    .is_err());
}

#[test]
fn serving_builds_load_again() {
    let store = Store::new();
    let as_of = 20_000_u64;
    let bounds = TimestampBounds {
        genesis: 3_600,
        api_max: 1_000_000,
    };
    let mut events = Vec::new();
    let mut activity = Vec::new();
    for (id, created_at) in [(1_u8, 7_300_u64), (2, 19_000)] {
        events.extend(
            EventFact {
                id: [id; 32],
                created_at,
                kind: 1,
            }
            .encode(),
        );
        activity.extend_from_slice(&[9; 32]);
        activity.extend_from_slice(&(created_at as u32).to_be_bytes());
        activity.extend_from_slice(&1_u16.to_be_bytes());
        activity.extend_from_slice(&[id; 32]);
    }
    let source = |evidence: &[u8], artifact: ArtifactIdentity| ServingSource {
        snapshot_id: "sha256:snapshot".to_owned(),
        as_of_epoch: as_of,
        evidence_sha256: sha256_hex(evidence),
        artifact,
        logical_events: 2,
    };
    let event_source = source(b"events", artifact("events.run", &events, 2));
    let activity_source = source(b"activity", artifact("activity.run", &activity, 2));
    let sources = ServingSources {
        events: &event_source,
        event_bytes: &events,
        activity: &activity_source,
        activity_bytes: &activity,
    };
    let reserve = |budget: DiskBudget| store.reserve(budget);
    let content = |id: u8| {
        ContentFact {
            id: [id; 32],
            content_bytes: 3,
        }
        .encode()
        .to_vec()
    };
    let build = |batch: &InputBatch, _: usize, _: usize| {
        let name = &batch.inputs[0].identity;
        let bytes = if name == "a" {
            content(1)
        } else {
            [content(1), content(2)].concat()
        };
        Ok(BatchRun {
            run: store.put(name, &bytes, if name == "a" { 1 } else { 2 }),
            physical_rows: 0,
            duplicate_rows: 0,
        })
    };
    let empty = || Ok(store.put("empty", &[], 0));
    let width = content(1).len();
    let merge =
        |round: u32, group: usize, runs: &[CompletedRun]| store.merge(round, group, runs, width);
    let steps = BuildSteps {
        plan: &plan,
        reserve: &reserve,
        build: &build,
        empty: &empty,
        merge: &merge,
    };
    let read = |run: &CompletedRun| store.read(run);
    let hourly = |run: &EncodedRun| {
        Ok(store
            .put("hourly", &run.bytes, run.rows)
            .checkpoint
            .artifact)
    };
    let kinds = |run: &EncodedRun| {
        Ok(store
            .put("kinds", &run.bytes, run.rows)
            .checkpoint
            .artifact)
    };
    let encode = |_: &ServingFactsEvidence| Ok(b"serving".to_vec());
    let tail = ServingSteps {
        read: &read,
        store_hourly: &hourly,
        store_kinds: &kinds,
        encode: &encode,
    };
    let lake = snapshot("sha256:snapshot", vec![object("a", 2), object("b", 2)]);
    let config = ServingFactsConfig {
        work_root: "work".to_owned(),
        batch_limits: limits(),
        merge_fan_in: 2,
        disk_reserve_bytes: 9,
    };
    let serving = |as_of_epoch: u64| {
        build_bounded_serving_facts(
            &ServingBuild {
                snapshot: &lake,
                as_of_epoch,
                config: &config,
                bounds,
            },
            &sources,
            &steps,
            &tail,
        )
    };
    let product = serving(as_of).unwrap();
    assert_eq!(product.evidence_sha256, sha256_hex(b"serving"));
    assert_eq!(product.evidence.complete_hour_events, 1);
    assert_eq!(product.evidence.eligible_kind_events, 2);
    assert_eq!(product.evidence.batch_count, 2);
    let files = store.files.borrow().clone();
    assert!(load_bounded_serving_facts(
        product.evidence.clone(),
        b"serving",
        &ServingArtifacts {
            events: &events,
            content: &files["merge-0-0.run"],
            hourly: &files["hourly.run"],
            kinds: &files["kinds.run"],
            activity: &activity,
        },
        bounds,
    )
    .is_ok());
    assert!(serving(as_of - 1).is_err());
}
