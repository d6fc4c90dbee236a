use pensieve_analytics::artifact::{
    ArtifactIdentity, InputBatch, InputIdentity, MergeStats, RunCheckpoint, RunIdentity,
};
use pensieve_analytics::batches::{reconcile_duplicates, BatchProgress};
use pensieve_analytics::disk::{completed_run_bytes, run_budget, WorkFile};
use pensieve_analytics::error::Error;
use pensieve_analytics::input_index::list_pending;
use pensieve_analytics::merge::{
    estimate_merge_bytes, merge_generations, validate_merge, CompletedRun, MergeState, MergeStep,
};
use pensieve_analytics::runs::{
    batch_stem, digest_input, digest_parts, empty_input, merge_stem, merged_key, named_input,
    stage_identity,
};
use pensieve_analytics::digest::sha256_hex;

fn run(name: &str, rows: u64) -> CompletedRun {
    CompletedRun {
        identity: name.to_owned(),
        path: format!("{name}.run"),
        checkpoint_path: format!("{name}.json"),
        checkpoint: RunCheckpoint {
            schema_version: 1,
            runner_version: "runner".to_owned(),
            run: RunIdentity {
                snapshot_id: "sha256:snapshot".to_owned(),
                as_of: 1,
                product: "product-batch".to_owned(),
                product_version: "v1".to_owned(),
                key_space: "key".to_owned(),
            },
            inputs: Vec::new(),
            artifact: ArtifactIdentity {
                path: format!("{name}.run"),
                byte_size: rows * 10,
                row_count: rows,
                min_key: Some(format!("{name}0")),
                max_key: Some(format!("{name}9")),
                sha256: sha256_hex(name.as_bytes()),
            },
        },
    }
}

fn input(name: &str) -> InputIdentity {
    InputIdentity {
        identity: name.to_owned(),
        byte_size: 10,
        row_count: 4,
        sha256: "aa".repeat(32),
    }
}

#[test]
fn merges_keep_every_row_or_count_it_as_duplicate() {
    let runs: Vec<CompletedRun> = ["a", "b", "c", "d", "e"]
        .iter()
        .map(|name| run(name, 10))
        .collect();
    let mut state = MergeState::new(runs, 2, 10);
    let mut merges = 0;
    loop {
        match state.next_step() {
            MergeStep::Done => break,
            MergeStep::Merge { start, end, .. } => {
                assert_eq!(end - start, 2);
                merges += 1;
                state
                    .complete(run(&format!("m{merges}"), merged_rows(merges)), 30, true)
                    .unwrap();
            }
        }
    }
    let outcome = state.finish();
    assert_eq!(outcome.merge_count, 4);
    assert_eq!(outcome.checkpoints.len(), 4);
    assert_eq!(
        outcome.final_run.checkpoint.artifact.row_count + outcome.duplicate_rows,
        50
    );
    assert_eq!(outcome.max_buffered_bytes, 30);
}

/// Rows of each merge, one less than its inputs hold.
fn merged_rows(merge: u64) -> u64 {
    match merge {
        1 | 2 => 19,
        3 => 37,
        _ => 46,
    }
}

#[test]
fn a_merge_that_gains_rows_is_refused() {
    let mut state = MergeState::new(vec![run("a", 1), run("b", 1)], 2, 10);
    assert!(matches!(state.next_step(), MergeStep::Merge { .. }));
    assert!(state.complete(run("m", 3), 0, true).is_err());
}

#[test]
fn merge_statistics_account_for_their_inputs() {
    let runs = vec![run("a", 3), run("b", 4)];
    let stats = |output_records: u64, duplicate_records: u64| MergeStats {
        input_records: 7,
        output_records,
        duplicate_records,
        peak_buffered_bytes: 0,
    };
    assert_eq!(validate_merge(&runs, 0, 2, stats(6, 1)), Ok(()));
    assert!(validate_merge(&runs, 0, 2, stats(6, 2)).is_err());
    assert!(validate_merge(&runs, 0, 1, stats(6, 1)).is_err());
}

#[test]
fn generations_shrink_by_the_fan_in() {
    assert_eq!(merge_generations(1, 2), 1);
    assert_eq!(merge_generations(2, 2), 2);
    assert_eq!(merge_generations(5, 2), 4);
    assert_eq!(merge_generations(5, 5), 2);
    assert_eq!(estimate_merge_bytes(3, 10, 5, 2, "bytes"), Ok(120));
    assert_eq!(
        estimate_merge_bytes(u64::MAX, 2, 1, 2, "bytes"),
        Err(Error::Invalid("bytes"))
    );
}

#[test]
fn batches_consume_every_location() {
    let mut progress = BatchProgress::new(Vec::new());
    let batch = InputBatch {
        index: 0,
        inputs: vec![input("a"), input("b")],
        byte_size: 20,
        row_count: 8,
    };
    assert!(progress.batch_end(&batch, 1).is_err());
    let end = progress.batch_end(&batch, 2).unwrap();
    progress.accept(&batch, end, run("r", 7), 8, 1).unwrap();
    assert_eq!(progress.physical_rows, 8);
    assert_eq!(progress.duplicate_rows, 1);
    assert_eq!(progress.max_batch_bytes, 20);
    assert_eq!(progress.checkpoints, vec!["r.json".to_owned()]);
    assert_eq!(progress.check_complete(2), Ok(()));
    assert!(progress.check_complete(3).is_err());
}

#[test]
fn duplicates_are_those_of_batches_and_merges() {
    assert_eq!(reconcile_duplicates(10, 7, 1, 2), Ok(3));
    assert!(reconcile_duplicates(10, 7, 1, 1).is_err());
    assert!(reconcile_duplicates(7, 10, 0, 0).is_err());
}

#[test]
fn pending_inputs_are_those_not_applied() {
    assert_eq!(
        list_pending(
            &vec![input("a"), input("b"), input("c")],
            &vec![input("b")]
        ),
        vec![0, 2]
    );
}

#[test]
fn runs_are_named_by_their_place_and_digest() {
    assert_eq!(batch_stem(7), "batch-00000007");
    assert_eq!(
        merge_stem(2, 3, "0123456789abcdef0123"),
        "merge-0002-00000003-0123456789abcdef"
    );
    let run = run("a", 4);
    assert_eq!(named_input(&run).identity, "a");
    assert_eq!(
        digest_input(&run).identity,
        format!("sha256:{}", sha256_hex(b"a"))
    );
    assert_eq!(
        empty_input("sha256:ff").unwrap().identity,
        "catalog:sha256:ff"
    );
    assert!(empty_input("ff").is_err());
    assert_eq!(
        stage_identity("s", 1, "product", "merge", "v1", "key").product,
        "product-merge"
    );
    assert_eq!(
        digest_parts("prefix", &["run", "evidence"]),
        sha256_hex(b"prefix\0run\0evidence")
    );
}

#[test]
fn merged_keys_are_the_outermost() {
    let runs = vec![run("b", 1), run("a", 1), run("c", 1)];
    assert_eq!(merged_key(&runs, 0, 3, false).as_deref(), Some("a0"));
    assert_eq!(merged_key(&runs, 0, 3, true).as_deref(), Some("c9"));
    assert_eq!(merged_key(&runs, 0, 1, true).as_deref(), Some("b9"));
}

#[test]
fn budgets_count_the_runs_that_are_kept() {
    let file = |extension: Option<&str>, byte_size: u64| WorkFile {
        extension: extension.map(|text| text.to_owned()),
        byte_size,
    };
    let files = vec![
        file(Some("run"), 10),
        file(Some("leaves"), 5),
        file(Some("json"), 7),
        file(None, 9),
        file(Some("run"), 1),
    ];
    assert_eq!(completed_run_bytes(&files, false), Ok(11));
    assert_eq!(completed_run_bytes(&files, true), Ok(16));
    assert_eq!(
        completed_run_bytes(&vec![file(Some("run"), u64::MAX), file(Some("run"), 1)], true),
        Err(Error::Invalid("completed run bytes overflowed"))
    );
    let budget = run_budget(20, 11, 3);
    assert_eq!(budget.output_bytes, 9);
    assert_eq!(budget.retained_bytes, 11);
    assert_eq!(run_budget(10, 11, 3).output_bytes, 0);
}
