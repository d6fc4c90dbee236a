use pensieve_analytics::artifact::{ArtifactIdentity, BatchLimits, InputIdentity};
use pensieve_analytics::digest::sha256_hex;
use pensieve_analytics::first_seen_build::{
    empty_input, estimate_run_bytes, merge_identity, run_identity, scan_first_seen,
    validate_config, PubkeyFirstSeenConfig, ScannedFirstSeen,
};
use pensieve_analytics::input::{CatalogSnapshot, ResolvedSnapshot};
use pensieve_analytics::pubkey_first_seen::{finalize, NewUsersDaily, SeenBounds};

fn seen(pubkey: u8, first_seen: u64) -> ScannedFirstSeen {
    ScannedFirstSeen {
        pubkey: vec![pubkey; 32],
        first_seen,
    }
}

fn artifact(bytes: &[u8], rows: u64) -> ArtifactIdentity {
    ArtifactIdentity {
        path: "first-seen.run".to_owned(),
        byte_size: bytes.len() as u64,
        row_count: rows,
        min_key: None,
        max_key: None,
        sha256: sha256_hex(bytes),
    }
}

#[test]
fn new_users_are_counted_on_their_first_day() {
    let run = scan_first_seen(&vec![
        seen(1, 86_400),
        seen(2, 86_401),
        seen(3, 172_800),
        seen(4, 10),
        seen(5, 1_000_000),
    ])
    .unwrap();
    assert_eq!(run.rows, 5);
    assert_eq!(run.bytes.len(), 200);
    let (eligible, rows) = finalize(
        &run.bytes,
        &artifact(&run.bytes, 5),
        SeenBounds {
            genesis: 86_400,
            as_of: 200_000,
        },
    )
    .unwrap();
    assert_eq!(eligible, 3);
    assert_eq!(
        rows,
        vec![
            NewUsersDaily {
                day: "1970-01-02".to_owned(),
                new_pubkeys: 2,
            },
            NewUsersDaily {
                day: "1970-01-03".to_owned(),
                new_pubkeys: 1,
            },
        ]
    );
    assert_eq!(
        rows.iter().map(|row| row.new_pubkeys).sum::<u64>(),
        eligible
    );
}

#[test]
fn first_seen_state_is_sorted_and_whole() {
    assert!(scan_first_seen(&vec![seen(2, 1), seen(1, 1)]).is_err());
    assert!(scan_first_seen(&vec![seen(1, 1), seen(1, 2)]).is_err());
    let run = scan_first_seen(&vec![seen(1, 86_400)]).unwrap();
    let bounds = SeenBounds {
        genesis: 0,
        as_of: 100_000,
    };
    assert!(finalize(&run.bytes, &artifact(&run.bytes, 2), bounds).is_err());
    assert!(finalize(&run.bytes[..39], &artifact(&run.bytes[..39], 1), bounds).is_err());
}

#[test]
fn builds_need_a_merge_and_a_representable_boundary() {
    let snapshot = ResolvedSnapshot {
        catalog: CatalogSnapshot {
            snapshot_id: "sha256:snapshot".to_owned(),
            store_id: "s3+https://example.test/bucket".to_owned(),
            objects: Vec::new(),
            physical_rows: 0,
        },
        locations: Vec::new(),
        s3_endpoint: None,
        s3_bucket: None,
    };
    let config = |merge_fan_in: usize| PubkeyFirstSeenConfig {
        work_root: "work".to_owned(),
        batch_limits: BatchLimits {
            max_bytes: 1,
            max_rows: 1,
        },
        merge_fan_in,
        disk_reserve_bytes: 0,
    };
    assert_eq!(validate_config(&snapshot, 10, &config(2), 10), Ok(()));
    assert!(validate_config(&snapshot, 10, &config(1), 10).is_err());
    assert!(validate_config(&snapshot, 11, &config(2), 10).is_err());
}

#[test]
fn an_empty_catalog_is_named_by_its_snapshot() {
    let digest = "ab".repeat(32);
    let input = empty_input(&format!("sha256:{digest}")).unwrap();
    assert_eq!(input.sha256, digest);
    assert_eq!(input.byte_size, 0);
    assert_eq!(input.row_count, 0);
    assert!(empty_input("snapshot").is_err());
    assert_eq!(run_identity("sha256:x", 7, "batch").as_of, 7);
}

#[test]
fn merge_identities_cover_every_input() {
    let input = |name: &str| InputIdentity {
        identity: name.to_owned(),
        byte_size: 1,
        row_count: 2,
        sha256: "aa".repeat(32),
    };
    let one = merge_identity(&vec![input("a"), input("b")]);
    assert_eq!(one.len(), 64);
    assert_ne!(one, merge_identity(&vec![input("b"), input("a")]));
    assert_ne!(one, merge_identity(&vec![input("a")]));
}

#[test]
fn run_bytes_grow_with_every_generation() {
    assert_eq!(estimate_run_bytes(10, 1, 2), Ok(400));
    assert_eq!(estimate_run_bytes(10, 4, 2), Ok(1_200));
    assert_eq!(estimate_run_bytes(10, 4, 4), Ok(800));
    assert!(estimate_run_bytes(u64::MAX, 1, 2).is_err());
}
