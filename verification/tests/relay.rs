use std::cell::{Cell, RefCell};

use pensieve_analytics::artifact::{BatchLimits, InputIdentity};
use pensieve_analytics::digest::sha256_hex;
use pensieve_analytics::error::Error;
use pensieve_analytics::relay_build::{
    admit_event, applied_input, check_duplicate, complete_relay_distribution, count_tags,
    decode_tags, enforce_state_size, load_bounded_relay_distribution, no_stats, physical_totals,
    state_limits, state_totals, validate_advance, validate_applied_inputs, validate_inputs_present,
    BoundedRelayDistribution, PhysicalTotals, RelayDistributionConfig, RelayState,
    ScannedRelayEvent,
};
use pensieve_analytics::relay_distribution::{
    relay_list_wins, relay_memberships, RelayDistributionRow, RelayListIdentity, RelayMembership,
};
use pensieve_analytics::ledger::{
    Ledger, LedgerReply, LedgerRequest, LedgerRun, SideProduct, SideRow, SideStored, SideTable,
};
use pensieve_analytics::publish_relay::{publish_relay_distribution, StoredRelays};
use pensieve_analytics::relay_publish::{
    csv_field, query_limit, reconcile_metadata, reconcile_rows, relay_line,
    relay_product_id, relay_product_row, validate_relay_distribution_publication, PublishedRelay,
    RelayColumns, RelayDistributionPublishOutcome,
};
use pensieve_analytics::relay_rows::{materialize_rows, RelayCandidate};

fn tag(values: &[&str]) -> Vec<String> {
    values.iter().map(|value| (*value).to_owned()).collect()
}

fn urls(values: &[Option<&str>]) -> Vec<Option<String>> {
    values
        .iter()
        .map(|value| value.map(|url| url.to_owned()))
        .collect()
}

fn membership(relay_url: &str, read: bool, write: bool) -> RelayMembership {
    RelayMembership {
        relay_url: relay_url.to_owned(),
        read,
        write,
    }
}

fn row(relay_url: &str, user_count: u64, read_count: u64, write_count: u64) -> RelayDistributionRow {
    RelayDistributionRow {
        relay_url: relay_url.to_owned(),
        user_count,
        read_count,
        write_count,
    }
}

#[test]
fn latest_identity_uses_event_id_for_equal_timestamps() {
    let lower = RelayListIdentity {
        created_at: 100,
        event_id: [1; 32],
    };
    let higher = RelayListIdentity {
        created_at: 100,
        event_id: [2; 32],
    };
    let later = RelayListIdentity {
        created_at: 101,
        event_id: [0; 32],
    };
    assert!(relay_list_wins(higher, lower));
    assert!(relay_list_wins(later, higher));
    assert!(!relay_list_wins(lower, higher));
}

#[test]
fn markers_expand_and_duplicate_urls_union_without_double_membership() {
    let memberships = relay_memberships(
        &[
            tag(&["r", "wss://Relay.Example.com/", "read"]),
            tag(&["r", "wss://relay.example.com:443", "write"]),
            tag(&["r", "wss://unknown.example", "other"]),
            tag(&["r", "wss://both.example"]),
            tag(&["p", "wss://ignored.example"]),
            tag(&["r", "ws://insecure.example"]),
        ],
        &urls(&[
            Some("wss://relay.example.com"),
            Some("wss://relay.example.com"),
            Some("wss://unknown.example"),
            Some("wss://both.example"),
            Some("wss://ignored.example"),
            None,
        ]),
    );
    assert_eq!(
        memberships,
        vec![
            membership("wss://both.example", true, true),
            membership("wss://relay.example.com", true, true),
            membership("wss://unknown.example", false, false),
        ]
    );
}

#[test]
fn first_two_tag_positions_are_exact_and_case_sensitive() {
    assert!(relay_memberships(
        &[tag(&["R", "wss://relay.example"])],
        &urls(&[Some("wss://relay.example")])
    )
    .is_empty());
    assert_eq!(
        relay_memberships(
            &[tag(&["r", "wss://relay.example", "READ"])],
            &urls(&[Some("wss://relay.example")])
        ),
        vec![membership("wss://relay.example", false, false)]
    );
}

fn candidate(
    event: u8,
    pubkey: u8,
    created_at: u64,
    memberships: Vec<RelayMembership>,
) -> RelayCandidate {
    RelayCandidate {
        event_id: [event; 32],
        pubkey: [pubkey; 32],
        created_at,
        memberships,
    }
}

fn candidates() -> Vec<RelayCandidate> {
    vec![
        candidate(1, 1, 100, vec![membership("wss://old.example", true, true)]),
        candidate(
            2,
            1,
            100,
            vec![membership("wss://shared.example", true, false)],
        ),
        candidate(
            3,
            1,
            300,
            vec![membership("wss://future.example", true, true)],
        ),
        candidate(
            4,
            2,
            100,
            vec![membership("wss://shared.example", false, true)],
        ),
    ]
}

#[test]
fn materialization_selects_one_deterministic_winner_per_pubkey() {
    assert_eq!(
        materialize_rows(&candidates(), 200, 2).expect("materialize"),
        vec![row("wss://shared.example", 2, 1, 1)]
    );
}

#[test]
fn rows_are_ordered_by_users_and_then_by_url() {
    let lists = vec![
        candidate(
            1,
            1,
            10,
            vec![
                membership("wss://b.example", true, true),
                membership("wss://a.example", true, false),
            ],
        ),
        candidate(2, 2, 10, vec![membership("wss://c.example", true, true)]),
        candidate(3, 3, 10, vec![membership("wss://c.example", false, true)]),
    ];
    assert_eq!(
        materialize_rows(&lists, 10, 1).unwrap(),
        vec![
            row("wss://c.example", 2, 1, 2),
            row("wss://a.example", 1, 1, 0),
            row("wss://b.example", 1, 1, 1),
        ]
    );
}

#[test]
fn csv_quotes_urls() {
    assert_eq!(
        csv_field("wss://relay.example/a,b"),
        "\"wss://relay.example/a,b\""
    );
}

#[test]
fn csv_doubles_quotes_and_lines_hold_every_count() {
    assert_eq!(csv_field("a\"b"), "\"a\"\"b\"");
    assert_eq!(csv_field(""), "\"\"");
    assert_eq!(
        relay_line("p1", &row("wss://a", 3, 2, 1)),
        "p1,\"wss://a\",3,2,1\n"
    );
}

#[test]
fn tags_are_lists_of_texts() {
    assert_eq!(
        decode_tags("[[\"r\",\"wss://a\"],[]]").unwrap(),
        vec![tag(&["r", "wss://a"]), Vec::new()]
    );
    assert!(matches!(decode_tags("[[1]]"), Err(Error::Invalid(_))));
    assert!(matches!(decode_tags("nothing"), Err(Error::Invalid(_))));
}

#[test]
fn only_relay_lists_are_admitted() {
    let mut stats = no_stats();
    let mut event = ScannedRelayEvent {
        event_id: vec![1; 32],
        pubkey: vec![2; 32],
        created_at: 7,
        kind: 10_002,
    };
    let key = admit_event(&mut stats, &event).unwrap().unwrap();
    assert_eq!(key.event_id, [1; 32]);
    assert_eq!(key.pubkey, [2; 32]);
    assert_eq!(key.created_at, 7);
    assert_eq!(stats.physical_relay_events, 1);
    assert_eq!(check_duplicate(&key, &[2; 32], 7), Ok(()));
    assert!(check_duplicate(&key, &[3; 32], 7).is_err());
    assert!(check_duplicate(&key, &[2; 32], 8).is_err());
    event.event_id = vec![1; 31];
    assert!(admit_event(&mut stats, &event).is_err());
    event.kind = 1;
    assert_eq!(admit_event(&mut stats, &event), Ok(None));
    assert_eq!(stats.physical_relay_events, 2);
}

#[test]
fn tag_counts_tell_invalid_and_repeated_relays() {
    let mut stats = no_stats();
    let memberships = count_tags(
        &mut stats,
        &vec![
            tag(&["r", "wss://a"]),
            tag(&["r", "wss://A"]),
            tag(&["r", "bad"]),
            tag(&["p", "wss://a"]),
        ],
        &urls(&[Some("wss://a"), Some("wss://a"), None, Some("wss://a")]),
    )
    .unwrap();
    assert_eq!(memberships, vec![membership("wss://a", true, true)]);
    assert_eq!(stats.raw_relay_tags, 3);
    assert_eq!(stats.invalid_relay_tags, 1);
    assert_eq!(stats.duplicate_relay_tags, 1);
}

fn input(name: &str) -> InputIdentity {
    InputIdentity {
        identity: name.to_owned(),
        byte_size: 10,
        row_count: 4,
        sha256: "aa".repeat(32),
    }
}

#[test]
fn applied_inputs_stay_within_the_catalog() {
    assert_eq!(
        applied_input("a", 10, 4, &"aa".repeat(32)).unwrap(),
        input("a")
    );
    assert!(applied_input("a", -1, 4, &"aa".repeat(32)).is_err());
    let catalog = vec![input("a"), input("b")];
    assert_eq!(validate_applied_inputs(&vec![input("b")], &catalog), Ok(()));
    assert!(validate_applied_inputs(&vec![input("c")], &catalog).is_err());
    assert_eq!(validate_inputs_present(&catalog, &vec![input("a")]), Ok(()));
    assert!(validate_inputs_present(&vec![input("a")], &catalog).is_err());
}

fn config() -> RelayDistributionConfig {
    RelayDistributionConfig {
        state_database: "relay.sqlite".to_owned(),
        batch_limits: BatchLimits {
            max_bytes: 1,
            max_rows: 1,
        },
        max_state_bytes: 8_192,
        sqlite_cache_bytes: 2_048,
        minimum_users: 2,
        disk_reserve_bytes: 0,
    }
}

#[test]
fn state_stays_within_its_limits() {
    assert_eq!(state_limits(&config(), 4_096).unwrap(), (2, -2));
    assert!(state_limits(&config(), 16_384).is_err());
    assert_eq!(enforce_state_size(2, 4_096, 8_192), Ok(()));
    assert!(enforce_state_size(3, 4_096, 8_192).is_err());
}

fn physical() -> PhysicalTotals {
    PhysicalTotals {
        physical_rows: 4,
        physical_relay_events: 4,
        raw_relay_tags: 4,
        invalid_relay_tags: 0,
        duplicate_relay_tags: 0,
    }
}

fn product() -> (BoundedRelayDistribution, Vec<u8>, RelayState) {
    let lists = candidates();
    let rows = materialize_rows(&lists, 200, 2).unwrap();
    let rows_json = b"[\"rows\"]".to_vec();
    let evidence = complete_relay_distribution(
        "sha256:relay",
        200,
        &config(),
        None,
        vec![input("a")],
        rows,
        &rows_json,
        state_totals(&lists, 200).unwrap(),
        physical_totals(physical()).unwrap(),
    );
    let state = RelayState {
        snapshot_id: Some("sha256:relay".to_owned()),
        applied: vec![input("a")],
        candidates: lists,
        physical: physical(),
    };
    let loaded =
        load_bounded_relay_distribution(evidence, b"evidence", &rows_json, &state).unwrap();
    (loaded, rows_json, state)
}

#[test]
fn completed_relay_evidence_loads_again() {
    let (product, rows_json, mut state) = product();
    assert_eq!(product.evidence_sha256, sha256_hex(b"evidence"));
    assert_eq!(product.evidence.candidate_events, 4);
    assert_eq!(product.evidence.eligible_candidate_events, 3);
    assert_eq!(product.evidence.winning_pubkeys, 2);
    assert_eq!(product.evidence.candidate_memberships, 4);
    assert_eq!(product.evidence.rows_sha256, sha256_hex(&rows_json));

    state.candidates.pop();
    assert!(load_bounded_relay_distribution(
        product.evidence.clone(),
        b"evidence",
        &rows_json,
        &state
    )
    .is_err());
}

#[test]
fn a_successor_keeps_every_input() {
    let (product, _, _) = product();
    assert_eq!(
        validate_advance(&product, &vec![input("a"), input("b")], 300),
        Ok(1)
    );
    assert!(validate_advance(&product, &vec![input("b")], 300).is_err());
    assert!(validate_advance(&product, &vec![input("a")], 199).is_err());
}

#[test]
fn published_relay_rows_reconcile() {
    let (product, rows_json, _) = product();
    assert_eq!(
        validate_relay_distribution_publication(&product, &rows_json),
        Ok(())
    );
    assert!(validate_relay_distribution_publication(&product, b"other").is_err());
    let product_row = relay_product_row(&product.evidence).unwrap();
    assert_eq!(product_row.relay_rows, 1);
    assert_eq!(product_row.winning_pubkeys, 2);
    let mut published = PublishedRelay {
        snapshot_id: "sha256:relay".to_owned(),
        product_version: "relay-distribution-current-v1".to_owned(),
        evidence_sha256: product.evidence_sha256.clone(),
        rows_sha256: product.evidence.rows_sha256.clone(),
        row: product_row,
    };
    assert_eq!(reconcile_metadata(&published, &product), Ok(()));
    let rows = |user_count: i64| StoredRelays {
        metadata: published.clone(),
        rows: vec![RelayColumns {
            relay_url: "wss://shared.example".to_owned(),
            user_count,
            read_count: 1,
            write_count: 1,
        }],
    };
    let publish = |known: bool, lost: u64, users: i64, run_id: &str| {
        let ask = |transaction: (), request: &LedgerRequest| {
            let reply = match request {
                LedgerRequest::CurrentRun => Ok(LedgerReply::Run(LedgerRun {
                    run_id: run_id.to_owned(),
                    snapshot_id: "sha256:relay".to_owned(),
                    query_version: "v".to_owned(),
                    as_of_epoch: product.evidence.as_of_epoch as i64,
                    activity_evidence_sha256: None,
                })),
                LedgerRequest::ProductStored { .. } => Ok(LedgerReply::Known(known)),
                LedgerRequest::InsertProduct {
                    row: SideRow::Relay(row),
                    ..
                } => {
                    assert!(!known);
                    assert_eq!(row.relay_rows, 1);
                    Ok(LedgerReply::Done)
                }
                LedgerRequest::CopyProduct { lines, .. } => {
                    Ok(LedgerReply::Rows(lines.len() as u64 - lost))
                }
                LedgerRequest::StoredProduct { .. } => {
                    Ok(LedgerReply::Product(SideStored::Relay(rows(users))))
                }
                _ => Err(Error::Validation("another question")),
            };
            (transaction, reply)
        };
        let commit = |_: ()| Ok(());
        let rollback = |_: ()| ();
        publish_relay_distribution(
            "run",
            &product,
            &rows_json,
            "v",
            || Ok(()),
            &Ledger {
                ask: &ask,
                commit: &commit,
                rollback: &rollback,
            },
        )
    };
    let product_id = relay_product_id("run", &product);
    assert_eq!(
        publish(false, 0, 2, "run"),
        Ok(RelayDistributionPublishOutcome::Published {
            product_id: product_id.clone(),
        })
    );
    assert_eq!(
        publish(true, 0, 2, "run"),
        Ok(RelayDistributionPublishOutcome::AlreadyPublished { product_id })
    );
    assert!(publish(true, 0, 3, "run").is_err());
    assert!(publish(false, 0, 2, "other").is_err());
    assert!(matches!(
        publish(false, 1, 2, "run"),
        Err(Error::CopyCount { .. })
    ));
    published.row.relay_rows = 2;
    assert!(reconcile_metadata(&published, &product).is_err());

    let columns = RelayColumns {
        relay_url: "wss://shared.example".to_owned(),
        user_count: 2,
        read_count: 1,
        write_count: 1,
    };
    assert_eq!(
        reconcile_rows(&vec![columns.clone()], &product.evidence.rows),
        Ok(())
    );
    assert!(reconcile_rows(&Vec::new(), &product.evidence.rows).is_err());
    assert!(reconcile_rows(&vec![columns.clone(), columns], &product.evidence.rows).is_err());
    assert_eq!(relay_product_id("run", &product).len(), 64);
    assert_ne!(
        relay_product_id("run", &product),
        relay_product_id("other", &product)
    );
}

/// What a ledger in memory holds.
#[derive(Clone, Debug, PartialEq)]
struct Tables {
    current: String,
    products: Vec<String>,
    lines: Vec<String>,
}

#[test]
fn a_failed_product_leaves_nothing_and_a_retry_publishes_it() {
    let (product, rows_json, _) = product();
    let empty = Tables {
        current: "run".to_owned(),
        products: Vec::new(),
        lines: Vec::new(),
    };
    let store = RefCell::new(empty.clone());
    let drops = Cell::new(0);
    let publish = |failing: Option<usize>| {
        let asked = Cell::new(0);
        let begin = || Ok(store.borrow().clone());
        let ask = |mut tables: Tables, request: &LedgerRequest| {
            asked.set(asked.get() + 1);
            if failing == Some(asked.get()) {
                return (tables, Err(Error::Validation("the ledger is gone")));
            }
            let reply = match request {
                LedgerRequest::CurrentRun => Ok(LedgerReply::Run(LedgerRun {
                    run_id: tables.current.clone(),
                    snapshot_id: "sha256:relay".to_owned(),
                    query_version: "v".to_owned(),
                    as_of_epoch: product.evidence.as_of_epoch as i64,
                    activity_evidence_sha256: None,
                })),
                LedgerRequest::ProductStored { side, product_id } => {
                    assert_eq!(*side, SideProduct::Relay);
                    Ok(LedgerReply::Known(tables.products.contains(product_id)))
                }
                LedgerRequest::InsertProduct { product_id, .. } => {
                    tables.products.push(product_id.clone());
                    Ok(LedgerReply::Done)
                }
                LedgerRequest::CopyProduct { table, lines } => {
                    assert_eq!(*table, SideTable::Relays);
                    tables.lines.extend(lines.iter().cloned());
                    Ok(LedgerReply::Rows(lines.len() as u64))
                }
                LedgerRequest::StoredProduct { .. } => {
                    Ok(LedgerReply::Product(SideStored::Relay(StoredRelays {
                        metadata: PublishedRelay {
                            snapshot_id: "sha256:relay".to_owned(),
                            product_version: "relay-distribution-current-v1".to_owned(),
                            evidence_sha256: product.evidence_sha256.clone(),
                            rows_sha256: product.evidence.rows_sha256.clone(),
                            row: relay_product_row(&product.evidence).unwrap(),
                        },
                        rows: vec![RelayColumns {
                            relay_url: "wss://shared.example".to_owned(),
                            user_count: 2,
                            read_count: 1,
                            write_count: 1,
                        }],
                    })))
                }
                _ => Err(Error::Validation("another question")),
            };
            (tables, reply)
        };
        let commit = |tables: Tables| {
            *store.borrow_mut() = tables;
            Ok(())
        };
        let rollback = |_: Tables| drops.set(drops.get() + 1);
        let outcome = publish_relay_distribution(
            "run",
            &product,
            &rows_json,
            "v",
            begin,
            &Ledger {
                ask: &ask,
                commit: &commit,
                rollback: &rollback,
            },
        );
        (outcome, asked.get())
    };
    for place in 1..6 {
        let (outcome, asked) = publish(Some(place));
        assert_eq!(outcome, Err(Error::Validation("the ledger is gone")));
        assert_eq!(asked, place);
        assert_eq!(*store.borrow(), empty);
        assert_eq!(drops.get(), place);
    }
    let product_id = relay_product_id("run", &product);
    assert_eq!(
        publish(None),
        (
            Ok(RelayDistributionPublishOutcome::Published {
                product_id: product_id.clone(),
            }),
            5
        )
    );
    let stored = store.borrow().clone();
    assert_eq!(stored.products, [product_id.clone()]);
    assert_eq!(stored.lines.len(), 1);
    assert_eq!(stored.current, "run");
    assert_eq!(
        publish(None),
        (
            Ok(RelayDistributionPublishOutcome::AlreadyPublished { product_id }),
            3
        )
    );
    assert_eq!(*store.borrow(), stored);
    assert_eq!(drops.get(), 5);
}

#[test]
fn relay_queries_are_bounded() {
    assert_eq!(query_limit(1), Ok(1));
    assert!(query_limit(0).is_err());
    assert!(query_limit(u64::MAX).is_err());
}
