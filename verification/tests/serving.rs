use pensieve_analytics::calendar::floor_hour;
use pensieve_analytics::serving_compact::{derive_compact_rows, TimestampBounds};
use pensieve_analytics::serving_facts::{finalize, scan_content_facts, ScannedContent};
use pensieve_analytics::serving_publish::{
    decode_hourly_row, decode_kind, decode_kind_row, hourly_line, hourly_query, kind_line,
    reconcile_hourly, reconcile_kinds, HourlyColumns, KindColumns,
};
use pensieve_analytics::serving_records::{
    ContentFact, EventFact, ServingHourlyRow, ServingKindRow, ALL_KINDS_KEY, CONTENT_FACT_BYTES,
};
use pensieve_analytics::serving_tables::{
    encode_hourly_rows, encode_kind_rows, read_hourly_artifact, read_kind_artifact,
};

const GENESIS: u32 = 1_606_780_800;

fn bounds() -> TimestampBounds {
    TimestampBounds {
        genesis: GENESIS,
        api_max: u64::from(u32::MAX),
    }
}

fn content(id: u8, text: &str) -> ScannedContent {
    let mut bytes = vec![0_u8; 32];
    bytes[31] = id;
    ScannedContent {
        id: bytes,
        content_bytes: text.len() as u64,
    }
}

#[test]
fn utf8_content_scan_deduplicates_and_counts_bytes() {
    let run = scan_content_facts(1, &vec![content(1, "é"), content(1, "é"), content(2, "abc")]).unwrap();
    assert_eq!(run.rows, 2);
    let expected_min_id = format!("{:0>64}", "1");
    let expected_max_id = format!("{:0>64}", "2");
    assert_eq!(run.min_key.as_deref(), Some(expected_min_id.as_str()));
    assert_eq!(run.max_key.as_deref(), Some(expected_max_id.as_str()));
    let output = run.bytes;
    assert_eq!(output.len(), 2 * CONTENT_FACT_BYTES);
    assert_eq!(u64::from_be_bytes(output[32..40].try_into().unwrap()), 2);
    assert_eq!(
        u64::from_be_bytes(output[CONTENT_FACT_BYTES + 32..].try_into().unwrap()),
        3
    );
}

#[test]
fn conflicting_or_unsorted_content_is_refused() {
    assert!(scan_content_facts(1, &vec![content(1, "a"), content(1, "bb")]).is_err());
    assert!(scan_content_facts(1, &vec![content(2, "a"), content(1, "a")]).is_err());
    assert!(scan_content_facts(0, &Vec::new()).is_err());
    let mut short = content(1, "a");
    short.id.pop();
    assert!(scan_content_facts(1, &vec![short]).is_err());
}

#[test]
fn sparse_hourly_encoding_reserves_zero_for_all_kinds() {
    assert_eq!(ALL_KINDS_KEY, 0);
    assert_eq!(u32::from(u16::MAX) + 1, 65_536);
    assert_eq!(floor_hour(7_199), 3_600);
}

fn events_and_content(as_of: u64) -> (Vec<u8>, Vec<u8>) {
    let complete_through = floor_hour(as_of);
    let events = [
        EventFact {
            id: [1; 32],
            created_at: u64::from(GENESIS) - 1,
            kind: 7,
        },
        EventFact {
            id: [2; 32],
            created_at: complete_through - 1,
            kind: 1,
        },
        EventFact {
            id: [3; 32],
            created_at: complete_through,
            kind: 1,
        },
    ];
    let mut event_bytes = Vec::new();
    let mut content_bytes = Vec::new();
    for (index, event) in events.iter().enumerate() {
        event_bytes.extend_from_slice(&event.encode());
        content_bytes.extend_from_slice(
            &ContentFact {
                id: event.id,
                content_bytes: u64::try_from(index + 1).unwrap(),
            }
            .encode(),
        );
    }
    (event_bytes, content_bytes)
}

#[test]
fn compact_rows_exclude_incomplete_hours_but_keep_all_time_kind_metrics() {
    let as_of = u64::from(GENESIS) + 10_000;
    let complete_through = floor_hour(as_of);
    let (events, content) = events_and_content(as_of);
    let derived = derive_compact_rows(&events, 3, &content, as_of, bounds()).unwrap();
    assert_eq!(derived.rows, 3);
    assert_eq!(derived.hourly_len(), 2);
    assert_eq!(derived.hourly.values().copied().sum::<u64>(), 2);
    assert_eq!(
        derived.hour_count(u32::try_from(complete_through / 3_600).unwrap() - 1, 0),
        1
    );
    assert_eq!(derived.kinds[1].event_count, 2);
    assert_eq!(derived.kinds[1].content_bytes, 5);
    assert_eq!(derived.kinds[1].content_rows, 2);
    assert_eq!(
        derived.kinds[1].first_seen,
        u32::try_from(complete_through - 1).unwrap()
    );
    assert_eq!(
        derived.kinds[1].last_seen,
        u32::try_from(complete_through).unwrap()
    );
    assert_eq!(derived.kinds[7].event_count, 0);
}

#[test]
fn events_without_their_content_are_refused() {
    let as_of = u64::from(GENESIS) + 10_000;
    let (events, content) = events_and_content(as_of);
    assert!(derive_compact_rows(&events, 2, &content, as_of, bounds()).is_err());
    assert!(derive_compact_rows(&events, 3, &content[..80], as_of, bounds()).is_err());
}

#[test]
fn finalized_tables_read_back_as_written() {
    let as_of = u64::from(GENESIS) + 10_000;
    let complete_through = u32::try_from(floor_hour(as_of)).unwrap();
    let (events, content) = events_and_content(as_of);
    let mut activity = Vec::new();
    for (time, id) in [(complete_through - 1, 2_u8), (complete_through, 3)] {
        activity.extend_from_slice(&[9_u8; 32]);
        activity.extend_from_slice(&time.to_be_bytes());
        activity.extend_from_slice(&1_u16.to_be_bytes());
        activity.extend_from_slice(&[id; 32]);
    }
    let finalized = finalize(&events, 3, &content, &activity, as_of, bounds()).unwrap();
    assert_eq!(finalized.complete_hour_events, 1);
    assert_eq!(finalized.eligible_kind_events, 2);
    assert_eq!(finalized.eligible_content_bytes, 5);
    let hour = complete_through / 3_600 - 1;
    assert_eq!(
        read_hourly_artifact(&finalized.hourly.bytes, finalized.hourly.rows).unwrap(),
        vec![
            ServingHourlyRow {
                hour_epoch: hour,
                kind: None,
                event_count: 1,
            },
            ServingHourlyRow {
                hour_epoch: hour,
                kind: Some(1),
                event_count: 1,
            },
        ]
    );
    assert_eq!(
        read_kind_artifact(&finalized.kinds.bytes, finalized.kinds.rows).unwrap(),
        vec![ServingKindRow {
            kind: 1,
            event_count: 2,
            unique_pubkeys: 1,
            first_seen: complete_through - 1,
            last_seen: complete_through,
            content_bytes: 5,
            content_rows: 2,
        }]
    );
    assert!(read_hourly_artifact(&finalized.hourly.bytes, 3).is_err());
}

fn hourly() -> ServingHourlyRow {
    ServingHourlyRow {
        hour_epoch: 5,
        kind: Some(7),
        event_count: 9,
    }
}

fn kind() -> ServingKindRow {
    ServingKindRow {
        kind: 7,
        event_count: 1,
        unique_pubkeys: 2,
        first_seen: 3,
        last_seen: 4,
        content_bytes: 5,
        content_rows: 6,
    }
}

#[test]
fn serving_lines_hold_every_column() {
    assert_eq!(hourly_line("p", &hourly()), "p,5,7,9\n");
    assert_eq!(
        hourly_line(
            "p",
            &ServingHourlyRow {
                kind: None,
                ..hourly()
            }
        ),
        "p,5,-1,9\n"
    );
    assert_eq!(kind_line("p", &kind()), "p,7,1,2,3,4,5,6\n");
    assert_eq!(encode_hourly_rows(&vec![hourly()]).bytes.len(), 16);
    assert_eq!(encode_kind_rows(&vec![kind()]).bytes.len(), 42);
}

#[test]
fn published_serving_rows_reconcile() {
    let columns = HourlyColumns {
        hour_epoch: 5,
        kind: 7,
        event_count: 9,
    };
    assert_eq!(decode_hourly_row(columns), Ok(hourly()));
    assert_eq!(reconcile_hourly(&vec![columns], &vec![hourly()]), Ok(()));
    assert!(reconcile_hourly(&Vec::new(), &vec![hourly()]).is_err());
    assert!(reconcile_hourly(&vec![columns], &Vec::new()).is_err());
    assert!(reconcile_hourly(
        &vec![HourlyColumns {
            event_count: -1,
            ..columns
        }],
        &vec![hourly()]
    )
    .is_err());
    let kinds = KindColumns {
        kind: 7,
        event_count: 1,
        unique_pubkeys: 2,
        first_seen: 3,
        last_seen: 4,
        content_bytes: 5,
        content_rows: 6,
    };
    assert_eq!(decode_kind_row(kinds), Ok(kind()));
    assert_eq!(reconcile_kinds(&vec![kinds], &vec![kind()]), Ok(()));
    assert!(reconcile_kinds(
        &vec![KindColumns {
            content_rows: 7,
            ..kinds
        }],
        &vec![kind()]
    )
    .is_err());
    assert_eq!(decode_kind(-1), Ok(None));
    assert_eq!(decode_kind(65_535), Ok(Some(65_535)));
    assert!(decode_kind(65_536).is_err());
    assert!(decode_kind(-2).is_err());
}

#[test]
fn hourly_queries_cover_up_to_a_leap_year() {
    let query = hourly_query(10, 8_794, None).unwrap();
    assert_eq!((query.kind, query.start_hour, query.end_hour), (-1, 10, 8_794));
    assert!(hourly_query(10, 8_795, None).is_err());
    assert!(hourly_query(10, 10, Some(1)).is_err());
}
