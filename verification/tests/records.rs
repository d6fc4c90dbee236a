use pensieve_analytics::activity::{ActivityReader, FIXED_ACTIVITY_RECORD_BYTES};
use pensieve_analytics::bytes::{bytes_less, push_be, read_be, read_u16, read_u32, read_u64};
use pensieve_analytics::hour_identities::{IdentityReader, FLEXIBLE_DISTINCT_IDENTITY_BYTES};
use pensieve_analytics::leaf_stream::{
    read_leaves, write_leaf, FlexibleLeaf, LeafReader, MAX_SERIALIZED_SKETCH_BYTES,
};
use pensieve_analytics::records::{PlainReader, RecordReader, StreamFault};
use pensieve_analytics::run_writer::{encode_unique, RunWriter};
use pensieve_analytics::serving_records::{ContentFact, ContentFactReader, CONTENT_FACT_BYTES};
use pensieve_analytics::unique_sort::sort_unique;
use pensieve_analytics::zap_distinct::{read_identity, ZAP_IDENTITY_BYTES};

#[test]
fn leaf_reader_rejects_unbounded_or_truncated_payloads() {
    let mut bytes = Vec::new();
    bytes.extend_from_slice(&1_u32.to_be_bytes());
    bytes.extend_from_slice(&1_u16.to_be_bytes());
    bytes.extend_from_slice(
        &u32::try_from(MAX_SERIALIZED_SKETCH_BYTES + 1)
            .expect("test length fits u32")
            .to_be_bytes(),
    );
    assert!(LeafReader::open(&bytes).next().is_err());

    let sketch = vec![7_u8; 32];
    let mut bytes = Vec::new();
    bytes.extend_from_slice(&1_u32.to_be_bytes());
    bytes.extend_from_slice(&1_u16.to_be_bytes());
    bytes.extend_from_slice(&u32::try_from(sketch.len()).expect("length").to_be_bytes());
    bytes.extend_from_slice(&sketch[..sketch.len() - 1]);
    assert!(LeafReader::open(&bytes).next().is_err());
}

#[test]
fn identity_reader_rejects_order_regressions_and_terminal_truncation() {
    let mut first = [0_u8; FLEXIBLE_DISTINCT_IDENTITY_BYTES];
    first[3] = 2;
    let mut second = first;
    second[3] = 1;
    let mut bytes = first.to_vec();
    bytes.extend_from_slice(&second);
    let mut reader = IdentityReader::open(&bytes);
    assert!(reader.next().expect("first identity").is_some());
    assert!(reader.next().is_err());

    assert!(IdentityReader::open(&first[..first.len() - 1])
        .next()
        .is_err());
}

#[test]
fn activity_reader_rejects_truncation() {
    let bytes = [0_u8; FIXED_ACTIVITY_RECORD_BYTES - 1];
    assert!(ActivityReader::open(&bytes).next().is_err());
}

#[test]
fn content_reader_rejects_truncation_and_order_regression() {
    let truncated = [0_u8; CONTENT_FACT_BYTES - 1];
    assert!(ContentFactReader::open(&truncated).next().is_err());

    let mut bytes = Vec::new();
    bytes.extend(
        ContentFact {
            id: [2; 32],
            content_bytes: 1,
        }
        .encode(),
    );
    bytes.extend(
        ContentFact {
            id: [1; 32],
            content_bytes: 1,
        }
        .encode(),
    );
    let mut reader = ContentFactReader::open(&bytes);
    assert!(reader.next().unwrap().is_some());
    assert!(reader.next().is_err());
}

#[test]
fn truncated_identity_fails_closed() {
    let bytes = [0_u8; ZAP_IDENTITY_BYTES - 1];
    assert!(read_identity(&mut PlainReader::new(&bytes, ZAP_IDENTITY_BYTES)).is_err());
}

#[test]
fn big_endian_numbers_read_back_as_written() {
    let mut bytes = Vec::new();
    push_be(&mut bytes, 0x0102, 2);
    push_be(&mut bytes, 0x0304_0506, 4);
    push_be(&mut bytes, 0x0708_090a_0b0c_0d0e, 8);
    assert_eq!(bytes, (1..=14).collect::<Vec<u8>>());
    assert_eq!(read_u16(&bytes, 0), 0x0102);
    assert_eq!(read_u32(&bytes, 2), 0x0304_0506);
    assert_eq!(read_u64(&bytes, 6), 0x0708_090a_0b0c_0d0e);
    assert_eq!(read_be(&bytes, 1, 3), 0x02_0304);
}

#[test]
fn byte_order_is_lexicographic() {
    assert!(bytes_less(&[1, 2], &[1, 3]));
    assert!(bytes_less(&[1], &[1, 0]));
    assert!(!bytes_less(&[2], &[1, 9]));
    assert!(!bytes_less(&[1, 2], &[1, 2]));
}

#[test]
fn records_come_in_strict_order() {
    let sorted = [1_u8, 10, 2, 20, 3, 30];
    let mut reader = RecordReader::new(&sorted, 2, 1);
    assert_eq!(reader.next(), Ok(Some(&sorted[0..2])));
    assert_eq!(reader.next(), Ok(Some(&sorted[2..4])));
    assert_eq!(reader.next(), Ok(Some(&sorted[4..6])));
    assert_eq!(reader.next(), Ok(None));

    let repeated = [1_u8, 10, 1, 20];
    let mut reader = RecordReader::new(&repeated, 2, 1);
    assert!(reader.next().is_ok());
    assert_eq!(reader.next(), Err(StreamFault::Unordered));

    let short = [1_u8, 10, 2];
    let mut reader = RecordReader::new(&short, 2, 1);
    assert!(reader.next().is_ok());
    assert_eq!(reader.next(), Err(StreamFault::Truncated));
}

#[test]
fn leaves_read_back_as_written() {
    let leaves = vec![
        FlexibleLeaf {
            hour: 1,
            kind: 7,
            sketch: vec![1, 2, 3],
        },
        FlexibleLeaf {
            hour: 2,
            kind: 1,
            sketch: vec![9],
        },
    ];
    let mut bytes = Vec::new();
    for leaf in &leaves {
        write_leaf(&mut bytes, leaf).unwrap();
    }
    assert_eq!(bytes.len(), 6 + 4 + 3 + 6 + 4 + 1);
    assert_eq!(read_leaves(&bytes).unwrap(), leaves);
}

#[test]
fn a_run_holds_unique_records_in_order() {
    let unique = sort_unique(&vec![[3_u8, 1], [1, 2], [3, 1], [2, 9]]);
    assert_eq!(unique, vec![[1, 2], [2, 9], [3, 1]]);
    let run = encode_unique(&unique);
    assert_eq!(run.bytes, vec![1, 2, 2, 9, 3, 1]);
    assert_eq!(run.rows, 3);
    assert_eq!(run.min_key.as_deref(), Some("0102"));
    assert_eq!(run.max_key.as_deref(), Some("0301"));
}

#[test]
fn a_run_writer_refuses_a_key_that_does_not_grow() {
    let mut writer = RunWriter::new(3, 2);
    assert!(writer.append(&[0, 1, 7]));
    assert!(!writer.append(&[0, 1, 9]));
    assert!(writer.append(&[0, 2, 1]));
    let run = writer.finish();
    assert_eq!(run.bytes, vec![0, 1, 7, 0, 2, 1]);
    assert_eq!(run.rows, 2);
    assert_eq!(run.min_key.as_deref(), Some("0001"));
    assert_eq!(run.max_key.as_deref(), Some("0002"));
}

#[test]
fn an_empty_run_has_no_keys() {
    let run = RunWriter::new(3, 2).finish();
    assert!(run.bytes.is_empty());
    assert_eq!(run.rows, 0);
    assert_eq!(run.min_key, None);
    assert_eq!(run.max_key, None);
}
