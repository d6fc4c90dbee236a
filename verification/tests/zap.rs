use pensieve_analytics::semantic_totals::{SemanticPayload, SemanticRecord};
use pensieve_analytics::semantic_build::finalize;
use pensieve_analytics::zap_chunks::chunk_identities;
use pensieve_analytics::zap_distinct::{
    build_groups, decode_identity, encode_identity, finish_leaf, relative_error_ppm,
    zap_identities, IdentityChunks, SketchResult, ZapGroup, ZapParticipantRole,
    MAX_RELATIVE_ERROR_PPM,
};
use pensieve_analytics::zap_evidence::{
    build_leaves, check_sketches, max_leaf_bytes, sketch_bytes, DecodedSketch,
};
use pensieve_analytics::zap_publish::{
    published_zap_window, role_code, validate_window, zap_leaf_line,
};

#[test]
fn identity_encoding_orders_day_role_and_pubkey() {
    let sender = encode_identity(86_400, ZapParticipantRole::Sender, [2; 32]);
    let recipient = encode_identity(86_400, ZapParticipantRole::Recipient, [1; 32]);
    let next_day = encode_identity(172_800, ZapParticipantRole::Sender, [0; 32]);
    assert!(sender < recipient);
    assert!(recipient < next_day);
    assert_eq!(
        decode_identity(&sender).expect("decode"),
        (86_400, ZapParticipantRole::Sender, [2; 32])
    );
}

#[test]
fn an_unknown_role_is_refused() {
    let mut identity = encode_identity(86_400, ZapParticipantRole::Sender, [2; 32]);
    identity[8] = 9;
    assert!(decode_identity(&identity).is_err());
    assert!(ZapParticipantRole::from_code(9).is_err());
    for role in [ZapParticipantRole::Sender, ZapParticipantRole::Recipient] {
        assert_eq!(ZapParticipantRole::from_code(role.code()), Ok(role));
    }
}

#[test]
fn exact_identity_artifact_builds_deterministic_tolerant_leaves() {
    let mut bytes = Vec::new();
    for value in 0..1_000_u16 {
        let mut pubkey = [0_u8; 32];
        pubkey[..2].copy_from_slice(&value.to_be_bytes());
        bytes.extend_from_slice(&encode_identity(
            86_400,
            ZapParticipantRole::Sender,
            pubkey,
        ));
    }
    bytes.extend_from_slice(&encode_identity(
        86_400,
        ZapParticipantRole::Recipient,
        [9; 32],
    ));
    let groups = build_groups(&bytes).expect("groups");
    assert_eq!(groups, build_groups(&bytes).expect("repeat groups"));
    let sketches = || {
        vec![
            SketchResult {
                estimate: 1_010,
                sketch: vec![1, 2, 3],
            },
            SketchResult {
                estimate: 1,
                sketch: vec![4],
            },
        ]
    };
    let first = build_leaves(&groups, sketches()).expect("leaves");
    let second = build_leaves(&groups, sketches()).expect("repeat leaves");
    assert_eq!(first, second);
    assert_eq!(first.len(), 2);
    assert_eq!(first[0].exact_identities, 1_000);
    assert!(first[0].relative_error_ppm <= MAX_RELATIVE_ERROR_PPM);
    assert_eq!(first[0].relative_error_ppm, 10_000);
    assert_eq!(first[1].estimated_identities, 1);
    assert_eq!(max_leaf_bytes(&first), 3);
    assert_eq!(sketch_bytes(&first), Ok(4));
    let decoded = |lg_k: u8| {
        vec![
            Some(DecodedSketch {
                estimate: 1_010,
                lg_k,
            }),
            Some(DecodedSketch { estimate: 1, lg_k }),
        ]
    };
    assert_eq!(
        check_sketches(&first, &decoded(12), 12, MAX_RELATIVE_ERROR_PPM),
        Ok(())
    );
    assert!(check_sketches(&first, &decoded(11), 12, MAX_RELATIVE_ERROR_PPM).is_err());
}

#[test]
fn groups_are_runs_of_one_day_and_role() {
    let mut bytes = Vec::new();
    for (day, role, key) in [
        (86_400, ZapParticipantRole::Sender, 1),
        (86_400, ZapParticipantRole::Sender, 2),
        (86_400, ZapParticipantRole::Recipient, 1),
        (172_800, ZapParticipantRole::Sender, 1),
    ] {
        bytes.extend_from_slice(&encode_identity(day, role, [key; 32]));
    }
    assert_eq!(
        build_groups(&bytes).unwrap(),
        vec![
            ZapGroup {
                day_epoch: 86_400,
                role: ZapParticipantRole::Sender,
                start: 0,
                exact_identities: 2,
            },
            ZapGroup {
                day_epoch: 86_400,
                role: ZapParticipantRole::Recipient,
                start: 2,
                exact_identities: 1,
            },
            ZapGroup {
                day_epoch: 172_800,
                role: ZapParticipantRole::Sender,
                start: 3,
                exact_identities: 1,
            },
        ]
    );
    bytes.pop();
    assert!(build_groups(&bytes).is_err());
}

#[test]
fn zap_errors_are_truncated_parts_per_million() {
    assert_eq!(relative_error_ppm(0, 0), 0);
    assert_eq!(relative_error_ppm(0, 5), 1_000_000);
    assert_eq!(relative_error_ppm(3, 4), 333_333);
    assert_eq!(relative_error_ppm(4, 3), 250_000);
    assert!(finish_leaf(
        0,
        ZapParticipantRole::Sender,
        100,
        SketchResult {
            estimate: 103,
            sketch: vec![1],
        }
    )
    .is_err());
}

#[test]
fn a_zap_names_its_validated_participants() {
    let record = |created_at: u64| SemanticRecord {
        created_at,
        payload: SemanticPayload::Zap {
            amount_msats: 1_000,
            sender_pubkey: Some([1; 32]),
            recipient_pubkey: Some([2; 32]),
        },
    };
    assert_eq!(
        zap_identities(&record(90_000), 100_000),
        vec![
            encode_identity(86_400, ZapParticipantRole::Sender, [1; 32]),
            encode_identity(86_400, ZapParticipantRole::Recipient, [2; 32]),
        ]
    );
    assert!(zap_identities(&record(100_001), 100_000).is_empty());
}

#[test]
fn chunks_are_sorted_and_unique() {
    let mut chunks = IdentityChunks::new(3);
    let identity = |key: u8| encode_identity(0, ZapParticipantRole::Sender, [key; 32]);
    assert_eq!(chunks.push(identity(2)), Ok(false));
    assert_eq!(chunks.push(identity(1)), Ok(false));
    assert_eq!(chunks.push(identity(2)), Ok(true));
    let chunk = chunks.take_chunk();
    assert_eq!(chunk.unique, vec![identity(1), identity(2)]);
    assert_eq!(chunk.duplicate_rows, 1);
    assert_eq!(chunk.run.rows, 2);
    assert_eq!(chunks.physical_identities, 3);
    assert!(chunks.buffer.is_empty());
}

#[test]
fn published_windows_are_complete_day_aligned_and_nonempty() {
    assert!(validate_window(86_400, 172_800, 259_200).is_ok());
    assert!(validate_window(1, 172_800, 259_200).is_err());
    assert!(validate_window(86_400, 86_400, 259_200).is_err());
    assert!(validate_window(172_800, 86_400, 259_200).is_err());
    assert!(validate_window(86_400, 345_600, 259_200).is_err());
}

#[test]
fn zap_leaves_are_written_as_columns() {
    assert_eq!(role_code(ZapParticipantRole::Sender), 0);
    assert_eq!(role_code(ZapParticipantRole::Recipient), 1);
    let leaf = finish_leaf(
        86_400,
        ZapParticipantRole::Recipient,
        100,
        SketchResult {
            estimate: 101,
            sketch: vec![0xab, 0x01],
        },
    )
    .unwrap();
    assert_eq!(
        zap_leaf_line("p", &leaf),
        "p,86400,1,100,101,10000,\\xab01\n"
    );
    let window = published_zap_window(259_200, 86_400, 172_800, ZapParticipantRole::Recipient);
    assert_eq!(window.unwrap().role, 1);
    assert!(published_zap_window(-1, 86_400, 172_800, ZapParticipantRole::Sender).is_err());
}

#[test]
fn chunking_keeps_every_identity() {
    let zap = |created_at: u64, sender: Option<u8>, recipient: Option<u8>| SemanticRecord {
        created_at,
        payload: SemanticPayload::Zap {
            amount_msats: 1_000,
            sender_pubkey: sender.map(|key| [key; 32]),
            recipient_pubkey: recipient.map(|key| [key; 32]),
        },
    };
    let records = vec![
        zap(10, Some(2), Some(1)),
        zap(11, Some(2), None),
        zap(12, Some(1), Some(3)),
        zap(500, Some(9), Some(9)),
    ];
    let chunked = chunk_identities(&records, 100, 3).unwrap();
    assert_eq!(chunked.physical_identities, 5);
    assert_eq!(chunked.chunks.len(), 2);
    assert_eq!(chunked.duplicate_rows, 1);
    assert_eq!(chunked.max_buffered_bytes, 3 * 41);
    assert_eq!(
        chunked.chunks[0].unique,
        vec![
            encode_identity(0, ZapParticipantRole::Sender, [2; 32]),
            encode_identity(0, ZapParticipantRole::Recipient, [1; 32]),
        ]
    );
    assert_eq!(
        chunked.chunks[1].unique,
        vec![
            encode_identity(0, ZapParticipantRole::Sender, [1; 32]),
            encode_identity(0, ZapParticipantRole::Recipient, [3; 32]),
        ]
    );
    let (rollups, _) = finalize(&records[..3].to_vec()).unwrap();
    let day = &rollups.zaps[&0];
    assert_eq!(
        day.validated_senders + day.validated_recipients,
        chunked.physical_identities
    );
    assert!(chunk_identities(&Vec::new(), 100, 3).unwrap().chunks.is_empty());
}
