use pensieve_analytics::rollups::{EngagementDay, SemanticRollups};
use pensieve_analytics::semantic_build::{finalize, SemanticDomainCounts};
use pensieve_analytics::semantic_facts::{
    classify_engagement, classify_longform, classify_zap, parse_bolt11_msats, zap_histogram_bucket,
    EngagementFact, ZapRejection, ZAP_HISTOGRAM_UPPER_SATS,
};
use pensieve_analytics::semantic_totals::{SemanticPayload, SemanticRecord};

fn tags(values: &[&[&str]]) -> Vec<Vec<String>> {
    values
        .iter()
        .map(|tag| tag.iter().map(|value| (*value).to_owned()).collect())
        .collect()
}

#[test]
fn engagement_matches_positional_tag_semantics() {
    assert_eq!(
        classify_engagement(1, &tags(&[&["e"]])),
        EngagementFact::Reply
    );
    assert_eq!(
        classify_engagement(1, &tags(&[&["x", "e"]])),
        EngagementFact::OriginalNote
    );
    assert_eq!(classify_engagement(7, &[]), EngagementFact::Reaction);
    assert_eq!(
        classify_engagement(2, &tags(&[&["e", "id"]])),
        EngagementFact::Other
    );
}

#[test]
fn longform_uses_utf8_bytes_not_scalar_count() {
    let fact = classify_longform(30_023, "a🦀").expect("long-form");
    assert_eq!(fact.content_bytes, 5);
    assert!(classify_longform(1, "a🦀").is_none());
}

#[test]
fn zap_multiplier_and_limit_boundaries_are_exact() {
    for (invoice, expected) in [
        ("lnbc10m1x", 1_000_000_000),
        ("lnbc10000u1x", 1_000_000_000),
        ("lnbc10000000n1x", 1_000_000_000),
        ("lnbc10000000000p1x", 1_000_000_000),
    ] {
        assert_eq!(parse_bolt11_msats(invoice), Ok(expected));
    }
    assert_eq!(
        parse_bolt11_msats("lnbc11m1x"),
        Err(ZapRejection::AmountAboveLimit)
    );
    assert_eq!(
        parse_bolt11_msats("lnbc9p1x"),
        Err(ZapRejection::ZeroAmount)
    );
    assert_eq!(
        parse_bolt11_msats("lnbc1x"),
        Err(ZapRejection::MalformedBolt11)
    );
    assert_eq!(
        parse_bolt11_msats("LNBC1u1x"),
        Err(ZapRejection::MalformedBolt11)
    );
    assert_eq!(
        parse_bolt11_msats("lnbc18446744073709551615m1x"),
        Err(ZapRejection::AmountOverflow)
    );
}

#[test]
fn first_positional_tags_own_zap_semantics() {
    let values = tags(&[
        &["bolt11", "bad"],
        &["bolt11", "lnbc1u1good"],
        &["p", "bad-key"],
        &["p", &"11".repeat(32)],
        &["P", &"22".repeat(32)],
    ]);
    assert_eq!(
        classify_zap(9_735, &values),
        Some(Err(ZapRejection::MalformedBolt11))
    );

    let values = tags(&[
        &["bolt11", "lnbc1u1good"],
        &["p", "bad-key"],
        &["p", &"11".repeat(32)],
        &["P", &"22".repeat(32)],
    ]);
    let fact = classify_zap(9_735, &values)
        .expect("zap kind")
        .expect("valid amount");
    assert_eq!(fact.amount_msats, 100_000);
    assert_eq!(fact.recipient.as_deref(), Some("bad-key"));
    assert!(fact.recipient_pubkey.is_none());
    assert_eq!(fact.sender_pubkey, Some([0x22; 32]));
}

#[test]
fn histogram_uses_truncated_whole_sats_at_every_boundary() {
    for (index, upper) in ZAP_HISTOGRAM_UPPER_SATS.iter().enumerate() {
        assert_eq!(zap_histogram_bucket(upper * 1_000 + 999), index as u8);
        assert_eq!(zap_histogram_bucket((upper + 1) * 1_000), index as u8 + 1);
    }
    assert_eq!(zap_histogram_bucket(1), 0);
}

#[test]
fn additive_rollups_account_for_every_semantic_class() {
    let mut rollups = SemanticRollups::default();
    rollups.observe(86_401, 1, &[], "").expect("original");
    rollups
        .observe(86_402, 1, &tags(&[&["e"]]), "")
        .expect("reply");
    rollups.observe(86_403, 7, &[], "").expect("reaction");
    rollups
        .observe(86_404, 30_023, &[], "🦀")
        .expect("long-form");
    rollups
        .observe(
            86_405,
            9_735,
            &tags(&[
                &["bolt11", "lnbc1u1x"],
                &["p", &"11".repeat(32)],
                &["P", "malformed"],
            ]),
            "",
        )
        .expect("accepted zap");
    rollups
        .observe(86_406, 9_735, &tags(&[&["bolt11"]]), "")
        .expect("rejected zap");

    assert_eq!(
        rollups.engagement[&86_400],
        EngagementDay {
            day_epoch: 86_400,
            original_notes: 1,
            replies: 1,
            reactions: 1,
        }
    );
    assert_eq!(rollups.longform[&86_400].articles, 1);
    assert_eq!(rollups.longform[&86_400].content_bytes, 4);
    let zaps = &rollups.zaps[&86_400];
    assert_eq!(zaps.accepted, 1);
    assert_eq!(zaps.amount_msats, 100_000);
    assert_eq!(zaps.validated_recipients, 1);
    assert_eq!(zaps.validated_senders, 0);
    assert_eq!(zaps.histogram.iter().sum::<u64>(), 1);
    assert_eq!(zaps.rejected[ZapRejection::MissingBolt11Value.ordinal()], 1);
}

#[test]
fn empty_rollups_have_zero_denominators_without_synthetic_rows() {
    let rollups = SemanticRollups::default();
    assert!(rollups.engagement.is_empty());
    assert!(rollups.longform.is_empty());
    assert!(rollups.zaps.is_empty());
}

#[test]
fn a_zap_without_an_invoice_is_rejected() {
    assert_eq!(classify_zap(1, &[]), None);
    assert_eq!(
        classify_zap(9_735, &[]),
        Some(Err(ZapRejection::MissingBolt11))
    );
    assert_eq!(
        classify_zap(9_735, &tags(&[&["bolt11"]])),
        Some(Err(ZapRejection::MissingBolt11Value))
    );
}

#[test]
fn rejection_ordinals_are_distinct_places() {
    let places = [
        ZapRejection::MissingBolt11.ordinal(),
        ZapRejection::MissingBolt11Value.ordinal(),
        ZapRejection::MalformedBolt11.ordinal(),
        ZapRejection::AmountOverflow.ordinal(),
        ZapRejection::ZeroAmount.ordinal(),
        ZapRejection::AmountAboveLimit.ordinal(),
    ];
    assert_eq!(places, [0, 1, 2, 3, 4, 5]);
}

fn record(created_at: u64, payload: SemanticPayload) -> SemanticRecord {
    SemanticRecord {
        created_at,
        payload,
    }
}

#[test]
fn finalized_records_cover_every_domain_once() {
    let records = vec![
        record(86_400, SemanticPayload::OriginalNote),
        record(86_401, SemanticPayload::Reply),
        record(200_000, SemanticPayload::Reaction),
        record(200_001, SemanticPayload::Longform { content_bytes: 12 }),
        record(
            200_002,
            SemanticPayload::Zap {
                amount_msats: 21_000,
                sender_pubkey: Some([1; 32]),
                recipient_pubkey: None,
            },
        ),
        record(
            200_003,
            SemanticPayload::RejectedZap(ZapRejection::ZeroAmount),
        ),
    ];
    let (rollups, counts) = finalize(&records).unwrap();
    assert_eq!(
        counts,
        SemanticDomainCounts {
            original_notes: 1,
            replies: 1,
            reactions: 1,
            longform_articles: 1,
            accepted_zaps: 1,
            rejected_zaps: 1,
        }
    );
    assert_eq!(counts.total().unwrap(), 6);
    assert_eq!(rollups.engagement.len(), 2);
    assert_eq!(rollups.engagement[&86_400].replies, 1);
    assert_eq!(rollups.engagement[&172_800].reactions, 1);
    assert_eq!(rollups.longform[&172_800].content_bytes, 12);
    let day = &rollups.zaps[&172_800];
    assert_eq!(day.validated_senders, 1);
    assert_eq!(day.validated_recipients, 0);
    assert_eq!(day.amount_msats, 21_000);
    assert_eq!(day.histogram[1], 1);
    assert_eq!(day.histogram_amount_msats[1], 21_000);
    assert_eq!(day.rejected[4], 1);
}

#[test]
fn domain_counts_that_overflow_are_refused() {
    let counts = SemanticDomainCounts {
        original_notes: u64::MAX,
        replies: 1,
        reactions: 0,
        longform_articles: 0,
        accepted_zaps: 0,
        rejected_zaps: 0,
    };
    assert!(counts.total().is_err());
}

#[test]
fn the_order_of_events_does_not_matter() {
    let invoice = tags(&[&["bolt11", "lnbc1u1rest"], &["p", &"ab".repeat(32)]]);
    let events = [
        (86_400 + 5, 1_u16, tags(&[]), "note"),
        (86_400 + 6, 1, tags(&[&["e", "x"]]), "reply"),
        (200_000, 7, tags(&[]), "+"),
        (200_001, 30_023, tags(&[]), "article"),
        (200_002, 9_735, invoice.clone(), ""),
        (200_003, 9_735, invoice, ""),
        (200_004, 9_735, tags(&[]), ""),
        (200_005, 9_735, tags(&[&["bolt11"]]), ""),
        (300, 4, tags(&[]), "other"),
    ];
    let observed = |order: &[usize]| {
        let mut rollups = SemanticRollups::default();
        for place in order {
            let (created_at, kind, tags, content) = &events[*place];
            rollups.observe(*created_at, *kind, tags, content).unwrap();
        }
        rollups
    };
    let forward = observed(&[0, 1, 2, 3, 4, 5, 6, 7, 8]);
    assert_eq!(observed(&[8, 7, 6, 5, 4, 3, 2, 1, 0]), forward);
    assert_eq!(observed(&[4, 0, 7, 2, 8, 5, 1, 6, 3]), forward);
    assert_eq!(forward.engagement.len(), 2);
    assert_eq!(forward.zaps.len(), 1);
    for (day, row) in &forward.zaps {
        assert_eq!((day % 86_400, row.day_epoch), (0, *day));
        assert_eq!(row.histogram.iter().sum::<u64>(), row.accepted);
        assert_eq!(row.accepted + row.rejected.iter().sum::<u64>(), 4);
        assert_eq!((row.accepted, row.amount_msats), (2, 200_000));
        assert!(row.validated_senders <= row.accepted);
        assert_eq!(row.validated_recipients, 2);
    }
}
