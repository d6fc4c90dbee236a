use pensieve_analytics::calendar::{
    day_string, floor_day, floor_hour, month_start, parse_day, week_start,
};
use pensieve_analytics::digest::{is_sha256, sha256_hex};

#[test]
fn sha256_identity_is_lowercase_and_exact_length() {
    assert!(is_sha256(&"a".repeat(64)));
    assert!(!is_sha256(&"A".repeat(64)));
    assert!(!is_sha256(&"a".repeat(63)));
    assert!(!is_sha256(&"g".repeat(64)));
}

#[test]
fn digests_are_those_of_the_bytes() {
    assert_eq!(
        sha256_hex(b"abc"),
        "ba7816bf8f01cfea414140de5dae2223b00361a396177a9cb410ff61f20015ad"
    );
    assert_eq!(
        sha256_hex(b""),
        "e3b0c44298fc1c149afbf4c8996fb92427ae41e4649b934ca495991b7852b855"
    );
    assert!(is_sha256(&sha256_hex(b"abc")));
}

#[test]
fn times_floor_to_hours_and_days() {
    assert_eq!(floor_hour(7_199), 3_600);
    assert_eq!(floor_hour(7_200), 7_200);
    assert_eq!(floor_day(172_799), 86_400);
    assert_eq!(floor_day(172_800), 172_800);
}

#[test]
fn days_are_written_and_read_as_dates() {
    assert_eq!(day_string(0).unwrap(), "1970-01-01");
    assert_eq!(day_string(20_454).unwrap(), "2026-01-01");
    assert_eq!(parse_day("2026-01-01").unwrap(), 20_454 * 86_400);
    for day in [0, 58, 11_016, 20_454, 47_481, 2_932_896] {
        let text = day_string(day).unwrap();
        assert_eq!(parse_day(&text).unwrap(), u64::from(day) * 86_400);
    }
    assert!(parse_day("2026-02-30").is_err());
    assert!(parse_day("yesterday").is_err());
}

#[test]
fn weeks_start_on_monday_and_months_on_the_first() {
    assert_eq!(week_start(20_454), 20_451);
    assert_eq!(day_string(week_start(20_454)).unwrap(), "2025-12-29");
    assert_eq!(week_start(20_451), 20_451);
    assert_eq!(day_string(month_start(20_480).unwrap()).unwrap(), "2026-01-01");
    assert_eq!(month_start(20_454).unwrap(), 20_454);
    for (day, first) in [
        ("1970-01-31", "1970-01-01"),
        ("2000-02-29", "2000-02-01"),
        ("2023-12-31", "2023-12-01"),
        ("2024-02-29", "2024-02-01"),
        ("2100-03-01", "2100-03-01"),
        ("9999-12-31", "9999-12-01"),
    ] {
        let day = u32::try_from(parse_day(day).unwrap() / 86_400).unwrap();
        assert_eq!(day_string(month_start(day).unwrap()).unwrap(), first);
    }
    assert!(parse_day("2100-02-29").is_err());
    assert!(month_start(u32::MAX).is_err());
    assert!(day_string(u32::MAX).is_err());
}
