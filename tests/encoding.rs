use peer_store::cloud::{parse_number, peer_from_item, peer_item, AttrValue};
use peer_store::codec::{join_capabilities, split_capabilities};
use peer_store::error::{AddItemError, DeleteItemError, ScanTableError};
use peer_store::peer::PeerData;
use peer_store::retention::{days_before, freshness_cutoff, is_stale, prune_cutoff, seconds_before};

fn s(v: &str) -> String {
    v.to_string()
}

#[test]
fn capabilities_round_trip() {
    let caps = vec![s("eth/66"), s("snap/1")];
    let text = join_capabilities(&caps);
    assert_eq!(text, "eth/66,snap/1");
    assert_eq!(split_capabilities(&text), caps);
}

#[test]
fn capability_with_comma_breaks_round_trip() {
    let caps = vec![s("eth/66,67"), s("snap/1")];
    let text = join_capabilities(&caps);
    assert_eq!(text, "eth/66,67,snap/1");
    assert_eq!(split_capabilities(&text), vec![s("eth/66"), s("67"), s("snap/1")]);
}

#[test]
fn split_edge_cases() {
    assert_eq!(split_capabilities(""), vec![s("")]);
    assert_eq!(split_capabilities(","), vec![s(""), s("")]);
    assert_eq!(split_capabilities("eth/68"), vec![s("eth/68")]);
    assert_eq!(join_capabilities(&vec![]), "");
    assert_eq!(join_capabilities(&vec![s("les/4")]), "les/4");
}

#[test]
fn prune_keeps_recent_and_removes_old() {
    let now: i64 = 1_700_000_000;
    let day: i64 = 86_400;
    let seen = |days: i64| chrono::DateTime::from_timestamp(now - days * day, 0).unwrap().to_string();
    let cutoff = prune_cutoff(now, 0, 30).unwrap();
    assert_eq!(cutoff, chrono::DateTime::from_timestamp(now - 30 * day, 0).unwrap().to_string());
    assert!(!is_stale(&seen(1), &cutoff));
    assert!(!is_stale(&seen(10), &cutoff));
    assert!(is_stale(&seen(40), &cutoff));
}

#[test]
fn cutoff_texts_are_exact() {
    assert_eq!(prune_cutoff(86_400, 0, 1), Ok(s("1970-01-01 00:00:00 UTC")));
    assert_eq!(freshness_cutoff(2 * 86_400 + 61, 0), Ok(s("1970-01-02 00:01:01 UTC")));
    assert_eq!(freshness_cutoff(86_400, 500_000_000), Ok(s("1970-01-01 00:00:00.500 UTC")));
}

#[test]
fn cutoff_out_of_range() {
    assert_eq!(prune_cutoff(0, 0, i64::MAX), Err(DeleteItemError::CutoffOutOfRange()));
    assert_eq!(prune_cutoff(i64::MIN, 0, 1), Err(DeleteItemError::CutoffOutOfRange()));
    assert_eq!(prune_cutoff(i64::MAX, 0, 0), Err(DeleteItemError::CutoffOutOfRange()));
    assert_eq!(freshness_cutoff(i64::MIN, 0), Err(ScanTableError::CutoffOutOfRange()));
}

#[test]
fn day_arithmetic() {
    assert_eq!(days_before(100 * 86_400, 30), Some(70 * 86_400));
    assert_eq!(days_before(0, -2), Some(2 * 86_400));
    assert_eq!(days_before(0, i64::MAX / 86_400 + 1), None);
    assert_eq!(seconds_before(i64::MIN, 1), None);
    assert_eq!(seconds_before(10, 3), Some(7));
}

#[test]
fn stale_comparison_is_by_text() {
    assert!(is_stale("2024-01-01", "2024-01-02"));
    assert!(!is_stale("2024-01-02", "2024-01-01"));
    assert!(!is_stale("2024-01-01", "2024-01-01"));
    assert!(is_stale("2024", "2024-01-01"));
    assert!(!is_stale("2024-01-01", "2024"));
    assert!(!is_stale("", ""));
}

fn record() -> PeerData {
    PeerData {
        id: s("enode-id"),
        address: s("192.168.1.5"),
        client_version: s("Nethermind/v1.25"),
        enode_url: s("enode://enode-id@192.168.1.5:30303"),
        tcp_port: 30303,
        chain: s("1"),
        genesis_block_hash: s("0xd4e5"),
        best_block: s("0xbeef"),
        total_difficulty: s("17179869184"),
        country: s("FR"),
        city: s("Paris"),
        last_seen: s("2024-05-01 10:00:00 UTC"),
        capabilities: vec![s("eth/66"), s("snap/1")],
        eth_version: 68,
    }
}

#[test]
fn item_needs_ttl() {
    assert_eq!(peer_item(record(), None, s("us-west-2")), Err(AddItemError::MissingTtl()));
}

#[test]
fn item_holds_every_attribute() {
    let item = peer_item(record(), Some(-1_714_557_600), s("us-west-2")).unwrap();
    let expect = vec![
        (s("peer-id"), AttrValue::S(s("enode-id"))),
        (s("peer-ip"), AttrValue::S(s("192.168.1.5"))),
        (s("client_version"), AttrValue::S(s("Nethermind/v1.25"))),
        (s("enode_url"), AttrValue::S(s("enode://enode-id@192.168.1.5:30303"))),
        (s("port"), AttrValue::N(s("30303"))),
        (s("chain"), AttrValue::S(s("1"))),
        (s("country"), AttrValue::S(s("FR"))),
        (s("city"), AttrValue::S(s("Paris"))),
        (s("capabilities"), AttrValue::L(vec![AttrValue::S(s("eth/66")), AttrValue::S(s("snap/1"))])),
        (s("eth_version"), AttrValue::N(s("68"))),
        (s("last_seen"), AttrValue::S(s("2024-05-01 10:00:00 UTC"))),
        (s("source_region"), AttrValue::S(s("us-west-2"))),
        (s("genesis_block_hash"), AttrValue::S(s("0xd4e5"))),
        (s("best_block"), AttrValue::S(s("0xbeef"))),
        (s("total_difficulty"), AttrValue::S(s("17179869184"))),
        (s("ttl"), AttrValue::N(s("-1714557600"))),
    ];
    assert_eq!(item, expect);
}

#[test]
fn numbers_parse_within_bound() {
    assert_eq!(parse_number("30303", 65535), Some(30303));
    assert_eq!(parse_number("65535", 65535), Some(65535));
    assert_eq!(parse_number("65536", 65535), None);
    assert_eq!(parse_number("007", 255), Some(7));
    assert_eq!(parse_number("", 255), None);
    assert_eq!(parse_number("-1", 255), None);
    assert_eq!(parse_number("12a", 255), None);
    assert_eq!(parse_number("99999999999999999999999", u64::MAX), None);
    assert_eq!(parse_number("18446744073709551615", u64::MAX), Some(u64::MAX));
}

#[test]
fn item_reads_back_as_record() {
    let item = peer_item(record(), Some(1_714_557_600), s("eu-central-1")).unwrap();
    assert_eq!(peer_from_item(&item), Some(record()));
    let mut reversed = item;
    reversed.reverse();
    assert_eq!(peer_from_item(&reversed), Some(record()));
}

#[test]
fn item_missing_or_mistyped_field_is_unreadable() {
    let item = || peer_item(record(), Some(1), s("r")).unwrap();
    let without_city: Vec<(String, AttrValue)> = item().into_iter().filter(|(n, _)| n != "city").collect();
    assert_eq!(peer_from_item(&without_city), None);
    let mut bad_port = item();
    bad_port[4] = (s("port"), AttrValue::S(s("30303")));
    assert_eq!(peer_from_item(&bad_port), None);
    let mut big_version = item();
    big_version[9] = (s("eth_version"), AttrValue::N(s("256")));
    assert_eq!(peer_from_item(&big_version), None);
}

#[test]
fn cutoff_succeeds_for_sane_ages() {
    let now: i64 = 1_700_000_000;
    for days in [0i64, 1, 30, 365, 36_500] {
        assert!(prune_cutoff(now, 999_999_999, days).is_ok());
    }
    assert!(freshness_cutoff(now, 999_999_999).is_ok());
    assert!(prune_cutoff(8_000_000_000_000, 0, 0).is_ok());
    assert!(prune_cutoff(-8_000_000_000_000, 0, 0).is_ok());
}
