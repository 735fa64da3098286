//! Tests of the string utilities, the number and unit grammar, the
//! interface names and the timestamp parsing.

use wglog::iface::IfaceError;
use wglog::iface::WireguardInterface;
use wglog::numbers::numbers_within;
use wglog::parseutil::after_white;
use wglog::parseutil::cleanwhite;
use wglog::parseutil::find_char;
use wglog::parseutil::is_all_white;
use wglog::parseutil::key_val;
use wglog::parseutil::str_eq;
use wglog::parseutil::string_matches_start;
use wglog::parseutil::string_remove_start;
use wglog::time::label_to_unix;
use wglog::time::parse_timestamp;
use wglog::time::DateHourUtc;
use wglog::time::Stamp;
use wglog::transfer::parse_byte_multiplier;
use wglog::transfer::parse_transfer;
use wglog::transfer::Transfer;
use wglog::transfer::TransferError;

/// A daemontools-style TAI64N line for the given unix second.
fn tai_line(unix: i64, rest: &str) -> String {
    let label = (unix + 10 + (1i64 << 62)) as u64;
    format!("@{:016x}{:08x} {}", label, 0, rest)
}

#[test]
fn t_string_utils() {
    assert!(string_matches_start("wg0", "wg"));
    assert!(!string_matches_start("w", "wg"));
    assert_eq!(string_remove_start("wg12", "wg"), Some("12"));
    assert_eq!(string_remove_start("eth0", "wg"), None);
    assert!(str_eq("abc", "abc"));
    assert!(!str_eq("abc", "abd"));
    assert!(is_all_white(" \t\r\n"));
    assert!(is_all_white(""));
    assert!(!is_all_white(" x "));
    assert_eq!(cleanwhite("  hello world\t"), "hello world");
    assert_eq!(cleanwhite("   "), "");
    assert_eq!(key_val("endpoint: 1.2.3.4:51820"), Some(("endpoint", " 1.2.3.4:51820")));
    assert_eq!(key_val("no separator"), None);
    assert_eq!(after_white("  transfer"), Some("transfer"));
    assert_eq!(after_white("transfer"), None);
    assert_eq!(find_char("a,b", ','), Some(1));
    assert_eq!(find_char("ab", ','), None);
    assert!(numbers_within(8, 5, 12));
    assert!(!numbers_within(8, 5, 13));
}

#[test]
fn t_multiplier_table() {
    assert_eq!(parse_byte_multiplier("B"), Some(1));
    assert_eq!(parse_byte_multiplier("KiB"), Some(1024));
    assert_eq!(parse_byte_multiplier("MiB"), Some(1048576));
    assert_eq!(parse_byte_multiplier("GiB"), Some(1 << 30));
    assert_eq!(parse_byte_multiplier("TiB"), Some(1 << 40));
    assert_eq!(parse_byte_multiplier("PiB"), Some(1 << 50));
    assert_eq!(parse_byte_multiplier("EiB"), Some(1 << 60));
    assert_eq!(parse_byte_multiplier("kib"), None);
    assert_eq!(parse_byte_multiplier("KB"), None);
}

#[test]
fn t_transfer_values() {
    // the multiplier table applied through whole clauses
    assert_eq!(
        parse_transfer("1.00 KiB received, 1 MiB sent"),
        Ok(Transfer { received: 1024, sent: 1048576 })
    );
    assert_eq!(parse_transfer("0 B received, 0 B sent"), Ok(Transfer { received: 0, sent: 0 }));
    // truncation to whole bytes, computed exactly
    assert_eq!(
        parse_transfer("19.52 GiB received, 134.39 GiB sent"),
        Ok(Transfer { received: 20959440404, sent: 144300163727 })
    );
    assert_eq!(
        parse_transfer("1.5 KiB received, 0.5 KiB sent"),
        Ok(Transfer { received: 1536, sent: 512 })
    );
    // order of the labels does not matter
    assert_eq!(
        parse_transfer("2 B sent, 1 B received"),
        Ok(Transfer { received: 1, sent: 2 })
    );
    // trailing fraction zeros do not change the value
    assert_eq!(
        parse_transfer("1.2500000000000000000000000 KiB received, 0 B sent"),
        Ok(Transfer { received: 1280, sent: 0 })
    );
}

#[test]
fn t_transfer_errors() {
    assert_eq!(parse_transfer("1 KiB received, 1"), Err(TransferError::NotThreeParts));
    assert_eq!(parse_transfer("x KiB received, 1 B sent"), Err(TransferError::BadNumber));
    assert_eq!(parse_transfer("1..2 KiB received, 1 B sent"), Err(TransferError::BadNumber));
    assert_eq!(parse_transfer(". KiB received, 1 B sent"), Err(TransferError::BadNumber));
    assert_eq!(parse_transfer("1 XB received, 1 B sent"), Err(TransferError::BadUnit));
    assert_eq!(parse_transfer("1 KiB foo, 1 B sent"), Err(TransferError::BadLabel));
    assert_eq!(
        parse_transfer("1 B received, 2 B received"),
        Err(TransferError::DuplicateLabel)
    );
    assert_eq!(parse_transfer("1 B sent"), Err(TransferError::MissingReceived));
    assert_eq!(parse_transfer("1 B received"), Err(TransferError::MissingSent));
    assert_eq!(
        parse_transfer("99999999999999999999999999 B received, 1 B sent"),
        Err(TransferError::TooLarge)
    );
    assert_eq!(
        parse_transfer("20 EiB received, 1 B sent"),
        Err(TransferError::TooLarge)
    );
}

#[test]
fn t_interface_from_str() {
    assert_eq!(WireguardInterface::from_str("wg0"), Ok(WireguardInterface(0)));
    assert_eq!(WireguardInterface::from_str("wg65535"), Ok(WireguardInterface(65535)));
    assert_eq!(WireguardInterface::from_str("wg+7"), Ok(WireguardInterface(7)));
    assert_eq!(WireguardInterface::from_str("wg007"), Ok(WireguardInterface(7)));
    assert_eq!(WireguardInterface::from_str("wg65536"), Err(IfaceError::BadOrdinal));
    assert_eq!(WireguardInterface::from_str("wg"), Err(IfaceError::BadOrdinal));
    assert_eq!(WireguardInterface::from_str("wg1x"), Err(IfaceError::BadOrdinal));
    assert_eq!(WireguardInterface::from_str("eth0"), Err(IfaceError::NoWgPrefix));
}

#[test]
fn t_parse_timestamp() {
    let line = tai_line(0, "interface: wg0");
    let (stamp, rest) = parse_timestamp(&line).expect("valid stamp");
    assert_eq!(stamp.secs, (10u64 + (1u64 << 62)));
    assert_eq!(stamp.nanos, 0);
    assert_eq!(rest, "interface: wg0");
    // a stamp with nanoseconds and no rest
    let (stamp, rest) = parse_timestamp("@400000000000000a3b9ac9ff").expect("valid stamp");
    assert_eq!(stamp.nanos, 999_999_999);
    assert_eq!(rest, "");
    // rejected shapes
    assert!(parse_timestamp("400000000000000a00000000 x").is_none());
    assert!(parse_timestamp("@40000000 x").is_none());
    assert!(parse_timestamp("@400000000000000g00000000 x").is_none());
    assert!(parse_timestamp("@400000000000000a3b9aca00 x").is_none()); // nanos == 10^9
    assert!(parse_timestamp("@400000000000000a00000000x").is_none()); // no space
}

#[test]
fn t_label_to_unix_matches_tai64() {
    for unix in [0i64, 1, -1, 1698847199, 4102444800] {
        let label = (unix + 10 + (1i64 << 62)) as u64;
        assert_eq!(label_to_unix(label), unix);
        assert_eq!(label_to_unix(label), tai64::Tai64(label).to_unix());
    }
    assert_eq!(label_to_unix(0), tai64::Tai64(0).to_unix());
}

#[test]
fn t_date_and_hour_utc() {
    // unix 0 is 1970-01-01 00:00:00 UTC
    let s = Stamp { secs: 10 + (1u64 << 62), nanos: 0 };
    assert_eq!(
        s.date_and_hour_utc(),
        Some(DateHourUtc { year: 1970, month: 1, day: 1, hour: 0 })
    );
    // 2023-11-01 13:59:59 UTC
    let s = Stamp { secs: (1698847199i64 + 10 + (1i64 << 62)) as u64, nanos: 0 };
    assert_eq!(
        s.date_and_hour_utc(),
        Some(DateHourUtc { year: 2023, month: 11, day: 1, hour: 13 })
    );
    // one second later the hour flips
    let s = Stamp { secs: (1698847200i64 + 10 + (1i64 << 62)) as u64, nanos: 0 };
    assert_eq!(
        s.date_and_hour_utc(),
        Some(DateHourUtc { year: 2023, month: 11, day: 1, hour: 14 })
    );
    // out of the convertible range
    let s = Stamp { secs: u64::MAX, nanos: 0 };
    assert_eq!(s.date_and_hour_utc(), None);
}
