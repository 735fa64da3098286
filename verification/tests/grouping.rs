//! Tests of the line parser's state machine, the two grouping
//! instantiations, the diff engine and the report rows.

use wglog::diff::DiffWarning;
use wglog::group::GroupError;
use wglog::group::TryGroup;
use wglog::hours::Group;
use wglog::hours::HourRules;
use wglog::iface::WireguardInterface;
use wglog::parser::Datapoint;
use wglog::parser::LineOutcome;
use wglog::parser::LineParser;
use wglog::parser::ParseError;
use wglog::report::rows_for_group;
use wglog::report::Row;
use wglog::time::DateHourUtc;
use wglog::time::Stamp;
use wglog::timepoint::Timepoint;
use wglog::timepoint::TimepointRules;
use wglog::transfer::CounterDecrease;
use wglog::transfer::Transfer;
use wglog::transfer::TransferError;
use wglog::report::usize_to_string;

/// A daemontools-style TAI64N line for the given unix second.
fn tai_line(unix: i64, rest: &str) -> String {
    let label = (unix + 10 + (1i64 << 62)) as u64;
    format!("@{:016x}{:08x} {}", label, 0, rest)
}

/// A bare observation at the given whole second for the given ordinal.
fn dp(iface: u16, unix: i64, received: usize, sent: usize) -> Datapoint {
    let secs = (unix + 10 + (1i64 << 62)) as u64;
    let stamp = Stamp { secs, nanos: 0 };
    Datapoint {
        interface: WireguardInterface(iface),
        timestamp: stamp,
        date_and_hour: stamp.date_and_hour_utc().expect("in range"),
        transfer: Transfer { received, sent },
    }
}

const HOUR1: i64 = 1698847199; // 2023-11-01 13:59:59 UTC
const HOUR2: i64 = 1698847200; // 2023-11-01 14:00:00 UTC

#[test]
fn t_parser_section() {
    let mut p = LineParser::new();
    assert_eq!(p.feed_line(&tai_line(HOUR1, "interface: wg0")), LineOutcome::Nothing);
    assert_eq!(
        p.feed_line(&tai_line(HOUR1, "peer: SECRET-REDACTED")),
        LineOutcome::Nothing
    );
    assert_eq!(p.feed_line(&tai_line(HOUR1, "  endpoint: 10.0.0.1:51820")), LineOutcome::Nothing);
    match p.feed_line(&tai_line(HOUR1, "  transfer: 1.00 KiB received, 2 B sent")) {
        LineOutcome::Observation(o) => {
            assert_eq!(o.interface, WireguardInterface(0));
            assert_eq!(o.transfer, Transfer { received: 1024, sent: 2 });
            assert_eq!(
                o.date_and_hour,
                DateHourUtc { year: 2023, month: 11, day: 1, hour: 13 }
            );
        },
        other => panic!("expected an observation, got {:?}", other),
    }
    // blank remainders are silently ignored
    assert_eq!(p.feed_line(&tai_line(HOUR1, "   ")), LineOutcome::Nothing);
    // a second transfer with no new peer is an error
    assert_eq!(
        p.feed_line(&tai_line(HOUR1, "  transfer: 1 B received, 1 B sent")),
        LineOutcome::LineError(ParseError::TransferWithoutPeer)
    );
}

#[test]
fn t_parser_line_errors() {
    let mut p = LineParser::new();
    assert_eq!(
        p.feed_line("no timestamp here"),
        LineOutcome::LineError(ParseError::BadTimestamp)
    );
    assert_eq!(
        p.feed_line(&tai_line(0, "words without separator")),
        LineOutcome::LineError(ParseError::NoKeyValue)
    );
    assert_eq!(
        p.feed_line(&tai_line(0, "bogus: x")),
        LineOutcome::LineError(ParseError::UnknownKey)
    );
    assert_eq!(
        p.feed_line(&tai_line(0, "  bogus: x")),
        LineOutcome::LineError(ParseError::UnknownIndentedKey)
    );
    assert_eq!(
        p.feed_line(&tai_line(0, "interface: eth0")),
        LineOutcome::LineError(ParseError::BadInterfaceName)
    );
    assert_eq!(
        p.feed_line(&tai_line(0, "peer: x")),
        LineOutcome::LineError(ParseError::PeerWithoutInterface)
    );
    assert_eq!(p.feed_line(&tai_line(0, "interface: wg0")), LineOutcome::Nothing);
    assert_eq!(p.feed_line(&tai_line(0, "peer: a")), LineOutcome::Nothing);
    assert_eq!(
        p.feed_line(&tai_line(0, "peer: b")),
        LineOutcome::LineError(ParseError::PeerAgain)
    );
    assert_eq!(
        p.feed_line(&tai_line(0, "  transfer: 1 B received")),
        LineOutcome::LineError(ParseError::BadTransfer(TransferError::MissingSent))
    );
    assert_eq!(p.num_errors, 8);
}

#[test]
fn t_parser_recovery() {
    // an `interface` interrupted by another `interface` logs one ordering
    // error; the interrupted section yields nothing, the new one parses
    let mut p = LineParser::new();
    assert_eq!(p.feed_line(&tai_line(0, "interface: wg0")), LineOutcome::Nothing);
    assert_eq!(
        p.feed_line(&tai_line(0, "interface: wg1")),
        LineOutcome::LineError(ParseError::InterfaceAgain)
    );
    assert_eq!(p.feed_line(&tai_line(0, "peer: k")), LineOutcome::Nothing);
    match p.feed_line(&tai_line(0, "  transfer: 3 B received, 4 B sent")) {
        LineOutcome::Observation(o) => {
            assert_eq!(o.interface, WireguardInterface(1));
            assert_eq!(o.transfer, Transfer { received: 3, sent: 4 });
        },
        other => panic!("expected an observation, got {:?}", other),
    }
    assert_eq!(p.num_errors, 1);
}

#[test]
fn t_slot_tolerance() {
    // observations 7 seconds apart merge into one slot-record
    let mut g: TryGroup<TimepointRules> = TryGroup::new(TimepointRules);
    assert!(g.feed(dp(0, HOUR2, 1, 2)).is_none());
    assert!(g.feed(dp(1, HOUR2 + 7, 3, 4)).is_none());
    // 15 seconds later: 8 beyond the previous one starts a new record
    let flushed = g.feed(dp(0, HOUR2 + 15, 5, 6)).expect("flush").expect("well-formed");
    assert_eq!(flushed.get(0).map(|d| d.transfer), Some(Transfer { received: 1, sent: 2 }));
    assert_eq!(flushed.get(1).map(|d| d.transfer), Some(Transfer { received: 3, sent: 4 }));
    assert!(flushed.get(2).is_none());
    let last = g.finish().expect("one record pending").expect("well-formed");
    assert_eq!(last.get(0).map(|d| d.transfer), Some(Transfer { received: 5, sent: 6 }));
    assert!(last.get(1).is_none());
}

#[test]
fn t_slot_tolerance_boundary() {
    // exactly 8 seconds apart starts a new slot-record
    let mut g: TryGroup<TimepointRules> = TryGroup::new(TimepointRules);
    assert!(g.feed(dp(0, HOUR2, 1, 2)).is_none());
    assert!(g.feed(dp(0, HOUR2 + 8, 3, 4)).is_some());
}

#[test]
fn t_slot_structural_errors() {
    // the same interface twice within tolerance is a duplicate slot
    let mut g: TryGroup<TimepointRules> = TryGroup::new(TimepointRules);
    assert!(g.feed(dp(0, HOUR2, 1, 2)).is_none());
    assert!(g.feed(dp(0, HOUR2 + 1, 3, 4)).is_none());
    assert!(matches!(g.finish(), Some(Err(GroupError::DuplicateSlot))));
    // an ordinal at or past the configured maximum is structural
    let mut g: TryGroup<TimepointRules> = TryGroup::new(TimepointRules);
    assert!(g.feed(dp(wglog::NUM_INTERFACES as u16, HOUR2, 1, 2)).is_none());
    assert!(matches!(g.finish(), Some(Err(GroupError::OrdinalOutOfRange))));
    // an empty run cannot be finished into a slot-record
    assert!(matches!(Timepoint::from_iter(Vec::new()), Err(GroupError::Empty)));
}

/// A slot-record holding exactly one observation.
fn tp_of(d: Datapoint) -> Timepoint {
    let mut v: Vec<Option<Datapoint>> = vec![None; wglog::NUM_INTERFACES];
    v[d.interface.0 as usize] = Some(d);
    Timepoint(v)
}

#[test]
fn t_hour_boundary() {
    // 13:59:59 and 14:00:00 lie one second apart but in different hours
    let mut g: TryGroup<HourRules> = TryGroup::new(HourRules);
    assert!(g.feed(tp_of(dp(0, HOUR1, 1, 2))).is_none());
    let first = g.feed(tp_of(dp(0, HOUR2, 3, 4))).expect("hour flushed").expect("never fails");
    assert_eq!(first.0.len(), 1);
    let second = g.finish().expect("one group pending").expect("never fails");
    assert_eq!(second.0.len(), 1);
}

#[test]
fn t_hour_merging() {
    // records in the same hour merge however far apart within it
    let mut g: TryGroup<HourRules> = TryGroup::new(HourRules);
    assert!(g.feed(tp_of(dp(0, HOUR2, 1, 2))).is_none());
    assert!(g.feed(tp_of(dp(0, HOUR2 + 3000, 3, 4))).is_none());
    let whole = g.finish().expect("one group pending").expect("never fails");
    assert_eq!(whole.0.len(), 2);
}

#[test]
fn t_diff_carry_over() {
    // Group A interface 0 at (100,200); group B immediately after, still
    // within the carry window, at (150,260): the diff is (50,60)
    let a = Group(vec![tp_of(dp(0, HOUR1, 100, 200))]);
    let b = Group(vec![tp_of(dp(0, HOUR2, 150, 260))]);
    let (pairs, warns) = b.transfer_diffs(Some(&a));
    assert_eq!(pairs, vec![(WireguardInterface(0), Transfer { received: 50, sent: 60 })]);
    assert!(warns.is_empty());
}

#[test]
fn t_diff_counter_decrease() {
    // the sent counter decreased: no diff, one warning
    let a = Group(vec![tp_of(dp(0, HOUR1, 100, 200))]);
    let b = Group(vec![tp_of(dp(0, HOUR2, 150, 150))]);
    let (pairs, warns) = b.transfer_diffs(Some(&a));
    assert!(pairs.is_empty());
    assert_eq!(warns.len(), 1);
    match warns[0] {
        DiffWarning::CounterDecreased { interface, start, end, .. } => {
            assert_eq!(interface, WireguardInterface(0));
            assert_eq!(start, Transfer { received: 100, sent: 200 });
            assert_eq!(end, Transfer { received: 150, sent: 150 });
        },
        ref other => panic!("expected a counter warning, got {:?}", other),
    }
}

#[test]
fn t_diff_gap_too_wide() {
    // 3600 seconds or more between the groups: no carry-over, so the
    // diff starts from the group's own first observation
    let a = Group(vec![tp_of(dp(0, HOUR2 - 3600, 100, 200))]);
    let b = Group(vec![tp_of(dp(0, HOUR2, 150, 260)), tp_of(dp(0, HOUR2 + 9, 180, 300))]);
    let (pairs, warns) = b.transfer_diffs(Some(&a));
    assert_eq!(pairs, vec![(WireguardInterface(0), Transfer { received: 30, sent: 40 })]);
    assert!(warns.is_empty());
}

#[test]
fn t_diff_clock_regression() {
    // the previous group ends after this one begins: warnings, no carry
    let a = Group(vec![tp_of(dp(0, HOUR2 + 50, 100, 200))]);
    let b = Group(vec![tp_of(dp(0, HOUR2, 150, 260))]);
    let (pairs, warns) = b.transfer_diffs(Some(&a));
    // the fallback start is the group's own first observation: zero diff
    assert_eq!(pairs, vec![(WireguardInterface(0), Transfer { received: 0, sent: 0 })]);
    assert!(warns.iter().all(|w| matches!(w, DiffWarning::ClockRegression { .. })));
    assert!(!warns.is_empty());
}

#[test]
fn t_diff_without_previous() {
    // no previous group: first and last observations of the group itself
    let b = Group(vec![tp_of(dp(0, HOUR2, 10, 20)), tp_of(dp(0, HOUR2 + 9, 25, 45))]);
    let (pairs, warns) = b.transfer_diffs(None);
    assert_eq!(pairs, vec![(WireguardInterface(0), Transfer { received: 15, sent: 25 })]);
    assert!(warns.is_empty());
}

#[test]
fn t_rows() {
    let a = Group(vec![tp_of(dp(0, HOUR1, 100, 200))]);
    let mut slots: Vec<Option<Datapoint>> = vec![None; wglog::NUM_INTERFACES];
    slots[0] = Some(dp(0, HOUR2, 150, 260));
    slots[1] = Some(dp(1, HOUR2, 7, 8));
    let b = Group(vec![Timepoint(slots), tp_of(dp(0, HOUR2 + 9, 170, 290))]);
    let (rows, warns) = rows_for_group(&b, Some(&a), "label").expect("total fits");
    assert!(warns.is_empty());
    assert_eq!(rows.len(), 2);
    // interface 0: carry-over from group A, ending at (170,290)
    assert_eq!(rows[0].0, 0);
    let row = &rows[0].1;
    assert_eq!(row.time, "label");
    assert_eq!(row.received_cum, 150);
    assert_eq!(row.sent_cum, 260);
    assert_eq!(row.received_hour, 70);
    assert_eq!(row.sent_hour, 90);
    // interface 1: no movement within the group
    assert_eq!(rows[1].0, 1);
    assert_eq!(rows[1].1.received_hour, 0);
    // the cross-interface total is shared by every row
    let total = 70 + 90 + 0 + 0;
    assert_eq!(row.total_all_ifaces_hour, Some(total));
    assert_eq!(rows[1].1.total_all_ifaces_hour, Some(total));
    // and the rendering is exactly tab-separated
    assert_eq!(row.write(), "label\t150\t260\t70\t90\t160\t160");
    assert_eq!(
        Row::write_header(),
        "time\treceived B\tsent B\treceived B/hour\tsent B/hour\ttotal B/hour\tall interfaces B/hour"
    );
}

#[test]
fn t_usize_to_string() {
    assert_eq!(usize_to_string(0), "0");
    assert_eq!(usize_to_string(7), "7");
    assert_eq!(usize_to_string(1234567890), "1234567890");
    assert_eq!(usize_to_string(usize::MAX), usize::MAX.to_string());
}

#[test]
fn t_transfer_methods() {
    let a = Transfer { received: 10, sent: 20 };
    let b = Transfer { received: 15, sent: 26 };
    assert_eq!(a.total(), 30);
    assert_eq!(b.sub(&a), Ok(Transfer { received: 5, sent: 6 }));
    assert_eq!(a.sub(&b), Err(CounterDecrease::Received));
    assert_eq!(
        Transfer { received: 20, sent: 10 }.sub(&a),
        Err(CounterDecrease::Sent)
    );
}

#[test]
fn t_fp_combinators() {
    let is_even = |x: u64| -> bool { x % 2 == 0 };
    let odd = wglog::fp::complement(is_even);
    assert!(odd(3));
    assert!(!odd(4));
    let by_first = wglog::fp::on(|p: &(u64, u64)| p.0, |a: u64, b: u64| a < b);
    assert!(by_first(&(1, 9), &(2, 0)));
    assert!(!by_first(&(3, 0), &(2, 9)));
}
