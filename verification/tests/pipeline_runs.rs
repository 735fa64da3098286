//! End-to-end tests of the composed pipeline: lines in, hour groups out,
//! rows rendered, byte-identical across runs.

use wglog::hours::Group;
use wglog::iface::WireguardInterface;
use wglog::parser::Datapoint;
use wglog::parser::ParseError;
use wglog::report::ReportError;
use wglog::time::Stamp;
use wglog::timepoint::Timepoint;
use wglog::transfer::Transfer;
use wglog::pipeline::Pipeline;
use wglog::report::rows_for_group;
use wglog::report::Row;

/// A daemontools-style TAI64N line for the given unix second.
fn tai_line(unix: i64, rest: &str) -> String {
    let label = (unix + 10 + (1i64 << 62)) as u64;
    format!("@{:016x}{:08x} {}", label, 0, rest)
}

/// A whole well-formed section for one interface.
fn section(unix: i64, iface: u16, received: usize, sent: usize) -> Vec<String> {
    vec![
        tai_line(unix, &format!("interface: wg{}", iface)),
        tai_line(unix, "peer: SECRET-REDACTED"),
        tai_line(unix, "  allowed ips: 10.0.0.0/24"),
        tai_line(
            unix,
            &format!("  transfer: {} B received, {} B sent", received, sent),
        ),
    ]
}

const HOUR2: i64 = 1698847200; // 2023-11-01 14:00:00 UTC

/// Two hours of snapshots for two interfaces, with one malformed line.
fn sample_lines() -> Vec<String> {
    let mut lines: Vec<String> = Vec::new();
    lines.extend(section(HOUR2, 0, 100, 200));
    lines.extend(section(HOUR2 + 2, 1, 10, 20));
    lines.push("garbage".to_string());
    lines.extend(section(HOUR2 + 600, 0, 130, 250));
    lines.extend(section(HOUR2 + 602, 1, 15, 29));
    lines.extend(section(HOUR2 + 3600, 0, 160, 310));
    lines.extend(section(HOUR2 + 3602, 1, 22, 40));
    lines.extend(section(HOUR2 + 4200, 0, 200, 360));
    lines
}

/// Run the pipeline over the lines and render every row, as the report
/// writer would.
fn run(lines: &[String]) -> (Vec<String>, usize) {
    let mut p = Pipeline::new();
    let mut rendered: Vec<String> = vec![Row::write_header()];
    let mut errors = 0usize;
    let mut prev: Option<Group> = None;
    let mut groups: Vec<Group> = Vec::new();
    for line in lines {
        let fed = p.feed_line(line);
        assert!(fed.fatal.is_none());
        if fed.error.is_some() {
            errors += 1;
        }
        if let Some(g) = fed.group {
            groups.push(g);
        }
    }
    let (tail, fatal) = p.finish();
    assert!(fatal.is_none());
    groups.extend(tail);
    for g in groups {
        let (rows, _warns) = rows_for_group(&g, prev.as_ref(), "t").expect("total fits");
        for (_iface, row) in rows {
            rendered.push(row.write());
        }
        prev = Some(g);
    }
    (rendered, errors)
}

#[test]
fn t_pipeline_two_hours() {
    let lines = sample_lines();
    let (rendered, errors) = run(&lines);
    assert_eq!(errors, 1);
    // hour one: interfaces 0 and 1 against their own first observations;
    // hour two: carry-over from hour one's last observations
    assert_eq!(
        rendered,
        vec![
            Row::write_header(),
            "t\t100\t200\t30\t50\t80\t94".to_string(),
            "t\t10\t20\t5\t9\t14\t94".to_string(),
            "t\t160\t310\t70\t110\t180\t198".to_string(),
            "t\t22\t40\t7\t11\t18\t198".to_string(),
        ]
    );
}

#[test]
fn t_pipeline_determinism() {
    // re-running on the same lines produces byte-identical output
    let lines = sample_lines();
    let first = run(&lines);
    let second = run(&lines);
    assert_eq!(first, second);
    assert!(first
        .0
        .iter()
        .zip(second.0.iter())
        .all(|(a, b)| a.as_bytes() == b.as_bytes()));
}

#[test]
fn t_pipeline_structural_abort() {
    // two observations for one interface within the tolerance are fatal
    let mut lines: Vec<String> = Vec::new();
    lines.extend(section(HOUR2, 0, 1, 2));
    lines.extend(section(HOUR2 + 1, 0, 3, 4));
    lines.extend(section(HOUR2 + 60, 1, 5, 6));
    let mut p = Pipeline::new();
    let mut fatal = None;
    for line in &lines {
        let fed = p.feed_line(line);
        if fed.fatal.is_some() {
            fatal = fed.fatal;
            break;
        }
    }
    assert!(matches!(
        fatal,
        Some(wglog::pipeline::PipelineError::Structure(
            wglog::group::GroupError::DuplicateSlot
        ))
    ));
}

#[test]
fn t_timestamp_out_of_range() {
    // a syntactically valid stamp whose label lies beyond the calendar
    // range fails only when an observation would need its date
    let mut p = wglog::parser::LineParser::new();
    let far = "@ffffffffffffffff00000000";
    assert_eq!(
        p.feed_line(&format!("{far} interface: wg0")),
        wglog::parser::LineOutcome::Nothing
    );
    assert_eq!(
        p.feed_line(&format!("{far} peer: k")),
        wglog::parser::LineOutcome::Nothing
    );
    assert_eq!(
        p.feed_line(&format!("{far}   transfer: 1 B received, 2 B sent")),
        wglog::parser::LineOutcome::LineError(ParseError::TimestampOutOfRange)
    );
}

#[test]
fn t_total_overflow() {
    // deltas summing past the machine's range abort the row assembly
    let stamp = Stamp { secs: (HOUR2 + 10 + (1i64 << 62)) as u64, nanos: 0 };
    let big = |iface: u16, received: usize| -> Option<Datapoint> {
        Some(Datapoint {
            interface: WireguardInterface(iface),
            timestamp: stamp,
            date_and_hour: stamp.date_and_hour_utc().expect("in range"),
            transfer: Transfer { received, sent: 0 },
        })
    };
    let g = Group(vec![Timepoint(vec![big(0, usize::MAX - 1), big(1, 2)])]);
    let zero = |iface: u16| -> Option<Datapoint> {
        Some(Datapoint {
            interface: WireguardInterface(iface),
            timestamp: Stamp { secs: stamp.secs - 5, nanos: 0 },
            date_and_hour: stamp.date_and_hour_utc().expect("in range"),
            transfer: Transfer { received: 0, sent: 0 },
        })
    };
    let prev = Group(vec![Timepoint(vec![zero(0), zero(1)])]);
    assert!(matches!(
        rows_for_group(&g, Some(&prev), "t"),
        Err(ReportError::TotalOverflow)
    ));
}

#[test]
fn t_error_cap() {
    // recoverable errors are reported up to the cap; past it the stream
    // ends with a terminal error
    let mut p = wglog::parser::LineParser::new();
    let bad = "x";
    for _ in 0..wglog::parser::MAX_ERRORS {
        match p.feed_line(bad) {
            wglog::parser::LineOutcome::LineError(ParseError::BadTimestamp) => {},
            other => panic!("expected a recoverable error, got {:?}", other),
        }
    }
    assert!(matches!(
        p.feed_line(bad),
        wglog::parser::LineOutcome::Terminal(ParseError::BadTimestamp)
    ));
}
