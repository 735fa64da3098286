//! Timestamps: TAI64N labels parsed from the leading `@`-prefixed hex of
//! each log line, their conversion to unix seconds, and the derived UTC
//! calendar date and hour used for grouping.

use vstd::prelude::*;
use vstd::string::StrSliceExecFns;

use chrono::Datelike;
use chrono::Timelike;

verus! {

/// A TAI64N timestamp: `secs` is the TAI64 label (seconds offset by
/// 2^62), `nanos` the sub-second part, below one billion.
#[derive(Clone, Copy, Debug, PartialEq, Eq, Structural)]
pub struct Stamp {
    pub secs: u64,
    pub nanos: u32,
}

/// A UTC calendar date together with an hour of day; the grouping key of
/// the hour grouper.
#[derive(Clone, Copy, Debug, PartialEq, Eq, Structural)]
pub struct DateHourUtc {
    pub year: i32,
    pub month: u8,
    pub day: u8,
    pub hour: u8,
}

/// Is `c` a hexadecimal digit?
pub open spec fn is_hex(c: char) -> bool {
    ('0' <= c && c <= '9') || ('a' <= c && c <= 'f') || ('A' <= c && c <= 'F')
}

/// Value of the hexadecimal digit `c`.
pub open spec fn hex_val(c: char) -> int {
    if '0' <= c && c <= '9' {
        c as int - '0' as int
    } else if 'a' <= c && c <= 'f' {
        10 + c as int - 'a' as int
    } else {
        10 + c as int - 'A' as int
    }
}

/// Value of `s` read as a big-endian sequence of hexadecimal digits.
pub open spec fn hex_seq_val(s: Seq<char>) -> int
    decreases s.len(),
{
    if s.len() == 0 {
        0
    } else {
        16 * hex_seq_val(s.drop_last()) + hex_val(s.last())
    }
}

/// 16 to the power `n`.
pub open spec fn pow16(n: nat) -> int
    decreases n,
{
    if n == 0 {
        1
    } else {
        16 * pow16((n - 1) as nat)
    }
}

/// A sequence of hexadecimal digits reads as a value below 16^length.
proof fn lemma_hex_seq_val_bound(s: Seq<char>)
    requires
        forall|i: int| 0 <= i < s.len() ==> is_hex(#[trigger] s[i]),
    ensures
        0 <= hex_seq_val(s) < pow16(s.len()),
    decreases s.len(),
{
    if s.len() > 0 {
        lemma_hex_seq_val_bound(s.drop_last());
    }
}

/// Reads the hexadecimal digits `s[from..from + k]` of `s`.
fn parse_hex(s: &str, from: usize, k: usize) -> (r: Option<u64>)
    requires
        from + k <= s@.len(),
        from + k <= usize::MAX,
        k <= 16,
    ensures
        match r {
            Some(v) => (forall|i: int|
                from <= i < from + k ==> is_hex(#[trigger] s@[i])) && v == hex_seq_val(
                s@.subrange(from as int, from + k),
            ),
            None => !(forall|i: int| from <= i < from + k ==> is_hex(#[trigger] s@[i])),
        },
{
    let mut acc: u64 = 0;
    let mut i: usize = 0;
    while i < k
        invariant
            0 <= i <= k <= 16,
            from + k <= s@.len(),
            from + k <= usize::MAX,
            forall|j: int| from <= j < from + i ==> is_hex(#[trigger] s@[j]),
            acc == hex_seq_val(s@.subrange(from as int, from + i)),
            acc < pow16(i as nat),
        decreases k - i,
    {
        let c = s.get_char(from + i);
        let d: u64 = if '0' <= c && c <= '9' {
            c as u64 - '0' as u64
        } else if 'a' <= c && c <= 'f' {
            10 + c as u64 - 'a' as u64
        } else if 'A' <= c && c <= 'F' {
            10 + c as u64 - 'A' as u64
        } else {
            return None;
        };
        proof {
            let p = s@.subrange(from as int, from + i);
            let q = s@.subrange(from as int, from + i + 1);
            assert(q.drop_last() =~= p);
            assert(pow16(16) == 0x1_0000_0000_0000_0000) by {
                reveal_with_fuel(pow16, 17);
            }
            lemma_pow16_monotone(i as nat + 1, 16);
        }
        acc = acc * 16 + d;
        i = i + 1;
    }
    Some(acc)
}

/// 16^a divides 16^b when `a <= b`, so the powers are monotone.
proof fn lemma_pow16_monotone(a: nat, b: nat)
    requires
        a <= b,
    ensures
        pow16(a) <= pow16(b),
        pow16(a) >= 1,
    decreases b,
{
    if a < b {
        lemma_pow16_monotone(a, (b - 1) as nat);
    } else if a > 0 {
        lemma_pow16_monotone((a - 1) as nat, (b - 1) as nat);
    }
}

/// Does the line start with a well-formed TAI64N timestamp: `@`, sixteen
/// hex digits of seconds, eight hex digits of nanoseconds below one
/// billion, followed by a space or the end of the line?
pub open spec fn has_stamp(line: Seq<char>) -> bool {
    &&& line.len() >= 25
    &&& line[0] == '@'
    &&& forall|i: int| 1 <= i < 25 ==> is_hex(#[trigger] line[i])
    &&& hex_seq_val(line.subrange(17, 25)) < 1_000_000_000
    &&& (line.len() == 25 || line[25] == ' ')
}

/// The timestamp of a line that satisfies `has_stamp`.
pub open spec fn stamp_of(line: Seq<char>) -> Stamp {
    Stamp {
        secs: hex_seq_val(line.subrange(1, 17)) as u64,
        nanos: hex_seq_val(line.subrange(17, 25)) as u32,
    }
}

/// The rest of a line after its timestamp and the following space.
pub open spec fn rest_of(line: Seq<char>) -> Seq<char> {
    if line.len() == 25 {
        Seq::empty()
    } else {
        line.subrange(26, line.len() as int)
    }
}

/// Split a log line into its leading TAI64N timestamp and the rest;
/// `None` when the line does not start with a well-formed timestamp.
pub fn parse_timestamp<'a>(line: &'a str) -> (r: Option<(Stamp, &'a str)>)
    ensures
        match r {
            Some((stamp, rest)) => has_stamp(line@) && stamp == stamp_of(line@) && rest@
                == rest_of(line@),
            None => !has_stamp(line@),
        },
{
    let n = line.unicode_len();
    if n < 25 {
        return None;
    }
    if line.get_char(0) != '@' {
        return None;
    }
    let secs = match parse_hex(line, 1, 16) {
        Some(v) => v,
        None => {
            return None;
        },
    };
    let nanos64 = match parse_hex(line, 17, 8) {
        Some(v) => v,
        None => {
            return None;
        },
    };
    proof {
        lemma_hex_seq_val_bound(line@.subrange(17, 25));
        assert(pow16(8) == 0x1_0000_0000) by {
            reveal_with_fuel(pow16, 9);
        }
    }
    if nanos64 >= 1_000_000_000 {
        return None;
    }
    let stamp = Stamp { secs, nanos: nanos64 as u32 };
    if n == 25 {
        let rest = line.substring_char(25, 25);
        assert(rest@ =~= rest_of(line@));
        return Some((stamp, rest));
    }
    if line.get_char(25) != ' ' {
        return None;
    }
    let rest = line.substring_char(26, n);
    Some((stamp, rest))
}

/// The unix-seconds reading of a TAI64 label: the label minus 2^62 and
/// minus the ten-second TAI offset of 1970.
pub open spec fn unix_of_label(secs: u64) -> int {
    secs - 4611686018427387914int
}

/// Convert a TAI64 label to unix seconds.
pub fn label_to_unix(secs: u64) -> (r: i64)
    requires
        secs < 0x8000_0000_0000_0000,
    ensures
        r == unix_of_label(secs),
{
    if secs >= 4611686018427387914 {
        (secs - 4611686018427387914) as i64
    } else {
        let d = 4611686018427387914u64 - secs;
        -(d as i64)
    }
}

/// The UTC calendar date and hour that chrono derives from a unix
/// timestamp: `(year, month, day, hour)`, or `None` when the timestamp
/// lies outside chrono's representable range.
pub uninterp spec fn utc_ymdh_of(unix: i64) -> Option<(int, int, int, int)>;

/// Relies on chrono's `DateTime::<Utc>::from_timestamp` and the
/// `Datelike`/`Timelike` accessors: maps unix seconds to the UTC calendar
/// year, month (1-12), day (1-31) and hour (0-23), a function of the
/// seconds alone, and returns `None` outside chrono's date range.
#[verifier::external_body]
fn utc_ymdh(unix: i64) -> (r: Option<(i32, u32, u32, u32)>)
    ensures
        r is Some <==> utc_ymdh_of(unix) is Some,
        r matches Some(t) ==> utc_ymdh_of(unix) == Some(
            (t.0 as int, t.1 as int, t.2 as int, t.3 as int),
        ),
        r matches Some(t) ==> 1 <= t.1 <= 12 && 1 <= t.2 <= 31 && t.3 < 24,
{
    match chrono::DateTime::from_timestamp(unix, 0) {
        None => None,
        Some(dt) => Some((dt.year(), dt.month(), dt.day(), dt.hour())),
    }
}

/// The UTC date-and-hour bucket of a TAI64N stamp, when representable.
pub open spec fn date_hour_of_stamp(s: Stamp) -> Option<DateHourUtc> {
    if s.secs >= 0x8000_0000_0000_0000 {
        None::<DateHourUtc>
    } else {
        match utc_ymdh_of(unix_of_label(s.secs) as i64) {
            None => None::<DateHourUtc>,
            Some(t) => Some(
                DateHourUtc { year: t.0 as i32, month: t.1 as u8, day: t.2 as u8, hour: t.3 as u8 },
            ),
        }
    }
}

impl Stamp {
    /// The UTC calendar date and hour this stamp falls in, or `None` when
    /// it lies outside the representable range.
    pub fn date_and_hour_utc(&self) -> (r: Option<DateHourUtc>)
        ensures
            r == date_hour_of_stamp(*self),
    {
        if self.secs >= 0x8000_0000_0000_0000 {
            return None;
        }
        let unix = label_to_unix(self.secs);
        match utc_ymdh(unix) {
            None => None,
            Some((y, m, d, h)) => Some(
                DateHourUtc { year: y, month: m as u8, day: d as u8, hour: h as u8 },
            ),
        }
    }
}

} // verus!
