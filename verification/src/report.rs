//! Row layout of the TSV report: decimal rendering of the counters and
//! the assembly of one row per diffed interface, with the cross-interface
//! hourly total.

use vstd::prelude::*;
use vstd::string::StringExecFns;
use vstd::string::StrSliceExecFns;

use crate::diff::diff_at;
use crate::diff::diff_pairs_upto;
use crate::diff::lemma_dp_lookup_wf;
use crate::diff::warns_upto;
use crate::diff::DiffWarning;
use crate::hours::first_dp;
use crate::hours::Group;
use crate::iface::WireguardInterface;
use crate::timepoint::Timepoint;
use crate::transfer::Transfer;
use crate::NUM_INTERFACES;

verus! {

/// The character of one decimal digit.
pub open spec fn digit_char(d: int) -> char {
    if d == 0 {
        '0'
    } else if d == 1 {
        '1'
    } else if d == 2 {
        '2'
    } else if d == 3 {
        '3'
    } else if d == 4 {
        '4'
    } else if d == 5 {
        '5'
    } else if d == 6 {
        '6'
    } else if d == 7 {
        '7'
    } else if d == 8 {
        '8'
    } else {
        '9'
    }
}

/// The decimal rendering of `n`, most significant digit first, without
/// leading zeros.
pub open spec fn dec_str(n: int) -> Seq<char>
    decreases n,
{
    if n < 10 {
        seq![digit_char(n)]
    } else {
        dec_str(n / 10).push(digit_char(n % 10))
    }
}

/// The string of one decimal digit.
fn digit_str(d: usize) -> (r: &'static str)
    requires
        d < 10,
    ensures
        r@ == seq![digit_char(d as int)],
{
    if d == 0 {
        proof {
            reveal_strlit("0");
            assert("0"@ =~= seq![digit_char(0)]);
        }
        "0"
    } else if d == 1 {
        proof {
            reveal_strlit("1");
            assert("1"@ =~= seq![digit_char(1)]);
        }
        "1"
    } else if d == 2 {
        proof {
            reveal_strlit("2");
            assert("2"@ =~= seq![digit_char(2)]);
        }
        "2"
    } else if d == 3 {
        proof {
            reveal_strlit("3");
            assert("3"@ =~= seq![digit_char(3)]);
        }
        "3"
    } else if d == 4 {
        proof {
            reveal_strlit("4");
            assert("4"@ =~= seq![digit_char(4)]);
        }
        "4"
    } else if d == 5 {
        proof {
            reveal_strlit("5");
            assert("5"@ =~= seq![digit_char(5)]);
        }
        "5"
    } else if d == 6 {
        proof {
            reveal_strlit("6");
            assert("6"@ =~= seq![digit_char(6)]);
        }
        "6"
    } else if d == 7 {
        proof {
            reveal_strlit("7");
            assert("7"@ =~= seq![digit_char(7)]);
        }
        "7"
    } else if d == 8 {
        proof {
            reveal_strlit("8");
            assert("8"@ =~= seq![digit_char(8)]);
        }
        "8"
    } else {
        proof {
            reveal_strlit("9");
            assert("9"@ =~= seq![digit_char(9)]);
        }
        "9"
    }
}

/// Render `n` in decimal.
pub fn usize_to_string(n: usize) -> (s: String)
    ensures
        s@ == dec_str(n as int),
    decreases n,
{
    if n < 10 {
        digit_str(n).to_owned()
    } else {
        let mut s = usize_to_string(n / 10);
        s.append(digit_str(n % 10));
        proof {
            assert(s@ =~= dec_str(n as int));
        }
        s
    }
}

/// The tab separating the report's columns.
pub open spec fn tab() -> Seq<char> {
    seq!['\t']
}

fn tab_str() -> (r: &'static str)
    ensures
        r@ == tab(),
{
    proof {
        reveal_strlit("\t");
        assert("\t"@ =~= tab());
    }
    "\t"
}

/// One reporting record: a time label, the cumulative counters at the
/// group's start, the hourly deltas, and the cross-interface total that
/// the row assembly fills in.
#[derive(Debug)]
pub struct Row {
    pub time: String,
    pub received_cum: usize,
    pub sent_cum: usize,
    pub received_hour: usize,
    pub sent_hour: usize,
    pub total_all_ifaces_hour: Option<usize>,
}

/// The header every report file starts with.
pub open spec fn header_line() -> Seq<char> {
    "time\treceived B\tsent B\treceived B/hour\tsent B/hour\ttotal B/hour\tall interfaces B/hour"@
}

/// How a row renders: its columns tab-separated, the sixth the row's own
/// hourly total.
pub open spec fn row_line(r: Row) -> Seq<char> {
    r.time@ + tab() + dec_str(r.received_cum as int) + tab() + dec_str(r.sent_cum as int) + tab()
        + dec_str(r.received_hour as int) + tab() + dec_str(r.sent_hour as int) + tab() + dec_str(
        r.received_hour + r.sent_hour,
    ) + tab() + dec_str(r.total_all_ifaces_hour.unwrap() as int)
}

impl Row {
    /// The header row, identical in every file.
    pub fn write_header() -> (line: String)
        ensures
            line@ == header_line(),
    {
        String::from_str(
            "time\treceived B\tsent B\treceived B/hour\tsent B/hour\ttotal B/hour\tall interfaces B/hour",
        )
    }

    /// Render this row as one tab-separated line. The caller must have
    /// filled in the cross-interface total.
    pub fn write(&self) -> (line: String)
        requires
            self.total_all_ifaces_hour is Some,
            self.received_hour + self.sent_hour <= usize::MAX,
        ensures
            line@ == row_line(*self),
    {
        let mut s = self.time.clone();
        s.append(tab_str());
        s.append(usize_to_string(self.received_cum).as_str());
        s.append(tab_str());
        s.append(usize_to_string(self.sent_cum).as_str());
        s.append(tab_str());
        s.append(usize_to_string(self.received_hour).as_str());
        s.append(tab_str());
        s.append(usize_to_string(self.sent_hour).as_str());
        s.append(tab_str());
        s.append(usize_to_string(self.received_hour + self.sent_hour).as_str());
        s.append(tab_str());
        let total = match self.total_all_ifaces_hour {
            Some(t) => t,
            None => {
                proof {
                    assert(false);
                }
                0
            },
        };
        s.append(usize_to_string(total).as_str());
        s
    }
}

/// Structural failures of the row assembly: these abort the run.
#[derive(Clone, Copy, Debug, PartialEq, Eq, Structural)]
pub enum ReportError {
    /// The cross-interface hourly total does not fit the machine.
    TotalOverflow,
}

/// The sum of all emitted deltas' received and sent bytes.
pub open spec fn pairs_total(ps: Seq<(WireguardInterface, Transfer)>) -> int
    decreases ps.len(),
{
    if ps.len() == 0 {
        0
    } else {
        pairs_total(ps.drop_last()) + ps.last().1.received + ps.last().1.sent
    }
}

/// A prefix of the pairs never sums to more than the whole.
proof fn lemma_pairs_total_prefix(ps: Seq<(WireguardInterface, Transfer)>, k: int)
    requires
        0 <= k <= ps.len(),
    ensures
        pairs_total(ps.subrange(0, k)) <= pairs_total(ps),
        pairs_total(ps) >= 0,
    decreases ps.len(),
{
    if ps.len() == 0 {
        assert(ps.subrange(0, k) =~= ps);
    } else {
        lemma_pairs_total_prefix(ps.drop_last(), if k < ps.len() {
            k
        } else {
            ps.len() - 1
        });
        if k < ps.len() {
            assert(ps.subrange(0, k) =~= ps.drop_last().subrange(0, k));
        } else {
            assert(ps.subrange(0, k) =~= ps);
        }
    }
}

/// Every diff pair carries the ordinal it was emitted for, its delta,
/// and counters that can be totalled.
pub proof fn lemma_diff_pairs_props(g: Seq<Timepoint>, prev: Option<Seq<Timepoint>>, n: int)
    requires
        forall|t: int| 0 <= t < g.len() ==> (#[trigger] g[t]).wf(),
        prev matches Some(p) ==> forall|t: int| 0 <= t < p.len() ==> (#[trigger] p[t]).wf(),
        0 <= n <= NUM_INTERFACES,
    ensures
        forall|k: int|
            0 <= k < diff_pairs_upto(g, prev, n).len() ==> {
                let (wi, d) = #[trigger] diff_pairs_upto(g, prev, n)[k];
                &&& wi.0 < n
                &&& diff_at(g, prev, wi.0 as int) == Some(d)
                &&& d.received + d.sent <= usize::MAX
                &&& first_dp(g, wi.0 as int) is Some
            },
    decreases n,
{
    if n > 0 {
        lemma_diff_pairs_props(g, prev, n - 1);
        lemma_dp_lookup_wf(g, n - 1);
        match prev {
            Some(p) => lemma_dp_lookup_wf(p, n - 1),
            None => (),
        }
    }
}

/// Build the report rows of one group: one row per diffed interface,
/// with the cross-interface total filled in, and the warnings met on the
/// way. Fails only when that total exceeds the machine.
pub fn rows_for_group(group: &Group, previous: Option<&Group>, time: &str) -> (r: Result<
    (Vec<(u16, Row)>, Vec<DiffWarning>),
    ReportError,
>)
    requires
        group.wf(),
        previous matches Some(p) ==> p.wf(),
    ensures
        ({
            let prev = match previous {
                Some(p) => Some(p@),
                None => None::<Seq<Timepoint>>,
            };
            let pairs = diff_pairs_upto(group@, prev, NUM_INTERFACES as int);
            match r {
                Ok((rows, warns)) => {
                    &&& pairs_total(pairs) <= usize::MAX
                    &&& warns@ == warns_upto(group@, prev, NUM_INTERFACES as int)
                    &&& rows@.len() == pairs.len()
                    &&& forall|k: int|
                        0 <= k < pairs.len() ==> {
                            let row = (#[trigger] rows@[k]).1;
                            &&& rows@[k].0 == pairs[k].0.0
                            &&& row.time@ == time@
                            &&& row.received_cum == first_dp(
                                group@,
                                pairs[k].0.0 as int,
                            ).unwrap().transfer.received
                            &&& row.sent_cum == first_dp(
                                group@,
                                pairs[k].0.0 as int,
                            ).unwrap().transfer.sent
                            &&& row.received_hour == pairs[k].1.received
                            &&& row.sent_hour == pairs[k].1.sent
                            &&& row.total_all_ifaces_hour == Some(pairs_total(pairs) as usize)
                        }
                },
                Err(e) => e == ReportError::TotalOverflow && pairs_total(pairs) > usize::MAX,
            }
        }),
{
    let ghost prev = match previous {
        Some(p) => Some(p@),
        None => None::<Seq<Timepoint>>,
    };
    let (pairs, warns) = group.transfer_diffs(previous);
    proof {
        lemma_diff_pairs_props(group@, prev, NUM_INTERFACES as int);
    }
    let mut total: usize = 0;
    let mut k: usize = 0;
    while k < pairs.len()
        invariant
            0 <= k <= pairs@.len(),
            prev == match previous {
                Some(p) => Some(p@),
                None => None::<Seq<Timepoint>>,
            },
            pairs@ == diff_pairs_upto(group@, prev, NUM_INTERFACES as int),
            forall|j: int|
                0 <= j < pairs@.len() ==> (#[trigger] pairs@[j]).1.received + pairs@[j].1.sent
                    <= usize::MAX,
            total == pairs_total(pairs@.subrange(0, k as int)),
        decreases pairs@.len() - k,
    {
        let d = pairs[k].1;
        let dt = d.total();
        proof {
            assert(pairs@.subrange(0, k + 1).drop_last() =~= pairs@.subrange(0, k as int));
            lemma_pairs_total_prefix(pairs@, k + 1);
        }
        if dt > usize::MAX - total {
            return Err(ReportError::TotalOverflow);
        }
        total = total + dt;
        k = k + 1;
    }
    proof {
        assert(pairs@.subrange(0, pairs@.len() as int) =~= pairs@);
    }
    let mut rows: Vec<(u16, Row)> = Vec::new();
    let mut k: usize = 0;
    while k < pairs.len()
        invariant
            0 <= k <= pairs@.len(),
            group.wf(),
            prev == match previous {
                Some(p) => Some(p@),
                None => None::<Seq<Timepoint>>,
            },
            pairs@ == diff_pairs_upto(group@, prev, NUM_INTERFACES as int),
            total == pairs_total(pairs@),
            rows@.len() == k,
            forall|j: int|
                0 <= j < pairs@.len() ==> {
                    let (wi, d) = #[trigger] pairs@[j];
                    &&& wi.0 < NUM_INTERFACES
                    &&& first_dp(group@, wi.0 as int) is Some
                },
            forall|j: int|
                0 <= j < k ==> {
                    let row = (#[trigger] rows@[j]).1;
                    &&& rows@[j].0 == pairs@[j].0.0
                    &&& row.time@ == time@
                    &&& row.received_cum == first_dp(
                        group@,
                        pairs@[j].0.0 as int,
                    ).unwrap().transfer.received
                    &&& row.sent_cum == first_dp(
                        group@,
                        pairs@[j].0.0 as int,
                    ).unwrap().transfer.sent
                    &&& row.received_hour == pairs@[j].1.received
                    &&& row.sent_hour == pairs@[j].1.sent
                    &&& row.total_all_ifaces_hour == Some(total as usize)
                },
        decreases pairs@.len() - k,
    {
        let (wi, d) = pairs[k];
        let f = match group.first_datapoint(wi.0 as usize) {
            Some(f) => f,
            None => {
                proof {
                    assert(false);
                }
                return Err(ReportError::TotalOverflow);
            },
        };
        let row = Row {
            time: time.to_owned(),
            received_cum: f.transfer.received,
            sent_cum: f.transfer.sent,
            received_hour: d.received,
            sent_hour: d.sent,
            total_all_ifaces_hour: Some(total),
        };
        rows.push((wi.0, row));
        k = k + 1;
    }
    Ok((rows, warns))
}

} // verus!
