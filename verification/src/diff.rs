//! The diff engine: per-interface hourly byte deltas from cumulative
//! counters, with carry-over from the immediately preceding group when
//! it lies less than an hour back.

use vstd::prelude::*;

use crate::hours::first_dp;
use crate::hours::last_dp;
use crate::hours::Group;
use crate::iface::WireguardInterface;
use crate::parser::dp_wf;
use crate::parser::Datapoint;
use crate::time::Stamp;
use crate::timepoint::first_some;
use crate::timepoint::Timepoint;
use crate::transfer::CounterDecrease;
use crate::transfer::Transfer;
use crate::NUM_INTERFACES;

verus! {

/// Carry-over is allowed while the previous group ended less than this
/// many seconds before the current one began.
pub const CARRY_WINDOW_SECONDS: u64 = 3600;

/// The whole seconds of a slot-record: those of its first populated
/// slot's timestamp.
pub open spec fn tp_secs(tp: Timepoint) -> u64 {
    tp@[first_some(tp@)].unwrap().timestamp.secs
}

/// The timestamp of a slot-record: that of its first populated slot.
pub open spec fn tp_stamp(tp: Timepoint) -> Stamp {
    tp@[first_some(tp@)].unwrap().timestamp
}

/// Cross-group consistency warnings: the affected diff is skipped and
/// the run goes on.
#[derive(Clone, Copy, Debug, PartialEq, Eq, Structural)]
pub enum DiffWarning {
    /// The previous group ends after the current one begins.
    ClockRegression { prev_last: Stamp, cur_first: Stamp },
    /// A cumulative counter decreased between the start and end
    /// observation of one interface.
    CounterDecreased {
        interface: WireguardInterface,
        start: Transfer,
        end: Transfer,
        component: CounterDecrease,
    },
}

/// Does the time gap from the previous group's last slot-record to the
/// current group's first allow carry-over: non-negative and strictly
/// under an hour?
pub open spec fn gap_ok(prev: Seq<Timepoint>, cur: Seq<Timepoint>) -> bool {
    let l = tp_secs(prev.last());
    let f = tp_secs(cur[0]);
    f >= l && f - l < CARRY_WINDOW_SECONDS
}

/// Is the gap negative: the previous group's last slot-record lies after
/// the current group's first?
pub open spec fn gap_regressed(prev: Seq<Timepoint>, cur: Seq<Timepoint>) -> bool {
    tp_secs(cur[0]) < tp_secs(prev.last())
}

/// The start observation for interface `i`: the previous group's last,
/// when a previous group exists, holds one for `i` and lies within the
/// carry window; else the current group's first.
pub open spec fn start_dp(g: Seq<Timepoint>, prev: Option<Seq<Timepoint>>, i: int) -> Option<
    Datapoint,
> {
    match prev {
        Some(p) => {
            if gap_ok(p, g) && last_dp(p, i) is Some {
                last_dp(p, i)
            } else {
                first_dp(g, i)
            }
        },
        None => first_dp(g, i),
    }
}

/// The delta emitted for interface `i`, when start and end observations
/// exist and no counter decreased.
pub open spec fn diff_at(g: Seq<Timepoint>, prev: Option<Seq<Timepoint>>, i: int) -> Option<
    Transfer,
> {
    match start_dp(g, prev, i) {
        None => None,
        Some(s) => match last_dp(g, i) {
            None => None,
            Some(e) => {
                if s.transfer.received <= e.transfer.received && s.transfer.sent
                    <= e.transfer.sent {
                    Some(
                        Transfer {
                            received: (e.transfer.received - s.transfer.received) as usize,
                            sent: (e.transfer.sent - s.transfer.sent) as usize,
                        },
                    )
                } else {
                    None
                }
            },
        },
    }
}

/// The warnings interface `i` contributes: a clock regression stops the
/// carry-over, a decreased counter stops the diff.
pub open spec fn warns_at(g: Seq<Timepoint>, prev: Option<Seq<Timepoint>>, i: int) -> Seq<
    DiffWarning,
> {
    let regression: Seq<DiffWarning> = match prev {
        Some(p) => {
            if gap_regressed(p, g) {
                seq![
                    DiffWarning::ClockRegression {
                        prev_last: tp_stamp(p.last()),
                        cur_first: tp_stamp(g[0]),
                    },
                ]
            } else {
                Seq::empty()
            }
        },
        None => Seq::empty(),
    };
    let decrease: Seq<DiffWarning> = match start_dp(g, prev, i) {
        None => Seq::empty(),
        Some(s) => match last_dp(g, i) {
            None => Seq::empty(),
            Some(e) => {
                if s.transfer.received > e.transfer.received {
                    seq![
                        DiffWarning::CounterDecreased {
                            interface: WireguardInterface(i as u16),
                            start: s.transfer,
                            end: e.transfer,
                            component: CounterDecrease::Received,
                        },
                    ]
                } else if s.transfer.sent > e.transfer.sent {
                    seq![
                        DiffWarning::CounterDecreased {
                            interface: WireguardInterface(i as u16),
                            start: s.transfer,
                            end: e.transfer,
                            component: CounterDecrease::Sent,
                        },
                    ]
                } else {
                    Seq::empty()
                }
            },
        },
    };
    regression + decrease
}

/// The diff pairs of the interfaces below `n`, in ascending ordinal
/// order.
pub open spec fn diff_pairs_upto(g: Seq<Timepoint>, prev: Option<Seq<Timepoint>>, n: int) -> Seq<
    (WireguardInterface, Transfer),
>
    decreases n,
{
    if n <= 0 {
        Seq::empty()
    } else {
        let p = diff_pairs_upto(g, prev, n - 1);
        match diff_at(g, prev, n - 1) {
            Some(d) => p.push((WireguardInterface((n - 1) as u16), d)),
            None => p,
        }
    }
}

/// The warnings of the interfaces below `n`, in ascending ordinal order.
pub open spec fn warns_upto(g: Seq<Timepoint>, prev: Option<Seq<Timepoint>>, n: int) -> Seq<
    DiffWarning,
>
    decreases n,
{
    if n <= 0 {
        Seq::empty()
    } else {
        warns_upto(g, prev, n - 1) + warns_at(g, prev, n - 1)
    }
}

/// An observation found for interface `i` in a group of well-formed
/// slot-records carries ordinal `i` and totalable counters.
pub proof fn lemma_dp_lookup_wf(g: Seq<Timepoint>, i: int)
    requires
        forall|t: int| 0 <= t < g.len() ==> (#[trigger] g[t]).wf(),
        0 <= i < NUM_INTERFACES,
    ensures
        first_dp(g, i) matches Some(dp) ==> dp.interface.0 == i && dp_wf(dp),
        last_dp(g, i) matches Some(dp) ==> dp.interface.0 == i && dp_wf(dp),
        first_dp(g, i) is Some <==> last_dp(g, i) is Some,
    decreases g.len(),
{
    if g.len() == 0 {
    } else {
        let g1 = g.subrange(1, g.len() as int);
        let g2 = g.drop_last();
        assert forall|t: int| 0 <= t < g1.len() implies (#[trigger] g1[t]).wf() by {
            assert(g1[t] == g[t + 1]);
        }
        assert forall|t: int| 0 <= t < g2.len() implies (#[trigger] g2[t]).wf() by {
            assert(g2[t] == g[t]);
        }
        lemma_dp_lookup_wf(g1, i);
        lemma_dp_lookup_wf(g2, i);
        assert(g[0].wf());
        assert(g.last().wf());
        if g.len() == 1 {
            assert(g[0] == g.last());
        } else {
            assert(g1.last() == g.last());
            assert(g2[0] == g[0]);
            lemma_dp_exists(g, i);
        }
    }
}

/// Both lookups find an observation for `i` exactly when some slot-record
/// of the group holds one.
proof fn lemma_dp_exists(g: Seq<Timepoint>, i: int)
    requires
        g.len() >= 1,
    ensures
        last_dp(g, i) is Some <==> exists|t: int| 0 <= t < g.len() && (#[trigger] g[t])@[i] is Some,
        first_dp(g, i) is Some <==> exists|t: int|
            0 <= t < g.len() && (#[trigger] g[t])@[i] is Some,
    decreases g.len(),
{
    if g.len() == 1 {
        assert(g[0] == g.last());
    } else {
        let g1 = g.subrange(1, g.len() as int);
        let g2 = g.drop_last();
        lemma_dp_exists(g1, i);
        lemma_dp_exists(g2, i);
        assert(g1.last() == g.last());
        if last_dp(g, i) is Some {
            if g.last()@[i] is Some {
                assert(g[g.len() - 1]@[i] is Some);
            } else {
                let t = choose|t: int| 0 <= t < g2.len() && (#[trigger] g2[t])@[i] is Some;
                assert(g[t]@[i] is Some);
            }
        }
        if exists|t: int| 0 <= t < g.len() && (#[trigger] g[t])@[i] is Some {
            let t = choose|t: int| 0 <= t < g.len() && (#[trigger] g[t])@[i] is Some;
            if t < g.len() - 1 {
                assert(g2[t]@[i] is Some);
            }
        }
        if first_dp(g, i) is Some {
            if g[0]@[i] is Some {
            } else {
                let t = choose|t: int| 0 <= t < g1.len() && (#[trigger] g1[t])@[i] is Some;
                assert(g[t + 1]@[i] is Some);
            }
        }
        if exists|t: int| 0 <= t < g.len() && (#[trigger] g[t])@[i] is Some {
            let t = choose|t: int| 0 <= t < g.len() && (#[trigger] g[t])@[i] is Some;
            if t > 0 {
                assert(g1[t - 1]@[i] is Some);
            }
        }
    }
}

/// Law (diff correctness): when the previous group lies within the carry
/// window and holds a last observation for interface `i`, and the group
/// holds a last observation for `i` with counters no lower, the diff
/// emitted for `i` is the component-wise difference of the two transfers;
/// a decreased component suppresses the diff and contributes exactly one
/// warning.
pub proof fn lemma_diff_correctness(g: Seq<Timepoint>, p: Seq<Timepoint>, i: int)
    requires
        g.len() > 0,
        p.len() > 0,
        gap_ok(p, g),
        last_dp(p, i) is Some,
        last_dp(g, i) is Some,
    ensures
        ({
            let s = last_dp(p, i).unwrap();
            let e = last_dp(g, i).unwrap();
            &&& (s.transfer.received <= e.transfer.received && s.transfer.sent
                <= e.transfer.sent ==> diff_at(g, Some(p), i) == Some(
                Transfer {
                    received: (e.transfer.received - s.transfer.received) as usize,
                    sent: (e.transfer.sent - s.transfer.sent) as usize,
                },
            ) && warns_at(g, Some(p), i).len() == 0)
            &&& ((s.transfer.received > e.transfer.received || s.transfer.sent
                > e.transfer.sent) ==> diff_at(g, Some(p), i) is None && warns_at(
                g,
                Some(p),
                i,
            ).len() == 1)
        }),
{
}

/// Sequences of slot-records with the same models have the same
/// observation lookups.
pub proof fn lemma_lookup_model_determined(g1: Seq<Timepoint>, g2: Seq<Timepoint>, i: int)
    requires
        g1.len() == g2.len(),
        forall|k: int| 0 <= k < g1.len() ==> (#[trigger] g1[k])@ == g2[k]@,
    ensures
        first_dp(g1, i) == first_dp(g2, i),
        last_dp(g1, i) == last_dp(g2, i),
    decreases g1.len(),
{
    if g1.len() == 0 {
    } else {
        let a1 = g1.subrange(1, g1.len() as int);
        let a2 = g2.subrange(1, g2.len() as int);
        assert forall|k: int| 0 <= k < a1.len() implies (#[trigger] a1[k])@ == a2[k]@ by {
            assert(a1[k] == g1[k + 1] && a2[k] == g2[k + 1]);
        }
        lemma_lookup_model_determined(a1, a2, i);
        let b1 = g1.drop_last();
        let b2 = g2.drop_last();
        assert forall|k: int| 0 <= k < b1.len() implies (#[trigger] b1[k])@ == b2[k]@ by {
            assert(b1[k] == g1[k] && b2[k] == g2[k]);
        }
        lemma_lookup_model_determined(b1, b2, i);
        assert(g1[0]@ == g2[0]@);
        assert(g1.last()@ == g2.last()@);
    }
}

/// Whether two optional previous groups have the same models.
pub open spec fn models_agree(a: Option<Seq<Timepoint>>, b: Option<Seq<Timepoint>>) -> bool {
    match (a, b) {
        (Some(p1), Some(p2)) => p1.len() == p2.len() && forall|k: int|
            0 <= k < p1.len() ==> (#[trigger] p1[k])@ == p2[k]@,
        (None, None) => true,
        _ => false,
    }
}

/// Law (determinism): the diff pairs and warnings of a group are a
/// function of the slot-record models alone; two groups with the same
/// models, against previous groups with the same models, diff alike.
pub proof fn lemma_diffs_model_determined(
    g1: Seq<Timepoint>,
    prev1: Option<Seq<Timepoint>>,
    g2: Seq<Timepoint>,
    prev2: Option<Seq<Timepoint>>,
    n: int,
)
    requires
        g1.len() == g2.len(),
        g1.len() > 0,
        forall|k: int| 0 <= k < g1.len() ==> (#[trigger] g1[k])@ == g2[k]@,
        models_agree(prev1, prev2),
    ensures
        diff_pairs_upto(g1, prev1, n) == diff_pairs_upto(g2, prev2, n),
        warns_upto(g1, prev1, n) == warns_upto(g2, prev2, n),
    decreases n,
{
    if n > 0 {
        lemma_diffs_model_determined(g1, prev1, g2, prev2, n - 1);
        lemma_lookup_model_determined(g1, g2, n - 1);
        match (prev1, prev2) {
            (Some(p1), Some(p2)) => {
                lemma_lookup_model_determined(p1, p2, n - 1);
                if p1.len() == 0 {
                    assert(p1 =~= p2);
                } else {
                    assert(p1.last()@ == p2.last()@);
                }
                assert(tp_secs(p1.last()) == tp_secs(p2.last()));
                assert(tp_stamp(p1.last()) == tp_stamp(p2.last()));
                assert(g1[0]@ == g2[0]@);
                assert(tp_secs(g1[0]) == tp_secs(g2[0]));
                assert(tp_stamp(g1[0]) == tp_stamp(g2[0]));
                assert(gap_regressed(p1, g1) == gap_regressed(p2, g2));
                assert(gap_ok(p1, g1) == gap_ok(p2, g2));
            },
            _ => {},
        }
        assert(diff_at(g1, prev1, n - 1) == diff_at(g2, prev2, n - 1));
        assert(warns_at(g1, prev1, n - 1) =~= warns_at(g2, prev2, n - 1));
        assert(warns_upto(g1, prev1, n) =~= warns_upto(g2, prev2, n));
    }
}

impl Group {
    /// Per-interface hourly deltas of this group against the optional
    /// immediately preceding one, in ascending ordinal order, together
    /// with the consistency warnings met on the way.
    pub fn transfer_diffs(&self, previous: Option<&Group>) -> (r: (
        Vec<(WireguardInterface, Transfer)>,
        Vec<DiffWarning>,
    ))
        requires
            self.wf(),
            previous matches Some(p) ==> p.wf(),
        ensures
            ({
                let prev = match previous {
                    Some(p) => Some(p@),
                    None => None::<Seq<Timepoint>>,
                };
                &&& r.0@ == diff_pairs_upto(self@, prev, NUM_INTERFACES as int)
                &&& r.1@ == warns_upto(self@, prev, NUM_INTERFACES as int)
            }),
    {
        let ghost prev = match previous {
            Some(p) => Some(p@),
            None => None::<Seq<Timepoint>>,
        };
        let mut pairs: Vec<(WireguardInterface, Transfer)> = Vec::new();
        let mut warns: Vec<DiffWarning> = Vec::new();
        let mut i: usize = 0;
        while i < NUM_INTERFACES
            invariant
                0 <= i <= NUM_INTERFACES,
                self.wf(),
                previous matches Some(p) ==> p.wf(),
                prev == match previous {
                    Some(p) => Some(p@),
                    None => None::<Seq<Timepoint>>,
                },
                pairs@ == diff_pairs_upto(self@, prev, i as int),
                warns@ == warns_upto(self@, prev, i as int),
            decreases NUM_INTERFACES - i,
        {
            let start: Option<&Datapoint> = match previous {
                Some(pg) => {
                    let l = pg.last_timepoint();
                    let f = self.first_timepoint();
                    let ls = l.timestamp_seconds();
                    let fs = f.timestamp_seconds();
                    if fs >= ls {
                        if fs - ls < CARRY_WINDOW_SECONDS {
                            match pg.last_datapoint(i) {
                                Some(dp) => Some(dp),
                                None => self.first_datapoint(i),
                            }
                        } else {
                            self.first_datapoint(i)
                        }
                    } else {
                        warns.push(
                            DiffWarning::ClockRegression {
                                prev_last: *l.timestamp(),
                                cur_first: *f.timestamp(),
                            },
                        );
                        self.first_datapoint(i)
                    }
                },
                None => self.first_datapoint(i),
            };
            assert(match start {
                Some(dp) => start_dp(self@, prev, i as int) == Some(*dp),
                None => start_dp(self@, prev, i as int) is None,
            });
            if let Some(s) = start {
                if let Some(e) = self.last_datapoint(i) {
                    match e.transfer.sub(&s.transfer) {
                        Ok(d) => {
                            pairs.push((WireguardInterface(i as u16), d));
                        },
                        Err(component) => {
                            warns.push(
                                DiffWarning::CounterDecreased {
                                    interface: WireguardInterface(i as u16),
                                    start: s.transfer,
                                    end: e.transfer,
                                    component,
                                },
                            );
                        },
                    }
                }
            }
            proof {
                assert(pairs@ =~= diff_pairs_upto(self@, prev, i + 1));
                assert(warns@ =~= warns_upto(self@, prev, i + 1));
            }
            i = i + 1;
        }
        (pairs, warns)
    }
}

} // verus!
