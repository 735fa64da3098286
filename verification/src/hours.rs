//! Groups: maximal runs of slot-records sharing one UTC calendar date
//! and hour, and the hour-equality grouping rules that build them.

use vstd::prelude::*;

use crate::group::runs;
use crate::group::lemma_runs_shape;
use crate::group::GroupError;
use crate::group::GroupRules;
use crate::parser::Datapoint;
use crate::time::DateHourUtc;
use crate::timepoint::tp_date_hour;
use crate::timepoint::Timepoint;
use crate::NUM_INTERFACES;

verus! {

/// A nonempty sequence of slot-records sharing one date-and-hour bucket.
#[derive(Debug)]
pub struct Group(pub Vec<Timepoint>);

impl View for Group {
    type V = Seq<Timepoint>;

    open spec fn view(&self) -> Seq<Timepoint> {
        self.0@
    }
}

/// The first observation for interface `i`, scanning the slot-records
/// from the front.
pub open spec fn first_dp(g: Seq<Timepoint>, i: int) -> Option<Datapoint>
    decreases g.len(),
{
    if g.len() == 0 {
        None
    } else if g[0]@[i] is Some {
        g[0]@[i]
    } else {
        first_dp(g.subrange(1, g.len() as int), i)
    }
}

/// The last observation for interface `i`, scanning the slot-records
/// from the back.
pub open spec fn last_dp(g: Seq<Timepoint>, i: int) -> Option<Datapoint>
    decreases g.len(),
{
    if g.len() == 0 {
        None
    } else if g.last()@[i] is Some {
        g.last()@[i]
    } else {
        last_dp(g.drop_last(), i)
    }
}

/// `t` pins down `first_dp`: everything before `t` is vacant for `i`,
/// and `t` is populated or past the end.
proof fn lemma_first_dp_determined(g: Seq<Timepoint>, i: int, t: int)
    requires
        0 <= t <= g.len(),
        forall|u: int| 0 <= u < t ==> (#[trigger] g[u])@[i] is None,
        t < g.len() ==> g[t]@[i] is Some,
    ensures
        first_dp(g, i) == if t < g.len() {
            g[t]@[i]
        } else {
            None::<Datapoint>
        },
    decreases g.len(),
{
    if g.len() == 0 || g[0]@[i] is Some {
    } else {
        let g1 = g.subrange(1, g.len() as int);
        assert forall|u: int| 0 <= u < t - 1 implies (#[trigger] g1[u])@[i] is None by {
            assert(g1[u] == g[u + 1]);
        }
        assert(t - 1 < g1.len() ==> g1[t - 1]@[i] is Some);
        lemma_first_dp_determined(g1, i, t - 1);
    }
}

/// `t` pins down `last_dp`: everything at `t` and after is vacant for
/// `i`, and the record before `t` is populated unless `t` is zero.
proof fn lemma_last_dp_determined(g: Seq<Timepoint>, i: int, t: int)
    requires
        0 <= t <= g.len(),
        forall|u: int| t <= u < g.len() ==> (#[trigger] g[u])@[i] is None,
        t > 0 ==> g[t - 1]@[i] is Some,
    ensures
        last_dp(g, i) == if t > 0 {
            g[t - 1]@[i]
        } else {
            None::<Datapoint>
        },
    decreases g.len(),
{
    if g.len() == 0 || g.last()@[i] is Some {
    } else {
        let g1 = g.drop_last();
        assert forall|u: int| t <= u < g1.len() implies (#[trigger] g1[u])@[i] is None by {
            assert(g1[u] == g[u]);
        }
        assert(t > 0 ==> g1[t - 1] == g[t - 1]);
        lemma_last_dp_determined(g1, i, t);
    }
}

impl Group {
    /// The group's invariant: nonempty, every slot-record well-formed.
    pub open spec fn wf(self) -> bool {
        &&& self@.len() > 0
        &&& forall|i: int| 0 <= i < self@.len() ==> (#[trigger] self@[i]).wf()
    }

    /// The group's first slot-record.
    pub fn first_timepoint(&self) -> (r: &Timepoint)
        requires
            self.wf(),
        ensures
            *r == self@[0],
    {
        &self.0[0]
    }

    /// The group's last slot-record.
    pub fn last_timepoint(&self) -> (r: &Timepoint)
        requires
            self.wf(),
        ensures
            *r == self@.last(),
    {
        &self.0[self.0.len() - 1]
    }

    /// The first observation for interface `i`, if any slot-record of the
    /// group carries one.
    pub fn first_datapoint(&self, i: usize) -> (r: Option<&Datapoint>)
        requires
            self.wf(),
            i < NUM_INTERFACES,
        ensures
            match r {
                Some(dp) => first_dp(self@, i as int) == Some(*dp),
                None => first_dp(self@, i as int) is None,
            },
    {
        let n = self.0.len();
        let mut t: usize = 0;
        while t < n
            invariant
                0 <= t <= n,
                n == self@.len(),
                self.wf(),
                i < NUM_INTERFACES,
                forall|u: int| 0 <= u < t ==> (#[trigger] self@[u])@[i as int] is None,
            decreases n - t,
        {
            assert(self@[t as int].wf());
            let tp = &self.0[t];
            match tp.get(i) {
                Some(dp) => {
                    proof {
                        lemma_first_dp_determined(self@, i as int, t as int);
                    }
                    return Some(dp);
                },
                None => {
                    t = t + 1;
                },
            }
        }
        proof {
            lemma_first_dp_determined(self@, i as int, n as int);
        }
        None
    }

    /// The last observation for interface `i`, if any slot-record of the
    /// group carries one.
    pub fn last_datapoint(&self, i: usize) -> (r: Option<&Datapoint>)
        requires
            self.wf(),
            i < NUM_INTERFACES,
        ensures
            match r {
                Some(dp) => last_dp(self@, i as int) == Some(*dp),
                None => last_dp(self@, i as int) is None,
            },
    {
        let n = self.0.len();
        let mut t: usize = n;
        while t > 0
            invariant
                0 <= t <= n,
                n == self@.len(),
                self.wf(),
                i < NUM_INTERFACES,
                forall|u: int| t <= u < n ==> (#[trigger] self@[u])@[i as int] is None,
            decreases t,
        {
            assert(self@[t - 1].wf());
            let tp = &self.0[t - 1];
            match tp.get(i) {
                Some(dp) => {
                    proof {
                        lemma_last_dp_determined(self@, i as int, t as int);
                    }
                    return Some(dp);
                },
                None => {
                    t = t - 1;
                },
            }
        }
        proof {
            lemma_last_dp_determined(self@, i as int, 0);
        }
        None
    }
}

/// Law (hour boundary): a slot-record whose UTC date-and-hour bucket
/// differs from the previous one's starts a new group, however close the
/// two lie in time; one with the same bucket joins the previous group.
pub proof fn lemma_hour_boundary(tps: Seq<Timepoint>, tp: Timepoint)
    requires
        tps.len() > 0,
    ensures
        tp_date_hour(tps.last()) != tp_date_hour(tp) ==> runs(HourRules, tps.push(tp)).len()
            == runs(HourRules, tps).len() + 1 && runs(HourRules, tps.push(tp)).last() == seq![tp],
        tp_date_hour(tps.last()) == tp_date_hour(tp) ==> runs(HourRules, tps.push(tp)).len()
            == runs(HourRules, tps).len() && runs(HourRules, tps.push(tp)).last() == runs(
            HourRules,
            tps,
        ).last().push(tp),
{
    assert(tps.push(tp).drop_last() =~= tps);
    assert(tps.push(tp)[tps.push(tp).len() - 2] == tps.last());
    lemma_runs_shape(HourRules, tps);
}

/// Second grouping instantiation: slot-records with exactly equal UTC
/// date-and-hour buckets form one group.
pub struct HourRules;

impl GroupRules for HourRules {
    type Elem = Timepoint;

    type Key = DateHourUtc;

    type Out = Group;

    open spec fn elem_inv(&self, e: Timepoint) -> bool {
        e.wf()
    }

    open spec fn key_spec(&self, e: Timepoint) -> DateHourUtc {
        tp_date_hour(e)
    }

    open spec fn adjacent_spec(&self, a: DateHourUtc, b: DateHourUtc) -> bool {
        a == b
    }

    open spec fn finish_rel(&self, elems: Seq<Timepoint>, out: Result<Group, GroupError>) -> bool {
        out matches Ok(g) && g@ == elems && g.wf()
    }

    fn key(&self, e: &Timepoint) -> (k: DateHourUtc)
        ensures
            k == self.key_spec(*e),
    {
        e.date_and_hour()
    }

    fn adjacent(&self, a: &DateHourUtc, b: &DateHourUtc) -> (r: bool)
        ensures
            r == self.adjacent_spec(*a, *b),
    {
        *a == *b
    }

    fn finish(&self, elems: Vec<Timepoint>) -> (g: Result<Group, GroupError>)
        ensures
            self.finish_rel(elems@, g),
    {
        Ok(Group(elems))
    }
}

} // verus!
