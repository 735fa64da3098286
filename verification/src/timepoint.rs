//! Slot-records: the observations judged to represent one instant, held
//! one per interface ordinal, and the eight-second grouping rules that
//! build them.

use vstd::prelude::*;

use crate::group::runs;
use crate::group::lemma_runs_shape;
use crate::group::GroupError;
use crate::group::GroupRules;
use crate::numbers::numbers_within;
use crate::numbers::within;
use crate::parser::dp_wf;
use crate::parser::Datapoint;
use crate::time::DateHourUtc;
use crate::time::Stamp;
use crate::NUM_INTERFACES;

verus! {

/// The slots of an empty slot-record: one vacant slot per interface.
pub open spec fn empty_slots() -> Seq<Option<Datapoint>> {
    Seq::new(NUM_INTERFACES as nat, |i: int| None::<Datapoint>)
}

/// Fold observations into interface slots: each goes into the slot of
/// its ordinal; an ordinal out of range or an occupied slot is a fatal
/// structural error.
pub open spec fn insert_seq(slots: Seq<Option<Datapoint>>, s: Seq<Datapoint>) -> Result<
    Seq<Option<Datapoint>>,
    GroupError,
>
    decreases s.len(),
{
    if s.len() == 0 {
        Ok(slots)
    } else {
        let dp = s[0];
        if dp.interface.0 >= slots.len() {
            Err(GroupError::OrdinalOutOfRange)
        } else if slots[dp.interface.0 as int] is Some {
            Err(GroupError::DuplicateSlot)
        } else {
            insert_seq(slots.update(dp.interface.0 as int, Some(dp)), s.subrange(1, s.len() as int))
        }
    }
}

/// What a run of observations becomes: its slots, or the structural
/// error; an empty run is itself an error.
pub open spec fn timepoint_from_seq(s: Seq<Datapoint>) -> Result<Seq<Option<Datapoint>>, GroupError> {
    if s.len() == 0 {
        Err(GroupError::Empty)
    } else {
        insert_seq(empty_slots(), s)
    }
}

/// A fixed-size record of at most one observation per interface ordinal,
/// all representing the same instant within tolerance.
#[derive(Debug)]
pub struct Timepoint(pub Vec<Option<Datapoint>>);

impl View for Timepoint {
    type V = Seq<Option<Datapoint>>;

    open spec fn view(&self) -> Seq<Option<Datapoint>> {
        self.0@
    }
}

/// Index of the first populated slot, or the slot count when all are
/// vacant.
pub open spec fn first_some(slots: Seq<Option<Datapoint>>) -> int
    decreases slots.len(),
{
    if slots.len() == 0 {
        0
    } else if slots[0] is Some {
        0
    } else {
        1 + first_some(slots.subrange(1, slots.len() as int))
    }
}

/// `k` is the first populated slot exactly when everything before it is
/// vacant and it is populated or past the end.
pub proof fn lemma_first_some_determined(slots: Seq<Option<Datapoint>>, k: int)
    requires
        0 <= k <= slots.len(),
        forall|j: int| 0 <= j < k ==> slots[j] is None,
        k < slots.len() ==> slots[k] is Some,
    ensures
        k == first_some(slots),
    decreases slots.len(),
{
    if slots.len() == 0 || slots[0] is Some {
    } else {
        let s1 = slots.subrange(1, slots.len() as int);
        assert forall|j: int| 0 <= j < k - 1 implies s1[j] is None by {
            assert(s1[j] == slots[j + 1]);
        }
        assert(k - 1 < s1.len() ==> s1[k - 1] is Some);
        lemma_first_some_determined(s1, k - 1);
    }
}

impl Timepoint {
    /// The record's invariant: one slot per configured interface, at
    /// least one populated, each populated slot holding an observation of
    /// its own ordinal whose counters can be totalled.
    pub open spec fn wf(self) -> bool {
        &&& self@.len() == NUM_INTERFACES
        &&& first_some(self@) < self@.len()
        &&& forall|i: int|
            0 <= i < self@.len() && self@[i] is Some ==> (#[trigger] self@[i]).unwrap().interface.0
                == i && dp_wf(self@[i].unwrap())
    }

    /// The observation in slot `i`, when there is one.
    pub fn get(&self, i: usize) -> (r: Option<&Datapoint>)
        ensures
            match r {
                Some(dp) => i < self@.len() && self@[i as int] == Some(*dp),
                None => i >= self@.len() || self@[i as int] is None,
            },
    {
        if i < self.0.len() {
            self.0[i].as_ref()
        } else {
            None
        }
    }

    /// Build a slot-record from the observations of one run; structural
    /// errors and an empty run are reported, not tolerated.
    pub fn from_iter(points: Vec<Datapoint>) -> (r: Result<Timepoint, GroupError>)
        ensures
            match r {
                Ok(tp) => timepoint_from_seq(points@) matches Ok(slots) && tp@ == slots,
                Err(e) => timepoint_from_seq(points@) == Err::<Seq<Option<Datapoint>>, GroupError>(
                    e,
                ),
            },
    {
        if points.len() == 0 {
            return Err(GroupError::Empty);
        }
        let mut slots: Vec<Option<Datapoint>> = Vec::new();
        let mut i: usize = 0;
        while i < NUM_INTERFACES
            invariant
                0 <= i <= NUM_INTERFACES,
                slots@.len() == i,
                forall|j: int| 0 <= j < i ==> slots@[j] is None,
            decreases NUM_INTERFACES - i,
        {
            slots.push(None);
            i = i + 1;
        }
        assert(slots@ =~= empty_slots());
        assert(points@.subrange(0, points@.len() as int) =~= points@);
        let mut k: usize = 0;
        while k < points.len()
            invariant
                0 <= k <= points@.len(),
                points@.len() > 0,
                insert_seq(empty_slots(), points@) == insert_seq(
                    slots@,
                    points@.subrange(k as int, points@.len() as int),
                ),
                slots@.len() == NUM_INTERFACES,
            decreases points@.len() - k,
        {
            let dp = points[k];
            let ghost pre = slots@;
            let ghost rest = points@.subrange(k as int, points@.len() as int);
            assert(rest[0] == dp);
            if dp.interface.0 as usize >= NUM_INTERFACES {
                return Err(GroupError::OrdinalOutOfRange);
            }
            if slots[dp.interface.0 as usize].is_some() {
                return Err(GroupError::DuplicateSlot);
            }
            slots.set(dp.interface.0 as usize, Some(dp));
            proof {
                assert(slots@ =~= pre.update(dp.interface.0 as int, Some(dp)));
                assert(rest.subrange(1, rest.len() as int) =~= points@.subrange(
                    k + 1,
                    points@.len() as int,
                ));
            }
            k = k + 1;
        }
        proof {
            assert(points@.subrange(points@.len() as int, points@.len() as int)
                =~= Seq::<Datapoint>::empty());
        }
        Ok(Timepoint(slots))
    }

    /// The first populated slot's observation.
    fn first_datapoint(&self) -> (r: &Datapoint)
        requires
            self.wf(),
        ensures
            self@[first_some(self@)] == Some(*r),
    {
        let n = self.0.len();
        let mut i: usize = 0;
        while i < n
            invariant
                0 <= i <= n,
                n == self@.len(),
                self.wf(),
                forall|j: int| 0 <= j < i ==> self@[j] is None,
            decreases n - i,
        {
            match self.0[i].as_ref() {
                Some(dp) => {
                    proof {
                        lemma_first_some_determined(self@, i as int);
                    }
                    return dp;
                },
                None => {
                    i = i + 1;
                },
            }
        }
        proof {
            lemma_first_some_determined(self@, n as int);
            assert(false);
        }
        unreached()
    }

    /// The timestamp of the first populated slot.
    pub fn timestamp(&self) -> (r: &Stamp)
        requires
            self.wf(),
        ensures
            *r == self@[first_some(self@)].unwrap().timestamp,
    {
        &self.first_datapoint().timestamp
    }

    /// The whole seconds of the first populated slot's timestamp.
    pub fn timestamp_seconds(&self) -> (r: u64)
        requires
            self.wf(),
        ensures
            r == self@[first_some(self@)].unwrap().timestamp.secs,
    {
        self.timestamp().secs
    }

    /// The UTC date-and-hour bucket of the first populated slot.
    pub fn date_and_hour(&self) -> (r: DateHourUtc)
        requires
            self.wf(),
        ensures
            r == self@[first_some(self@)].unwrap().date_and_hour,
    {
        self.first_datapoint().date_and_hour
    }
}

/// The date-and-hour bucket a slot-record is grouped by.
pub open spec fn tp_date_hour(tp: Timepoint) -> DateHourUtc {
    tp@[first_some(tp@)].unwrap().date_and_hour
}

/// First grouping instantiation: observations within eight seconds of
/// the previous one merge into one slot-record.
pub struct TimepointRules;

/// The slot-record tolerance, in whole seconds.
pub const SLOT_TOLERANCE_SECONDS: u64 = 8;

impl GroupRules for TimepointRules {
    type Elem = Datapoint;

    type Key = u64;

    type Out = Timepoint;

    open spec fn elem_inv(&self, e: Datapoint) -> bool {
        dp_wf(e)
    }

    open spec fn key_spec(&self, e: Datapoint) -> u64 {
        e.timestamp.secs
    }

    open spec fn adjacent_spec(&self, a: u64, b: u64) -> bool {
        within(SLOT_TOLERANCE_SECONDS, a, b)
    }

    open spec fn finish_rel(&self, elems: Seq<Datapoint>, out: Result<Timepoint, GroupError>) -> bool {
        match out {
            Ok(tp) => timepoint_from_seq(elems) matches Ok(slots) && tp@ == slots && tp.wf(),
            Err(e) => timepoint_from_seq(elems) == Err::<Seq<Option<Datapoint>>, GroupError>(e),
        }
    }

    fn key(&self, e: &Datapoint) -> (k: u64)
        ensures
            k == self.key_spec(*e),
    {
        e.timestamp.secs
    }

    fn adjacent(&self, a: &u64, b: &u64) -> (r: bool)
        ensures
            r == self.adjacent_spec(*a, *b),
    {
        numbers_within(SLOT_TOLERANCE_SECONDS, *a, *b)
    }

    fn finish(&self, elems: Vec<Datapoint>) -> (g: Result<Timepoint, GroupError>)
        ensures
            self.finish_rel(elems@, g),
    {
        let r = Timepoint::from_iter(elems);
        proof {
            if r is Ok {
                lemma_timepoint_wf(r->Ok_0, elems@);
            }
        }
        r
    }
}

/// Folding observations into slots keeps the slot count, populates at
/// least one slot once anything was folded, and leaves each populated
/// slot holding an observation of its own ordinal.
proof fn lemma_insert_seq_props(slots: Seq<Option<Datapoint>>, s: Seq<Datapoint>)
    requires
        forall|i: int|
            0 <= i < slots.len() && slots[i] is Some ==> (
            #[trigger] slots[i]).unwrap().interface.0 == i && dp_wf(slots[i].unwrap()),
        forall|i: int| 0 <= i < s.len() ==> dp_wf(#[trigger] s[i]),
    ensures
        insert_seq(slots, s) matches Ok(r) ==> r.len() == slots.len() && (forall|i: int|
            0 <= i < r.len() && r[i] is Some ==> (#[trigger] r[i]).unwrap().interface.0 == i
                && dp_wf(r[i].unwrap())) && (forall|i: int|
            0 <= i < slots.len() && slots[i] is Some ==> r[i] == slots[i]) && (s.len() > 0
            ==> exists|i: int| 0 <= i < r.len() && r[i] is Some),
    decreases s.len(),
{
    if s.len() == 0 {
    } else {
        let dp = s[0];
        if dp.interface.0 < slots.len() && slots[dp.interface.0 as int] is None {
            let slots2 = slots.update(dp.interface.0 as int, Some(dp));
            assert forall|i: int| 0 <= i < s.subrange(1, s.len() as int).len() implies dp_wf(
                #[trigger] s.subrange(1, s.len() as int)[i],
            ) by {
                assert(s.subrange(1, s.len() as int)[i] == s[i + 1]);
            }
            lemma_insert_seq_props(slots2, s.subrange(1, s.len() as int));
            if insert_seq(slots, s) is Ok {
                let r = insert_seq(slots, s).unwrap();
                assert(r[dp.interface.0 as int] is Some);
            }
        }
    }
}

/// Law (grouping tolerance): an observation within the eight-second
/// tolerance of the previous one joins the previous slot-record run; one
/// at or beyond the tolerance starts a new run.
pub proof fn lemma_grouping_tolerance(obs: Seq<Datapoint>, dp: Datapoint)
    requires
        obs.len() > 0,
    ensures
        runs(TimepointRules, obs.push(dp)).len() == runs(TimepointRules, obs).len() + (
        if within(SLOT_TOLERANCE_SECONDS, obs.last().timestamp.secs, dp.timestamp.secs) {
            0int
        } else {
            1int
        }),
        within(SLOT_TOLERANCE_SECONDS, obs.last().timestamp.secs, dp.timestamp.secs)
            ==> runs(TimepointRules, obs.push(dp)).last() == runs(TimepointRules, obs).last().push(
            dp,
        ),
        !within(SLOT_TOLERANCE_SECONDS, obs.last().timestamp.secs, dp.timestamp.secs)
            ==> runs(TimepointRules, obs.push(dp)).last() == seq![dp],
{
    assert(obs.push(dp).drop_last() =~= obs);
    assert(obs.push(dp)[obs.push(dp).len() - 2] == obs.last());
    lemma_runs_shape(TimepointRules, obs);
}

/// A slot-record built from a nonempty run of observations is
/// well-formed.
pub proof fn lemma_timepoint_wf(tp: Timepoint, s: Seq<Datapoint>)
    requires
        forall|i: int| 0 <= i < s.len() ==> dp_wf(#[trigger] s[i]),
        timepoint_from_seq(s) matches Ok(slots) && tp@ == slots,
    ensures
        tp.wf(),
{
    lemma_insert_seq_props(empty_slots(), s);
    let w = choose|i: int| 0 <= i < tp@.len() && tp@[i] is Some;
    lemma_first_some_min(tp@, w);
}

/// If some slot `w` is populated, the first populated slot is at or
/// before `w`.
proof fn lemma_first_some_min(slots: Seq<Option<Datapoint>>, w: int)
    requires
        0 <= w < slots.len(),
        slots[w] is Some,
    ensures
        first_some(slots) <= w,
    decreases slots.len(),
{
    if slots.len() == 0 || slots[0] is Some {
    } else {
        let s1 = slots.subrange(1, slots.len() as int);
        assert(s1[w - 1] == slots[w]);
        lemma_first_some_min(s1, w - 1);
    }
}

} // verus!
