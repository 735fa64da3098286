//! The composed pipeline: lines in, completed hour groups out, one
//! element at a time. It wires the line parser into the slot-record
//! grouper and that into the hour grouper, and stops on the first fatal
//! error.

use vstd::prelude::*;

use crate::group::runs;
use crate::group::GroupError;
use crate::group::TryGroup;
use crate::hours::Group;
use crate::hours::HourRules;
use crate::numbers::within;
use crate::parser::dp_wf;
use crate::parser::line_step;
use crate::parser::Datapoint;
use crate::parser::LineOutcome;
use crate::parser::LineParser;
use crate::parser::ParseError;
use crate::parser::StepOut;
use crate::parser::MAX_ERRORS;
use crate::time::DateHourUtc;
use crate::timepoint::first_some;
use crate::timepoint::timepoint_from_seq;
use crate::timepoint::tp_date_hour;
use crate::timepoint::TimepointRules;
use crate::timepoint::SLOT_TOLERANCE_SECONDS;
use crate::transfer::lemma_transfer_spec_wf;
use crate::iface::WireguardInterface;

verus! {

/// The date-and-hour bucket of a slot-record model.
pub open spec fn model_date_hour(slots: Seq<Option<Datapoint>>) -> DateHourUtc {
    slots[first_some(slots)].unwrap().date_and_hour
}

/// The parser's cumulative state over a sequence of lines: the pending
/// sections, the observations produced, the errors counted, and whether
/// the error cap ended the stream.
pub struct ScanState {
    pub iface: Option<WireguardInterface>,
    pub peer: Option<WireguardInterface>,
    pub errors: int,
    pub obs: Seq<Datapoint>,
    pub terminal: bool,
}

/// The state before any line.
pub open spec fn scan_init() -> ScanState {
    ScanState {
        iface: None,
        peer: None,
        errors: 0,
        obs: Seq::empty(),
        terminal: false,
    }
}

/// One line's effect on the cumulative state.
pub open spec fn scan_step(st: ScanState, line: Seq<char>) -> ScanState {
    if st.terminal {
        st
    } else {
        let (ni, np, so) = line_step(st.iface, st.peer, line);
        match so {
            StepOut::Ignore => ScanState { iface: ni, peer: np, ..st },
            StepOut::Obs(dp) => ScanState { iface: ni, peer: np, obs: st.obs.push(dp), ..st },
            StepOut::Fail(_) => {
                if st.errors < MAX_ERRORS {
                    ScanState { iface: ni, peer: np, errors: st.errors + 1, ..st }
                } else {
                    ScanState { iface: ni, peer: np, terminal: true, ..st }
                }
            },
        }
    }
}

/// The cumulative state after all of `lines`.
pub open spec fn scan(lines: Seq<Seq<char>>) -> ScanState
    decreases lines.len(),
{
    if lines.len() == 0 {
        scan_init()
    } else {
        scan_step(scan(lines.drop_last()), lines.last())
    }
}

/// Every observation a line yields has totalable counters.
pub proof fn lemma_line_step_obs_wf(
    iface: Option<WireguardInterface>,
    peer: Option<WireguardInterface>,
    line: Seq<char>,
)
    ensures
        line_step(iface, peer, line).2 matches StepOut::Obs(dp) ==> dp_wf(dp),
{
    if line_step(iface, peer, line).2 is Obs {
        let rest = crate::time::rest_of(line);
        let val = crate::parseutil::trimmed(
            rest.subrange(crate::parseutil::char_index(rest, ':') + 1, rest.len() as int),
        );
        lemma_transfer_spec_wf(
            crate::transfer::split_char_seq(val, ','),
            None::<usize>,
            None::<usize>,
        );
    }
}

/// What ends a run for good.
#[derive(Clone, Copy, Debug, PartialEq, Eq, Structural)]
pub enum PipelineError {
    /// The error cap was exceeded; the offending line's error is carried.
    TooManyErrors(ParseError),
    /// A finisher met a fatal structural error.
    Structure(GroupError),
}

/// What one line produced: at most one recoverable error to log, at most
/// one completed group, at most one fatal error, which ends the run.
pub struct FeedResult {
    pub error: Option<ParseError>,
    pub group: Option<Group>,
    pub fatal: Option<PipelineError>,
}

/// The pipeline: parser, slot-record grouper and hour grouper wired in
/// sequence.
pub struct Pipeline {
    pub parser: LineParser,
    pub slots: TryGroup<TimepointRules>,
    pub hours: TryGroup<HourRules>,
    /// Every line fed so far, for specification only.
    pub lines: Ghost<Seq<Seq<char>>>,
    /// Set once a fatal error has ended the run.
    pub done: bool,
}

impl Pipeline {
    /// The pipeline's invariant: the parser is at the state `scan`
    /// reaches over the fed lines, the slot grouper has been fed exactly
    /// the observations, and the hour grouper exactly the slot-records of
    /// the completed runs.
    pub open spec fn wf(self) -> bool {
        let st = scan(self.lines@);
        let rs = runs(TimepointRules, st.obs);
        &&& self.parser.current_interface == st.iface
        &&& self.parser.current_peer == st.peer
        &&& self.parser.num_errors == st.errors
        &&& !st.terminal
        &&& self.slots.wf()
        &&& self.slots.fed@ == st.obs
        &&& self.hours.wf()
        &&& self.hours.fed@.len() == (if st.obs.len() == 0 {
            0int
        } else {
            rs.len() - 1
        })
        &&& forall|k: int|
            0 <= k < self.hours.fed@.len() ==> timepoint_from_seq(rs[k]) == Ok::<
                Seq<Option<Datapoint>>,
                GroupError,
            >((#[trigger] self.hours.fed@[k])@)
    }

    /// A fresh pipeline with nothing fed.
    pub fn new() -> (r: Pipeline)
        ensures
            r.wf(),
            !r.done,
            r.lines@ == Seq::<Seq<char>>::empty(),
    {
        let r = Pipeline {
            parser: LineParser::new(),
            slots: TryGroup::new(TimepointRules),
            hours: TryGroup::new(HourRules),
            lines: Ghost(Seq::empty()),
            done: false,
        };
        proof {
            assert(runs(TimepointRules, scan(r.lines@).obs) =~~= Seq::<Seq<Datapoint>>::empty());
        }
        r
    }

    /// Feed one line. A malformed line comes back as an error to log; an
    /// observation may complete a slot-record, which may complete an hour
    /// group; a fatal error ends the run for good.
    pub fn feed_line(&mut self, line: &str) -> (r: FeedResult)
        requires
            old(self).wf(),
            !old(self).done,
        ensures
            final(self).lines@ == old(self).lines@.push(line@),
            final(self).done == (r.fatal is Some),
            !final(self).done ==> final(self).wf(),
            ({
                let st = scan(old(self).lines@);
                let so = line_step(st.iface, st.peer, line@).2;
                match so {
                    StepOut::Ignore => r.error is None && r.group is None && r.fatal is None,
                    StepOut::Fail(e) => r.group is None && if st.errors < MAX_ERRORS {
                        r.error == Some(e) && r.fatal is None
                    } else {
                        r.fatal == Some(PipelineError::TooManyErrors(e)) && r.error is None
                    },
                    StepOut::Obs(dp) => r.error is None && {
                        let obs = st.obs;
                        let rs = runs(TimepointRules, obs);
                        if obs.len() == 0 || within(
                            SLOT_TOLERANCE_SECONDS,
                            obs.last().timestamp.secs,
                            dp.timestamp.secs,
                        ) {
                            r.group is None && r.fatal is None
                        } else {
                            match timepoint_from_seq(rs.last()) {
                                Err(ge) => r.fatal == Some(PipelineError::Structure(ge))
                                    && r.group is None,
                                Ok(slots) => r.fatal is None && {
                                    let hf = old(self).hours.fed@;
                                    if hf.len() == 0 || model_date_hour(slots) == tp_date_hour(
                                        hf.last(),
                                    ) {
                                        r.group is None
                                    } else {
                                        r.group matches Some(g) && g@ == runs(HourRules, hf).last()
                                            && g.wf()
                                    }
                                },
                            }
                        }
                    },
                }
            }),
    {
        proof {
            lemma_line_step_obs_wf(
                old(self).parser.current_interface,
                old(self).parser.current_peer,
                line@,
            );
        }
        let ghost newlines = self.lines@.push(line@);
        let out = self.parser.feed_line(line);
        proof {
            assert(newlines.drop_last() =~= old(self).lines@);
        }
        match out {
            LineOutcome::Nothing => {
                proof {
                    self.lines = Ghost(newlines);
                }
                FeedResult { error: None, group: None, fatal: None }
            },
            LineOutcome::LineError(e) => {
                proof {
                    self.lines = Ghost(newlines);
                }
                FeedResult { error: Some(e), group: None, fatal: None }
            },
            LineOutcome::Terminal(e) => {
                proof {
                    self.lines = Ghost(newlines);
                }
                self.done = true;
                FeedResult { error: None, group: None, fatal: Some(PipelineError::TooManyErrors(e)) }
            },
            LineOutcome::Observation(dp) => {
                let ghost oldobs = scan(old(self).lines@).obs;
                let ghost oldrs = runs(TimepointRules, oldobs);
                let flushed = self.slots.feed(dp);
                proof {
                    self.lines = Ghost(newlines);
                    assert(oldobs.push(dp).drop_last() =~= oldobs);
                }
                match flushed {
                    None => {
                        proof {
                            lemma_runs_prefix_stable(oldobs, dp);
                        }
                        FeedResult { error: None, group: None, fatal: None }
                    },
                    Some(Err(ge)) => {
                        self.done = true;
                        FeedResult {
                            error: None,
                            group: None,
                            fatal: Some(PipelineError::Structure(ge)),
                        }
                    },
                    Some(Ok(tp)) => {
                        proof {
                            lemma_runs_prefix_stable(oldobs, dp);
                        }
                        let flushed2 = self.hours.feed(tp);
                        match flushed2 {
                            None => {
                                FeedResult { error: None, group: None, fatal: None }
                            },
                            Some(res) => match res {
                                Ok(g) => {
                                    FeedResult { error: None, group: Some(g), fatal: None }
                                },
                                Err(_) => {
                                    proof {
                                        assert(false);
                                    }
                                    self.done = true;
                                    FeedResult { error: None, group: None, fatal: None }
                                },
                            },
                        }
                    },
                }
            },
        }
    }

    /// End of the stream: the slot-record still accumulating is finished
    /// and may close one more hour group, and the group still
    /// accumulating comes out last.
    pub fn finish(self) -> (r: (Vec<Group>, Option<PipelineError>))
        requires
            self.wf(),
            !self.done,
        ensures
            ({
                let st = scan(self.lines@);
                let rs = runs(TimepointRules, st.obs);
                let hf = self.hours.fed@;
                if st.obs.len() == 0 {
                    r.0@.len() == 0 && r.1 is None
                } else {
                    match timepoint_from_seq(rs.last()) {
                        Err(ge) => r.1 == Some(PipelineError::Structure(ge)) && r.0@.len() == 0,
                        Ok(slots) => r.1 is None && {
                            if hf.len() == 0 {
                                &&& r.0@.len() == 1
                                &&& r.0@[0].wf()
                                &&& r.0@[0]@.len() == 1
                                &&& r.0@[0]@[0]@ == slots
                            } else if model_date_hour(slots) == tp_date_hour(hf.last()) {
                                let lastrun = runs(HourRules, hf).last();
                                &&& r.0@.len() == 1
                                &&& r.0@[0].wf()
                                &&& r.0@[0]@.len() == lastrun.len() + 1
                                &&& r.0@[0]@.drop_last() == lastrun
                                &&& r.0@[0]@.last()@ == slots
                            } else {
                                &&& r.0@.len() == 2
                                &&& r.0@[0]@ == runs(HourRules, hf).last()
                                &&& r.0@[0].wf()
                                &&& r.0@[1].wf()
                                &&& r.0@[1]@.len() == 1
                                &&& r.0@[1]@[0]@ == slots
                            }
                        },
                    }
                }
            }),
    {
        let Pipeline { parser: _, slots, hours: hours0, lines: _, done: _ } = self;
        let mut hours = hours0;
        let mut groups: Vec<Group> = Vec::new();
        let ghost hf0 = hours.fed@;
        match slots.finish() {
            None => {
                return (groups, None);
            },
            Some(Err(ge)) => {
                return (groups, Some(PipelineError::Structure(ge)));
            },
            Some(Ok(tp)) => {
                let ghost tpval = tp;
                let ghost nf = hf0.push(tpval);
                proof {
                    assert(nf.drop_last() =~= hf0);
                    if hf0.len() == 0 {
                        assert(nf =~= seq![tpval]);
                        assert(runs(HourRules, nf) =~~= seq![seq![tpval]]);
                    } else {
                        assert(nf[nf.len() - 2] == hf0.last());
                        crate::group::lemma_runs_shape(HourRules, hf0);
                    }
                }
                match hours.feed(tp) {
                    None => {},
                    Some(res) => match res {
                        Ok(g) => {
                            groups.push(g);
                        },
                        Err(_) => {
                            proof {
                                assert(false);
                            }
                        },
                    },
                }
                match hours.finish() {
                    None => {
                        proof {
                            assert(false);
                        }
                    },
                    Some(res) => match res {
                        Ok(g) => {
                            proof {
                                if hf0.len() > 0 && model_date_hour(tpval@) == tp_date_hour(
                                    hf0.last(),
                                ) {
                                    let lastrun = runs(HourRules, hf0).last();
                                    assert(g@ == lastrun.push(tpval));
                                    assert(g@.drop_last() =~= lastrun);
                                }
                            }
                            groups.push(g);
                        },
                        Err(_) => {
                            proof {
                                assert(false);
                            }
                        },
                    },
                }
                (groups, None)
            },
        }
    }
}

/// Law (determinism): two pipelines fed the same lines agree in their
/// parser state, in the observations they grouped, and in the models of
/// every slot-record handed to the hour grouper; with the diff stage's
/// own determinism law, equal inputs yield equal reports.
pub proof fn lemma_pipeline_deterministic(a: Pipeline, b: Pipeline)
    requires
        a.wf(),
        b.wf(),
        a.lines@ == b.lines@,
    ensures
        a.parser.current_interface == b.parser.current_interface,
        a.parser.current_peer == b.parser.current_peer,
        a.parser.num_errors == b.parser.num_errors,
        a.slots.fed@ == b.slots.fed@,
        a.hours.fed@.len() == b.hours.fed@.len(),
        forall|k: int| 0 <= k < a.hours.fed@.len() ==> (#[trigger] a.hours.fed@[k])@
            == b.hours.fed@[k]@,
{
    let st = scan(a.lines@);
    let rs = runs(TimepointRules, st.obs);
    assert forall|k: int| 0 <= k < a.hours.fed@.len() implies (#[trigger] a.hours.fed@[k])@
        == b.hours.fed@[k]@ by {
        assert(timepoint_from_seq(rs[k]) == Ok::<Seq<Option<Datapoint>>, GroupError>(
            a.hours.fed@[k]@,
        ));
        assert(timepoint_from_seq(rs[k]) == Ok::<Seq<Option<Datapoint>>, GroupError>(
            b.hours.fed@[k]@,
        ));
    }
}

/// Pushing an element onto a stream leaves the completed runs alone:
/// every run but the last is unchanged.
proof fn lemma_runs_prefix_stable(obs: Seq<Datapoint>, dp: Datapoint)
    ensures
        ({
            let rs = runs(TimepointRules, obs);
            let rs2 = runs(TimepointRules, obs.push(dp));
            if obs.len() == 0 {
                rs2.len() == 1
            } else if within(SLOT_TOLERANCE_SECONDS, obs.last().timestamp.secs, dp.timestamp.secs) {
                rs2.len() == rs.len() && forall|k: int| 0 <= k < rs.len() - 1 ==> rs2[k] == rs[k]
            } else {
                rs2.len() == rs.len() + 1 && forall|k: int| 0 <= k < rs.len() ==> rs2[k] == rs[k]
            }
        }),
{
    let rs = runs(TimepointRules, obs);
    let rs2 = runs(TimepointRules, obs.push(dp));
    assert(obs.push(dp).drop_last() =~= obs);
    if obs.len() > 0 {
        assert(obs.push(dp)[obs.push(dp).len() - 2] == obs.last());
        crate::group::lemma_runs_shape(TimepointRules, obs);
    }
}

} // verus!
