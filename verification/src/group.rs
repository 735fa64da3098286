//! The generic grouping primitive: merge temporally-adjacent elements of
//! a stream into groups under a tolerance predicate, finishing each
//! maximal run with a finisher. It is instantiated once for the
//! eight-second slot-record tolerance and once for calendar-hour
//! equality.

use vstd::prelude::*;

verus! {

/// Fatal structural errors of the finishers: these end the run.
#[derive(Clone, Copy, Debug, PartialEq, Eq, Structural)]
pub enum GroupError {
    /// An observation's interface ordinal lies outside the configured
    /// maximum.
    OrdinalOutOfRange,
    /// Two observations landed in the same interface slot of one
    /// slot-record.
    DuplicateSlot,
    /// A group was to be finished with no elements at all.
    Empty,
}

/// One instantiation of the grouping primitive: a key projection, a
/// tolerance predicate on keys, and a finisher for each maximal run.
pub trait GroupRules: Sized {
    type Elem;

    type Key;

    type Out;

    /// What must hold of every element fed in.
    spec fn elem_inv(&self, e: Self::Elem) -> bool;

    /// The key an element is judged by.
    spec fn key_spec(&self, e: Self::Elem) -> Self::Key;

    /// Whether two neighbouring keys belong to the same group.
    spec fn adjacent_spec(&self, a: Self::Key, b: Self::Key) -> bool;

    /// What must hold between a finished run of elements and the
    /// finisher's result.
    spec fn finish_rel(&self, elems: Seq<Self::Elem>, out: Result<Self::Out, GroupError>) -> bool;

    fn key(&self, e: &Self::Elem) -> (k: Self::Key)
        requires
            self.elem_inv(*e),
        ensures
            k == self.key_spec(*e),
    ;

    fn adjacent(&self, a: &Self::Key, b: &Self::Key) -> (r: bool)
        ensures
            r == self.adjacent_spec(*a, *b),
    ;

    fn finish(&self, elems: Vec<Self::Elem>) -> (g: Result<Self::Out, GroupError>)
        requires
            elems@.len() > 0,
            forall|i: int| 0 <= i < elems@.len() ==> self.elem_inv(#[trigger] elems@[i]),
        ensures
            self.finish_rel(elems@, g),
    ;
}

/// The maximal runs of `s` under the rules' adjacency: consecutive
/// elements stay in one run while their keys are adjacent.
pub open spec fn runs<R: GroupRules>(rules: R, s: Seq<R::Elem>) -> Seq<Seq<R::Elem>>
    decreases s.len(),
{
    if s.len() == 0 {
        Seq::empty()
    } else if s.len() == 1 {
        seq![s]
    } else {
        let prev = runs(rules, s.drop_last());
        if rules.adjacent_spec(rules.key_spec(s[s.len() - 2]), rules.key_spec(s.last())) {
            prev.update(prev.len() - 1, prev.last().push(s.last()))
        } else {
            prev.push(seq![s.last()])
        }
    }
}

/// A nonempty stream has runs; every run is nonempty and the last run
/// ends in the stream's last element.
pub proof fn lemma_runs_shape<R: GroupRules>(rules: R, s: Seq<R::Elem>)
    requires
        s.len() > 0,
    ensures
        runs(rules, s).len() > 0,
        runs(rules, s).last().len() > 0,
        runs(rules, s).last().last() == s.last(),
        forall|i: int| 0 <= i < runs(rules, s).len() ==> #[trigger] runs(rules, s)[i].len() > 0,
    decreases s.len(),
{
    if s.len() > 1 {
        lemma_runs_shape(rules, s.drop_last());
    }
}

/// Every element of every run of `s` is an element of `s`.
pub proof fn lemma_runs_elements<R: GroupRules>(rules: R, s: Seq<R::Elem>)
    ensures
        forall|i: int, j: int|
            0 <= i < runs(rules, s).len() && 0 <= j < runs(rules, s)[i].len() ==> s.contains(
                #[trigger] runs(rules, s)[i][j],
            ),
    decreases s.len(),
{
    if s.len() <= 1 {
    } else {
        let s1 = s.drop_last();
        lemma_runs_elements(rules, s1);
        lemma_runs_shape(rules, s1);
        assert forall|i: int, j: int|
            0 <= i < runs(rules, s).len() && 0 <= j < runs(rules, s)[i].len() implies s.contains(
            runs(rules, s)[i][j],
        ) by {
            let r = runs(rules, s);
            let r1 = runs(rules, s1);
            let e = r[i][j];
            if e == s.last() {
                assert(s[s.len() - 1] == e);
            } else {
                assert(r1[i].len() > j && r1[i][j] == e || (i == r.len() - 1 && j < r[i].len() - 1
                    && r1[i][j] == e));
                assert(s1.contains(e));
                let w = choose|w: int| 0 <= w < s1.len() && s1[w] == e;
                assert(s[w] == e);
            }
        }
    }
}

/// The grouping machine: accumulates the current run of a stream fed to
/// it element by element, flushing the finished run whenever a
/// non-adjacent element starts a new one.
pub struct TryGroup<R: GroupRules> {
    /// The instantiation's rules.
    pub rules: R,
    /// The accumulator holding the current (last) run.
    pub acc: Vec<R::Elem>,
    /// Everything fed so far, for specification only.
    pub fed: Ghost<Seq<R::Elem>>,
}

impl<R: GroupRules> TryGroup<R> {
    /// The machine's invariant: the accumulator is exactly the last
    /// maximal run of what has been fed.
    pub open spec fn wf(self) -> bool {
        &&& forall|i: int|
            0 <= i < self.fed@.len() ==> self.rules.elem_inv(#[trigger] self.fed@[i])
        &&& self.fed@.len() == 0 ==> self.acc@.len() == 0
        &&& self.fed@.len() > 0 ==> self.acc@ == runs(self.rules, self.fed@).last()
    }

    /// A fresh machine with nothing fed.
    pub fn new(rules: R) -> (r: TryGroup<R>)
        ensures
            r.wf(),
            r.rules == rules,
            r.fed@ == Seq::<R::Elem>::empty(),
    {
        TryGroup { rules, acc: Vec::new(), fed: Ghost(Seq::empty()) }
    }

    /// Feed the next element. While it is adjacent to the previous one it
    /// joins the current run and nothing comes out; otherwise the
    /// finished previous run comes out and the element starts a new run.
    pub fn feed(&mut self, e: R::Elem) -> (out: Option<Result<R::Out, GroupError>>)
        requires
            old(self).wf(),
            old(self).rules.elem_inv(e),
        ensures
            final(self).wf(),
            final(self).rules == old(self).rules,
            final(self).fed@ == old(self).fed@.push(e),
            ({
                let rules = old(self).rules;
                let fed = old(self).fed@;
                if fed.len() == 0 || rules.adjacent_spec(rules.key_spec(fed.last()), rules.key_spec(e)) {
                    out is None
                } else {
                    out matches Some(g) && rules.finish_rel(runs(rules, fed).last(), g)
                }
            }),
    {
        proof {
            if self.fed@.len() > 0 {
                lemma_runs_shape(self.rules, self.fed@);
            }
        }
        let ghost newfed = self.fed@.push(e);
        if self.acc.len() == 0 {
            self.acc.push(e);
            proof {
                self.fed = Ghost(newfed);
                assert(newfed =~= seq![e]);
                assert(runs(self.rules, newfed) =~~= seq![seq![e]]);
                assert(self.acc@ =~= seq![e]);
            }
            return None;
        }
        let k_last = self.rules.key(&self.acc[self.acc.len() - 1]);
        let k_new = self.rules.key(&e);
        proof {
            lemma_runs_elements(self.rules, self.fed@);
            assert(newfed.drop_last() =~= self.fed@);
        }
        if self.rules.adjacent(&k_last, &k_new) {
            self.acc.push(e);
            proof {
                let r1 = runs(self.rules, self.fed@);
                self.fed = Ghost(newfed);
                assert(newfed[newfed.len() - 2] == old(self).fed@.last());
                assert(runs(self.rules, newfed) == r1.update(
                    r1.len() - 1,
                    r1.last().push(e),
                ));
            }
            None
        } else {
            let mut done: Vec<R::Elem> = Vec::new();
            core::mem::swap(&mut self.acc, &mut done);
            proof {
                assert forall|i: int| 0 <= i < done@.len() implies self.rules.elem_inv(
                    #[trigger] done@[i],
                ) by {
                    assert(self.fed@.contains(done@[i]));
                }
            }
            let g = self.rules.finish(done);
            self.acc.push(e);
            proof {
                let r1 = runs(self.rules, self.fed@);
                self.fed = Ghost(newfed);
                assert(newfed[newfed.len() - 2] == old(self).fed@.last());
                assert(runs(self.rules, newfed) == r1.push(seq![e]));
            }
            Some(g)
        }
    }

    /// End of the stream: the run still accumulating comes out finished,
    /// or nothing when nothing was ever fed.
    pub fn finish(self) -> (out: Option<Result<R::Out, GroupError>>)
        requires
            self.wf(),
        ensures
            match out {
                None => self.fed@.len() == 0,
                Some(g) => self.fed@.len() > 0 && self.rules.finish_rel(
                    runs(self.rules, self.fed@).last(),
                    g,
                ),
            },
    {
        proof {
            if self.fed@.len() > 0 {
                lemma_runs_shape(self.rules, self.fed@);
                lemma_runs_elements(self.rules, self.fed@);
            }
        }
        let TryGroup { rules, acc, fed } = self;
        if acc.len() == 0 {
            None
        } else {
            proof {
                assert forall|i: int| 0 <= i < acc@.len() implies rules.elem_inv(
                    #[trigger] acc@[i],
                ) by {
                    assert(fed@.contains(acc@[i]));
                }
            }
            Some(rules.finish(acc))
        }
    }
}

} // verus!
