//! A while loop: the body runs as long as the condition succeeds.
//!
//! A single run stops after `u64::MAX` passes through the loop without an
//! answer and reports `Running`; the next run continues where it stopped.

use vstd::prelude::*;

use crate::bt::status::{
    Behavior, CancelSafe, EternalBehavior, EternalStatus, FallibleBehavior, FallibleStatus,
    InfallibleBehavior, InfallibleStatus, Status,
};

verus! {

/// Runs `body` again and again while `condition` succeeds.
pub struct WhileLoop<A, B> {
    pub condition: A,
    pub body: B,
    check_condition: bool,
}

impl<A, B> WhileLoop<A, B> {
    /// Whether the next pass starts with the condition (rather than the body).
    pub closed spec fn check_condition(&self) -> bool {
        self.check_condition
    }

    pub closed spec fn condition_spec(&self) -> A {
        self.condition
    }

    pub closed spec fn body_spec(&self) -> B {
        self.body
    }


    /// One pass that may end in failure: the condition ran first where it is
    /// due, leaving `checked` and `mid` and reporting `cs`, and the body ran
    /// after it succeeded (or at once where the condition was not due).
    pub open spec fn fallible_step<D>(
        self,
        blackboard: D,
        next: Self,
        next_blackboard: D,
        r: FallibleStatus,
        checked: A,
        mid: D,
        cs: InfallibleStatus,
    ) -> bool where A: InfallibleBehavior<D>, B: FallibleBehavior<D> {
        if self.check_condition() {
            &&& self.condition_spec().ran_infallible(blackboard, &checked, mid, cs)
            &&& next.condition_spec() == checked
            &&& match cs {
                InfallibleStatus::Running => {
                    &&& r is Running
                    &&& next_blackboard == mid
                    &&& next.check_condition()
                    &&& next.body_spec() == self.body_spec()
                },
                InfallibleStatus::Success => {
                    &&& self.body_spec().ran_fallible(mid, &next.body_spec(), next_blackboard, r)
                    &&& next.check_condition() == (r is Failure)
                },
            }
        } else {
            &&& self.body_spec().ran_fallible(blackboard, &next.body_spec(), next_blackboard, r)
            &&& next.condition_spec() == self.condition_spec()
            &&& next.check_condition() == (r is Failure)
        }
    }

    /// One pass through a loop whose body can only succeed: the condition ran
    /// first where it is due, leaving `checked` and `mid` and reporting `cs`,
    /// and the body ran after it succeeded (or at once where the condition
    /// was not due). `out` is the status that the run reports, or `None`
    /// where the body succeeded and the loop goes on.
    pub open spec fn infallible_pass_via<D>(
        self,
        blackboard: D,
        next: Self,
        next_blackboard: D,
        out: Option<InfallibleStatus>,
        checked: A,
        mid: D,
        cs: Status,
    ) -> bool where A: Behavior<D>, B: InfallibleBehavior<D> {
        let body_ran = (out is None || out == Some(InfallibleStatus::Running))
            && next.check_condition() == (out is None);
        let body_status = if out is None {
            InfallibleStatus::Success
        } else {
            InfallibleStatus::Running
        };
        if self.check_condition() {
            &&& self.condition_spec().ran(blackboard, &checked, mid, cs)
            &&& next.condition_spec() == checked
            &&& match cs {
                Status::Running => {
                    &&& out == Some(InfallibleStatus::Running)
                    &&& next_blackboard == mid
                    &&& next.check_condition()
                    &&& next.body_spec() == self.body_spec()
                },
                Status::Failure => {
                    &&& out == Some(InfallibleStatus::Success)
                    &&& next_blackboard == mid
                    &&& next.check_condition()
                    &&& next.body_spec() == self.body_spec()
                },
                Status::Success => {
                    &&& body_ran
                    &&& self.body_spec().ran_infallible(mid, &next.body_spec(), next_blackboard, body_status)
                },
            }
        } else {
            &&& body_ran
            &&& self.body_spec().ran_infallible(blackboard, &next.body_spec(), next_blackboard, body_status)
            &&& next.condition_spec() == self.condition_spec()
        }
    }

    /// One pass through a loop whose body can only succeed, as
    /// `infallible_pass_via` describes for some condition run.
    pub open spec fn infallible_pass<D>(
        self,
        blackboard: D,
        next: Self,
        next_blackboard: D,
        out: Option<InfallibleStatus>,
    ) -> bool where A: Behavior<D>, B: InfallibleBehavior<D> {
        exists|checked: A, mid: D, cs: Status|
            #[trigger] self.infallible_pass_via(blackboard, next, next_blackboard, out, checked, mid, cs)
    }

    /// `trace` starts at `start` and goes on from pass to pass, each ending
    /// with a success of the body.
    pub open spec fn infallible_chain<D>(trace: Seq<(Self, D)>, start: Self, blackboard: D) -> bool where
        A: Behavior<D>,
        B: InfallibleBehavior<D>,
     {
        &&& trace.len() >= 1
        &&& trace[0] == (start, blackboard)
        &&& forall|k: int|
            0 <= k < trace.len() - 1 ==> #[trigger] trace[k].0.infallible_pass(
                trace[k].1,
                trace[k + 1].0,
                trace[k + 1].1,
                None,
            )
    }

    /// A run along `trace`: a last pass reports `r`, or `u64::MAX` passes
    /// went on and the run reports `Running`.
    pub open spec fn infallible_run<D>(
        trace: Seq<(Self, D)>,
        start: Self,
        blackboard: D,
        next: Self,
        next_blackboard: D,
        r: InfallibleStatus,
    ) -> bool where A: Behavior<D>, B: InfallibleBehavior<D> {
        &&& Self::infallible_chain(trace, start, blackboard)
        &&& {
            ||| trace.last().0.infallible_pass(trace.last().1, next, next_blackboard, Some(r))
            ||| trace.len() - 1 == u64::MAX && r is Running && trace.last() == (next, next_blackboard)
        }
    }

    /// One pass through a loop whose condition and body can only succeed:
    /// the condition ran first where it is due, leaving `checked` and `mid`
    /// and reporting `cs`, and the body ran after it succeeded (or at once
    /// where the condition was not due). `stops` where the pass reports
    /// `Running`, not where the body succeeded and the loop goes on.
    pub open spec fn eternal_pass_via<D>(
        self,
        blackboard: D,
        next: Self,
        next_blackboard: D,
        stops: bool,
        checked: A,
        mid: D,
        cs: InfallibleStatus,
    ) -> bool where A: InfallibleBehavior<D>, B: InfallibleBehavior<D> {
        let body_status = if stops {
            InfallibleStatus::Running
        } else {
            InfallibleStatus::Success
        };
        if self.check_condition() {
            &&& self.condition_spec().ran_infallible(blackboard, &checked, mid, cs)
            &&& next.condition_spec() == checked
            &&& match cs {
                InfallibleStatus::Running => {
                    &&& stops
                    &&& next_blackboard == mid
                    &&& next.check_condition()
                    &&& next.body_spec() == self.body_spec()
                },
                InfallibleStatus::Success => {
                    &&& next.check_condition() == !stops
                    &&& self.body_spec().ran_infallible(mid, &next.body_spec(), next_blackboard, body_status)
                },
            }
        } else {
            &&& next.check_condition() == !stops
            &&& self.body_spec().ran_infallible(blackboard, &next.body_spec(), next_blackboard, body_status)
            &&& next.condition_spec() == self.condition_spec()
        }
    }

    /// One pass through a loop whose condition and body can only succeed, as
    /// `eternal_pass_via` describes for some condition run.
    pub open spec fn eternal_pass<D>(
        self,
        blackboard: D,
        next: Self,
        next_blackboard: D,
        stops: bool,
    ) -> bool where A: InfallibleBehavior<D>, B: InfallibleBehavior<D> {
        exists|checked: A, mid: D, cs: InfallibleStatus|
            #[trigger] self.eternal_pass_via(blackboard, next, next_blackboard, stops, checked, mid, cs)
    }

    /// `trace` starts at `start` and goes on from pass to pass, each ending
    /// with a success of the body.
    pub open spec fn eternal_chain<D>(trace: Seq<(Self, D)>, start: Self, blackboard: D) -> bool where
        A: InfallibleBehavior<D>,
        B: InfallibleBehavior<D>,
     {
        &&& trace.len() >= 1
        &&& trace[0] == (start, blackboard)
        &&& forall|k: int|
            0 <= k < trace.len() - 1 ==> #[trigger] trace[k].0.eternal_pass(
                trace[k].1,
                trace[k + 1].0,
                trace[k + 1].1,
                false,
            )
    }

    /// A run along `trace`: a last pass stops, or `u64::MAX` passes went on.
    pub open spec fn eternal_run<D>(
        trace: Seq<(Self, D)>,
        start: Self,
        blackboard: D,
        next: Self,
        next_blackboard: D,
    ) -> bool where A: InfallibleBehavior<D>, B: InfallibleBehavior<D> {
        &&& Self::eternal_chain(trace, start, blackboard)
        &&& {
            ||| trace.last().0.eternal_pass(trace.last().1, next, next_blackboard, true)
            ||| trace.len() - 1 == u64::MAX && trace.last() == (next, next_blackboard)
        }
    }

    pub fn new(condition: A, body: B) -> (r: Self)
        ensures
            r.check_condition(),
            r.condition_spec() == condition,
            r.body_spec() == body,
    {
        WhileLoop { condition, body, check_condition: true }
    }
}


/// A pass through a loop whose body can only succeed, ending with a success
/// of the body, extends the chain of passes.
proof fn lemma_infallible_extend<A: Behavior<D>, B: InfallibleBehavior<D>, D>(
    trace: Seq<(WhileLoop<A, B>, D)>,
    start: WhileLoop<A, B>,
    blackboard: D,
    next: WhileLoop<A, B>,
    next_blackboard: D,
)
    requires
        WhileLoop::infallible_chain(trace, start, blackboard),
        trace.last().0.infallible_pass(trace.last().1, next, next_blackboard, None),
    ensures
        WhileLoop::infallible_chain(trace.push((next, next_blackboard)), start, blackboard),
{
    let t2 = trace.push((next, next_blackboard));
    assert forall|k: int| 0 <= k < t2.len() - 1 implies #[trigger] t2[k].0.infallible_pass(
        t2[k].1,
        t2[k + 1].0,
        t2[k + 1].1,
        None,
    ) by {
        if k < trace.len() - 1 {
            assert(t2[k] == trace[k]);
            assert(t2[k + 1] == trace[k + 1]);
        } else {
            assert(t2[k] == trace.last());
        }
    }
}

/// A pass through a loop whose condition and body can only succeed, ending
/// with a success of the body, extends the chain of passes.
proof fn lemma_eternal_extend<A: InfallibleBehavior<D>, B: InfallibleBehavior<D>, D>(
    trace: Seq<(WhileLoop<A, B>, D)>,
    start: WhileLoop<A, B>,
    blackboard: D,
    next: WhileLoop<A, B>,
    next_blackboard: D,
)
    requires
        WhileLoop::eternal_chain(trace, start, blackboard),
        trace.last().0.eternal_pass(trace.last().1, next, next_blackboard, false),
    ensures
        WhileLoop::eternal_chain(trace.push((next, next_blackboard)), start, blackboard),
{
    let t2 = trace.push((next, next_blackboard));
    assert forall|k: int| 0 <= k < t2.len() - 1 implies #[trigger] t2[k].0.eternal_pass(
        t2[k].1,
        t2[k + 1].0,
        t2[k + 1].1,
        false,
    ) by {
        if k < trace.len() - 1 {
            assert(t2[k] == trace[k]);
            assert(t2[k + 1] == trace[k + 1]);
        } else {
            assert(t2[k] == trace.last());
        }
    }
}

impl<A: Behavior<D>, B: Behavior<D>, D> Behavior<D> for WhileLoop<A, B> {
    /// Succeeds when the condition fails, fails when the body fails.
    fn run(&mut self, blackboard: &mut D) -> (r: Status)
        ensures
            !(r is Running) ==> final(self).check_condition(),
    {
        let mut fuel: u64 = u64::MAX;
        loop
            decreases fuel,
        {
            if fuel == 0 {
                return Status::Running;
            }
            fuel = fuel - 1;
            if self.check_condition {
                match self.condition.run(blackboard) {
                    Status::Running => return Status::Running,
                    Status::Success => self.check_condition = false,
                    Status::Failure => return Status::Success,
                }
            }
            match self.body.run(blackboard) {
                Status::Running => return Status::Running,
                Status::Success => self.check_condition = true,
                Status::Failure => {
                    self.check_condition = true;
                    return Status::Failure;
                },
            }
        }
    }
}

impl<A: CancelSafe, B: CancelSafe> CancelSafe for WhileLoop<A, B> {
    fn reset(&mut self)
        ensures
            final(self).check_condition(),
    {
        self.check_condition = true;
        self.condition.reset();
        self.body.reset();
    }
}

impl<A: InfallibleBehavior<D>, B: FallibleBehavior<D>, D> FallibleBehavior<D> for WhileLoop<A, B> {
    /// The condition where it was due, then the body, ran as `fallible_step` describes.
    open spec fn ran_fallible(
        &self,
        blackboard: D,
        next: &Self,
        next_blackboard: D,
        r: FallibleStatus,
    ) -> bool {
        exists|checked: A, mid: D, cs: InfallibleStatus|
            #[trigger] self.fallible_step(blackboard, *next, next_blackboard, r, checked, mid, cs)
    }

    /// Fails when the body fails.
    fn run_fallible(&mut self, blackboard: &mut D) -> (r: FallibleStatus)
        ensures
            r is Failure ==> final(self).check_condition(),
            !old(self).check_condition() ==> final(self).condition_spec() == old(self).condition_spec(),
    {
        let ghost s0 = *self;
        let ghost bb0 = *blackboard;
        let ghost mut checked: A = self.condition;
        let ghost mut mid: D = *blackboard;
        let ghost mut cs: InfallibleStatus = InfallibleStatus::Success;
        if self.check_condition {
            let c = self.condition.run_infallible(blackboard);
            proof {
                checked = self.condition;
                mid = *blackboard;
                cs = c;
                assert(s0.condition.ran_infallible(bb0, &checked, mid, cs));
            }
            match c {
                InfallibleStatus::Running => {
                    assert(s0.fallible_step(bb0, *self, *blackboard, FallibleStatus::Running, checked, mid, cs));
                    return FallibleStatus::Running;
                },
                InfallibleStatus::Success => self.check_condition = false,
            }
        }
        let ghost b0 = self.body;
        let ghost bm = *blackboard;
        let st = self.body.run_fallible(blackboard);
        assert(b0.ran_fallible(bm, &self.body, *blackboard, st));
        let result = match st {
            FallibleStatus::Running => FallibleStatus::Running,
            FallibleStatus::Failure => {
                self.check_condition = true;
                FallibleStatus::Failure
            },
        };
        assert(s0.fallible_step(bb0, *self, *blackboard, result, checked, mid, cs));
        result
    }
}

impl<A: Behavior<D>, B: InfallibleBehavior<D>, D> InfallibleBehavior<D> for WhileLoop<A, B> {
    /// Passes through the loop ran as `infallible_run` describes.
    open spec fn ran_infallible(
        &self,
        blackboard: D,
        next: &Self,
        next_blackboard: D,
        r: InfallibleStatus,
    ) -> bool {
        exists|trace: Seq<(Self, D)>|
            #[trigger] Self::infallible_run(trace, *self, blackboard, *next, next_blackboard, r)
    }

    /// Succeeds when the condition fails.
    fn run_infallible(&mut self, blackboard: &mut D) -> (r: InfallibleStatus)
        ensures
            r is Success ==> final(self).check_condition(),
            exists|trace: Seq<(Self, D)>|
                #[trigger] Self::infallible_run(
                    trace,
                    *old(self),
                    *old(blackboard),
                    *final(self),
                    *final(blackboard),
                    r,
                ),
    {
        let ghost s0 = *self;
        let ghost bb0 = *blackboard;
        let ghost mut trace: Seq<(Self, D)> = seq![(s0, bb0)];
        let mut fuel: u64 = u64::MAX;
        loop
            invariant
                s0 == *old(self),
                bb0 == *old(blackboard),
                Self::infallible_chain(trace, s0, bb0),
                trace.last() == (*self, *blackboard),
                trace.len() - 1 == u64::MAX - fuel,
            decreases fuel,
        {
            if fuel == 0 {
                assert(Self::infallible_run(trace, s0, bb0, *self, *blackboard, InfallibleStatus::Running));
                return InfallibleStatus::Running;
            }
            fuel = fuel - 1;
            let ghost pre = *self;
            let ghost pre_b = *blackboard;
            let ghost mut checked: A = self.condition;
            let ghost mut mid: D = *blackboard;
            let ghost mut cs: Status = Status::Success;
            if self.check_condition {
                let c = self.condition.run(blackboard);
                proof {
                    checked = self.condition;
                    mid = *blackboard;
                    cs = c;
                    assert(pre.condition.ran(pre_b, &checked, mid, cs));
                }
                match c {
                    Status::Running => {
                        assert(pre.infallible_pass_via(
                            pre_b,
                            *self,
                            *blackboard,
                            Some(InfallibleStatus::Running),
                            checked,
                            mid,
                            cs,
                        ));
                        assert(Self::infallible_run(trace, s0, bb0, *self, *blackboard, InfallibleStatus::Running));
                        return InfallibleStatus::Running;
                    },
                    Status::Success => self.check_condition = false,
                    Status::Failure => {
                        assert(pre.infallible_pass_via(
                            pre_b,
                            *self,
                            *blackboard,
                            Some(InfallibleStatus::Success),
                            checked,
                            mid,
                            cs,
                        ));
                        assert(Self::infallible_run(trace, s0, bb0, *self, *blackboard, InfallibleStatus::Success));
                        return InfallibleStatus::Success;
                    },
                }
            }
            let ghost b0 = self.body;
            let ghost bm = *blackboard;
            let st = self.body.run_infallible(blackboard);
            assert(b0.ran_infallible(bm, &self.body, *blackboard, st));
            match st {
                InfallibleStatus::Running => {
                    assert(pre.infallible_pass_via(
                        pre_b,
                        *self,
                        *blackboard,
                        Some(InfallibleStatus::Running),
                        checked,
                        mid,
                        cs,
                    ));
                    assert(Self::infallible_run(trace, s0, bb0, *self, *blackboard, InfallibleStatus::Running));
                    return InfallibleStatus::Running;
                },
                InfallibleStatus::Success => {
                    self.check_condition = true;
                    proof {
                        assert(pre.infallible_pass_via(pre_b, *self, *blackboard, None, checked, mid, cs));
                        lemma_infallible_extend(trace, s0, bb0, *self, *blackboard);
                        trace = trace.push((*self, *blackboard));
                    }
                },
            }
        }
    }
}

impl<A: InfallibleBehavior<D>, B: InfallibleBehavior<D>, D> EternalBehavior<D> for WhileLoop<A, B> {
    /// Passes through the loop ran as `eternal_run` describes.
    open spec fn ran_eternal(
        &self,
        blackboard: D,
        next: &Self,
        next_blackboard: D,
        r: EternalStatus,
    ) -> bool {
        exists|trace: Seq<(Self, D)>|
            #[trigger] Self::eternal_run(trace, *self, blackboard, *next, next_blackboard)
    }

    fn run_eternal(&mut self, blackboard: &mut D) -> (r: EternalStatus)
        ensures
            exists|trace: Seq<(Self, D)>|
                #[trigger] Self::eternal_run(
                    trace,
                    *old(self),
                    *old(blackboard),
                    *final(self),
                    *final(blackboard),
                ),
    {
        let ghost s0 = *self;
        let ghost bb0 = *blackboard;
        let ghost mut trace: Seq<(Self, D)> = seq![(s0, bb0)];
        let mut fuel: u64 = u64::MAX;
        loop
            invariant
                s0 == *old(self),
                bb0 == *old(blackboard),
                Self::eternal_chain(trace, s0, bb0),
                trace.last() == (*self, *blackboard),
                trace.len() - 1 == u64::MAX - fuel,
            decreases fuel,
        {
            if fuel == 0 {
                assert(Self::eternal_run(trace, s0, bb0, *self, *blackboard));
                return EternalStatus::Running;
            }
            fuel = fuel - 1;
            let ghost pre = *self;
            let ghost pre_b = *blackboard;
            let ghost mut checked: A = self.condition;
            let ghost mut mid: D = *blackboard;
            let ghost mut cs: InfallibleStatus = InfallibleStatus::Success;
            if self.check_condition {
                let c = self.condition.run_infallible(blackboard);
                proof {
                    checked = self.condition;
                    mid = *blackboard;
                    cs = c;
                    assert(pre.condition.ran_infallible(pre_b, &checked, mid, cs));
                }
                match c {
                    InfallibleStatus::Running => {
                        assert(pre.eternal_pass_via(pre_b, *self, *blackboard, true, checked, mid, cs));
                        assert(Self::eternal_run(trace, s0, bb0, *self, *blackboard));
                        return EternalStatus::Running;
                    },
                    InfallibleStatus::Success => self.check_condition = false,
                }
            }
            let ghost b0 = self.body;
            let ghost bm = *blackboard;
            let st = self.body.run_infallible(blackboard);
            assert(b0.ran_infallible(bm, &self.body, *blackboard, st));
            match st {
                InfallibleStatus::Running => {
                    assert(pre.eternal_pass_via(pre_b, *self, *blackboard, true, checked, mid, cs));
                    assert(Self::eternal_run(trace, s0, bb0, *self, *blackboard));
                    return EternalStatus::Running;
                },
                InfallibleStatus::Success => {
                    self.check_condition = true;
                    proof {
                        assert(pre.eternal_pass_via(pre_b, *self, *blackboard, false, checked, mid, cs));
                        lemma_eternal_extend(trace, s0, bb0, *self, *blackboard);
                        trace = trace.push((*self, *blackboard));
                    }
                },
            }
        }
    }
}

} // verus!
