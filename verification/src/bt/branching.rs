//! Branching nodes: if-else on a condition, and try-catch.

use vstd::prelude::*;

use crate::bt::status::{
    Behavior, CancelSafe, EternalBehavior, EternalStatus, FallibleBehavior, FallibleStatus,
    InfallibleBehavior, InfallibleStatus, Status,
};

verus! {

/// Which part of an [`IfElse`] runs next.
#[derive(Debug, Clone, Copy, PartialEq, Eq, Structural)]
pub enum IfElseState {
    Condition,
    IfTrue,
    IfFalse,
}

/// Runs `condition`; then `if_true` if it succeeded, `if_false` if it failed.
pub struct IfElse<A, B, C> {
    pub condition: A,
    pub if_true: B,
    pub if_false: C,
    state: IfElseState,
}

impl<A, B, C> IfElse<A, B, C> {
    /// Which part runs next.
    pub closed spec fn state(&self) -> IfElseState {
        self.state
    }

    pub closed spec fn condition_spec(&self) -> A {
        self.condition
    }

    pub closed spec fn if_true_spec(&self) -> B {
        self.if_true
    }

    pub closed spec fn if_false_spec(&self) -> C {
        self.if_false
    }

    /// Only the branch that the condition chose has run, and after a finished
    /// run the node starts again with the condition.
    pub open spec fn step_ok(old: Self, new: Self, finished: bool) -> bool {
        &&& finished ==> new.state() is Condition
        &&& old.state() is IfTrue ==> new.condition_spec() == old.condition_spec()
            && new.if_false_spec() == old.if_false_spec()
            && (new.state() is IfTrue || finished)
        &&& old.state() is IfFalse ==> new.condition_spec() == old.condition_spec()
            && new.if_true_spec() == old.if_true_spec()
            && (new.state() is IfFalse || finished)
        &&& old.state() is Condition ==> new.if_true_spec() == old.if_true_spec()
            || new.if_false_spec() == old.if_false_spec()
        &&& new.state() is IfTrue ==> new.if_false_spec() == old.if_false_spec()
        &&& new.state() is IfFalse ==> new.if_true_spec() == old.if_true_spec()
    }

    /// After a run the node waits in `branch` while that branch is still
    /// running, and starts over with the condition otherwise.
    pub open spec fn resumes(next: Self, branch: IfElseState, running: bool) -> bool {
        next.state() == (if running { branch } else { IfElseState::Condition })
    }

    /// One run as the node's state chose it: from the condition, the
    /// condition ran and left `cond` and `mid`, reporting `cs`, and then the
    /// branch it chose ran; from a branch, that branch ran again.
    pub open spec fn status_step<D>(
        self,
        blackboard: D,
        next: Self,
        next_blackboard: D,
        r: Status,
        cond: A,
        mid: D,
        cs: Status,
    ) -> bool where A: Behavior<D>, B: Behavior<D>, C: Behavior<D> {
        match self.state() {
            IfElseState::Condition => {
                &&& self.condition_spec().ran(blackboard, &cond, mid, cs)
                &&& next.condition_spec() == cond
                &&& match cs {
                    Status::Running => {
                        &&& r is Running
                        &&& next_blackboard == mid
                        &&& next.state() is Condition
                        &&& next.if_true_spec() == self.if_true_spec()
                        &&& next.if_false_spec() == self.if_false_spec()
                    },
                    Status::Success => {
                        &&& self.if_true_spec().ran(mid, &next.if_true_spec(), next_blackboard, r)
                        &&& next.if_false_spec() == self.if_false_spec()
                        &&& Self::resumes(next, IfElseState::IfTrue, r is Running)
                    },
                    Status::Failure => {
                        &&& self.if_false_spec().ran(mid, &next.if_false_spec(), next_blackboard, r)
                        &&& next.if_true_spec() == self.if_true_spec()
                        &&& Self::resumes(next, IfElseState::IfFalse, r is Running)
                    },
                }
            },
            IfElseState::IfTrue => {
                &&& self.if_true_spec().ran(blackboard, &next.if_true_spec(), next_blackboard, r)
                &&& next.condition_spec() == self.condition_spec()
                &&& next.if_false_spec() == self.if_false_spec()
                &&& Self::resumes(next, IfElseState::IfTrue, r is Running)
            },
            IfElseState::IfFalse => {
                &&& self.if_false_spec().ran(blackboard, &next.if_false_spec(), next_blackboard, r)
                &&& next.condition_spec() == self.condition_spec()
                &&& next.if_true_spec() == self.if_true_spec()
                &&& Self::resumes(next, IfElseState::IfFalse, r is Running)
            },
        }
    }

    /// One run as the node's state chose it: from the condition, the
    /// condition ran and left `cond` and `mid`, reporting `cs`, and then the
    /// branch it chose ran; from a branch, that branch ran again.
    pub open spec fn infallible_step<D>(
        self,
        blackboard: D,
        next: Self,
        next_blackboard: D,
        r: InfallibleStatus,
        cond: A,
        mid: D,
        cs: Status,
    ) -> bool where A: Behavior<D>, B: InfallibleBehavior<D>, C: InfallibleBehavior<D> {
        match self.state() {
            IfElseState::Condition => {
                &&& self.condition_spec().ran(blackboard, &cond, mid, cs)
                &&& next.condition_spec() == cond
                &&& match cs {
                    Status::Running => {
                        &&& r is Running
                        &&& next_blackboard == mid
                        &&& next.state() is Condition
                        &&& next.if_true_spec() == self.if_true_spec()
                        &&& next.if_false_spec() == self.if_false_spec()
                    },
                    Status::Success => {
                        &&& self.if_true_spec().ran_infallible(mid, &next.if_true_spec(), next_blackboard, r)
                        &&& next.if_false_spec() == self.if_false_spec()
                        &&& Self::resumes(next, IfElseState::IfTrue, r is Running)
                    },
                    Status::Failure => {
                        &&& self.if_false_spec().ran_infallible(mid, &next.if_false_spec(), next_blackboard, r)
                        &&& next.if_true_spec() == self.if_true_spec()
                        &&& Self::resumes(next, IfElseState::IfFalse, r is Running)
                    },
                }
            },
            IfElseState::IfTrue => {
                &&& self.if_true_spec().ran_infallible(blackboard, &next.if_true_spec(), next_blackboard, r)
                &&& next.condition_spec() == self.condition_spec()
                &&& next.if_false_spec() == self.if_false_spec()
                &&& Self::resumes(next, IfElseState::IfTrue, r is Running)
            },
            IfElseState::IfFalse => {
                &&& self.if_false_spec().ran_infallible(blackboard, &next.if_false_spec(), next_blackboard, r)
                &&& next.condition_spec() == self.condition_spec()
                &&& next.if_true_spec() == self.if_true_spec()
                &&& Self::resumes(next, IfElseState::IfFalse, r is Running)
            },
        }
    }

    /// One run as the node's state chose it: from the condition, the
    /// condition ran and left `cond` and `mid`, reporting `cs`, and then the
    /// branch it chose ran; from a branch, that branch ran again.
    pub open spec fn fallible_step<D>(
        self,
        blackboard: D,
        next: Self,
        next_blackboard: D,
        r: FallibleStatus,
        cond: A,
        mid: D,
        cs: Status,
    ) -> bool where A: Behavior<D>, B: FallibleBehavior<D>, C: FallibleBehavior<D> {
        match self.state() {
            IfElseState::Condition => {
                &&& self.condition_spec().ran(blackboard, &cond, mid, cs)
                &&& next.condition_spec() == cond
                &&& match cs {
                    Status::Running => {
                        &&& r is Running
                        &&& next_blackboard == mid
                        &&& next.state() is Condition
                        &&& next.if_true_spec() == self.if_true_spec()
                        &&& next.if_false_spec() == self.if_false_spec()
                    },
                    Status::Success => {
                        &&& self.if_true_spec().ran_fallible(mid, &next.if_true_spec(), next_blackboard, r)
                        &&& next.if_false_spec() == self.if_false_spec()
                        &&& Self::resumes(next, IfElseState::IfTrue, r is Running)
                    },
                    Status::Failure => {
                        &&& self.if_false_spec().ran_fallible(mid, &next.if_false_spec(), next_blackboard, r)
                        &&& next.if_true_spec() == self.if_true_spec()
                        &&& Self::resumes(next, IfElseState::IfFalse, r is Running)
                    },
                }
            },
            IfElseState::IfTrue => {
                &&& self.if_true_spec().ran_fallible(blackboard, &next.if_true_spec(), next_blackboard, r)
                &&& next.condition_spec() == self.condition_spec()
                &&& next.if_false_spec() == self.if_false_spec()
                &&& Self::resumes(next, IfElseState::IfTrue, r is Running)
            },
            IfElseState::IfFalse => {
                &&& self.if_false_spec().ran_fallible(blackboard, &next.if_false_spec(), next_blackboard, r)
                &&& next.condition_spec() == self.condition_spec()
                &&& next.if_true_spec() == self.if_true_spec()
                &&& Self::resumes(next, IfElseState::IfFalse, r is Running)
            },
        }
    }

    /// One run as the node's state chose it: from the condition, the
    /// condition ran and left `cond` and `mid`, reporting `cs`, and then the
    /// branch it chose ran; from a branch, that branch ran again.
    pub open spec fn eternal_step<D>(
        self,
        blackboard: D,
        next: Self,
        next_blackboard: D,
        r: EternalStatus,
        cond: A,
        mid: D,
        cs: Status,
    ) -> bool where A: Behavior<D>, B: EternalBehavior<D>, C: EternalBehavior<D> {
        match self.state() {
            IfElseState::Condition => {
                &&& self.condition_spec().ran(blackboard, &cond, mid, cs)
                &&& next.condition_spec() == cond
                &&& match cs {
                    Status::Running => {
                        &&& r is Running
                        &&& next_blackboard == mid
                        &&& next.state() is Condition
                        &&& next.if_true_spec() == self.if_true_spec()
                        &&& next.if_false_spec() == self.if_false_spec()
                    },
                    Status::Success => {
                        &&& self.if_true_spec().ran_eternal(mid, &next.if_true_spec(), next_blackboard, r)
                        &&& next.if_false_spec() == self.if_false_spec()
                        &&& Self::resumes(next, IfElseState::IfTrue, true)
                    },
                    Status::Failure => {
                        &&& self.if_false_spec().ran_eternal(mid, &next.if_false_spec(), next_blackboard, r)
                        &&& next.if_true_spec() == self.if_true_spec()
                        &&& Self::resumes(next, IfElseState::IfFalse, true)
                    },
                }
            },
            IfElseState::IfTrue => {
                &&& self.if_true_spec().ran_eternal(blackboard, &next.if_true_spec(), next_blackboard, r)
                &&& next.condition_spec() == self.condition_spec()
                &&& next.if_false_spec() == self.if_false_spec()
                &&& Self::resumes(next, IfElseState::IfTrue, true)
            },
            IfElseState::IfFalse => {
                &&& self.if_false_spec().ran_eternal(blackboard, &next.if_false_spec(), next_blackboard, r)
                &&& next.condition_spec() == self.condition_spec()
                &&& next.if_true_spec() == self.if_true_spec()
                &&& Self::resumes(next, IfElseState::IfFalse, true)
            },
        }
    }

    pub fn new(condition: A, if_true: B, if_false: C) -> (r: Self)
        ensures
            r.state() is Condition,
            r.condition_spec() == condition,
            r.if_true_spec() == if_true,
            r.if_false_spec() == if_false,
    {
        IfElse { condition, if_true, if_false, state: IfElseState::Condition }
    }
}

impl<A, B, C, D> Behavior<D> for IfElse<A, B, C> where
    A: Behavior<D>,
    B: Behavior<D>,
    C: Behavior<D>,
 {
    /// The condition and the branch it chose ran, as `status_step` describes.
    open spec fn ran(&self, blackboard: D, next: &Self, next_blackboard: D, r: Status) -> bool {
        exists|cond: A, mid: D, cs: Status|
            #[trigger] self.status_step(blackboard, *next, next_blackboard, r, cond, mid, cs)
    }

    fn run(&mut self, blackboard: &mut D) -> (r: Status)
        ensures
            IfElse::step_ok(*old(self), *final(self), !(r is Running)),
    {
        let ghost s0 = *self;
        let ghost bb0 = *blackboard;
        let ghost mut cond: A = self.condition;
        let ghost mut mid: D = *blackboard;
        let ghost mut cs: Status = Status::Running;
        let result = match self.state {
            IfElseState::Condition => {
                let c = self.condition.run(blackboard);
                proof {
                    cond = self.condition;
                    mid = *blackboard;
                    cs = c;
                    assert(s0.condition.ran(bb0, &cond, mid, cs));
                }
                match c {
                    Status::Running => {
                        assert(s0.status_step(bb0, *self, *blackboard, Status::Running, cond, mid, cs));
                        return Status::Running;
                    },
                    Status::Success => {
                        self.state = IfElseState::IfTrue;
                        let ghost t0 = self.if_true;
                        let res = self.if_true.run(blackboard);
                        assert(t0.ran(mid, &self.if_true, *blackboard, res));
                        res
                    },
                    Status::Failure => {
                        self.state = IfElseState::IfFalse;
                        let ghost f0 = self.if_false;
                        let res = self.if_false.run(blackboard);
                        assert(f0.ran(mid, &self.if_false, *blackboard, res));
                        res
                    },
                }
            },
            IfElseState::IfTrue => {
                let res = self.if_true.run(blackboard);
                assert(s0.if_true.ran(bb0, &self.if_true, *blackboard, res));
                res
            },
            IfElseState::IfFalse => {
                let res = self.if_false.run(blackboard);
                assert(s0.if_false.ran(bb0, &self.if_false, *blackboard, res));
                res
            },
        };
        if !result.is_running() {
            self.state = IfElseState::Condition;
        }
        assert(s0.status_step(bb0, *self, *blackboard, result, cond, mid, cs));
        result
    }
}

impl<A, B, C, D> InfallibleBehavior<D> for IfElse<A, B, C> where
    A: Behavior<D>,
    B: InfallibleBehavior<D>,
    C: InfallibleBehavior<D>,
 {
    /// The condition and the branch it chose ran, as `infallible_step` describes.
    open spec fn ran_infallible(&self, blackboard: D, next: &Self, next_blackboard: D, r: InfallibleStatus) -> bool {
        exists|cond: A, mid: D, cs: Status|
            #[trigger] self.infallible_step(blackboard, *next, next_blackboard, r, cond, mid, cs)
    }

    fn run_infallible(&mut self, blackboard: &mut D) -> (r: InfallibleStatus)
        ensures
            IfElse::step_ok(*old(self), *final(self), !(r is Running)),
    {
        let ghost s0 = *self;
        let ghost bb0 = *blackboard;
        let ghost mut cond: A = self.condition;
        let ghost mut mid: D = *blackboard;
        let ghost mut cs: Status = Status::Running;
        let result = match self.state {
            IfElseState::Condition => {
                let c = self.condition.run(blackboard);
                proof {
                    cond = self.condition;
                    mid = *blackboard;
                    cs = c;
                    assert(s0.condition.ran(bb0, &cond, mid, cs));
                }
                match c {
                    Status::Running => {
                        assert(s0.infallible_step(bb0, *self, *blackboard, InfallibleStatus::Running, cond, mid, cs));
                        return InfallibleStatus::Running;
                    },
                    Status::Success => {
                        self.state = IfElseState::IfTrue;
                        let ghost t0 = self.if_true;
                        let res = self.if_true.run_infallible(blackboard);
                        assert(t0.ran_infallible(mid, &self.if_true, *blackboard, res));
                        res
                    },
                    Status::Failure => {
                        self.state = IfElseState::IfFalse;
                        let ghost f0 = self.if_false;
                        let res = self.if_false.run_infallible(blackboard);
                        assert(f0.ran_infallible(mid, &self.if_false, *blackboard, res));
                        res
                    },
                }
            },
            IfElseState::IfTrue => {
                let res = self.if_true.run_infallible(blackboard);
                assert(s0.if_true.ran_infallible(bb0, &self.if_true, *blackboard, res));
                res
            },
            IfElseState::IfFalse => {
                let res = self.if_false.run_infallible(blackboard);
                assert(s0.if_false.ran_infallible(bb0, &self.if_false, *blackboard, res));
                res
            },
        };
        if !result.is_running() {
            self.state = IfElseState::Condition;
        }
        assert(s0.infallible_step(bb0, *self, *blackboard, result, cond, mid, cs));
        result
    }
}

impl<A, B, C, D> FallibleBehavior<D> for IfElse<A, B, C> where
    A: Behavior<D>,
    B: FallibleBehavior<D>,
    C: FallibleBehavior<D>,
 {
    /// The condition and the branch it chose ran, as `fallible_step` describes.
    open spec fn ran_fallible(&self, blackboard: D, next: &Self, next_blackboard: D, r: FallibleStatus) -> bool {
        exists|cond: A, mid: D, cs: Status|
            #[trigger] self.fallible_step(blackboard, *next, next_blackboard, r, cond, mid, cs)
    }

    fn run_fallible(&mut self, blackboard: &mut D) -> (r: FallibleStatus)
        ensures
            IfElse::step_ok(*old(self), *final(self), !(r is Running)),
    {
        let ghost s0 = *self;
        let ghost bb0 = *blackboard;
        let ghost mut cond: A = self.condition;
        let ghost mut mid: D = *blackboard;
        let ghost mut cs: Status = Status::Running;
        let result = match self.state {
            IfElseState::Condition => {
                let c = self.condition.run(blackboard);
                proof {
                    cond = self.condition;
                    mid = *blackboard;
                    cs = c;
                    assert(s0.condition.ran(bb0, &cond, mid, cs));
                }
                match c {
                    Status::Running => {
                        assert(s0.fallible_step(bb0, *self, *blackboard, FallibleStatus::Running, cond, mid, cs));
                        return FallibleStatus::Running;
                    },
                    Status::Success => {
                        self.state = IfElseState::IfTrue;
                        let ghost t0 = self.if_true;
                        let res = self.if_true.run_fallible(blackboard);
                        assert(t0.ran_fallible(mid, &self.if_true, *blackboard, res));
                        res
                    },
                    Status::Failure => {
                        self.state = IfElseState::IfFalse;
                        let ghost f0 = self.if_false;
                        let res = self.if_false.run_fallible(blackboard);
                        assert(f0.ran_fallible(mid, &self.if_false, *blackboard, res));
                        res
                    },
                }
            },
            IfElseState::IfTrue => {
                let res = self.if_true.run_fallible(blackboard);
                assert(s0.if_true.ran_fallible(bb0, &self.if_true, *blackboard, res));
                res
            },
            IfElseState::IfFalse => {
                let res = self.if_false.run_fallible(blackboard);
                assert(s0.if_false.ran_fallible(bb0, &self.if_false, *blackboard, res));
                res
            },
        };
        if !result.is_running() {
            self.state = IfElseState::Condition;
        }
        assert(s0.fallible_step(bb0, *self, *blackboard, result, cond, mid, cs));
        result
    }
}

impl<A, B, C, D> EternalBehavior<D> for IfElse<A, B, C> where
    A: Behavior<D>,
    B: EternalBehavior<D>,
    C: EternalBehavior<D>,
 {
    /// The condition and the branch it chose ran, as `eternal_step` describes.
    open spec fn ran_eternal(&self, blackboard: D, next: &Self, next_blackboard: D, r: EternalStatus) -> bool {
        exists|cond: A, mid: D, cs: Status|
            #[trigger] self.eternal_step(blackboard, *next, next_blackboard, r, cond, mid, cs)
    }

    fn run_eternal(&mut self, blackboard: &mut D) -> (r: EternalStatus)
        ensures
            IfElse::step_ok(*old(self), *final(self), false),
    {
        let ghost s0 = *self;
        let ghost bb0 = *blackboard;
        let ghost mut cond: A = self.condition;
        let ghost mut mid: D = *blackboard;
        let ghost mut cs: Status = Status::Running;
        let result = match self.state {
            IfElseState::Condition => {
                let c = self.condition.run(blackboard);
                proof {
                    cond = self.condition;
                    mid = *blackboard;
                    cs = c;
                    assert(s0.condition.ran(bb0, &cond, mid, cs));
                }
                match c {
                    Status::Running => {
                        assert(s0.eternal_step(bb0, *self, *blackboard, EternalStatus::Running, cond, mid, cs));
                        return EternalStatus::Running;
                    },
                    Status::Success => {
                        self.state = IfElseState::IfTrue;
                        let ghost t0 = self.if_true;
                        let res = self.if_true.run_eternal(blackboard);
                        assert(t0.ran_eternal(mid, &self.if_true, *blackboard, res));
                        res
                    },
                    Status::Failure => {
                        self.state = IfElseState::IfFalse;
                        let ghost f0 = self.if_false;
                        let res = self.if_false.run_eternal(blackboard);
                        assert(f0.ran_eternal(mid, &self.if_false, *blackboard, res));
                        res
                    },
                }
            },
            IfElseState::IfTrue => {
                let res = self.if_true.run_eternal(blackboard);
                assert(s0.if_true.ran_eternal(bb0, &self.if_true, *blackboard, res));
                res
            },
            IfElseState::IfFalse => {
                let res = self.if_false.run_eternal(blackboard);
                assert(s0.if_false.ran_eternal(bb0, &self.if_false, *blackboard, res));
                res
            },
        };
        assert(s0.eternal_step(bb0, *self, *blackboard, result, cond, mid, cs));
        result
    }
}

impl<A: CancelSafe, B: CancelSafe, C: CancelSafe> CancelSafe for IfElse<A, B, C> {
    fn reset(&mut self)
        ensures
            final(self).state() is Condition,
    {
        self.state = IfElseState::Condition;
        self.condition.reset();
        self.if_true.reset();
        self.if_false.reset();
    }
}

/// Runs `try_behavior`; if it fails, runs `catch` instead.
pub struct TryCatch<A, B> {
    pub try_behavior: A,
    pub catch: B,
    trying: bool,
}

impl<A, B> TryCatch<A, B> {
    /// Whether the next run starts with (or continues) `try_behavior`.
    pub closed spec fn trying(&self) -> bool {
        self.trying
    }

    pub closed spec fn try_spec(&self) -> A {
        self.try_behavior
    }

    pub closed spec fn catch_spec(&self) -> B {
        self.catch
    }

    /// `catch` runs only after `try_behavior` failed, `try_behavior` is not
    /// run again while `catch` runs, and a finished run starts over with `try_behavior`.
    pub open spec fn step_ok(old: Self, new: Self, finished: bool) -> bool {
        &&& finished ==> new.trying()
        &&& !old.trying() ==> new.try_spec() == old.try_spec()
        &&& new.trying() && !finished ==> new.catch_spec() == old.catch_spec()
    }


    /// One run: while trying, `try_behavior` ran and
    /// left `tried` and `mid`, reporting `ts`, and `catch` ran after a
    /// failure of it; otherwise `catch` ran again.
    pub open spec fn status_step<D>(
        self,
        blackboard: D,
        next: Self,
        next_blackboard: D,
        r: Status,
        tried: A,
        mid: D,
        ts: Status,
    ) -> bool where A: Behavior<D>, B: Behavior<D> {
        if self.trying() {
            &&& self.try_spec().ran(blackboard, &tried, mid, ts)
            &&& next.try_spec() == tried
            &&& match ts {
                Status::Running => {
                    &&& r is Running
                    &&& next_blackboard == mid
                    &&& next.trying()
                    &&& next.catch_spec() == self.catch_spec()
                },
                Status::Success => {
                    &&& r is Success
                    &&& next_blackboard == mid
                    &&& next.trying()
                    &&& next.catch_spec() == self.catch_spec()
                },
                Status::Failure => {
                    &&& self.catch_spec().ran(mid, &next.catch_spec(), next_blackboard, r)
                    &&& next.trying() == !(r is Running)
                },
            }
        } else {
            &&& self.catch_spec().ran(blackboard, &next.catch_spec(), next_blackboard, r)
            &&& next.try_spec() == self.try_spec()
            &&& next.trying() == !(r is Running)
        }
    }

    /// One run that may end in success: while trying, `try_behavior` ran and
    /// left `tried` and `mid`, reporting `ts`, and `catch` ran after a
    /// failure of it; otherwise `catch` ran again.
    pub open spec fn infallible_step<D>(
        self,
        blackboard: D,
        next: Self,
        next_blackboard: D,
        r: InfallibleStatus,
        tried: A,
        mid: D,
        ts: Status,
    ) -> bool where A: Behavior<D>, B: InfallibleBehavior<D> {
        if self.trying() {
            &&& self.try_spec().ran(blackboard, &tried, mid, ts)
            &&& next.try_spec() == tried
            &&& match ts {
                Status::Running => {
                    &&& r is Running
                    &&& next_blackboard == mid
                    &&& next.trying()
                    &&& next.catch_spec() == self.catch_spec()
                },
                Status::Success => {
                    &&& r is Success
                    &&& next_blackboard == mid
                    &&& next.trying()
                    &&& next.catch_spec() == self.catch_spec()
                },
                Status::Failure => {
                    &&& self.catch_spec().ran_infallible(mid, &next.catch_spec(), next_blackboard, r)
                    &&& next.trying() == !(r is Running)
                },
            }
        } else {
            &&& self.catch_spec().ran_infallible(blackboard, &next.catch_spec(), next_blackboard, r)
            &&& next.try_spec() == self.try_spec()
            &&& next.trying() == !(r is Running)
        }
    }

    /// One run that may end in failure: while trying, `try_behavior` ran and
    /// left `tried` and `mid`, reporting `ts`, and `catch` ran after a
    /// failure of it; otherwise `catch` ran again.
    pub open spec fn fallible_step<D>(
        self,
        blackboard: D,
        next: Self,
        next_blackboard: D,
        r: FallibleStatus,
        tried: A,
        mid: D,
        ts: FallibleStatus,
    ) -> bool where A: FallibleBehavior<D>, B: FallibleBehavior<D> {
        if self.trying() {
            &&& self.try_spec().ran_fallible(blackboard, &tried, mid, ts)
            &&& next.try_spec() == tried
            &&& match ts {
                FallibleStatus::Running => {
                    &&& r is Running
                    &&& next_blackboard == mid
                    &&& next.trying()
                    &&& next.catch_spec() == self.catch_spec()
                },
                FallibleStatus::Failure => {
                    &&& self.catch_spec().ran_fallible(mid, &next.catch_spec(), next_blackboard, r)
                    &&& next.trying() == !(r is Running)
                },
            }
        } else {
            &&& self.catch_spec().ran_fallible(blackboard, &next.catch_spec(), next_blackboard, r)
            &&& next.try_spec() == self.try_spec()
            &&& next.trying() == !(r is Running)
        }
    }

    pub fn new(try_behavior: A, catch: B) -> (r: Self)
        ensures
            r.trying(),
            r.try_spec() == try_behavior,
            r.catch_spec() == catch,
    {
        TryCatch { try_behavior, catch, trying: true }
    }
}

impl<A: Behavior<D>, B: Behavior<D>, D> Behavior<D> for TryCatch<A, B> {
    /// `try_behavior`, then `catch` where it failed, ran as `status_step` describes.
    open spec fn ran(
        &self,
        blackboard: D,
        next: &Self,
        next_blackboard: D,
        r: Status,
    ) -> bool {
        exists|tried: A, mid: D, ts: Status|
            #[trigger] self.status_step(blackboard, *next, next_blackboard, r, tried, mid, ts)
    }

    fn run(&mut self, blackboard: &mut D) -> (r: Status)
        ensures
            TryCatch::step_ok(*old(self), *final(self), !(r is Running)),
    {
        let ghost s0 = *self;
        let ghost bb0 = *blackboard;
        let ghost mut tried: A = self.try_behavior;
        let ghost mut mid: D = *blackboard;
        let ghost mut ts: Status = Status::Running;
        let result = if self.trying {
            let t = self.try_behavior.run(blackboard);
            proof {
                tried = self.try_behavior;
                mid = *blackboard;
                ts = t;
                assert(s0.try_behavior.ran(bb0, &tried, mid, ts));
            }
            match t {
                Status::Running => {
                    assert(s0.status_step(bb0, *self, *blackboard, Status::Running, tried, mid, ts));
                    return Status::Running;
                },
                Status::Success => {
                    assert(s0.status_step(bb0, *self, *blackboard, Status::Success, tried, mid, ts));
                    return Status::Success;
                },
                Status::Failure => {
                    self.trying = false;
                    let ghost c0 = self.catch;
                    let res = self.catch.run(blackboard);
                    assert(c0.ran(mid, &self.catch, *blackboard, res));
                    res
                },
            }
        } else {
            let res = self.catch.run(blackboard);
            assert(s0.catch.ran(bb0, &self.catch, *blackboard, res));
            res
        };
        if !result.is_running() {
            self.trying = true;
        }
        assert(s0.status_step(bb0, *self, *blackboard, result, tried, mid, ts));
        result
    }
}

impl<A: Behavior<D>, B: InfallibleBehavior<D>, D> InfallibleBehavior<D> for TryCatch<A, B> {
    /// `try_behavior`, then `catch` where it failed, ran as `infallible_step` describes.
    open spec fn ran_infallible(
        &self,
        blackboard: D,
        next: &Self,
        next_blackboard: D,
        r: InfallibleStatus,
    ) -> bool {
        exists|tried: A, mid: D, ts: Status|
            #[trigger] self.infallible_step(blackboard, *next, next_blackboard, r, tried, mid, ts)
    }

    fn run_infallible(&mut self, blackboard: &mut D) -> (r: InfallibleStatus)
        ensures
            TryCatch::step_ok(*old(self), *final(self), !(r is Running)),
    {
        let ghost s0 = *self;
        let ghost bb0 = *blackboard;
        let ghost mut tried: A = self.try_behavior;
        let ghost mut mid: D = *blackboard;
        let ghost mut ts: Status = Status::Running;
        let result = if self.trying {
            let t = self.try_behavior.run(blackboard);
            proof {
                tried = self.try_behavior;
                mid = *blackboard;
                ts = t;
                assert(s0.try_behavior.ran(bb0, &tried, mid, ts));
            }
            match t {
                Status::Running => {
                    assert(s0.infallible_step(bb0, *self, *blackboard, InfallibleStatus::Running, tried, mid, ts));
                    return InfallibleStatus::Running;
                },
                Status::Success => {
                    assert(s0.infallible_step(bb0, *self, *blackboard, InfallibleStatus::Success, tried, mid, ts));
                    return InfallibleStatus::Success;
                },
                Status::Failure => {
                    self.trying = false;
                    let ghost c0 = self.catch;
                    let res = self.catch.run_infallible(blackboard);
                    assert(c0.ran_infallible(mid, &self.catch, *blackboard, res));
                    res
                },
            }
        } else {
            let res = self.catch.run_infallible(blackboard);
            assert(s0.catch.ran_infallible(bb0, &self.catch, *blackboard, res));
            res
        };
        if !result.is_running() {
            self.trying = true;
        }
        assert(s0.infallible_step(bb0, *self, *blackboard, result, tried, mid, ts));
        result
    }
}

impl<A: FallibleBehavior<D>, B: FallibleBehavior<D>, D> FallibleBehavior<D> for TryCatch<A, B> {
    /// `try_behavior`, then `catch` where it failed, ran as `fallible_step` describes.
    open spec fn ran_fallible(
        &self,
        blackboard: D,
        next: &Self,
        next_blackboard: D,
        r: FallibleStatus,
    ) -> bool {
        exists|tried: A, mid: D, ts: FallibleStatus|
            #[trigger] self.fallible_step(blackboard, *next, next_blackboard, r, tried, mid, ts)
    }

    fn run_fallible(&mut self, blackboard: &mut D) -> (r: FallibleStatus)
        ensures
            TryCatch::step_ok(*old(self), *final(self), !(r is Running)),
    {
        let ghost s0 = *self;
        let ghost bb0 = *blackboard;
        let ghost mut tried: A = self.try_behavior;
        let ghost mut mid: D = *blackboard;
        let ghost mut ts: FallibleStatus = FallibleStatus::Running;
        let result = if self.trying {
            let t = self.try_behavior.run_fallible(blackboard);
            proof {
                tried = self.try_behavior;
                mid = *blackboard;
                ts = t;
                assert(s0.try_behavior.ran_fallible(bb0, &tried, mid, ts));
            }
            match t {
                FallibleStatus::Running => {
                    assert(s0.fallible_step(bb0, *self, *blackboard, FallibleStatus::Running, tried, mid, ts));
                    return FallibleStatus::Running;
                },
                FallibleStatus::Failure => {
                    self.trying = false;
                    let ghost c0 = self.catch;
                    let res = self.catch.run_fallible(blackboard);
                    assert(c0.ran_fallible(mid, &self.catch, *blackboard, res));
                    res
                },
            }
        } else {
            let res = self.catch.run_fallible(blackboard);
            assert(s0.catch.ran_fallible(bb0, &self.catch, *blackboard, res));
            res
        };
        if !result.is_running() {
            self.trying = true;
        }
        assert(s0.fallible_step(bb0, *self, *blackboard, result, tried, mid, ts));
        result
    }
}

impl<A: EternalBehavior<D>, B: Behavior<D>, D> EternalBehavior<D> for TryCatch<A, B> {
    fn run_eternal(&mut self, blackboard: &mut D) -> (r: EternalStatus)
        ensures
            final(self).trying(),
            final(self).catch_spec() == old(self).catch_spec(),
    {
        self.trying = true;
        self.try_behavior.run_eternal(blackboard)
    }
}

impl<A: CancelSafe, B: CancelSafe> CancelSafe for TryCatch<A, B> {
    fn reset(&mut self)
        ensures
            final(self).trying(),
    {
        self.trying = true;
        self.try_behavior.reset();
        self.catch.reset();
    }
}

/// An `IfElse` run from its condition reports what the branch that the
/// condition chose reported: where the condition can only succeed, what
/// its true branch reported, and where it can only fail, what its false
/// branch reported.
pub proof fn law_if_else_reports_the_chosen_branch<A: Behavior<D>, B: Behavior<D>, C: Behavior<D>, D>(
    s: IfElse<A, B, C>,
    blackboard: D,
    next: IfElse<A, B, C>,
    next_blackboard: D,
    r: Status,
    cs: Status,
)
    requires
        s.state() is Condition,
        s.ran(blackboard, &next, next_blackboard, r),
        !(cs is Running),
        forall|a: A, b: D, a2: A, b2: D, st: Status| #[trigger] a.ran(b, &a2, b2, st) ==> st == cs,
    ensures
        cs is Success ==> exists|mid: D| #[trigger] s.if_true_spec().ran(mid, &next.if_true_spec(), next_blackboard, r),
        cs is Failure ==> exists|mid: D| #[trigger] s.if_false_spec().ran(mid, &next.if_false_spec(), next_blackboard, r),
{
    let (cond, mid, c) = choose|cond: A, mid: D, c: Status|
        #[trigger] s.status_step(blackboard, next, next_blackboard, r, cond, mid, c);
    assert(s.condition_spec().ran(blackboard, &cond, mid, c));
    assert(c == cs);
    if cs is Success {
        assert(s.if_true_spec().ran(mid, &next.if_true_spec(), next_blackboard, r));
    } else {
        assert(s.if_false_spec().ran(mid, &next.if_false_spec(), next_blackboard, r));
    }
}

/// A `TryCatch` run from its `try_behavior` succeeds where that succeeds,
/// without running `catch`: where `try_behavior` can only succeed, so does
/// the node.
pub proof fn law_try_catch_succeeds_with_its_try<A: Behavior<D>, B: Behavior<D>, D>(
    s: TryCatch<A, B>,
    blackboard: D,
    next: TryCatch<A, B>,
    next_blackboard: D,
    r: Status,
)
    requires
        s.trying(),
        s.ran(blackboard, &next, next_blackboard, r),
        forall|a: A, b: D, a2: A, b2: D, st: Status| #[trigger] a.ran(b, &a2, b2, st) ==> st is Success,
    ensures
        r is Success,
        next.catch_spec() == s.catch_spec(),
{
    let (tried, mid, t) = choose|tried: A, mid: D, t: Status|
        #[trigger] s.status_step(blackboard, next, next_blackboard, r, tried, mid, t);
    assert(s.try_spec().ran(blackboard, &tried, mid, t));
}

} // verus!
