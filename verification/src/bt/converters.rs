//! Adapters between the kinds of behaviors, inversion, and naming.

use vstd::prelude::*;

use crate::bt::status::{
    Behavior, CancelSafe, EternalBehavior, EternalStatus, FallibleBehavior, FallibleStatus,
    InfallibleBehavior, InfallibleStatus, Status,
};

verus! {

/// Uses a behavior that can only succeed where one that may fail is expected.
pub struct InfallibleShim<A>(pub A);

impl<A: InfallibleBehavior<B>, B> Behavior<B> for InfallibleShim<A> {
    /// The inner behavior ran, and its status is reported as it is.
    open spec fn ran(&self, blackboard: B, next: &Self, next_blackboard: B, r: Status) -> bool {
        exists|s: InfallibleStatus|
            #[trigger] self.0.ran_infallible(blackboard, &next.0, next_blackboard, s) && r == (
            match s {
                InfallibleStatus::Running => Status::Running,
                InfallibleStatus::Success => Status::Success,
            })
    }

    fn run(&mut self, blackboard: &mut B) -> (r: Status)
        ensures
            !(r is Failure),
    {
        let ghost a0 = self.0;
        let ghost bb0 = *blackboard;
        let s = self.0.run_infallible(blackboard);
        assert(a0.ran_infallible(bb0, &self.0, *blackboard, s));
        match s {
            InfallibleStatus::Running => Status::Running,
            InfallibleStatus::Success => Status::Success,
        }
    }
}

impl<A: CancelSafe> CancelSafe for InfallibleShim<A> {
    open spec fn resets(&self, next: &Self) -> bool {
        self.0.resets(&next.0)
    }

    fn reset(&mut self) {
        self.0.reset();
    }
}

/// Uses a behavior that can only fail where one that may succeed is expected.
pub struct FallibleShim<A>(pub A);

impl<A: FallibleBehavior<B>, B> Behavior<B> for FallibleShim<A> {
    /// The inner behavior ran, and its status is reported as it is.
    open spec fn ran(&self, blackboard: B, next: &Self, next_blackboard: B, r: Status) -> bool {
        exists|s: FallibleStatus|
            #[trigger] self.0.ran_fallible(blackboard, &next.0, next_blackboard, s) && r == (
            match s {
                FallibleStatus::Running => Status::Running,
                FallibleStatus::Failure => Status::Failure,
            })
    }

    fn run(&mut self, blackboard: &mut B) -> (r: Status)
        ensures
            !(r is Success),
    {
        let ghost a0 = self.0;
        let ghost bb0 = *blackboard;
        let s = self.0.run_fallible(blackboard);
        assert(a0.ran_fallible(bb0, &self.0, *blackboard, s));
        match s {
            FallibleStatus::Running => Status::Running,
            FallibleStatus::Failure => Status::Failure,
        }
    }
}

impl<A: CancelSafe> CancelSafe for FallibleShim<A> {
    open spec fn resets(&self, next: &Self) -> bool {
        self.0.resets(&next.0)
    }

    fn reset(&mut self) {
        self.0.reset();
    }
}

/// Uses a behavior that never finishes where one that may finish is expected.
pub struct EternalShim<A>(pub A);

impl<A: EternalBehavior<B>, B> Behavior<B> for EternalShim<A> {
    /// The inner behavior ran, and the node keeps running.
    open spec fn ran(&self, blackboard: B, next: &Self, next_blackboard: B, r: Status) -> bool {
        r is Running && exists|s: EternalStatus|
            #[trigger] self.0.ran_eternal(blackboard, &next.0, next_blackboard, s)
    }

    fn run(&mut self, blackboard: &mut B) -> (r: Status)
        ensures
            r is Running,
    {
        let ghost a0 = self.0;
        let ghost bb0 = *blackboard;
        let s = self.0.run_eternal(blackboard);
        assert(a0.ran_eternal(bb0, &self.0, *blackboard, s));
        Status::Running
    }
}

impl<A: CancelSafe> CancelSafe for EternalShim<A> {
    open spec fn resets(&self, next: &Self) -> bool {
        self.0.resets(&next.0)
    }

    fn reset(&mut self) {
        self.0.reset();
    }
}

/// Swaps success and failure.
pub struct Invert<A>(pub A);

/// `s` with success and failure swapped.
pub open spec fn inverted(s: Status) -> Status {
    match s {
        Status::Running => Status::Running,
        Status::Success => Status::Failure,
        Status::Failure => Status::Success,
    }
}

/// A failure of a behavior that can only fail, turned into a success.
pub open spec fn fallible_inverted(s: FallibleStatus) -> InfallibleStatus {
    match s {
        FallibleStatus::Running => InfallibleStatus::Running,
        FallibleStatus::Failure => InfallibleStatus::Success,
    }
}

/// A success of a behavior that can only succeed, turned into a failure.
pub open spec fn infallible_inverted(s: InfallibleStatus) -> FallibleStatus {
    match s {
        InfallibleStatus::Running => FallibleStatus::Running,
        InfallibleStatus::Success => FallibleStatus::Failure,
    }
}

impl<A: Behavior<B>, B> Behavior<B> for Invert<A> {
    /// The wrapped behavior ran, and its success and failure are swapped.
    open spec fn ran(&self, blackboard: B, next: &Self, next_blackboard: B, r: Status) -> bool {
        exists|s: Status|
            #[trigger] self.0.ran(blackboard, &next.0, next_blackboard, s) && r == inverted(s)
    }

    fn run(&mut self, blackboard: &mut B) -> (r: Status) {
        let ghost a0 = self.0;
        let ghost bb0 = *blackboard;
        let s = self.0.run(blackboard);
        assert(a0.ran(bb0, &self.0, *blackboard, s));
        match s {
            Status::Failure => Status::Success,
            Status::Success => Status::Failure,
            Status::Running => Status::Running,
        }
    }
}

impl<A: CancelSafe> CancelSafe for Invert<A> {
    open spec fn resets(&self, next: &Self) -> bool {
        self.0.resets(&next.0)
    }

    fn reset(&mut self) {
        self.0.reset();
    }
}

impl<A: FallibleBehavior<B>, B> InfallibleBehavior<B> for Invert<A> {
    /// The wrapped behavior ran, and its failure is turned into a success.
    open spec fn ran_infallible(
        &self,
        blackboard: B,
        next: &Self,
        next_blackboard: B,
        r: InfallibleStatus,
    ) -> bool {
        exists|s: FallibleStatus|
            #[trigger] self.0.ran_fallible(blackboard, &next.0, next_blackboard, s) && r
                == fallible_inverted(s)
    }

    fn run_infallible(&mut self, blackboard: &mut B) -> (r: InfallibleStatus) {
        let ghost a0 = self.0;
        let ghost bb0 = *blackboard;
        let s = self.0.run_fallible(blackboard);
        assert(a0.ran_fallible(bb0, &self.0, *blackboard, s));
        match s {
            FallibleStatus::Running => InfallibleStatus::Running,
            FallibleStatus::Failure => InfallibleStatus::Success,
        }
    }
}

impl<A: InfallibleBehavior<B>, B> FallibleBehavior<B> for Invert<A> {
    /// The wrapped behavior ran, and its success is turned into a failure.
    open spec fn ran_fallible(
        &self,
        blackboard: B,
        next: &Self,
        next_blackboard: B,
        r: FallibleStatus,
    ) -> bool {
        exists|s: InfallibleStatus|
            #[trigger] self.0.ran_infallible(blackboard, &next.0, next_blackboard, s) && r
                == infallible_inverted(s)
    }

    fn run_fallible(&mut self, blackboard: &mut B) -> (r: FallibleStatus) {
        let ghost a0 = self.0;
        let ghost bb0 = *blackboard;
        let s = self.0.run_infallible(blackboard);
        assert(a0.ran_infallible(bb0, &self.0, *blackboard, s));
        match s {
            InfallibleStatus::Running => FallibleStatus::Running,
            InfallibleStatus::Success => FallibleStatus::Failure,
        }
    }
}

impl<A: EternalBehavior<B>, B> EternalBehavior<B> for Invert<A> {
    /// The wrapped behavior ran.
    open spec fn ran_eternal(
        &self,
        blackboard: B,
        next: &Self,
        next_blackboard: B,
        r: EternalStatus,
    ) -> bool {
        self.0.ran_eternal(blackboard, &next.0, next_blackboard, r)
    }

    fn run_eternal(&mut self, blackboard: &mut B) -> (r: EternalStatus) {
        self.0.run_eternal(blackboard)
    }
}

/// A behavior with a name, for describing a tree.
pub struct Rename<A> {
    pub name: String,
    pub behavior: A,
}

impl<A> Rename<A> {
    pub fn new(name: String, behavior: A) -> (r: Self)
        ensures
            r.name == name,
            r.behavior == behavior,
    {
        Rename { name, behavior }
    }
}

/// Declares a behavior safe to abandon without resetting it: its reset does nothing.
pub struct AssertCancelSafe<A>(pub A);

impl<A> CancelSafe for AssertCancelSafe<A> {
    fn reset(&mut self)
        ensures
            *final(self) == *old(self),
    {
    }
}

impl<A: Behavior<B>, B> Behavior<B> for AssertCancelSafe<A> {
    /// The wrapped behavior ran.
    open spec fn ran(&self, blackboard: B, next: &Self, next_blackboard: B, r: Status) -> bool {
        self.0.ran(blackboard, &next.0, next_blackboard, r)
    }

    fn run(&mut self, blackboard: &mut B) -> (r: Status) {
        self.0.run(blackboard)
    }
}

impl<A: InfallibleBehavior<B>, B> InfallibleBehavior<B> for AssertCancelSafe<A> {
    /// The wrapped behavior ran.
    open spec fn ran_infallible(&self, blackboard: B, next: &Self, next_blackboard: B, r: InfallibleStatus) -> bool {
        self.0.ran_infallible(blackboard, &next.0, next_blackboard, r)
    }

    fn run_infallible(&mut self, blackboard: &mut B) -> (r: InfallibleStatus) {
        self.0.run_infallible(blackboard)
    }
}

impl<A: FallibleBehavior<B>, B> FallibleBehavior<B> for AssertCancelSafe<A> {
    /// The wrapped behavior ran.
    open spec fn ran_fallible(&self, blackboard: B, next: &Self, next_blackboard: B, r: FallibleStatus) -> bool {
        self.0.ran_fallible(blackboard, &next.0, next_blackboard, r)
    }

    fn run_fallible(&mut self, blackboard: &mut B) -> (r: FallibleStatus) {
        self.0.run_fallible(blackboard)
    }
}

impl<A: EternalBehavior<B>, B> EternalBehavior<B> for AssertCancelSafe<A> {
    /// The wrapped behavior ran.
    open spec fn ran_eternal(&self, blackboard: B, next: &Self, next_blackboard: B, r: EternalStatus) -> bool {
        self.0.ran_eternal(blackboard, &next.0, next_blackboard, r)
    }

    fn run_eternal(&mut self, blackboard: &mut B) -> (r: EternalStatus) {
        self.0.run_eternal(blackboard)
    }
}

} // verus!
