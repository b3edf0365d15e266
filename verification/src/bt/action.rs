//! Leaf behaviors: closures written by the library's user, and constant nodes.

use vstd::prelude::*;

use crate::foreign::call_user_closure;
use crate::bt::status::{
    Behavior, CancelSafe, EternalBehavior, EternalStatus, FallibleBehavior, FallibleStatus,
    InfallibleBehavior, InfallibleStatus, Status,
};

verus! {

impl<F: FnMut(&mut B) -> Status, B> Behavior<B> for F {
    fn run(&mut self, blackboard: &mut B) -> Status {
        call_user_closure(self, blackboard)
    }
}

impl<F: FnMut(&mut B) -> InfallibleStatus, B> InfallibleBehavior<B> for F {
    fn run_infallible(&mut self, blackboard: &mut B) -> InfallibleStatus {
        call_user_closure(self, blackboard)
    }
}

impl<F: FnMut(&mut B) -> FallibleStatus, B> FallibleBehavior<B> for F {
    fn run_fallible(&mut self, blackboard: &mut B) -> FallibleStatus {
        call_user_closure(self, blackboard)
    }
}

impl<F: FnMut(&mut B) -> EternalStatus, B> EternalBehavior<B> for F {
    fn run_eternal(&mut self, blackboard: &mut B) -> EternalStatus {
        call_user_closure(self, blackboard)
    }
}

/// A behavior that succeeds at once.
#[derive(Debug, Clone, Copy, PartialEq, Eq, Default)]
pub struct AlwaysSucceed;

impl<B> Behavior<B> for AlwaysSucceed {
    /// Every run succeeds and leaves the blackboard as it was.
    open spec fn ran(&self, blackboard: B, next: &Self, next_blackboard: B, r: Status) -> bool {
        r is Success && next_blackboard == blackboard
    }

    fn run(&mut self, _blackboard: &mut B) -> (r: Status)
        ensures
            r is Success,
    {
        Status::Success
    }
}

impl<B> InfallibleBehavior<B> for AlwaysSucceed {
    /// Every run succeeds and leaves the blackboard as it was.
    open spec fn ran_infallible(&self, blackboard: B, next: &Self, next_blackboard: B, r: InfallibleStatus) -> bool {
        r is Success && next_blackboard == blackboard
    }

    fn run_infallible(&mut self, _blackboard: &mut B) -> (r: InfallibleStatus)
        ensures
            r is Success,
    {
        InfallibleStatus::Success
    }
}

impl CancelSafe for AlwaysSucceed {
    fn reset(&mut self) {
    }
}

/// A behavior that fails at once.
#[derive(Debug, Clone, Copy, PartialEq, Eq, Default)]
pub struct AlwaysFail;

impl<B> Behavior<B> for AlwaysFail {
    /// Every run fails and leaves the blackboard as it was.
    open spec fn ran(&self, blackboard: B, next: &Self, next_blackboard: B, r: Status) -> bool {
        r is Failure && next_blackboard == blackboard
    }

    fn run(&mut self, _blackboard: &mut B) -> (r: Status)
        ensures
            r is Failure,
    {
        Status::Failure
    }
}

impl<B> FallibleBehavior<B> for AlwaysFail {
    /// Every run fails and leaves the blackboard as it was.
    open spec fn ran_fallible(&self, blackboard: B, next: &Self, next_blackboard: B, r: FallibleStatus) -> bool {
        r is Failure && next_blackboard == blackboard
    }

    fn run_fallible(&mut self, _blackboard: &mut B) -> (r: FallibleStatus)
        ensures
            r is Failure,
    {
        FallibleStatus::Failure
    }
}

impl CancelSafe for AlwaysFail {
    fn reset(&mut self) {
    }
}

/// A behavior that never finishes.
#[derive(Debug, Clone, Copy, PartialEq, Eq, Default)]
pub struct AlwaysRunning;

impl<B> Behavior<B> for AlwaysRunning {
    /// Every run keeps running and leaves the blackboard as it was.
    open spec fn ran(&self, blackboard: B, next: &Self, next_blackboard: B, r: Status) -> bool {
        r is Running && next_blackboard == blackboard
    }

    fn run(&mut self, _blackboard: &mut B) -> (r: Status)
        ensures
            r is Running,
    {
        Status::Running
    }
}

impl<B> InfallibleBehavior<B> for AlwaysRunning {
    /// Every run keeps running and leaves the blackboard as it was.
    open spec fn ran_infallible(&self, blackboard: B, next: &Self, next_blackboard: B, r: InfallibleStatus) -> bool {
        r is Running && next_blackboard == blackboard
    }

    fn run_infallible(&mut self, _blackboard: &mut B) -> (r: InfallibleStatus)
        ensures
            r is Running,
    {
        InfallibleStatus::Running
    }
}

impl<B> FallibleBehavior<B> for AlwaysRunning {
    /// Every run keeps running and leaves the blackboard as it was.
    open spec fn ran_fallible(&self, blackboard: B, next: &Self, next_blackboard: B, r: FallibleStatus) -> bool {
        r is Running && next_blackboard == blackboard
    }

    fn run_fallible(&mut self, _blackboard: &mut B) -> (r: FallibleStatus)
        ensures
            r is Running,
    {
        FallibleStatus::Running
    }
}

impl<B> EternalBehavior<B> for AlwaysRunning {
    /// Every run keeps running and leaves the blackboard as it was.
    open spec fn ran_eternal(&self, blackboard: B, next: &Self, next_blackboard: B, r: EternalStatus) -> bool {
        r is Running && next_blackboard == blackboard
    }

    fn run_eternal(&mut self, _blackboard: &mut B) -> (r: EternalStatus)
        ensures
            r is Running,
    {
        EternalStatus::Running
    }
}

impl CancelSafe for AlwaysRunning {
    fn reset(&mut self) {
    }
}

} // verus!
