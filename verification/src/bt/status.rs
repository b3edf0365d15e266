//! The statuses a node can report and the traits that nodes implement.

use vstd::prelude::*;

verus! {

/// The status of a node that may succeed or fail.
#[derive(Clone, Copy, Debug, PartialEq, Eq, Structural)]
pub enum Status {
    Running,
    Success,
    Failure,
}

impl Status {
    pub fn is_ok(self) -> (r: bool)
        ensures
            r == (self is Success),
    {
        match self {
            Status::Running => false,
            Status::Success => true,
            Status::Failure => false,
        }
    }

    pub fn is_err(self) -> (r: bool)
        ensures
            r == (self is Failure),
    {
        match self {
            Status::Running => false,
            Status::Success => false,
            Status::Failure => true,
        }
    }

    pub fn is_running(self) -> (r: bool)
        ensures
            r == (self is Running),
    {
        match self {
            Status::Running => true,
            Status::Success => false,
            Status::Failure => false,
        }
    }
}

impl From<bool> for Status {
    fn from(value: bool) -> (r: Status) {
        if value {
            Status::Success
        } else {
            Status::Failure
        }
    }
}

impl vstd::std_specs::convert::FromSpecImpl<bool> for Status {
    open spec fn obeys_from_spec() -> bool {
        true
    }

    open spec fn from_spec(v: bool) -> Status {
        if v {
            Status::Success
        } else {
            Status::Failure
        }
    }
}

/// The status of a node that can only fail.
#[derive(Clone, Copy, Debug, PartialEq, Eq, Structural)]
pub enum FallibleStatus {
    Running,
    Failure,
}

impl FallibleStatus {
    pub fn is_ok(self) -> (r: bool)
        ensures
            !r,
    {
        match self {
            FallibleStatus::Running => false,
            FallibleStatus::Failure => false,
        }
    }

    pub fn is_err(self) -> (r: bool)
        ensures
            r == (self is Failure),
    {
        match self {
            FallibleStatus::Running => false,
            FallibleStatus::Failure => true,
        }
    }

    pub fn is_running(self) -> (r: bool)
        ensures
            r == (self is Running),
    {
        match self {
            FallibleStatus::Running => true,
            FallibleStatus::Failure => false,
        }
    }
}

/// The status of a node that can only succeed.
#[derive(Clone, Copy, Debug, PartialEq, Eq, Structural)]
pub enum InfallibleStatus {
    Running,
    Success,
}

impl InfallibleStatus {
    pub fn is_ok(self) -> (r: bool)
        ensures
            r == (self is Success),
    {
        match self {
            InfallibleStatus::Running => false,
            InfallibleStatus::Success => true,
        }
    }

    pub fn is_err(self) -> (r: bool)
        ensures
            !r,
    {
        match self {
            InfallibleStatus::Running => false,
            InfallibleStatus::Success => false,
        }
    }

    pub fn is_running(self) -> (r: bool)
        ensures
            r == (self is Running),
    {
        match self {
            InfallibleStatus::Running => true,
            InfallibleStatus::Success => false,
        }
    }
}

/// The status of a node that never finishes.
#[derive(Clone, Copy, Debug, PartialEq, Eq, Structural)]
pub enum EternalStatus {
    Running,
}

impl Default for EternalStatus {
    fn default() -> (r: EternalStatus)
        ensures
            r is Running,
    {
        EternalStatus::Running
    }
}

impl EternalStatus {
    pub fn is_ok(self) -> (r: bool)
        ensures
            !r,
    {
        match self {
            EternalStatus::Running => false,
        }
    }

    pub fn is_err(self) -> (r: bool)
        ensures
            !r,
    {
        match self {
            EternalStatus::Running => false,
        }
    }

    pub fn is_running(self) -> (r: bool)
        ensures
            r,
    {
        match self {
            EternalStatus::Running => true,
        }
    }
}

/// The `Status` with the same meaning.
pub open spec fn infallible_as_status(s: InfallibleStatus) -> Status {
    match s {
        InfallibleStatus::Running => Status::Running,
        InfallibleStatus::Success => Status::Success,
    }
}

/// The `Status` with the same meaning.
pub open spec fn fallible_as_status(s: FallibleStatus) -> Status {
    match s {
        FallibleStatus::Running => Status::Running,
        FallibleStatus::Failure => Status::Failure,
    }
}

impl From<InfallibleStatus> for Status {
    fn from(value: InfallibleStatus) -> (r: Status) {
        match value {
            InfallibleStatus::Running => Status::Running,
            InfallibleStatus::Success => Status::Success,
        }
    }
}

impl vstd::std_specs::convert::FromSpecImpl<InfallibleStatus> for Status {
    open spec fn obeys_from_spec() -> bool {
        true
    }

    open spec fn from_spec(v: InfallibleStatus) -> Status {
        infallible_as_status(v)
    }
}

impl From<FallibleStatus> for Status {
    fn from(value: FallibleStatus) -> (r: Status) {
        match value {
            FallibleStatus::Running => Status::Running,
            FallibleStatus::Failure => Status::Failure,
        }
    }
}

impl vstd::std_specs::convert::FromSpecImpl<FallibleStatus> for Status {
    open spec fn obeys_from_spec() -> bool {
        true
    }

    open spec fn from_spec(v: FallibleStatus) -> Status {
        fallible_as_status(v)
    }
}

impl From<EternalStatus> for Status {
    fn from(value: EternalStatus) -> (r: Status) {
        match value {
            EternalStatus::Running => Status::Running,
        }
    }
}

impl vstd::std_specs::convert::FromSpecImpl<EternalStatus> for Status {
    open spec fn obeys_from_spec() -> bool {
        true
    }

    open spec fn from_spec(v: EternalStatus) -> Status {
        Status::Running
    }
}

/// A behavior that runs until it fails or succeeds.
pub trait Behavior<B> {
    /// Whether one run may take the node from `self` to `next` and the
    /// blackboard from `blackboard` to `next_blackboard`, reporting `r`.
    /// A behavior that states nothing of its runs allows any.
    open spec fn ran(&self, blackboard: B, next: &Self, next_blackboard: B, r: Status) -> bool {
        true
    }

    fn run(&mut self, blackboard: &mut B) -> (r: Status)
        ensures
            old(self).ran(*old(blackboard), &*final(self), *final(blackboard), r),
    ;
}

/// A behavior that runs until it succeeds.
pub trait InfallibleBehavior<B> {
    /// Whether one run may take the node from `self` to `next` and the
    /// blackboard from `blackboard` to `next_blackboard`, reporting `r`.
    /// A behavior that states nothing of its runs allows any.
    open spec fn ran_infallible(
        &self,
        blackboard: B,
        next: &Self,
        next_blackboard: B,
        r: InfallibleStatus,
    ) -> bool {
        true
    }

    fn run_infallible(&mut self, blackboard: &mut B) -> (r: InfallibleStatus)
        ensures
            old(self).ran_infallible(*old(blackboard), &*final(self), *final(blackboard), r),
    ;
}

/// A behavior that runs until it fails.
pub trait FallibleBehavior<B> {
    /// Whether one run may take the node from `self` to `next` and the
    /// blackboard from `blackboard` to `next_blackboard`, reporting `r`.
    /// A behavior that states nothing of its runs allows any.
    open spec fn ran_fallible(
        &self,
        blackboard: B,
        next: &Self,
        next_blackboard: B,
        r: FallibleStatus,
    ) -> bool {
        true
    }

    fn run_fallible(&mut self, blackboard: &mut B) -> (r: FallibleStatus)
        ensures
            old(self).ran_fallible(*old(blackboard), &*final(self), *final(blackboard), r),
    ;
}

/// A behavior that runs forever.
pub trait EternalBehavior<B> {
    /// Whether one run may take the node from `self` to `next` and the
    /// blackboard from `blackboard` to `next_blackboard`, reporting `r`.
    /// A behavior that states nothing of its runs allows any.
    open spec fn ran_eternal(
        &self,
        blackboard: B,
        next: &Self,
        next_blackboard: B,
        r: EternalStatus,
    ) -> bool {
        true
    }

    fn run_eternal(&mut self, blackboard: &mut B) -> (r: EternalStatus)
        ensures
            old(self).ran_eternal(*old(blackboard), &*final(self), *final(blackboard), r),
    ;
}

/// A behavior that can be put back in its initial state, abandoning a run.
pub trait CancelSafe {
    /// Whether a reset may take the behavior from `self` to `next`.
    /// A behavior that states nothing of its reset allows any.
    open spec fn resets(&self, next: &Self) -> bool {
        true
    }

    fn reset(&mut self)
        ensures
            old(self).resets(&*final(self)),
    ;
}

/// Reports `Running` once, then `Success`, and so on alternately.
pub struct RunningOnce<B> {
    ran_already: bool,
    phantom: core::marker::PhantomData<B>,
}

impl<B> RunningOnce<B> {
    /// Whether the next run succeeds.
    pub closed spec fn ran_already(&self) -> bool {
        self.ran_already
    }
}

impl<B> Default for RunningOnce<B> {
    fn default() -> (r: Self)
        ensures
            !r.ran_already(),
    {
        RunningOnce { ran_already: false, phantom: core::marker::PhantomData }
    }
}

impl<B> Behavior<B> for RunningOnce<B> {
    fn run(&mut self, _blackboard: &mut B) -> (r: Status)
        ensures
            r == (if old(self).ran_already() { Status::Success } else { Status::Running }),
            final(self).ran_already() == !old(self).ran_already(),
    {
        if self.ran_already {
            self.ran_already = false;
            Status::Success
        } else {
            self.ran_already = true;
            Status::Running
        }
    }
}

impl<B> CancelSafe for RunningOnce<B> {
    fn reset(&mut self)
        ensures
            !final(self).ran_already(),
    {
        self.ran_already = false;
    }
}

} // verus!
