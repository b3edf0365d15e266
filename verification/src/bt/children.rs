//! Tuples of behaviors, the children of sequences and selectors: a child is
//! run by its position, and running one leaves the others as they were.

use vstd::prelude::*;

use crate::bt::status::{
    Behavior, CancelSafe, EternalBehavior, EternalStatus, FallibleBehavior, FallibleStatus,
    InfallibleBehavior, InfallibleStatus, Status,
};

verus! {

/// A tuple of one to seven children.
pub trait BehaviorTuple: Sized {
    /// The number of children.
    spec fn arity() -> nat;

    /// Child `i` is the same in `self` and `other`.
    spec fn child_eq(self, other: Self, i: int) -> bool;

    proof fn lemma_child_eq_refl(a: Self, i: int)
        ensures
            a.child_eq(a, i),
    ;

    proof fn lemma_child_eq_trans(a: Self, b: Self, c: Self, i: int)
        requires
            c.child_eq(b, i),
            b.child_eq(a, i),
        ensures
            c.child_eq(a, i),
    ;

    /// The number of children.
    fn len(&self) -> (r: usize)
        ensures
            r == Self::arity(),
            r >= 1,
    ;
}

/// Children that are behaviors that may succeed or fail.
pub trait BehaviorChildren<B>: BehaviorTuple {
    /// Whether a run of child `i` may take the children from `self` to
    /// `next` and the blackboard from `blackboard` to `next_blackboard`,
    /// reporting `r`: what that child states of its runs.
    spec fn child_ran(&self, i: int, blackboard: B, next: &Self, next_blackboard: B, r: Status) -> bool;

    fn run_child(&mut self, i: usize, blackboard: &mut B) -> (r: Status)
        requires
            i < Self::arity(),
        ensures
            forall|j: int| j != i ==> final(self).child_eq(*old(self), j),
            old(self).child_ran(i as int, *old(blackboard), &*final(self), *final(blackboard), r),
    ;
}

/// Children that are behaviors that can only succeed.
pub trait InfallibleChildren<B>: BehaviorTuple {
    /// Whether a run of child `i` may take the children from `self` to
    /// `next` and the blackboard from `blackboard` to `next_blackboard`,
    /// reporting `r`: what that child states of its runs.
    spec fn child_ran_infallible(&self, i: int, blackboard: B, next: &Self, next_blackboard: B, r: InfallibleStatus) -> bool;

    fn run_child_infallible(&mut self, i: usize, blackboard: &mut B) -> (r: InfallibleStatus)
        requires
            i < Self::arity(),
        ensures
            forall|j: int| j != i ==> final(self).child_eq(*old(self), j),
            old(self).child_ran_infallible(i as int, *old(blackboard), &*final(self), *final(blackboard), r),
    ;
}

/// Children that are behaviors that can only fail.
pub trait FallibleChildren<B>: BehaviorTuple {
    /// Whether a run of child `i` may take the children from `self` to
    /// `next` and the blackboard from `blackboard` to `next_blackboard`,
    /// reporting `r`: what that child states of its runs.
    spec fn child_ran_fallible(&self, i: int, blackboard: B, next: &Self, next_blackboard: B, r: FallibleStatus) -> bool;

    fn run_child_fallible(&mut self, i: usize, blackboard: &mut B) -> (r: FallibleStatus)
        requires
            i < Self::arity(),
        ensures
            forall|j: int| j != i ==> final(self).child_eq(*old(self), j),
            old(self).child_ran_fallible(i as int, *old(blackboard), &*final(self), *final(blackboard), r),
    ;
}

/// Children that are behaviors that never finish.
pub trait EternalChildren<B>: BehaviorTuple {
    /// Whether a run of child `i` may take the children from `self` to
    /// `next` and the blackboard from `blackboard` to `next_blackboard`,
    /// reporting `r`: what that child states of its runs.
    spec fn child_ran_eternal(&self, i: int, blackboard: B, next: &Self, next_blackboard: B, r: EternalStatus) -> bool;

    fn run_child_eternal(&mut self, i: usize, blackboard: &mut B) -> (r: EternalStatus)
        requires
            i < Self::arity(),
        ensures
            forall|j: int| j != i ==> final(self).child_eq(*old(self), j),
            old(self).child_ran_eternal(i as int, *old(blackboard), &*final(self), *final(blackboard), r),
    ;
}

/// Children that can all be reset.
pub trait CancelSafeChildren: BehaviorTuple {
    /// Whether resetting every child may take the children from `self` to `next`.
    spec fn children_reset(&self, next: &Self) -> bool;

    fn reset_children(&mut self)
        ensures
            old(self).children_reset(&*final(self)),
    ;
}

/// Children outside positions `lo..=hi` are the same in `old` and `new`.
pub open spec fn unchanged_outside<T: BehaviorTuple>(old: T, new: T, lo: int, hi: int) -> bool {
    forall|j: int| 0 <= j < T::arity() && !(lo <= j <= hi) ==> #[trigger] new.child_eq(old, j)
}

impl<A> BehaviorTuple for (A,) {
    open spec fn arity() -> nat {
        1
    }

    open spec fn child_eq(self, other: Self, i: int) -> bool {
        if i == 0 {
            self.0 == other.0
        } else {
            true
        }
    }

    proof fn lemma_child_eq_refl(a: Self, i: int) {
    }

    proof fn lemma_child_eq_trans(a: Self, b: Self, c: Self, i: int) {
    }

    fn len(&self) -> (r: usize) {
        1
    }
}

impl<X, A: Behavior<X>> BehaviorChildren<X> for (A,) {
    open spec fn child_ran(&self, i: int, blackboard: X, next: &Self, next_blackboard: X, r: Status) -> bool {
        if i == 0 {
            self.0.ran(blackboard, &next.0, next_blackboard, r)
        } else {
            false
        }
    }

    fn run_child(&mut self, i: usize, blackboard: &mut X) -> (r: Status) {
        self.0.run(blackboard)
    }
}

impl<X, A: InfallibleBehavior<X>> InfallibleChildren<X> for (A,) {
    open spec fn child_ran_infallible(&self, i: int, blackboard: X, next: &Self, next_blackboard: X, r: InfallibleStatus) -> bool {
        if i == 0 {
            self.0.ran_infallible(blackboard, &next.0, next_blackboard, r)
        } else {
            false
        }
    }

    fn run_child_infallible(&mut self, i: usize, blackboard: &mut X) -> (r: InfallibleStatus) {
        self.0.run_infallible(blackboard)
    }
}

impl<X, A: FallibleBehavior<X>> FallibleChildren<X> for (A,) {
    open spec fn child_ran_fallible(&self, i: int, blackboard: X, next: &Self, next_blackboard: X, r: FallibleStatus) -> bool {
        if i == 0 {
            self.0.ran_fallible(blackboard, &next.0, next_blackboard, r)
        } else {
            false
        }
    }

    fn run_child_fallible(&mut self, i: usize, blackboard: &mut X) -> (r: FallibleStatus) {
        self.0.run_fallible(blackboard)
    }
}

impl<X, A: EternalBehavior<X>> EternalChildren<X> for (A,) {
    open spec fn child_ran_eternal(&self, i: int, blackboard: X, next: &Self, next_blackboard: X, r: EternalStatus) -> bool {
        if i == 0 {
            self.0.ran_eternal(blackboard, &next.0, next_blackboard, r)
        } else {
            false
        }
    }

    fn run_child_eternal(&mut self, i: usize, blackboard: &mut X) -> (r: EternalStatus) {
        self.0.run_eternal(blackboard)
    }
}

impl<A: CancelSafe> CancelSafeChildren for (A,) {
    open spec fn children_reset(&self, next: &Self) -> bool {
        self.0.resets(&next.0)
    }

    fn reset_children(&mut self) {
        self.0.reset();
    }
}

impl<A, B> BehaviorTuple for (A, B) {
    open spec fn arity() -> nat {
        2
    }

    open spec fn child_eq(self, other: Self, i: int) -> bool {
        if i == 0 {
            self.0 == other.0
        } else if i == 1 {
            self.1 == other.1
        } else {
            true
        }
    }

    proof fn lemma_child_eq_refl(a: Self, i: int) {
    }

    proof fn lemma_child_eq_trans(a: Self, b: Self, c: Self, i: int) {
    }

    fn len(&self) -> (r: usize) {
        2
    }
}

impl<X, A: Behavior<X>, B: Behavior<X>> BehaviorChildren<X> for (A, B) {
    open spec fn child_ran(&self, i: int, blackboard: X, next: &Self, next_blackboard: X, r: Status) -> bool {
        if i == 0 {
            self.0.ran(blackboard, &next.0, next_blackboard, r)
        } else if i == 1 {
            self.1.ran(blackboard, &next.1, next_blackboard, r)
        } else {
            false
        }
    }

    fn run_child(&mut self, i: usize, blackboard: &mut X) -> (r: Status) {
        if i == 0 {
            self.0.run(blackboard)
        } else {
            self.1.run(blackboard)
        }
    }
}

impl<X, A: InfallibleBehavior<X>, B: InfallibleBehavior<X>> InfallibleChildren<X> for (A, B) {
    open spec fn child_ran_infallible(&self, i: int, blackboard: X, next: &Self, next_blackboard: X, r: InfallibleStatus) -> bool {
        if i == 0 {
            self.0.ran_infallible(blackboard, &next.0, next_blackboard, r)
        } else if i == 1 {
            self.1.ran_infallible(blackboard, &next.1, next_blackboard, r)
        } else {
            false
        }
    }

    fn run_child_infallible(&mut self, i: usize, blackboard: &mut X) -> (r: InfallibleStatus) {
        if i == 0 {
            self.0.run_infallible(blackboard)
        } else {
            self.1.run_infallible(blackboard)
        }
    }
}

impl<X, A: FallibleBehavior<X>, B: FallibleBehavior<X>> FallibleChildren<X> for (A, B) {
    open spec fn child_ran_fallible(&self, i: int, blackboard: X, next: &Self, next_blackboard: X, r: FallibleStatus) -> bool {
        if i == 0 {
            self.0.ran_fallible(blackboard, &next.0, next_blackboard, r)
        } else if i == 1 {
            self.1.ran_fallible(blackboard, &next.1, next_blackboard, r)
        } else {
            false
        }
    }

    fn run_child_fallible(&mut self, i: usize, blackboard: &mut X) -> (r: FallibleStatus) {
        if i == 0 {
            self.0.run_fallible(blackboard)
        } else {
            self.1.run_fallible(blackboard)
        }
    }
}

impl<X, A: EternalBehavior<X>, B: EternalBehavior<X>> EternalChildren<X> for (A, B) {
    open spec fn child_ran_eternal(&self, i: int, blackboard: X, next: &Self, next_blackboard: X, r: EternalStatus) -> bool {
        if i == 0 {
            self.0.ran_eternal(blackboard, &next.0, next_blackboard, r)
        } else if i == 1 {
            self.1.ran_eternal(blackboard, &next.1, next_blackboard, r)
        } else {
            false
        }
    }

    fn run_child_eternal(&mut self, i: usize, blackboard: &mut X) -> (r: EternalStatus) {
        if i == 0 {
            self.0.run_eternal(blackboard)
        } else {
            self.1.run_eternal(blackboard)
        }
    }
}

impl<A: CancelSafe, B: CancelSafe> CancelSafeChildren for (A, B) {
    open spec fn children_reset(&self, next: &Self) -> bool {
        self.0.resets(&next.0) && self.1.resets(&next.1)
    }

    fn reset_children(&mut self) {
        self.0.reset();
        self.1.reset();
    }
}

impl<A, B, C> BehaviorTuple for (A, B, C) {
    open spec fn arity() -> nat {
        3
    }

    open spec fn child_eq(self, other: Self, i: int) -> bool {
        if i == 0 {
            self.0 == other.0
        } else if i == 1 {
            self.1 == other.1
        } else if i == 2 {
            self.2 == other.2
        } else {
            true
        }
    }

    proof fn lemma_child_eq_refl(a: Self, i: int) {
    }

    proof fn lemma_child_eq_trans(a: Self, b: Self, c: Self, i: int) {
    }

    fn len(&self) -> (r: usize) {
        3
    }
}

impl<X, A: Behavior<X>, B: Behavior<X>, C: Behavior<X>> BehaviorChildren<X> for (A, B, C) {
    open spec fn child_ran(&self, i: int, blackboard: X, next: &Self, next_blackboard: X, r: Status) -> bool {
        if i == 0 {
            self.0.ran(blackboard, &next.0, next_blackboard, r)
        } else if i == 1 {
            self.1.ran(blackboard, &next.1, next_blackboard, r)
        } else if i == 2 {
            self.2.ran(blackboard, &next.2, next_blackboard, r)
        } else {
            false
        }
    }

    fn run_child(&mut self, i: usize, blackboard: &mut X) -> (r: Status) {
        if i == 0 {
            self.0.run(blackboard)
        } else if i == 1 {
            self.1.run(blackboard)
        } else {
            self.2.run(blackboard)
        }
    }
}

impl<X, A: InfallibleBehavior<X>, B: InfallibleBehavior<X>, C: InfallibleBehavior<X>> InfallibleChildren<X> for (A, B, C) {
    open spec fn child_ran_infallible(&self, i: int, blackboard: X, next: &Self, next_blackboard: X, r: InfallibleStatus) -> bool {
        if i == 0 {
            self.0.ran_infallible(blackboard, &next.0, next_blackboard, r)
        } else if i == 1 {
            self.1.ran_infallible(blackboard, &next.1, next_blackboard, r)
        } else if i == 2 {
            self.2.ran_infallible(blackboard, &next.2, next_blackboard, r)
        } else {
            false
        }
    }

    fn run_child_infallible(&mut self, i: usize, blackboard: &mut X) -> (r: InfallibleStatus) {
        if i == 0 {
            self.0.run_infallible(blackboard)
        } else if i == 1 {
            self.1.run_infallible(blackboard)
        } else {
            self.2.run_infallible(blackboard)
        }
    }
}

impl<X, A: FallibleBehavior<X>, B: FallibleBehavior<X>, C: FallibleBehavior<X>> FallibleChildren<X> for (A, B, C) {
    open spec fn child_ran_fallible(&self, i: int, blackboard: X, next: &Self, next_blackboard: X, r: FallibleStatus) -> bool {
        if i == 0 {
            self.0.ran_fallible(blackboard, &next.0, next_blackboard, r)
        } else if i == 1 {
            self.1.ran_fallible(blackboard, &next.1, next_blackboard, r)
        } else if i == 2 {
            self.2.ran_fallible(blackboard, &next.2, next_blackboard, r)
        } else {
            false
        }
    }

    fn run_child_fallible(&mut self, i: usize, blackboard: &mut X) -> (r: FallibleStatus) {
        if i == 0 {
            self.0.run_fallible(blackboard)
        } else if i == 1 {
            self.1.run_fallible(blackboard)
        } else {
            self.2.run_fallible(blackboard)
        }
    }
}

impl<X, A: EternalBehavior<X>, B: EternalBehavior<X>, C: EternalBehavior<X>> EternalChildren<X> for (A, B, C) {
    open spec fn child_ran_eternal(&self, i: int, blackboard: X, next: &Self, next_blackboard: X, r: EternalStatus) -> bool {
        if i == 0 {
            self.0.ran_eternal(blackboard, &next.0, next_blackboard, r)
        } else if i == 1 {
            self.1.ran_eternal(blackboard, &next.1, next_blackboard, r)
        } else if i == 2 {
            self.2.ran_eternal(blackboard, &next.2, next_blackboard, r)
        } else {
            false
        }
    }

    fn run_child_eternal(&mut self, i: usize, blackboard: &mut X) -> (r: EternalStatus) {
        if i == 0 {
            self.0.run_eternal(blackboard)
        } else if i == 1 {
            self.1.run_eternal(blackboard)
        } else {
            self.2.run_eternal(blackboard)
        }
    }
}

impl<A: CancelSafe, B: CancelSafe, C: CancelSafe> CancelSafeChildren for (A, B, C) {
    open spec fn children_reset(&self, next: &Self) -> bool {
        self.0.resets(&next.0) && self.1.resets(&next.1) && self.2.resets(&next.2)
    }

    fn reset_children(&mut self) {
        self.0.reset();
        self.1.reset();
        self.2.reset();
    }
}

impl<A, B, C, D> BehaviorTuple for (A, B, C, D) {
    open spec fn arity() -> nat {
        4
    }

    open spec fn child_eq(self, other: Self, i: int) -> bool {
        if i == 0 {
            self.0 == other.0
        } else if i == 1 {
            self.1 == other.1
        } else if i == 2 {
            self.2 == other.2
        } else if i == 3 {
            self.3 == other.3
        } else {
            true
        }
    }

    proof fn lemma_child_eq_refl(a: Self, i: int) {
    }

    proof fn lemma_child_eq_trans(a: Self, b: Self, c: Self, i: int) {
    }

    fn len(&self) -> (r: usize) {
        4
    }
}

impl<X, A: Behavior<X>, B: Behavior<X>, C: Behavior<X>, D: Behavior<X>> BehaviorChildren<X> for (A, B, C, D) {
    open spec fn child_ran(&self, i: int, blackboard: X, next: &Self, next_blackboard: X, r: Status) -> bool {
        if i == 0 {
            self.0.ran(blackboard, &next.0, next_blackboard, r)
        } else if i == 1 {
            self.1.ran(blackboard, &next.1, next_blackboard, r)
        } else if i == 2 {
            self.2.ran(blackboard, &next.2, next_blackboard, r)
        } else if i == 3 {
            self.3.ran(blackboard, &next.3, next_blackboard, r)
        } else {
            false
        }
    }

    fn run_child(&mut self, i: usize, blackboard: &mut X) -> (r: Status) {
        if i == 0 {
            self.0.run(blackboard)
        } else if i == 1 {
            self.1.run(blackboard)
        } else if i == 2 {
            self.2.run(blackboard)
        } else {
            self.3.run(blackboard)
        }
    }
}

impl<X, A: InfallibleBehavior<X>, B: InfallibleBehavior<X>, C: InfallibleBehavior<X>, D: InfallibleBehavior<X>> InfallibleChildren<X> for (A, B, C, D) {
    open spec fn child_ran_infallible(&self, i: int, blackboard: X, next: &Self, next_blackboard: X, r: InfallibleStatus) -> bool {
        if i == 0 {
            self.0.ran_infallible(blackboard, &next.0, next_blackboard, r)
        } else if i == 1 {
            self.1.ran_infallible(blackboard, &next.1, next_blackboard, r)
        } else if i == 2 {
            self.2.ran_infallible(blackboard, &next.2, next_blackboard, r)
        } else if i == 3 {
            self.3.ran_infallible(blackboard, &next.3, next_blackboard, r)
        } else {
            false
        }
    }

    fn run_child_infallible(&mut self, i: usize, blackboard: &mut X) -> (r: InfallibleStatus) {
        if i == 0 {
            self.0.run_infallible(blackboard)
        } else if i == 1 {
            self.1.run_infallible(blackboard)
        } else if i == 2 {
            self.2.run_infallible(blackboard)
        } else {
            self.3.run_infallible(blackboard)
        }
    }
}

impl<X, A: FallibleBehavior<X>, B: FallibleBehavior<X>, C: FallibleBehavior<X>, D: FallibleBehavior<X>> FallibleChildren<X> for (A, B, C, D) {
    open spec fn child_ran_fallible(&self, i: int, blackboard: X, next: &Self, next_blackboard: X, r: FallibleStatus) -> bool {
        if i == 0 {
            self.0.ran_fallible(blackboard, &next.0, next_blackboard, r)
        } else if i == 1 {
            self.1.ran_fallible(blackboard, &next.1, next_blackboard, r)
        } else if i == 2 {
            self.2.ran_fallible(blackboard, &next.2, next_blackboard, r)
        } else if i == 3 {
            self.3.ran_fallible(blackboard, &next.3, next_blackboard, r)
        } else {
            false
        }
    }

    fn run_child_fallible(&mut self, i: usize, blackboard: &mut X) -> (r: FallibleStatus) {
        if i == 0 {
            self.0.run_fallible(blackboard)
        } else if i == 1 {
            self.1.run_fallible(blackboard)
        } else if i == 2 {
            self.2.run_fallible(blackboard)
        } else {
            self.3.run_fallible(blackboard)
        }
    }
}

impl<X, A: EternalBehavior<X>, B: EternalBehavior<X>, C: EternalBehavior<X>, D: EternalBehavior<X>> EternalChildren<X> for (A, B, C, D) {
    open spec fn child_ran_eternal(&self, i: int, blackboard: X, next: &Self, next_blackboard: X, r: EternalStatus) -> bool {
        if i == 0 {
            self.0.ran_eternal(blackboard, &next.0, next_blackboard, r)
        } else if i == 1 {
            self.1.ran_eternal(blackboard, &next.1, next_blackboard, r)
        } else if i == 2 {
            self.2.ran_eternal(blackboard, &next.2, next_blackboard, r)
        } else if i == 3 {
            self.3.ran_eternal(blackboard, &next.3, next_blackboard, r)
        } else {
            false
        }
    }

    fn run_child_eternal(&mut self, i: usize, blackboard: &mut X) -> (r: EternalStatus) {
        if i == 0 {
            self.0.run_eternal(blackboard)
        } else if i == 1 {
            self.1.run_eternal(blackboard)
        } else if i == 2 {
            self.2.run_eternal(blackboard)
        } else {
            self.3.run_eternal(blackboard)
        }
    }
}

impl<A: CancelSafe, B: CancelSafe, C: CancelSafe, D: CancelSafe> CancelSafeChildren for (A, B, C, D) {
    open spec fn children_reset(&self, next: &Self) -> bool {
        self.0.resets(&next.0) && self.1.resets(&next.1) && self.2.resets(&next.2) && self.3.resets(&next.3)
    }

    fn reset_children(&mut self) {
        self.0.reset();
        self.1.reset();
        self.2.reset();
        self.3.reset();
    }
}

impl<A, B, C, D, E> BehaviorTuple for (A, B, C, D, E) {
    open spec fn arity() -> nat {
        5
    }

    open spec fn child_eq(self, other: Self, i: int) -> bool {
        if i == 0 {
            self.0 == other.0
        } else if i == 1 {
            self.1 == other.1
        } else if i == 2 {
            self.2 == other.2
        } else if i == 3 {
            self.3 == other.3
        } else if i == 4 {
            self.4 == other.4
        } else {
            true
        }
    }

    proof fn lemma_child_eq_refl(a: Self, i: int) {
    }

    proof fn lemma_child_eq_trans(a: Self, b: Self, c: Self, i: int) {
    }

    fn len(&self) -> (r: usize) {
        5
    }
}

impl<X, A: Behavior<X>, B: Behavior<X>, C: Behavior<X>, D: Behavior<X>, E: Behavior<X>> BehaviorChildren<X> for (A, B, C, D, E) {
    open spec fn child_ran(&self, i: int, blackboard: X, next: &Self, next_blackboard: X, r: Status) -> bool {
        if i == 0 {
            self.0.ran(blackboard, &next.0, next_blackboard, r)
        } else if i == 1 {
            self.1.ran(blackboard, &next.1, next_blackboard, r)
        } else if i == 2 {
            self.2.ran(blackboard, &next.2, next_blackboard, r)
        } else if i == 3 {
            self.3.ran(blackboard, &next.3, next_blackboard, r)
        } else if i == 4 {
            self.4.ran(blackboard, &next.4, next_blackboard, r)
        } else {
            false
        }
    }

    fn run_child(&mut self, i: usize, blackboard: &mut X) -> (r: Status) {
        if i == 0 {
            self.0.run(blackboard)
        } else if i == 1 {
            self.1.run(blackboard)
        } else if i == 2 {
            self.2.run(blackboard)
        } else if i == 3 {
            self.3.run(blackboard)
        } else {
            self.4.run(blackboard)
        }
    }
}

impl<X, A: InfallibleBehavior<X>, B: InfallibleBehavior<X>, C: InfallibleBehavior<X>, D: InfallibleBehavior<X>, E: InfallibleBehavior<X>> InfallibleChildren<X> for (A, B, C, D, E) {
    open spec fn child_ran_infallible(&self, i: int, blackboard: X, next: &Self, next_blackboard: X, r: InfallibleStatus) -> bool {
        if i == 0 {
            self.0.ran_infallible(blackboard, &next.0, next_blackboard, r)
        } else if i == 1 {
            self.1.ran_infallible(blackboard, &next.1, next_blackboard, r)
        } else if i == 2 {
            self.2.ran_infallible(blackboard, &next.2, next_blackboard, r)
        } else if i == 3 {
            self.3.ran_infallible(blackboard, &next.3, next_blackboard, r)
        } else if i == 4 {
            self.4.ran_infallible(blackboard, &next.4, next_blackboard, r)
        } else {
            false
        }
    }

    fn run_child_infallible(&mut self, i: usize, blackboard: &mut X) -> (r: InfallibleStatus) {
        if i == 0 {
            self.0.run_infallible(blackboard)
        } else if i == 1 {
            self.1.run_infallible(blackboard)
        } else if i == 2 {
            self.2.run_infallible(blackboard)
        } else if i == 3 {
            self.3.run_infallible(blackboard)
        } else {
            self.4.run_infallible(blackboard)
        }
    }
}

impl<X, A: FallibleBehavior<X>, B: FallibleBehavior<X>, C: FallibleBehavior<X>, D: FallibleBehavior<X>, E: FallibleBehavior<X>> FallibleChildren<X> for (A, B, C, D, E) {
    open spec fn child_ran_fallible(&self, i: int, blackboard: X, next: &Self, next_blackboard: X, r: FallibleStatus) -> bool {
        if i == 0 {
            self.0.ran_fallible(blackboard, &next.0, next_blackboard, r)
        } else if i == 1 {
            self.1.ran_fallible(blackboard, &next.1, next_blackboard, r)
        } else if i == 2 {
            self.2.ran_fallible(blackboard, &next.2, next_blackboard, r)
        } else if i == 3 {
            self.3.ran_fallible(blackboard, &next.3, next_blackboard, r)
        } else if i == 4 {
            self.4.ran_fallible(blackboard, &next.4, next_blackboard, r)
        } else {
            false
        }
    }

    fn run_child_fallible(&mut self, i: usize, blackboard: &mut X) -> (r: FallibleStatus) {
        if i == 0 {
            self.0.run_fallible(blackboard)
        } else if i == 1 {
            self.1.run_fallible(blackboard)
        } else if i == 2 {
            self.2.run_fallible(blackboard)
        } else if i == 3 {
            self.3.run_fallible(blackboard)
        } else {
            self.4.run_fallible(blackboard)
        }
    }
}

impl<X, A: EternalBehavior<X>, B: EternalBehavior<X>, C: EternalBehavior<X>, D: EternalBehavior<X>, E: EternalBehavior<X>> EternalChildren<X> for (A, B, C, D, E) {
    open spec fn child_ran_eternal(&self, i: int, blackboard: X, next: &Self, next_blackboard: X, r: EternalStatus) -> bool {
        if i == 0 {
            self.0.ran_eternal(blackboard, &next.0, next_blackboard, r)
        } else if i == 1 {
            self.1.ran_eternal(blackboard, &next.1, next_blackboard, r)
        } else if i == 2 {
            self.2.ran_eternal(blackboard, &next.2, next_blackboard, r)
        } else if i == 3 {
            self.3.ran_eternal(blackboard, &next.3, next_blackboard, r)
        } else if i == 4 {
            self.4.ran_eternal(blackboard, &next.4, next_blackboard, r)
        } else {
            false
        }
    }

    fn run_child_eternal(&mut self, i: usize, blackboard: &mut X) -> (r: EternalStatus) {
        if i == 0 {
            self.0.run_eternal(blackboard)
        } else if i == 1 {
            self.1.run_eternal(blackboard)
        } else if i == 2 {
            self.2.run_eternal(blackboard)
        } else if i == 3 {
            self.3.run_eternal(blackboard)
        } else {
            self.4.run_eternal(blackboard)
        }
    }
}

impl<A: CancelSafe, B: CancelSafe, C: CancelSafe, D: CancelSafe, E: CancelSafe> CancelSafeChildren for (A, B, C, D, E) {
    open spec fn children_reset(&self, next: &Self) -> bool {
        self.0.resets(&next.0) && self.1.resets(&next.1) && self.2.resets(&next.2) && self.3.resets(&next.3) && self.4.resets(&next.4)
    }

    fn reset_children(&mut self) {
        self.0.reset();
        self.1.reset();
        self.2.reset();
        self.3.reset();
        self.4.reset();
    }
}

impl<A, B, C, D, E, F> BehaviorTuple for (A, B, C, D, E, F) {
    open spec fn arity() -> nat {
        6
    }

    open spec fn child_eq(self, other: Self, i: int) -> bool {
        if i == 0 {
            self.0 == other.0
        } else if i == 1 {
            self.1 == other.1
        } else if i == 2 {
            self.2 == other.2
        } else if i == 3 {
            self.3 == other.3
        } else if i == 4 {
            self.4 == other.4
        } else if i == 5 {
            self.5 == other.5
        } else {
            true
        }
    }

    proof fn lemma_child_eq_refl(a: Self, i: int) {
    }

    proof fn lemma_child_eq_trans(a: Self, b: Self, c: Self, i: int) {
    }

    fn len(&self) -> (r: usize) {
        6
    }
}

impl<X, A: Behavior<X>, B: Behavior<X>, C: Behavior<X>, D: Behavior<X>, E: Behavior<X>, F: Behavior<X>> BehaviorChildren<X> for (A, B, C, D, E, F) {
    open spec fn child_ran(&self, i: int, blackboard: X, next: &Self, next_blackboard: X, r: Status) -> bool {
        if i == 0 {
            self.0.ran(blackboard, &next.0, next_blackboard, r)
        } else if i == 1 {
            self.1.ran(blackboard, &next.1, next_blackboard, r)
        } else if i == 2 {
            self.2.ran(blackboard, &next.2, next_blackboard, r)
        } else if i == 3 {
            self.3.ran(blackboard, &next.3, next_blackboard, r)
        } else if i == 4 {
            self.4.ran(blackboard, &next.4, next_blackboard, r)
        } else if i == 5 {
            self.5.ran(blackboard, &next.5, next_blackboard, r)
        } else {
            false
        }
    }

    fn run_child(&mut self, i: usize, blackboard: &mut X) -> (r: Status) {
        if i == 0 {
            self.0.run(blackboard)
        } else if i == 1 {
            self.1.run(blackboard)
        } else if i == 2 {
            self.2.run(blackboard)
        } else if i == 3 {
            self.3.run(blackboard)
        } else if i == 4 {
            self.4.run(blackboard)
        } else {
            self.5.run(blackboard)
        }
    }
}

impl<X, A: InfallibleBehavior<X>, B: InfallibleBehavior<X>, C: InfallibleBehavior<X>, D: InfallibleBehavior<X>, E: InfallibleBehavior<X>, F: InfallibleBehavior<X>> InfallibleChildren<X> for (A, B, C, D, E, F) {
    open spec fn child_ran_infallible(&self, i: int, blackboard: X, next: &Self, next_blackboard: X, r: InfallibleStatus) -> bool {
        if i == 0 {
            self.0.ran_infallible(blackboard, &next.0, next_blackboard, r)
        } else if i == 1 {
            self.1.ran_infallible(blackboard, &next.1, next_blackboard, r)
        } else if i == 2 {
            self.2.ran_infallible(blackboard, &next.2, next_blackboard, r)
        } else if i == 3 {
            self.3.ran_infallible(blackboard, &next.3, next_blackboard, r)
        } else if i == 4 {
            self.4.ran_infallible(blackboard, &next.4, next_blackboard, r)
        } else if i == 5 {
            self.5.ran_infallible(blackboard, &next.5, next_blackboard, r)
        } else {
            false
        }
    }

    fn run_child_infallible(&mut self, i: usize, blackboard: &mut X) -> (r: InfallibleStatus) {
        if i == 0 {
            self.0.run_infallible(blackboard)
        } else if i == 1 {
            self.1.run_infallible(blackboard)
        } else if i == 2 {
            self.2.run_infallible(blackboard)
        } else if i == 3 {
            self.3.run_infallible(blackboard)
        } else if i == 4 {
            self.4.run_infallible(blackboard)
        } else {
            self.5.run_infallible(blackboard)
        }
    }
}

impl<X, A: FallibleBehavior<X>, B: FallibleBehavior<X>, C: FallibleBehavior<X>, D: FallibleBehavior<X>, E: FallibleBehavior<X>, F: FallibleBehavior<X>> FallibleChildren<X> for (A, B, C, D, E, F) {
    open spec fn child_ran_fallible(&self, i: int, blackboard: X, next: &Self, next_blackboard: X, r: FallibleStatus) -> bool {
        if i == 0 {
            self.0.ran_fallible(blackboard, &next.0, next_blackboard, r)
        } else if i == 1 {
            self.1.ran_fallible(blackboard, &next.1, next_blackboard, r)
        } else if i == 2 {
            self.2.ran_fallible(blackboard, &next.2, next_blackboard, r)
        } else if i == 3 {
            self.3.ran_fallible(blackboard, &next.3, next_blackboard, r)
        } else if i == 4 {
            self.4.ran_fallible(blackboard, &next.4, next_blackboard, r)
        } else if i == 5 {
            self.5.ran_fallible(blackboard, &next.5, next_blackboard, r)
        } else {
            false
        }
    }

    fn run_child_fallible(&mut self, i: usize, blackboard: &mut X) -> (r: FallibleStatus) {
        if i == 0 {
            self.0.run_fallible(blackboard)
        } else if i == 1 {
            self.1.run_fallible(blackboard)
        } else if i == 2 {
            self.2.run_fallible(blackboard)
        } else if i == 3 {
            self.3.run_fallible(blackboard)
        } else if i == 4 {
            self.4.run_fallible(blackboard)
        } else {
            self.5.run_fallible(blackboard)
        }
    }
}

impl<X, A: EternalBehavior<X>, B: EternalBehavior<X>, C: EternalBehavior<X>, D: EternalBehavior<X>, E: EternalBehavior<X>, F: EternalBehavior<X>> EternalChildren<X> for (A, B, C, D, E, F) {
    open spec fn child_ran_eternal(&self, i: int, blackboard: X, next: &Self, next_blackboard: X, r: EternalStatus) -> bool {
        if i == 0 {
            self.0.ran_eternal(blackboard, &next.0, next_blackboard, r)
        } else if i == 1 {
            self.1.ran_eternal(blackboard, &next.1, next_blackboard, r)
        } else if i == 2 {
            self.2.ran_eternal(blackboard, &next.2, next_blackboard, r)
        } else if i == 3 {
            self.3.ran_eternal(blackboard, &next.3, next_blackboard, r)
        } else if i == 4 {
            self.4.ran_eternal(blackboard, &next.4, next_blackboard, r)
        } else if i == 5 {
            self.5.ran_eternal(blackboard, &next.5, next_blackboard, r)
        } else {
            false
        }
    }

    fn run_child_eternal(&mut self, i: usize, blackboard: &mut X) -> (r: EternalStatus) {
        if i == 0 {
            self.0.run_eternal(blackboard)
        } else if i == 1 {
            self.1.run_eternal(blackboard)
        } else if i == 2 {
            self.2.run_eternal(blackboard)
        } else if i == 3 {
            self.3.run_eternal(blackboard)
        } else if i == 4 {
            self.4.run_eternal(blackboard)
        } else {
            self.5.run_eternal(blackboard)
        }
    }
}

impl<A: CancelSafe, B: CancelSafe, C: CancelSafe, D: CancelSafe, E: CancelSafe, F: CancelSafe> CancelSafeChildren for (A, B, C, D, E, F) {
    open spec fn children_reset(&self, next: &Self) -> bool {
        self.0.resets(&next.0) && self.1.resets(&next.1) && self.2.resets(&next.2) && self.3.resets(&next.3) && self.4.resets(&next.4) && self.5.resets(&next.5)
    }

    fn reset_children(&mut self) {
        self.0.reset();
        self.1.reset();
        self.2.reset();
        self.3.reset();
        self.4.reset();
        self.5.reset();
    }
}

impl<A, B, C, D, E, F, G> BehaviorTuple for (A, B, C, D, E, F, G) {
    open spec fn arity() -> nat {
        7
    }

    open spec fn child_eq(self, other: Self, i: int) -> bool {
        if i == 0 {
            self.0 == other.0
        } else if i == 1 {
            self.1 == other.1
        } else if i == 2 {
            self.2 == other.2
        } else if i == 3 {
            self.3 == other.3
        } else if i == 4 {
            self.4 == other.4
        } else if i == 5 {
            self.5 == other.5
        } else if i == 6 {
            self.6 == other.6
        } else {
            true
        }
    }

    proof fn lemma_child_eq_refl(a: Self, i: int) {
    }

    proof fn lemma_child_eq_trans(a: Self, b: Self, c: Self, i: int) {
    }

    fn len(&self) -> (r: usize) {
        7
    }
}

impl<X, A: Behavior<X>, B: Behavior<X>, C: Behavior<X>, D: Behavior<X>, E: Behavior<X>, F: Behavior<X>, G: Behavior<X>> BehaviorChildren<X> for (A, B, C, D, E, F, G) {
    open spec fn child_ran(&self, i: int, blackboard: X, next: &Self, next_blackboard: X, r: Status) -> bool {
        if i == 0 {
            self.0.ran(blackboard, &next.0, next_blackboard, r)
        } else if i == 1 {
            self.1.ran(blackboard, &next.1, next_blackboard, r)
        } else if i == 2 {
            self.2.ran(blackboard, &next.2, next_blackboard, r)
        } else if i == 3 {
            self.3.ran(blackboard, &next.3, next_blackboard, r)
        } else if i == 4 {
            self.4.ran(blackboard, &next.4, next_blackboard, r)
        } else if i == 5 {
            self.5.ran(blackboard, &next.5, next_blackboard, r)
        } else if i == 6 {
            self.6.ran(blackboard, &next.6, next_blackboard, r)
        } else {
            false
        }
    }

    fn run_child(&mut self, i: usize, blackboard: &mut X) -> (r: Status) {
        if i == 0 {
            self.0.run(blackboard)
        } else if i == 1 {
            self.1.run(blackboard)
        } else if i == 2 {
            self.2.run(blackboard)
        } else if i == 3 {
            self.3.run(blackboard)
        } else if i == 4 {
            self.4.run(blackboard)
        } else if i == 5 {
            self.5.run(blackboard)
        } else {
            self.6.run(blackboard)
        }
    }
}

impl<X, A: InfallibleBehavior<X>, B: InfallibleBehavior<X>, C: InfallibleBehavior<X>, D: InfallibleBehavior<X>, E: InfallibleBehavior<X>, F: InfallibleBehavior<X>, G: InfallibleBehavior<X>> InfallibleChildren<X> for (A, B, C, D, E, F, G) {
    open spec fn child_ran_infallible(&self, i: int, blackboard: X, next: &Self, next_blackboard: X, r: InfallibleStatus) -> bool {
        if i == 0 {
            self.0.ran_infallible(blackboard, &next.0, next_blackboard, r)
        } else if i == 1 {
            self.1.ran_infallible(blackboard, &next.1, next_blackboard, r)
        } else if i == 2 {
            self.2.ran_infallible(blackboard, &next.2, next_blackboard, r)
        } else if i == 3 {
            self.3.ran_infallible(blackboard, &next.3, next_blackboard, r)
        } else if i == 4 {
            self.4.ran_infallible(blackboard, &next.4, next_blackboard, r)
        } else if i == 5 {
            self.5.ran_infallible(blackboard, &next.5, next_blackboard, r)
        } else if i == 6 {
            self.6.ran_infallible(blackboard, &next.6, next_blackboard, r)
        } else {
            false
        }
    }

    fn run_child_infallible(&mut self, i: usize, blackboard: &mut X) -> (r: InfallibleStatus) {
        if i == 0 {
            self.0.run_infallible(blackboard)
        } else if i == 1 {
            self.1.run_infallible(blackboard)
        } else if i == 2 {
            self.2.run_infallible(blackboard)
        } else if i == 3 {
            self.3.run_infallible(blackboard)
        } else if i == 4 {
            self.4.run_infallible(blackboard)
        } else if i == 5 {
            self.5.run_infallible(blackboard)
        } else {
            self.6.run_infallible(blackboard)
        }
    }
}

impl<X, A: FallibleBehavior<X>, B: FallibleBehavior<X>, C: FallibleBehavior<X>, D: FallibleBehavior<X>, E: FallibleBehavior<X>, F: FallibleBehavior<X>, G: FallibleBehavior<X>> FallibleChildren<X> for (A, B, C, D, E, F, G) {
    open spec fn child_ran_fallible(&self, i: int, blackboard: X, next: &Self, next_blackboard: X, r: FallibleStatus) -> bool {
        if i == 0 {
            self.0.ran_fallible(blackboard, &next.0, next_blackboard, r)
        } else if i == 1 {
            self.1.ran_fallible(blackboard, &next.1, next_blackboard, r)
        } else if i == 2 {
            self.2.ran_fallible(blackboard, &next.2, next_blackboard, r)
        } else if i == 3 {
            self.3.ran_fallible(blackboard, &next.3, next_blackboard, r)
        } else if i == 4 {
            self.4.ran_fallible(blackboard, &next.4, next_blackboard, r)
        } else if i == 5 {
            self.5.ran_fallible(blackboard, &next.5, next_blackboard, r)
        } else if i == 6 {
            self.6.ran_fallible(blackboard, &next.6, next_blackboard, r)
        } else {
            false
        }
    }

    fn run_child_fallible(&mut self, i: usize, blackboard: &mut X) -> (r: FallibleStatus) {
        if i == 0 {
            self.0.run_fallible(blackboard)
        } else if i == 1 {
            self.1.run_fallible(blackboard)
        } else if i == 2 {
            self.2.run_fallible(blackboard)
        } else if i == 3 {
            self.3.run_fallible(blackboard)
        } else if i == 4 {
            self.4.run_fallible(blackboard)
        } else if i == 5 {
            self.5.run_fallible(blackboard)
        } else {
            self.6.run_fallible(blackboard)
        }
    }
}

impl<X, A: EternalBehavior<X>, B: EternalBehavior<X>, C: EternalBehavior<X>, D: EternalBehavior<X>, E: EternalBehavior<X>, F: EternalBehavior<X>, G: EternalBehavior<X>> EternalChildren<X> for (A, B, C, D, E, F, G) {
    open spec fn child_ran_eternal(&self, i: int, blackboard: X, next: &Self, next_blackboard: X, r: EternalStatus) -> bool {
        if i == 0 {
            self.0.ran_eternal(blackboard, &next.0, next_blackboard, r)
        } else if i == 1 {
            self.1.ran_eternal(blackboard, &next.1, next_blackboard, r)
        } else if i == 2 {
            self.2.ran_eternal(blackboard, &next.2, next_blackboard, r)
        } else if i == 3 {
            self.3.ran_eternal(blackboard, &next.3, next_blackboard, r)
        } else if i == 4 {
            self.4.ran_eternal(blackboard, &next.4, next_blackboard, r)
        } else if i == 5 {
            self.5.ran_eternal(blackboard, &next.5, next_blackboard, r)
        } else if i == 6 {
            self.6.ran_eternal(blackboard, &next.6, next_blackboard, r)
        } else {
            false
        }
    }

    fn run_child_eternal(&mut self, i: usize, blackboard: &mut X) -> (r: EternalStatus) {
        if i == 0 {
            self.0.run_eternal(blackboard)
        } else if i == 1 {
            self.1.run_eternal(blackboard)
        } else if i == 2 {
            self.2.run_eternal(blackboard)
        } else if i == 3 {
            self.3.run_eternal(blackboard)
        } else if i == 4 {
            self.4.run_eternal(blackboard)
        } else if i == 5 {
            self.5.run_eternal(blackboard)
        } else {
            self.6.run_eternal(blackboard)
        }
    }
}

impl<A: CancelSafe, B: CancelSafe, C: CancelSafe, D: CancelSafe, E: CancelSafe, F: CancelSafe, G: CancelSafe> CancelSafeChildren for (A, B, C, D, E, F, G) {
    open spec fn children_reset(&self, next: &Self) -> bool {
        self.0.resets(&next.0) && self.1.resets(&next.1) && self.2.resets(&next.2) && self.3.resets(&next.3) && self.4.resets(&next.4) && self.5.resets(&next.5) && self.6.resets(&next.6)
    }

    fn reset_children(&mut self) {
        self.0.reset();
        self.1.reset();
        self.2.reset();
        self.3.reset();
        self.4.reset();
        self.5.reset();
        self.6.reset();
    }
}

} // verus!
