//! Sequences and selectors over a tuple of children, run one after another,
//! and their parallel forms, which run the children in turn, one per call.

use vstd::prelude::*;

use crate::bt::children::{
    unchanged_outside, BehaviorChildren, BehaviorTuple, CancelSafeChildren, EternalChildren,
    FallibleChildren, InfallibleChildren,
};
use crate::bt::status::{
    Behavior, CancelSafe, EternalBehavior, EternalStatus, FallibleBehavior, FallibleStatus,
    InfallibleBehavior, InfallibleStatus, Status,
};

verus! {

/// After child `i` ran (changing no other child), the children that may
/// differ from `b0` are those of `lo..=hi` and `i`.
proof fn lemma_step_unchanged<T: BehaviorTuple>(b0: T, prev: T, next: T, lo: int, hi: int, i: int)
    requires
        unchanged_outside(b0, prev, lo, hi),
        forall|j: int| j != i ==> next.child_eq(prev, j),
        lo <= i <= hi + 1,
    ensures
        unchanged_outside(b0, next, lo, if i > hi { i } else { hi }),
{
    assert forall|j: int|
        0 <= j < T::arity() && !(lo <= j <= (if i > hi { i } else { hi })) implies #[trigger] next.child_eq(
        b0,
        j,
    ) by {
        assert(next.child_eq(prev, j));
        assert(prev.child_eq(b0, j));
        T::lemma_child_eq_trans(b0, prev, next, j);
    }
}

/// No child differs from itself.
proof fn lemma_unchanged_refl<T: BehaviorTuple>(b0: T, lo: int)
    ensures
        unchanged_outside(b0, b0, lo, lo - 1),
{
    assert forall|j: int| 0 <= j < T::arity() && !(lo <= j <= lo - 1) implies #[trigger] b0.child_eq(
        b0,
        j,
    ) by {
        T::lemma_child_eq_refl(b0, j);
    }
}

/// A widening of the range of children that may differ.
proof fn lemma_unchanged_widen<T: BehaviorTuple>(b0: T, b1: T, lo: int, hi: int, hi2: int)
    requires
        unchanged_outside(b0, b1, lo, hi),
        hi <= hi2,
    ensures
        unchanged_outside(b0, b1, lo, hi2),
{
}

/// The status on which a sequence (`select` false) or a selector goes on to
/// its next child: success for a sequence, failure for a selector.
pub open spec fn goes_on(select: bool) -> Status {
    if select {
        Status::Failure
    } else {
        Status::Success
    }
}

/// Children `start`, `start + 1`, ... ran one after another, child
/// `start + m` taking the children and blackboard from `trace[m]` to
/// `trace[m + 1]` and reporting `statuses[m]`.
pub open spec fn children_ran_in_turn<X, T: BehaviorChildren<X>>(
    trace: Seq<(T, X)>,
    statuses: Seq<Status>,
    start: int,
) -> bool {
    &&& trace.len() == statuses.len() + 1
    &&& forall|m: int|
        0 <= m < statuses.len() ==> #[trigger] trace[m].0.child_ran(
            start + m,
            trace[m].1,
            &trace[m + 1].0,
            trace[m + 1].1,
            statuses[m],
        )
}

/// One run of a sequence (`select` false) or a selector whose next child is
/// `start`: the children from `start` on ran in turn along `trace`, from
/// `body` and `blackboard` to `next_body` and `next_blackboard`; each but
/// the last reported the status on which the node goes on, the last one's
/// status is the node's, and it is the last child where it too went on.
pub open spec fn list_ran<X, T: BehaviorChildren<X>>(
    trace: Seq<(T, X)>,
    statuses: Seq<Status>,
    start: int,
    select: bool,
    body: T,
    blackboard: X,
    next_body: T,
    next_blackboard: X,
    r: Status,
) -> bool {
    &&& children_ran_in_turn(trace, statuses, start)
    &&& statuses.len() > 0
    &&& start + statuses.len() <= T::arity()
    &&& trace[0] == (body, blackboard)
    &&& trace.last() == (next_body, next_blackboard)
    &&& forall|m: int| 0 <= m < statuses.len() - 1 ==> #[trigger] statuses[m] == goes_on(select)
    &&& r == statuses.last()
    &&& r == goes_on(select) ==> start + statuses.len() == T::arity()
}

/// A run of a sequence or selector whose next child is `start`: as
/// `list_ran` describes, or, where no child is left to run, the status on
/// which it would have gone on, with nothing changed.
pub open spec fn list_node_ran<X, T: BehaviorChildren<X>>(
    start: int,
    select: bool,
    body: T,
    blackboard: X,
    next_body: T,
    next_blackboard: X,
    r: Status,
) -> bool {
    if start < T::arity() {
        exists|trace: Seq<(T, X)>, statuses: Seq<Status>|
            #[trigger] list_ran(
                trace,
                statuses,
                start,
                select,
                body,
                blackboard,
                next_body,
                next_blackboard,
                r,
            )
    } else {
        r == goes_on(select) && next_body == body && next_blackboard == blackboard
    }
}

/// Children `start`, `start + 1`, ... ran one after another, child
/// `start + m` taking the children and blackboard from `trace[m]` to
/// `trace[m + 1]` and reporting `statuses[m]`.
pub open spec fn infallible_children_ran_in_turn<X, T: InfallibleChildren<X>>(
    trace: Seq<(T, X)>,
    statuses: Seq<InfallibleStatus>,
    start: int,
) -> bool {
    &&& trace.len() == statuses.len() + 1
    &&& forall|m: int|
        0 <= m < statuses.len() ==> #[trigger] trace[m].0.child_ran_infallible(
            start + m,
            trace[m].1,
            &trace[m + 1].0,
            trace[m + 1].1,
            statuses[m],
        )
}

/// One run of a sequence of children that can only succeed whose next child is `start`: the children from
/// `start` on ran in turn along `trace`; each but the last reported
/// `Success`, on which the node goes on, the last one's status is the node's,
/// and it is the last child where it too went on.
pub open spec fn infallible_list_ran<X, T: InfallibleChildren<X>>(
    trace: Seq<(T, X)>,
    statuses: Seq<InfallibleStatus>,
    start: int,
    body: T,
    blackboard: X,
    next_body: T,
    next_blackboard: X,
    r: InfallibleStatus,
) -> bool {
    &&& infallible_children_ran_in_turn(trace, statuses, start)
    &&& statuses.len() > 0
    &&& start + statuses.len() <= T::arity()
    &&& trace[0] == (body, blackboard)
    &&& trace.last() == (next_body, next_blackboard)
    &&& forall|m: int| 0 <= m < statuses.len() - 1 ==> #[trigger] statuses[m] == InfallibleStatus::Success
    &&& r == statuses.last()
    &&& r == InfallibleStatus::Success ==> start + statuses.len() == T::arity()
}

/// A run of a sequence of children that can only succeed whose next child is `start`: as `infallible_list_ran`
/// describes, or, where no child is left to run, `Success` with nothing changed.
pub open spec fn infallible_list_node_ran<X, T: InfallibleChildren<X>>(
    start: int,
    body: T,
    blackboard: X,
    next_body: T,
    next_blackboard: X,
    r: InfallibleStatus,
) -> bool {
    if start < T::arity() {
        exists|trace: Seq<(T, X)>, statuses: Seq<InfallibleStatus>|
            #[trigger] infallible_list_ran(
                trace,
                statuses,
                start,
                body,
                blackboard,
                next_body,
                next_blackboard,
                r,
            )
    } else {
        r == InfallibleStatus::Success && next_body == body && next_blackboard == blackboard
    }
}

/// Children `start`, `start + 1`, ... ran one after another, child
/// `start + m` taking the children and blackboard from `trace[m]` to
/// `trace[m + 1]` and reporting `statuses[m]`.
pub open spec fn fallible_children_ran_in_turn<X, T: FallibleChildren<X>>(
    trace: Seq<(T, X)>,
    statuses: Seq<FallibleStatus>,
    start: int,
) -> bool {
    &&& trace.len() == statuses.len() + 1
    &&& forall|m: int|
        0 <= m < statuses.len() ==> #[trigger] trace[m].0.child_ran_fallible(
            start + m,
            trace[m].1,
            &trace[m + 1].0,
            trace[m + 1].1,
            statuses[m],
        )
}

/// One run of a selector of children that can only fail whose next child is `start`: the children from
/// `start` on ran in turn along `trace`; each but the last reported
/// `Failure`, on which the node goes on, the last one's status is the node's,
/// and it is the last child where it too went on.
pub open spec fn fallible_list_ran<X, T: FallibleChildren<X>>(
    trace: Seq<(T, X)>,
    statuses: Seq<FallibleStatus>,
    start: int,
    body: T,
    blackboard: X,
    next_body: T,
    next_blackboard: X,
    r: FallibleStatus,
) -> bool {
    &&& fallible_children_ran_in_turn(trace, statuses, start)
    &&& statuses.len() > 0
    &&& start + statuses.len() <= T::arity()
    &&& trace[0] == (body, blackboard)
    &&& trace.last() == (next_body, next_blackboard)
    &&& forall|m: int| 0 <= m < statuses.len() - 1 ==> #[trigger] statuses[m] == FallibleStatus::Failure
    &&& r == statuses.last()
    &&& r == FallibleStatus::Failure ==> start + statuses.len() == T::arity()
}

/// A run of a selector of children that can only fail whose next child is `start`: as `fallible_list_ran`
/// describes, or, where no child is left to run, `Failure` with nothing changed.
pub open spec fn fallible_list_node_ran<X, T: FallibleChildren<X>>(
    start: int,
    body: T,
    blackboard: X,
    next_body: T,
    next_blackboard: X,
    r: FallibleStatus,
) -> bool {
    if start < T::arity() {
        exists|trace: Seq<(T, X)>, statuses: Seq<FallibleStatus>|
            #[trigger] fallible_list_ran(
                trace,
                statuses,
                start,
                body,
                blackboard,
                next_body,
                next_blackboard,
                r,
            )
    } else {
        r == FallibleStatus::Failure && next_body == body && next_blackboard == blackboard
    }
}

/// Runs the children one after another while they succeed: fails as soon as one fails, succeeds when all have.
pub struct Sequence<A> {
    pub body: A,
    index: usize,
}

impl<A> Sequence<A> {
    /// The position of the child that runs next.
    pub closed spec fn index(&self) -> usize {
        self.index
    }

    pub closed spec fn body_spec(&self) -> A {
        self.body
    }

    pub fn new(body: A) -> (r: Self)
        ensures
            r.index() == 0,
            r.body_spec() == body,
    {
        Sequence { body, index: 0 }
    }
}

impl<A: CancelSafeChildren> CancelSafe for Sequence<A> {
    fn reset(&mut self)
        ensures
            final(self).index() == 0,
    {
        self.index = 0;
        self.body.reset_children();
    }
}

/// Runs the children one after another while they fail: succeeds as soon as one succeeds, fails when all have.
pub struct Select<A> {
    pub body: A,
    index: usize,
}

impl<A> Select<A> {
    /// The position of the child that runs next.
    pub closed spec fn index(&self) -> usize {
        self.index
    }

    pub closed spec fn body_spec(&self) -> A {
        self.body
    }

    pub fn new(body: A) -> (r: Self)
        ensures
            r.index() == 0,
            r.body_spec() == body,
    {
        Select { body, index: 0 }
    }
}

impl<A: CancelSafeChildren> CancelSafe for Select<A> {
    fn reset(&mut self)
        ensures
            final(self).index() == 0,
    {
        self.index = 0;
        self.body.reset_children();
    }
}

impl<X, T: BehaviorChildren<X>> Behavior<X> for Sequence<T> {
    /// The children from the next one on ran in turn while they succeeded,
    /// as `list_node_ran` describes.
    open spec fn ran(&self, blackboard: X, next: &Self, next_blackboard: X, r: Status) -> bool {
        list_node_ran(
            self.index() as int,
            false,
            self.body_spec(),
            blackboard,
            next.body_spec(),
            next_blackboard,
            r,
        )
    }

    fn run(&mut self, blackboard: &mut X) -> (r: Status)
        ensures
            !(r is Running) ==> final(self).index() == 0,
            r is Running ==> final(self).index() < T::arity(),
            old(self).index() < T::arity() ==> unchanged_outside(
                old(self).body_spec(),
                final(self).body_spec(),
                old(self).index() as int,
                T::arity() - 1,
            ),
            r is Running && old(self).index() < T::arity() ==> old(self).index() <= final(self).index()
                && unchanged_outside(
                old(self).body_spec(),
                final(self).body_spec(),
                old(self).index() as int,
                final(self).index() as int,
            ),
    {
        let n = self.body.len();
        let ghost start = self.index;
        let ghost body0 = self.body;
        let ghost bb0 = *blackboard;
        let ghost mut trace: Seq<(T, X)> = seq![(self.body, *blackboard)];
        let ghost mut statuses: Seq<Status> = Seq::empty();
        proof {
            lemma_unchanged_refl(body0, start as int);
        }
        loop
            invariant
                n == T::arity(),
                n >= 1,
                start == old(self).index(),
                body0 == old(self).body_spec(),
                bb0 == *old(blackboard),
                start < n ==> start <= self.index,
                start < n ==> unchanged_outside(body0, self.body, start as int, self.index - 1),
                start >= n ==> self.body == body0 && self.index == start && *blackboard == bb0,
                start < n ==> children_ran_in_turn(trace, statuses, start as int),
                start < n ==> self.index == start + statuses.len() && self.index <= n,
                start < n ==> trace[0] == (body0, bb0),
                start < n ==> trace.last() == (self.body, *blackboard),
                start < n ==> forall|m: int|
                    0 <= m < statuses.len() ==> #[trigger] statuses[m] == goes_on(false),
            decreases (if self.index < n { n - self.index } else { 0 }),
        {
            if self.index < n {
                let ghost prev = self.body;
                let ghost bb_prev = *blackboard;
                let i = self.index;
                let status = self.body.run_child(i, blackboard);
                proof {
                    lemma_step_unchanged(body0, prev, self.body, start as int, i - 1, i as int);
                    lemma_unchanged_widen(body0, self.body, start as int, i as int, n - 1);
                    let ghost t0 = trace;
                    let ghost s0 = statuses;
                    trace = trace.push((self.body, *blackboard));
                    statuses = statuses.push(status);
                    assert forall|m: int| 0 <= m < statuses.len() implies #[trigger] trace[m].0.child_ran(
                        start + m,
                        trace[m].1,
                        &trace[m + 1].0,
                        trace[m + 1].1,
                        statuses[m],
                    ) by {
                        if m < s0.len() {
                            assert(t0[m].0.child_ran(start + m, t0[m].1, &t0[m + 1].0, t0[m + 1].1, s0[m]));
                        }
                    }
                    assert forall|m: int| 0 <= m < statuses.len() - 1 implies #[trigger] statuses[m]
                        == goes_on(false) by {
                        assert(s0[m] == goes_on(false));
                    }
                }
                match status {
                    Status::Running => {
                        proof {
                            assert(list_ran(trace, statuses, start as int, false, body0, bb0, self.body, *blackboard, Status::Running));
                        }
                        return Status::Running;
                    },
                    Status::Success => {
                        proof {
                            assert forall|m: int| 0 <= m < statuses.len() implies #[trigger] statuses[m]
                                == goes_on(false) by {
                                if m < statuses.len() - 1 {
                                    assert(statuses[m] == goes_on(false));
                                }
                            }
                        }
                        self.index = self.index + 1;
                    },
                    Status::Failure => {
                        self.index = 0;
                        proof {
                            assert(list_ran(trace, statuses, start as int, false, body0, bb0, self.body, *blackboard, Status::Failure));
                        }
                        return Status::Failure;
                    },
                }
            } else {
                proof {
                    if start < n {
                        let k = statuses.len() - 1;
                        assert(statuses[k] == goes_on(false));
                        assert(list_ran(trace, statuses, start as int, false, body0, bb0, self.body, *blackboard, Status::Success));
                    }
                }
                self.index = 0;
                return Status::Success;
            }
        }
    }
}

impl<X, T: InfallibleChildren<X>> InfallibleBehavior<X> for Sequence<T> {
    /// The children from the next one on ran in turn while they went on, as
    /// `infallible_list_node_ran` describes.
    open spec fn ran_infallible(&self, blackboard: X, next: &Self, next_blackboard: X, r: InfallibleStatus) -> bool {
        infallible_list_node_ran(
            self.index() as int,
            self.body_spec(),
            blackboard,
            next.body_spec(),
            next_blackboard,
            r,
        )
    }

    fn run_infallible(&mut self, blackboard: &mut X) -> (r: InfallibleStatus)
        ensures
            !(r is Running) ==> final(self).index() == 0,
            r is Running ==> final(self).index() < T::arity(),
            old(self).index() < T::arity() ==> unchanged_outside(
                old(self).body_spec(),
                final(self).body_spec(),
                old(self).index() as int,
                T::arity() - 1,
            ),
            r is Running && old(self).index() < T::arity() ==> old(self).index() <= final(self).index()
                && unchanged_outside(
                old(self).body_spec(),
                final(self).body_spec(),
                old(self).index() as int,
                final(self).index() as int,
            ),
    {
        let n = self.body.len();
        let ghost start = self.index;
        let ghost body0 = self.body;
        let ghost bb0 = *blackboard;
        let ghost mut trace: Seq<(T, X)> = seq![(self.body, *blackboard)];
        let ghost mut statuses: Seq<InfallibleStatus> = Seq::empty();
        proof {
            lemma_unchanged_refl(body0, start as int);
        }
        loop
            invariant
                n == T::arity(),
                n >= 1,
                start == old(self).index(),
                body0 == old(self).body_spec(),
                bb0 == *old(blackboard),
                start < n ==> start <= self.index,
                start < n ==> unchanged_outside(body0, self.body, start as int, self.index - 1),
                start >= n ==> self.body == body0 && self.index == start && *blackboard == bb0,
                start < n ==> infallible_children_ran_in_turn(trace, statuses, start as int),
                start < n ==> self.index == start + statuses.len() && self.index <= n,
                start < n ==> trace[0] == (body0, bb0),
                start < n ==> trace.last() == (self.body, *blackboard),
                start < n ==> forall|m: int|
                    0 <= m < statuses.len() ==> #[trigger] statuses[m] == InfallibleStatus::Success,
            decreases (if self.index < n { n - self.index } else { 0 }),
        {
            if self.index < n {
                let ghost prev = self.body;
                let i = self.index;
                let status = self.body.run_child_infallible(i, blackboard);
                proof {
                    lemma_step_unchanged(body0, prev, self.body, start as int, i - 1, i as int);
                    lemma_unchanged_widen(body0, self.body, start as int, i as int, n - 1);
                    let ghost t0 = trace;
                    let ghost s0 = statuses;
                    trace = trace.push((self.body, *blackboard));
                    statuses = statuses.push(status);
                    assert forall|m: int| 0 <= m < statuses.len() implies #[trigger] trace[m].0.child_ran_infallible(
                        start + m,
                        trace[m].1,
                        &trace[m + 1].0,
                        trace[m + 1].1,
                        statuses[m],
                    ) by {
                        if m < s0.len() {
                            assert(t0[m].0.child_ran_infallible(start + m, t0[m].1, &t0[m + 1].0, t0[m + 1].1, s0[m]));
                        }
                    }
                    assert forall|m: int| 0 <= m < statuses.len() - 1 implies #[trigger] statuses[m]
                        == InfallibleStatus::Success by {
                        assert(s0[m] == InfallibleStatus::Success);
                    }
                }
                match status {
                    InfallibleStatus::Running => {
                        proof {
                            assert(infallible_list_ran(trace, statuses, start as int, body0, bb0, self.body, *blackboard, InfallibleStatus::Running));
                        }
                        return InfallibleStatus::Running;
                    },
                    InfallibleStatus::Success => {
                        proof {
                            assert forall|m: int| 0 <= m < statuses.len() implies #[trigger] statuses[m]
                                == InfallibleStatus::Success by {
                                if m < statuses.len() - 1 {
                                    assert(statuses[m] == InfallibleStatus::Success);
                                }
                            }
                        }
                        self.index = self.index + 1;
                    },
                }
            } else {
                proof {
                    if start < n {
                        let k = statuses.len() - 1;
                        assert(statuses[k] == InfallibleStatus::Success);
                        assert(infallible_list_ran(trace, statuses, start as int, body0, bb0, self.body, *blackboard, InfallibleStatus::Success));
                    }
                }
                self.index = 0;
                return InfallibleStatus::Success;
            }
        }
    }
}

impl<X, T: FallibleChildren<X>> FallibleBehavior<X> for Sequence<T> {
    /// The first child ran, and its status is the node's.
    open spec fn ran_fallible(&self, blackboard: X, next: &Self, next_blackboard: X, r: FallibleStatus) -> bool {
        self.body_spec().child_ran_fallible(0, blackboard, &next.body_spec(), next_blackboard, r)
    }

    /// Only the first child can answer for the whole node.
    fn run_fallible(&mut self, blackboard: &mut X) -> (r: FallibleStatus)
        ensures
            final(self).index() == 0,
            unchanged_outside(old(self).body_spec(), final(self).body_spec(), 0, 0),
    {
        self.index = 0;
        let _count = self.body.len();
        let ghost prev = self.body;
        let r = self.body.run_child_fallible(0, blackboard);
        proof {
            lemma_unchanged_refl(prev, 0);
            lemma_step_unchanged(prev, prev, self.body, 0, -1, 0);
        }
        r
    }
}

impl<X, T: EternalChildren<X>> EternalBehavior<X> for Sequence<T> {
    /// The first child ran, and its status is the node's.
    open spec fn ran_eternal(&self, blackboard: X, next: &Self, next_blackboard: X, r: EternalStatus) -> bool {
        self.body_spec().child_ran_eternal(0, blackboard, &next.body_spec(), next_blackboard, r)
    }

    /// Only the first child can answer for the whole node.
    fn run_eternal(&mut self, blackboard: &mut X) -> (r: EternalStatus)
        ensures
            final(self).index() == 0,
            unchanged_outside(old(self).body_spec(), final(self).body_spec(), 0, 0),
    {
        self.index = 0;
        let _count = self.body.len();
        let ghost prev = self.body;
        let r = self.body.run_child_eternal(0, blackboard);
        proof {
            lemma_unchanged_refl(prev, 0);
            lemma_step_unchanged(prev, prev, self.body, 0, -1, 0);
        }
        r
    }
}

impl<X, T: BehaviorChildren<X>> Behavior<X> for Select<T> {
    /// The children from the next one on ran in turn while they failed, as
    /// `list_node_ran` describes.
    open spec fn ran(&self, blackboard: X, next: &Self, next_blackboard: X, r: Status) -> bool {
        list_node_ran(
            self.index() as int,
            true,
            self.body_spec(),
            blackboard,
            next.body_spec(),
            next_blackboard,
            r,
        )
    }

    fn run(&mut self, blackboard: &mut X) -> (r: Status)
        ensures
            !(r is Running) ==> final(self).index() == 0,
            r is Running ==> final(self).index() < T::arity(),
            old(self).index() < T::arity() ==> unchanged_outside(
                old(self).body_spec(),
                final(self).body_spec(),
                old(self).index() as int,
                T::arity() - 1,
            ),
            r is Running && old(self).index() < T::arity() ==> old(self).index() <= final(self).index()
                && unchanged_outside(
                old(self).body_spec(),
                final(self).body_spec(),
                old(self).index() as int,
                final(self).index() as int,
            ),
    {
        let n = self.body.len();
        let ghost start = self.index;
        let ghost body0 = self.body;
        let ghost bb0 = *blackboard;
        let ghost mut trace: Seq<(T, X)> = seq![(self.body, *blackboard)];
        let ghost mut statuses: Seq<Status> = Seq::empty();
        proof {
            lemma_unchanged_refl(body0, start as int);
        }
        loop
            invariant
                n == T::arity(),
                n >= 1,
                start == old(self).index(),
                body0 == old(self).body_spec(),
                bb0 == *old(blackboard),
                start < n ==> start <= self.index,
                start < n ==> unchanged_outside(body0, self.body, start as int, self.index - 1),
                start >= n ==> self.body == body0 && self.index == start && *blackboard == bb0,
                start < n ==> children_ran_in_turn(trace, statuses, start as int),
                start < n ==> self.index == start + statuses.len() && self.index <= n,
                start < n ==> trace[0] == (body0, bb0),
                start < n ==> trace.last() == (self.body, *blackboard),
                start < n ==> forall|m: int|
                    0 <= m < statuses.len() ==> #[trigger] statuses[m] == goes_on(true),
            decreases (if self.index < n { n - self.index } else { 0 }),
        {
            if self.index < n {
                let ghost prev = self.body;
                let ghost bb_prev = *blackboard;
                let i = self.index;
                let status = self.body.run_child(i, blackboard);
                proof {
                    lemma_step_unchanged(body0, prev, self.body, start as int, i - 1, i as int);
                    lemma_unchanged_widen(body0, self.body, start as int, i as int, n - 1);
                    let ghost t0 = trace;
                    let ghost s0 = statuses;
                    trace = trace.push((self.body, *blackboard));
                    statuses = statuses.push(status);
                    assert forall|m: int| 0 <= m < statuses.len() implies #[trigger] trace[m].0.child_ran(
                        start + m,
                        trace[m].1,
                        &trace[m + 1].0,
                        trace[m + 1].1,
                        statuses[m],
                    ) by {
                        if m < s0.len() {
                            assert(t0[m].0.child_ran(start + m, t0[m].1, &t0[m + 1].0, t0[m + 1].1, s0[m]));
                        }
                    }
                    assert forall|m: int| 0 <= m < statuses.len() - 1 implies #[trigger] statuses[m]
                        == goes_on(true) by {
                        assert(s0[m] == goes_on(true));
                    }
                }
                match status {
                    Status::Running => {
                        proof {
                            assert(list_ran(trace, statuses, start as int, true, body0, bb0, self.body, *blackboard, Status::Running));
                        }
                        return Status::Running;
                    },
                    Status::Failure => {
                        proof {
                            assert forall|m: int| 0 <= m < statuses.len() implies #[trigger] statuses[m]
                                == goes_on(true) by {
                                if m < statuses.len() - 1 {
                                    assert(statuses[m] == goes_on(true));
                                }
                            }
                        }
                        self.index = self.index + 1;
                    },
                    Status::Success => {
                        self.index = 0;
                        proof {
                            assert(list_ran(trace, statuses, start as int, true, body0, bb0, self.body, *blackboard, Status::Success));
                        }
                        return Status::Success;
                    },
                }
            } else {
                proof {
                    if start < n {
                        let k = statuses.len() - 1;
                        assert(statuses[k] == goes_on(true));
                        assert(list_ran(trace, statuses, start as int, true, body0, bb0, self.body, *blackboard, Status::Failure));
                    }
                }
                self.index = 0;
                return Status::Failure;
            }
        }
    }
}

/// A sequence whose children can only succeed succeeds: whatever one run of
/// it did, it reports success.
pub proof fn law_sequence_succeeds_when_every_child_does<X, T: BehaviorChildren<X>>(
    s: Sequence<T>,
    blackboard: X,
    next: Sequence<T>,
    next_blackboard: X,
    r: Status,
)
    requires
        s.ran(blackboard, &next, next_blackboard, r),
        forall|c: T, i: int, b: X, c2: T, b2: X, st: Status|
            #[trigger] c.child_ran(i, b, &c2, b2, st) ==> st == Status::Success,
    ensures
        r == Status::Success,
{
    if s.index() < T::arity() {
        let (trace, statuses) = choose|trace: Seq<(T, X)>, statuses: Seq<Status>|
            #[trigger] list_ran(
                trace,
                statuses,
                s.index() as int,
                false,
                s.body_spec(),
                blackboard,
                next.body_spec(),
                next_blackboard,
                r,
            );
        let k = statuses.len() - 1;
        assert(trace[k].0.child_ran(s.index() + k, trace[k].1, &trace[k + 1].0, trace[k + 1].1, statuses[k]));
    }
}

/// A sequence fails only where one of its children failed.
pub proof fn law_sequence_fails_only_on_a_failed_child<X, T: BehaviorChildren<X>>(
    s: Sequence<T>,
    blackboard: X,
    next: Sequence<T>,
    next_blackboard: X,
)
    requires
        s.ran(blackboard, &next, next_blackboard, Status::Failure),
    ensures
        exists|c: T, i: int, b: X, c2: T, b2: X|
            0 <= i < T::arity() && #[trigger] c.child_ran(i, b, &c2, b2, Status::Failure),
{
    let (trace, statuses) = choose|trace: Seq<(T, X)>, statuses: Seq<Status>|
        #[trigger] list_ran(
            trace,
            statuses,
            s.index() as int,
            false,
            s.body_spec(),
            blackboard,
            next.body_spec(),
            next_blackboard,
            Status::Failure,
        );
    let k = statuses.len() - 1;
    assert(trace[k].0.child_ran(s.index() + k, trace[k].1, &trace[k + 1].0, trace[k + 1].1, statuses[k]));
}

/// A sequence run from its first child that succeeds ran every child, one
/// after the other from the first, and each of them succeeded.
pub proof fn law_sequence_success_ran_every_child<X, T: BehaviorChildren<X>>(
    s: Sequence<T>,
    blackboard: X,
    next: Sequence<T>,
    next_blackboard: X,
)
    requires
        s.index() == 0,
        s.ran(blackboard, &next, next_blackboard, Status::Success),
    ensures
        exists|trace: Seq<(T, X)>|
            #![trigger trace.len()]
            trace.len() == T::arity() + 1 && trace[0] == (s.body_spec(), blackboard) && trace.last() == (
                next.body_spec(),
                next_blackboard,
            ) && forall|m: int|
                0 <= m < T::arity() ==> #[trigger] trace[m].0.child_ran(
                    m,
                    trace[m].1,
                    &trace[m + 1].0,
                    trace[m + 1].1,
                    Status::Success,
                ),
{
    if 0 < T::arity() {
        let (trace, statuses) = choose|trace: Seq<(T, X)>, statuses: Seq<Status>|
            #[trigger] list_ran(
                trace,
                statuses,
                0,
                false,
                s.body_spec(),
                blackboard,
                next.body_spec(),
                next_blackboard,
                Status::Success,
            );
        assert forall|m: int| 0 <= m < T::arity() implies #[trigger] trace[m].0.child_ran(
            m,
            trace[m].1,
            &trace[m + 1].0,
            trace[m + 1].1,
            Status::Success,
        ) by {
            assert(trace[m].0.child_ran(0 + m, trace[m].1, &trace[m + 1].0, trace[m + 1].1, statuses[m]));
            if m < statuses.len() - 1 {
                assert(statuses[m] == goes_on(false));
            }
        }
        assert(trace.len() == T::arity() + 1);
    } else {
        let trace = seq![(s.body_spec(), blackboard)];
        assert(trace.len() == T::arity() + 1);
    }
}

/// A selector whose children can only fail fails: whatever one run of it
/// did, it reports failure.
pub proof fn law_select_fails_when_every_child_does<X, T: BehaviorChildren<X>>(
    s: Select<T>,
    blackboard: X,
    next: Select<T>,
    next_blackboard: X,
    r: Status,
)
    requires
        s.ran(blackboard, &next, next_blackboard, r),
        forall|c: T, i: int, b: X, c2: T, b2: X, st: Status|
            #[trigger] c.child_ran(i, b, &c2, b2, st) ==> st == Status::Failure,
    ensures
        r == Status::Failure,
{
    if s.index() < T::arity() {
        let (trace, statuses) = choose|trace: Seq<(T, X)>, statuses: Seq<Status>|
            #[trigger] list_ran(
                trace,
                statuses,
                s.index() as int,
                true,
                s.body_spec(),
                blackboard,
                next.body_spec(),
                next_blackboard,
                r,
            );
        let k = statuses.len() - 1;
        assert(trace[k].0.child_ran(s.index() + k, trace[k].1, &trace[k + 1].0, trace[k + 1].1, statuses[k]));
    }
}

/// A selector succeeds only where one of its children succeeded.
pub proof fn law_select_succeeds_only_on_a_succeeded_child<X, T: BehaviorChildren<X>>(
    s: Select<T>,
    blackboard: X,
    next: Select<T>,
    next_blackboard: X,
)
    requires
        s.ran(blackboard, &next, next_blackboard, Status::Success),
    ensures
        exists|c: T, i: int, b: X, c2: T, b2: X|
            0 <= i < T::arity() && #[trigger] c.child_ran(i, b, &c2, b2, Status::Success),
{
    let (trace, statuses) = choose|trace: Seq<(T, X)>, statuses: Seq<Status>|
        #[trigger] list_ran(
            trace,
            statuses,
            s.index() as int,
            true,
            s.body_spec(),
            blackboard,
            next.body_spec(),
            next_blackboard,
            Status::Success,
        );
    let k = statuses.len() - 1;
    assert(trace[k].0.child_ran(s.index() + k, trace[k].1, &trace[k + 1].0, trace[k + 1].1, statuses[k]));
}

/// A selector run from its first child that fails ran every child, one
/// after the other from the first, and each of them failed.
pub proof fn law_select_failure_ran_every_child<X, T: BehaviorChildren<X>>(
    s: Select<T>,
    blackboard: X,
    next: Select<T>,
    next_blackboard: X,
)
    requires
        s.index() == 0,
        s.ran(blackboard, &next, next_blackboard, Status::Failure),
    ensures
        exists|trace: Seq<(T, X)>|
            #![trigger trace.len()]
            trace.len() == T::arity() + 1 && trace[0] == (s.body_spec(), blackboard) && trace.last() == (
                next.body_spec(),
                next_blackboard,
            ) && forall|m: int|
                0 <= m < T::arity() ==> #[trigger] trace[m].0.child_ran(
                    m,
                    trace[m].1,
                    &trace[m + 1].0,
                    trace[m + 1].1,
                    Status::Failure,
                ),
{
    if 0 < T::arity() {
        let (trace, statuses) = choose|trace: Seq<(T, X)>, statuses: Seq<Status>|
            #[trigger] list_ran(
                trace,
                statuses,
                0,
                true,
                s.body_spec(),
                blackboard,
                next.body_spec(),
                next_blackboard,
                Status::Failure,
            );
        assert forall|m: int| 0 <= m < T::arity() implies #[trigger] trace[m].0.child_ran(
            m,
            trace[m].1,
            &trace[m + 1].0,
            trace[m + 1].1,
            Status::Failure,
        ) by {
            assert(trace[m].0.child_ran(0 + m, trace[m].1, &trace[m + 1].0, trace[m + 1].1, statuses[m]));
            if m < statuses.len() - 1 {
                assert(statuses[m] == goes_on(true));
            }
        }
        assert(trace.len() == T::arity() + 1);
    } else {
        let trace = seq![(s.body_spec(), blackboard)];
        assert(trace.len() == T::arity() + 1);
    }
}

impl<X, T: InfallibleChildren<X>> InfallibleBehavior<X> for Select<T> {
    /// The first child ran, and its status is the node's.
    open spec fn ran_infallible(&self, blackboard: X, next: &Self, next_blackboard: X, r: InfallibleStatus) -> bool {
        self.body_spec().child_ran_infallible(0, blackboard, &next.body_spec(), next_blackboard, r)
    }

    /// Only the first child can answer for the whole node.
    fn run_infallible(&mut self, blackboard: &mut X) -> (r: InfallibleStatus)
        ensures
            final(self).index() == 0,
            unchanged_outside(old(self).body_spec(), final(self).body_spec(), 0, 0),
    {
        self.index = 0;
        let _count = self.body.len();
        let ghost prev = self.body;
        let r = self.body.run_child_infallible(0, blackboard);
        proof {
            lemma_unchanged_refl(prev, 0);
            lemma_step_unchanged(prev, prev, self.body, 0, -1, 0);
        }
        r
    }
}

impl<X, T: FallibleChildren<X>> FallibleBehavior<X> for Select<T> {
    /// The children from the next one on ran in turn while they went on, as
    /// `fallible_list_node_ran` describes.
    open spec fn ran_fallible(&self, blackboard: X, next: &Self, next_blackboard: X, r: FallibleStatus) -> bool {
        fallible_list_node_ran(
            self.index() as int,
            self.body_spec(),
            blackboard,
            next.body_spec(),
            next_blackboard,
            r,
        )
    }

    fn run_fallible(&mut self, blackboard: &mut X) -> (r: FallibleStatus)
        ensures
            !(r is Running) ==> final(self).index() == 0,
            r is Running ==> final(self).index() < T::arity(),
            old(self).index() < T::arity() ==> unchanged_outside(
                old(self).body_spec(),
                final(self).body_spec(),
                old(self).index() as int,
                T::arity() - 1,
            ),
            r is Running && old(self).index() < T::arity() ==> old(self).index() <= final(self).index()
                && unchanged_outside(
                old(self).body_spec(),
                final(self).body_spec(),
                old(self).index() as int,
                final(self).index() as int,
            ),
    {
        let n = self.body.len();
        let ghost start = self.index;
        let ghost body0 = self.body;
        let ghost bb0 = *blackboard;
        let ghost mut trace: Seq<(T, X)> = seq![(self.body, *blackboard)];
        let ghost mut statuses: Seq<FallibleStatus> = Seq::empty();
        proof {
            lemma_unchanged_refl(body0, start as int);
        }
        loop
            invariant
                n == T::arity(),
                n >= 1,
                start == old(self).index(),
                body0 == old(self).body_spec(),
                bb0 == *old(blackboard),
                start < n ==> start <= self.index,
                start < n ==> unchanged_outside(body0, self.body, start as int, self.index - 1),
                start >= n ==> self.body == body0 && self.index == start && *blackboard == bb0,
                start < n ==> fallible_children_ran_in_turn(trace, statuses, start as int),
                start < n ==> self.index == start + statuses.len() && self.index <= n,
                start < n ==> trace[0] == (body0, bb0),
                start < n ==> trace.last() == (self.body, *blackboard),
                start < n ==> forall|m: int|
                    0 <= m < statuses.len() ==> #[trigger] statuses[m] == FallibleStatus::Failure,
            decreases (if self.index < n { n - self.index } else { 0 }),
        {
            if self.index < n {
                let ghost prev = self.body;
                let i = self.index;
                let status = self.body.run_child_fallible(i, blackboard);
                proof {
                    lemma_step_unchanged(body0, prev, self.body, start as int, i - 1, i as int);
                    lemma_unchanged_widen(body0, self.body, start as int, i as int, n - 1);
                    let ghost t0 = trace;
                    let ghost s0 = statuses;
                    trace = trace.push((self.body, *blackboard));
                    statuses = statuses.push(status);
                    assert forall|m: int| 0 <= m < statuses.len() implies #[trigger] trace[m].0.child_ran_fallible(
                        start + m,
                        trace[m].1,
                        &trace[m + 1].0,
                        trace[m + 1].1,
                        statuses[m],
                    ) by {
                        if m < s0.len() {
                            assert(t0[m].0.child_ran_fallible(start + m, t0[m].1, &t0[m + 1].0, t0[m + 1].1, s0[m]));
                        }
                    }
                    assert forall|m: int| 0 <= m < statuses.len() - 1 implies #[trigger] statuses[m]
                        == FallibleStatus::Failure by {
                        assert(s0[m] == FallibleStatus::Failure);
                    }
                }
                match status {
                    FallibleStatus::Running => {
                        proof {
                            assert(fallible_list_ran(trace, statuses, start as int, body0, bb0, self.body, *blackboard, FallibleStatus::Running));
                        }
                        return FallibleStatus::Running;
                    },
                    FallibleStatus::Failure => {
                        proof {
                            assert forall|m: int| 0 <= m < statuses.len() implies #[trigger] statuses[m]
                                == FallibleStatus::Failure by {
                                if m < statuses.len() - 1 {
                                    assert(statuses[m] == FallibleStatus::Failure);
                                }
                            }
                        }
                        self.index = self.index + 1;
                    },
                }
            } else {
                proof {
                    if start < n {
                        let k = statuses.len() - 1;
                        assert(statuses[k] == FallibleStatus::Failure);
                        assert(fallible_list_ran(trace, statuses, start as int, body0, bb0, self.body, *blackboard, FallibleStatus::Failure));
                    }
                }
                self.index = 0;
                return FallibleStatus::Failure;
            }
        }
    }
}

impl<X, T: EternalChildren<X>> EternalBehavior<X> for Select<T> {
    /// The first child ran, and its status is the node's.
    open spec fn ran_eternal(&self, blackboard: X, next: &Self, next_blackboard: X, r: EternalStatus) -> bool {
        self.body_spec().child_ran_eternal(0, blackboard, &next.body_spec(), next_blackboard, r)
    }

    /// Only the first child can answer for the whole node.
    fn run_eternal(&mut self, blackboard: &mut X) -> (r: EternalStatus)
        ensures
            final(self).index() == 0,
            unchanged_outside(old(self).body_spec(), final(self).body_spec(), 0, 0),
    {
        self.index = 0;
        let _count = self.body.len();
        let ghost prev = self.body;
        let r = self.body.run_child_eternal(0, blackboard);
        proof {
            lemma_unchanged_refl(prev, 0);
            lemma_step_unchanged(prev, prev, self.body, 0, -1, 0);
        }
        r
    }
}

/// The position at which a round over `n` children resumes from `index`:
/// the first child where the round had ended.
pub open spec fn round_position(index: int, n: int) -> int {
    if index < n {
        index
    } else {
        0
    }
}

/// The position of the child after `p` in a round over `n` children.
pub open spec fn next_position(p: int, n: int) -> int {
    if p + 1 < n {
        p + 1
    } else {
        0
    }
}

/// One run of a node that runs its children in turn, one step of one child
/// per call (`go` being the status on which it goes on to the next child,
/// `counted` the number of children that already reported it in this
/// round): from child `start` (the first, where the round had ended), the
/// children at `positions` ran one after another along `trace`; each but
/// the last reported `go` without completing the round; the last one's
/// status is the node's, `go` only where it completed the round. A run that
/// ends on the other status leaves every child reset; any other leaves the
/// children as the last child left them.
pub open spec fn parallel_ran<X, T: BehaviorChildren<X> + CancelSafeChildren>(
    trace: Seq<(T, X)>,
    positions: Seq<int>,
    statuses: Seq<Status>,
    start: int,
    counted: int,
    go: Status,
    body: T,
    blackboard: X,
    next_body: T,
    next_blackboard: X,
    r: Status,
) -> bool {
    let len = statuses.len();
    &&& len > 0
    &&& trace.len() == len + 1
    &&& positions.len() == len
    &&& trace[0] == (body, blackboard)
    &&& positions[0] == (if start < T::arity() { start } else { 0 })
    &&& forall|m: int| 0 <= m < len ==> 0 <= #[trigger] positions[m] < T::arity()
    &&& forall|m: int|
        0 <= m < len ==> #[trigger] trace[m].0.child_ran(
            positions[m],
            trace[m].1,
            &trace[m + 1].0,
            trace[m + 1].1,
            statuses[m],
        )
    &&& forall|m: int|
        0 <= m < len - 1 ==> #[trigger] statuses[m] == go && positions[m + 1] == next_position(
            positions[m],
            T::arity() as int,
        )
    &&& counted + len - 1 < T::arity()
    &&& r == statuses.last()
    &&& r == go ==> counted + len == T::arity()
    &&& (r is Running || r == go) ==> (next_body, next_blackboard) == trace.last()
    &&& !(r is Running) && r != go ==> trace.last().0.children_reset(&next_body) && next_blackboard
        == trace.last().1
}

/// A run of a node that runs its children in turn, as `parallel_ran`
/// describes, where its count is within the round.
pub open spec fn parallel_node_ran<X, T: BehaviorChildren<X> + CancelSafeChildren>(
    start: int,
    counted: int,
    go: Status,
    body: T,
    blackboard: X,
    next_body: T,
    next_blackboard: X,
    r: Status,
) -> bool {
    counted < T::arity() ==> exists|trace: Seq<(T, X)>, positions: Seq<int>, statuses: Seq<Status>|
        #[trigger] parallel_ran(
            trace,
            positions,
            statuses,
            start,
            counted,
            go,
            body,
            blackboard,
            next_body,
            next_blackboard,
            r,
        )
}

/// Runs the children in turn, one step of one child per call: fails as soon as one fails (resetting them all), succeeds once as many successes as children have been counted.
pub struct ParallelSequence<A> {
    pub body: A,
    index: usize,
    succeeded: usize,
}

impl<A> ParallelSequence<A> {
    /// The position of the child that runs next.
    pub closed spec fn index(&self) -> usize {
        self.index
    }

    /// How many children have finished with the counted status in this round.
    pub closed spec fn succeeded(&self) -> usize {
        self.succeeded
    }

    pub closed spec fn body_spec(&self) -> A {
        self.body
    }

    pub fn new(body: A) -> (r: Self)
        ensures
            r.index() == 0,
            r.succeeded() == 0,
            r.body_spec() == body,
    {
        ParallelSequence { body, index: 0, succeeded: 0 }
    }
}

impl<A: CancelSafeChildren> ParallelSequence<A> {
    /// Back to the first child, with every child reset.
    fn reset_all(&mut self)
        ensures
            final(self).index() == 0,
            final(self).succeeded() == 0,
            old(self).body_spec().children_reset(&final(self).body_spec()),
    {
        self.index = 0;
        self.succeeded = 0;
        self.body.reset_children();
    }
}

impl<A: CancelSafeChildren> CancelSafe for ParallelSequence<A> {
    fn reset(&mut self)
        ensures
            final(self).index() == 0,
            final(self).succeeded() == 0,
    {
        self.reset_all();
    }
}

impl<X, T: BehaviorChildren<X> + CancelSafeChildren> Behavior<X> for ParallelSequence<T> {
    /// The children ran in turn from the next one, as `parallel_ran`
    /// describes, going on while they succeeded.
    open spec fn ran(&self, blackboard: X, next: &Self, next_blackboard: X, r: Status) -> bool {
        parallel_node_ran(
            self.index() as int,
            self.succeeded() as int,
            Status::Success,
            self.body_spec(),
            blackboard,
            next.body_spec(),
            next_blackboard,
            r,
        )
    }

    fn run(&mut self, blackboard: &mut X) -> (r: Status)
        ensures
            !(r is Running) ==> final(self).index() == 0,
            r is Running ==> 1 <= final(self).index() <= T::arity(),
            !(r is Running) ==> final(self).succeeded() == 0,
            old(self).succeeded() < T::arity() ==> final(self).succeeded() < T::arity(),
    {
        let n = self.body.len();
        let ghost start = self.index as int;
        let ghost counted = self.succeeded as int;
        let ghost body0 = self.body;
        let ghost bb0 = *blackboard;
        let ghost mut trace: Seq<(T, X)> = seq![(self.body, *blackboard)];
        let ghost mut positions: Seq<int> = Seq::empty();
        let ghost mut statuses: Seq<Status> = Seq::empty();
        loop
            invariant
                n == T::arity(),
                n >= 1,
                old(self).succeeded() < n ==> self.succeeded < n,
                start == old(self).index(),
                counted == old(self).succeeded(),
                body0 == old(self).body_spec(),
                bb0 == *old(blackboard),
                self.index <= n || statuses.len() == 0,
                trace.len() == statuses.len() + 1,
                positions.len() == statuses.len(),
                trace[0] == (body0, bb0),
                trace.last() == (self.body, *blackboard),
                counted < n ==> self.succeeded == counted + statuses.len(),
                statuses.len() == 0 ==> (if self.index < n { self.index as int } else { 0 }) == (
                    if start < n { start } else { 0 }),
                statuses.len() > 0 ==> self.index <= n && (if self.index < n {
                    self.index as int
                } else {
                    0
                }) == next_position(positions.last(), n as int),
                statuses.len() > 0 ==> positions[0] == (if start < n { start } else { 0 }),
                forall|m: int| 0 <= m < statuses.len() ==> 0 <= #[trigger] positions[m] < n,
                forall|m: int|
                    0 <= m < statuses.len() ==> #[trigger] trace[m].0.child_ran(
                        positions[m],
                        trace[m].1,
                        &trace[m + 1].0,
                        trace[m + 1].1,
                        statuses[m],
                    ),
                forall|m: int|
                    0 <= m < statuses.len() - 1 ==> #[trigger] statuses[m] == Status::Success
                        && positions[m + 1] == next_position(positions[m], n as int),
                statuses.len() > 0 ==> statuses.last() == Status::Success,
            decreases (if self.succeeded < n { n - self.succeeded } else { 0 }), (if self.index < n { n - self.index } else { n + 1 }),
        {
            if self.index < n {
                let i = self.index;
                let ghost prev = self.body;
                let ghost bb_prev = *blackboard;
                let status = self.body.run_child(i, blackboard);
                proof {
                    let ghost t0 = trace;
                    let ghost p0 = positions;
                    let ghost s0 = statuses;
                    if s0.len() > 0 {
                        assert(i == next_position(p0.last(), n as int));
                    }
                    assert(prev.child_ran(i as int, bb_prev, &self.body, *blackboard, status));
                    assert(t0.last() == (prev, bb_prev));
                    trace = trace.push((self.body, *blackboard));
                    positions = positions.push(i as int);
                    statuses = statuses.push(status);
                    if s0.len() > 0 {
                        assert(positions[0] == p0[0]);
                    }
                    assert(positions[0] == (if start < n { start } else { 0 }));
                    assert(statuses.last() == status);
                    assert(trace[0] == t0[0]);
                    assert(counted < n ==> counted + statuses.len() - 1 < n);
                    assert forall|m: int| 0 <= m < statuses.len() implies 0 <= #[trigger] positions[m] < n by {
                        if m < s0.len() {
                            assert(0 <= p0[m] < n);
                        }
                    }
                    assert forall|m: int| 0 <= m < statuses.len() implies #[trigger] trace[m].0.child_ran(
                        positions[m],
                        trace[m].1,
                        &trace[m + 1].0,
                        trace[m + 1].1,
                        statuses[m],
                    ) by {
                        if m < s0.len() {
                            assert(t0[m].0.child_ran(p0[m], t0[m].1, &t0[m + 1].0, t0[m + 1].1, s0[m]));
                        }
                    }
                    assert forall|m: int| 0 <= m < statuses.len() - 1 implies #[trigger] statuses[m]
                        == Status::Success && positions[m + 1] == next_position(positions[m], n as int) by {
                        if m < s0.len() - 1 {
                            assert(s0[m] == Status::Success);
                        }
                    }
                }
                match status {
                    Status::Running => {
                        self.index = i + 1;
                        proof {
                            if counted < n {
                                assert(parallel_ran(trace, positions, statuses, start, counted, Status::Success, body0, bb0, self.body, *blackboard, Status::Running));
                            }
                        }
                        return Status::Running;
                    },
                    Status::Success => {
                        self.index = i + 1;
                        if self.succeeded >= n - 1 {
                            self.index = 0;
                            self.succeeded = 0;
                            proof {
                                if counted < n {
                                    assert(parallel_ran(trace, positions, statuses, start, counted, Status::Success, body0, bb0, self.body, *blackboard, Status::Success));
                                }
                            }
                            return Status::Success;
                        }
                        self.succeeded = self.succeeded + 1;
                    },
                    Status::Failure => {
                        let ghost last = self.body;
                        self.reset_all();
                        proof {
                            if counted < n {
                                assert(parallel_ran(trace, positions, statuses, start, counted, Status::Success, body0, bb0, self.body, *blackboard, Status::Failure));
                            }
                        }
                        return Status::Failure;
                    },
                }
            } else {
                self.index = 0;
            }
        }
    }
}

impl<X, T: InfallibleChildren<X>> InfallibleBehavior<X> for ParallelSequence<T> {
    fn run_infallible(&mut self, blackboard: &mut X) -> (r: InfallibleStatus)
        ensures
            !(r is Running) ==> final(self).index() == 0,
            r is Running ==> 1 <= final(self).index() <= T::arity(),
            !(r is Running) ==> final(self).succeeded() == 0,
            old(self).succeeded() < T::arity() ==> final(self).succeeded() < T::arity(),
    {
        let n = self.body.len();
        loop
            invariant
                n == T::arity(),
                n >= 1,
                old(self).succeeded() < n ==> self.succeeded < n,
            decreases (if self.succeeded < n { n - self.succeeded } else { 0 }), (if self.index < n { n - self.index } else { n + 1 }),
        {
            if self.index < n {
                let i = self.index;
                match self.body.run_child_infallible(i, blackboard) {
                    InfallibleStatus::Running => {
                        self.index = i + 1;
                        return InfallibleStatus::Running;
                    },
                    InfallibleStatus::Success => {
                        self.index = i + 1;
                        if self.succeeded >= n - 1 {
                            self.index = 0;
                            self.succeeded = 0;
                            return InfallibleStatus::Success;
                        }
                        self.succeeded = self.succeeded + 1;
                    },
                }
            } else {
                self.index = 0;
            }
        }
    }
}

impl<X, T: FallibleChildren<X> + CancelSafeChildren> FallibleBehavior<X> for ParallelSequence<T> {
    fn run_fallible(&mut self, blackboard: &mut X) -> (r: FallibleStatus)
        ensures
            !(r is Running) ==> final(self).index() == 0,
            r is Running ==> 1 <= final(self).index() <= T::arity(),
    {
        let n = self.body.len();
        loop
            invariant
                n == T::arity(),
                n >= 1,
            decreases (if self.index < n { n - self.index } else { n + 1 }),
        {
            if self.index < n {
                let i = self.index;
                match self.body.run_child_fallible(i, blackboard) {
                    FallibleStatus::Running => {
                        self.index = i + 1;
                        return FallibleStatus::Running;
                    },
                    FallibleStatus::Failure => {
                        self.reset_all();
                        return FallibleStatus::Failure;
                    },
                }
            } else {
                self.index = 0;
            }
        }
    }
}

impl<X, T: EternalChildren<X>> EternalBehavior<X> for ParallelSequence<T> {
    fn run_eternal(&mut self, blackboard: &mut X) -> (r: EternalStatus)
        ensures
            !(r is Running) ==> final(self).index() == 0,
            r is Running ==> 1 <= final(self).index() <= T::arity(),
    {
        let n = self.body.len();
        loop
            invariant
                n == T::arity(),
                n >= 1,
            decreases (if self.index < n { n - self.index } else { n + 1 }),
        {
            if self.index < n {
                let i = self.index;
                match self.body.run_child_eternal(i, blackboard) {
                    EternalStatus::Running => {
                        self.index = i + 1;
                        return EternalStatus::Running;
                    },
                }
            } else {
                self.index = 0;
            }
        }
    }
}

/// Runs the children in turn, one step of one child per call: succeeds as soon as one succeeds (resetting them all), fails once as many failures as children have been counted.
pub struct ParallelSelect<A> {
    pub body: A,
    index: usize,
    failed: usize,
}

impl<A> ParallelSelect<A> {
    /// The position of the child that runs next.
    pub closed spec fn index(&self) -> usize {
        self.index
    }

    /// How many children have finished with the counted status in this round.
    pub closed spec fn failed(&self) -> usize {
        self.failed
    }

    pub closed spec fn body_spec(&self) -> A {
        self.body
    }

    pub fn new(body: A) -> (r: Self)
        ensures
            r.index() == 0,
            r.failed() == 0,
            r.body_spec() == body,
    {
        ParallelSelect { body, index: 0, failed: 0 }
    }
}

impl<A: CancelSafeChildren> ParallelSelect<A> {
    /// Back to the first child, with every child reset.
    fn reset_all(&mut self)
        ensures
            final(self).index() == 0,
            final(self).failed() == 0,
            old(self).body_spec().children_reset(&final(self).body_spec()),
    {
        self.index = 0;
        self.failed = 0;
        self.body.reset_children();
    }
}

impl<A: CancelSafeChildren> CancelSafe for ParallelSelect<A> {
    fn reset(&mut self)
        ensures
            final(self).index() == 0,
            final(self).failed() == 0,
    {
        self.reset_all();
    }
}

impl<X, T: BehaviorChildren<X> + CancelSafeChildren> Behavior<X> for ParallelSelect<T> {
    /// The children ran in turn from the next one, as `parallel_ran`
    /// describes, going on while they failed.
    open spec fn ran(&self, blackboard: X, next: &Self, next_blackboard: X, r: Status) -> bool {
        parallel_node_ran(
            self.index() as int,
            self.failed() as int,
            Status::Failure,
            self.body_spec(),
            blackboard,
            next.body_spec(),
            next_blackboard,
            r,
        )
    }

    fn run(&mut self, blackboard: &mut X) -> (r: Status)
        ensures
            !(r is Running) ==> final(self).index() == 0,
            r is Running ==> 1 <= final(self).index() <= T::arity(),
            !(r is Running) ==> final(self).failed() == 0,
            old(self).failed() < T::arity() ==> final(self).failed() < T::arity(),
    {
        let n = self.body.len();
        let ghost start = self.index as int;
        let ghost counted = self.failed as int;
        let ghost body0 = self.body;
        let ghost bb0 = *blackboard;
        let ghost mut trace: Seq<(T, X)> = seq![(self.body, *blackboard)];
        let ghost mut positions: Seq<int> = Seq::empty();
        let ghost mut statuses: Seq<Status> = Seq::empty();
        loop
            invariant
                n == T::arity(),
                n >= 1,
                old(self).failed() < n ==> self.failed < n,
                start == old(self).index(),
                counted == old(self).failed(),
                body0 == old(self).body_spec(),
                bb0 == *old(blackboard),
                self.index <= n || statuses.len() == 0,
                trace.len() == statuses.len() + 1,
                positions.len() == statuses.len(),
                trace[0] == (body0, bb0),
                trace.last() == (self.body, *blackboard),
                counted < n ==> self.failed == counted + statuses.len(),
                statuses.len() == 0 ==> (if self.index < n { self.index as int } else { 0 }) == (
                    if start < n { start } else { 0 }),
                statuses.len() > 0 ==> self.index <= n && (if self.index < n {
                    self.index as int
                } else {
                    0
                }) == next_position(positions.last(), n as int),
                statuses.len() > 0 ==> positions[0] == (if start < n { start } else { 0 }),
                forall|m: int| 0 <= m < statuses.len() ==> 0 <= #[trigger] positions[m] < n,
                forall|m: int|
                    0 <= m < statuses.len() ==> #[trigger] trace[m].0.child_ran(
                        positions[m],
                        trace[m].1,
                        &trace[m + 1].0,
                        trace[m + 1].1,
                        statuses[m],
                    ),
                forall|m: int|
                    0 <= m < statuses.len() - 1 ==> #[trigger] statuses[m] == Status::Failure
                        && positions[m + 1] == next_position(positions[m], n as int),
                statuses.len() > 0 ==> statuses.last() == Status::Failure,
            decreases (if self.failed < n { n - self.failed } else { 0 }), (if self.index < n { n - self.index } else { n + 1 }),
        {
            if self.index < n {
                let i = self.index;
                let ghost prev = self.body;
                let ghost bb_prev = *blackboard;
                let status = self.body.run_child(i, blackboard);
                proof {
                    let ghost t0 = trace;
                    let ghost p0 = positions;
                    let ghost s0 = statuses;
                    if s0.len() > 0 {
                        assert(i == next_position(p0.last(), n as int));
                    }
                    assert(prev.child_ran(i as int, bb_prev, &self.body, *blackboard, status));
                    assert(t0.last() == (prev, bb_prev));
                    trace = trace.push((self.body, *blackboard));
                    positions = positions.push(i as int);
                    statuses = statuses.push(status);
                    if s0.len() > 0 {
                        assert(positions[0] == p0[0]);
                    }
                    assert(positions[0] == (if start < n { start } else { 0 }));
                    assert(statuses.last() == status);
                    assert(trace[0] == t0[0]);
                    assert(counted < n ==> counted + statuses.len() - 1 < n);
                    assert forall|m: int| 0 <= m < statuses.len() implies 0 <= #[trigger] positions[m] < n by {
                        if m < s0.len() {
                            assert(0 <= p0[m] < n);
                        }
                    }
                    assert forall|m: int| 0 <= m < statuses.len() implies #[trigger] trace[m].0.child_ran(
                        positions[m],
                        trace[m].1,
                        &trace[m + 1].0,
                        trace[m + 1].1,
                        statuses[m],
                    ) by {
                        if m < s0.len() {
                            assert(t0[m].0.child_ran(p0[m], t0[m].1, &t0[m + 1].0, t0[m + 1].1, s0[m]));
                        }
                    }
                    assert forall|m: int| 0 <= m < statuses.len() - 1 implies #[trigger] statuses[m]
                        == Status::Failure && positions[m + 1] == next_position(positions[m], n as int) by {
                        if m < s0.len() - 1 {
                            assert(s0[m] == Status::Failure);
                        }
                    }
                }
                match status {
                    Status::Running => {
                        self.index = i + 1;
                        proof {
                            if counted < n {
                                assert(parallel_ran(trace, positions, statuses, start, counted, Status::Failure, body0, bb0, self.body, *blackboard, Status::Running));
                            }
                        }
                        return Status::Running;
                    },
                    Status::Failure => {
                        self.index = i + 1;
                        if self.failed >= n - 1 {
                            self.index = 0;
                            self.failed = 0;
                            proof {
                                if counted < n {
                                    assert(parallel_ran(trace, positions, statuses, start, counted, Status::Failure, body0, bb0, self.body, *blackboard, Status::Failure));
                                }
                            }
                            return Status::Failure;
                        }
                        self.failed = self.failed + 1;
                    },
                    Status::Success => {
                        let ghost last = self.body;
                        self.reset_all();
                        proof {
                            if counted < n {
                                assert(parallel_ran(trace, positions, statuses, start, counted, Status::Failure, body0, bb0, self.body, *blackboard, Status::Success));
                            }
                        }
                        return Status::Success;
                    },
                }
            } else {
                self.index = 0;
            }
        }
    }
}

impl<X, T: InfallibleChildren<X> + CancelSafeChildren> InfallibleBehavior<X> for ParallelSelect<T> {
    fn run_infallible(&mut self, blackboard: &mut X) -> (r: InfallibleStatus)
        ensures
            !(r is Running) ==> final(self).index() == 0,
            r is Running ==> 1 <= final(self).index() <= T::arity(),
    {
        let n = self.body.len();
        loop
            invariant
                n == T::arity(),
                n >= 1,
            decreases (if self.index < n { n - self.index } else { n + 1 }),
        {
            if self.index < n {
                let i = self.index;
                match self.body.run_child_infallible(i, blackboard) {
                    InfallibleStatus::Running => {
                        self.index = i + 1;
                        return InfallibleStatus::Running;
                    },
                    InfallibleStatus::Success => {
                        self.reset_all();
                        return InfallibleStatus::Success;
                    },
                }
            } else {
                self.index = 0;
            }
        }
    }
}

impl<X, T: FallibleChildren<X>> FallibleBehavior<X> for ParallelSelect<T> {
    fn run_fallible(&mut self, blackboard: &mut X) -> (r: FallibleStatus)
        ensures
            !(r is Running) ==> final(self).index() == 0,
            r is Running ==> 1 <= final(self).index() <= T::arity(),
            !(r is Running) ==> final(self).failed() == 0,
            old(self).failed() < T::arity() ==> final(self).failed() < T::arity(),
    {
        let n = self.body.len();
        loop
            invariant
                n == T::arity(),
                n >= 1,
                old(self).failed() < n ==> self.failed < n,
            decreases (if self.failed < n { n - self.failed } else { 0 }), (if self.index < n { n - self.index } else { n + 1 }),
        {
            if self.index < n {
                let i = self.index;
                match self.body.run_child_fallible(i, blackboard) {
                    FallibleStatus::Running => {
                        self.index = i + 1;
                        return FallibleStatus::Running;
                    },
                    FallibleStatus::Failure => {
                        self.index = i + 1;
                        if self.failed >= n - 1 {
                            self.index = 0;
                            self.failed = 0;
                            return FallibleStatus::Failure;
                        }
                        self.failed = self.failed + 1;
                    },
                }
            } else {
                self.index = 0;
            }
        }
    }
}

impl<X, T: EternalChildren<X>> EternalBehavior<X> for ParallelSelect<T> {
    fn run_eternal(&mut self, blackboard: &mut X) -> (r: EternalStatus)
        ensures
            !(r is Running) ==> final(self).index() == 0,
            r is Running ==> 1 <= final(self).index() <= T::arity(),
    {
        let n = self.body.len();
        loop
            invariant
                n == T::arity(),
                n >= 1,
            decreases (if self.index < n { n - self.index } else { n + 1 }),
        {
            if self.index < n {
                let i = self.index;
                match self.body.run_child_eternal(i, blackboard) {
                    EternalStatus::Running => {
                        self.index = i + 1;
                        return EternalStatus::Running;
                    },
                }
            } else {
                self.index = 0;
            }
        }
    }
}

/// A parallel sequence whose children can only succeed succeeds or keeps running:
/// whatever one run of it did, it never reports failure.
pub proof fn law_parallel_sequence_never_fails_when_no_child_can<X, T: BehaviorChildren<X> + CancelSafeChildren>(
    s: ParallelSequence<T>,
    blackboard: X,
    next: ParallelSequence<T>,
    next_blackboard: X,
    r: Status,
)
    requires
        s.succeeded() < T::arity(),
        s.ran(blackboard, &next, next_blackboard, r),
        forall|c: T, i: int, b: X, c2: T, b2: X, st: Status|
            #[trigger] c.child_ran(i, b, &c2, b2, st) ==> st != Status::Failure,
    ensures
        r != Status::Failure,
{
    let (trace, positions, statuses) = choose|trace: Seq<(T, X)>, positions: Seq<int>, statuses: Seq<Status>|
        #[trigger] parallel_ran(
            trace,
            positions,
            statuses,
            s.index() as int,
            s.succeeded() as int,
            Status::Success,
            s.body_spec(),
            blackboard,
            next.body_spec(),
            next_blackboard,
            r,
        );
    let k = statuses.len() - 1;
    assert(trace[k].0.child_ran(positions[k], trace[k].1, &trace[k + 1].0, trace[k + 1].1, statuses[k]));
}

/// A parallel sequence reports failure only where one of its children did.
pub proof fn law_parallel_sequence_fails_only_with_a_child<X, T: BehaviorChildren<X> + CancelSafeChildren>(
    s: ParallelSequence<T>,
    blackboard: X,
    next: ParallelSequence<T>,
    next_blackboard: X,
)
    requires
        s.succeeded() < T::arity(),
        s.ran(blackboard, &next, next_blackboard, Status::Failure),
    ensures
        exists|c: T, i: int, b: X, c2: T, b2: X|
            0 <= i < T::arity() && #[trigger] c.child_ran(i, b, &c2, b2, Status::Failure),
{
    let (trace, positions, statuses) = choose|trace: Seq<(T, X)>, positions: Seq<int>, statuses: Seq<Status>|
        #[trigger] parallel_ran(
            trace,
            positions,
            statuses,
            s.index() as int,
            s.succeeded() as int,
            Status::Success,
            s.body_spec(),
            blackboard,
            next.body_spec(),
            next_blackboard,
            Status::Failure,
        );
    let k = statuses.len() - 1;
    assert(0 <= positions[k] < T::arity());
    assert(trace[k].0.child_ran(positions[k], trace[k].1, &trace[k + 1].0, trace[k + 1].1, statuses[k]));
}

/// A parallel sequence reports success only once its count of children that did
/// reached the number of children: the children it ran in this call, all
/// of which reported success, complete the count it started from.
pub proof fn law_parallel_sequence_succeeds_on_a_full_count<X, T: BehaviorChildren<X> + CancelSafeChildren>(
    s: ParallelSequence<T>,
    blackboard: X,
    next: ParallelSequence<T>,
    next_blackboard: X,
)
    requires
        s.succeeded() < T::arity(),
        s.ran(blackboard, &next, next_blackboard, Status::Success),
    ensures
        exists|statuses: Seq<Status>|
            s.succeeded() + statuses.len() == T::arity() && forall|m: int|
                0 <= m < statuses.len() ==> #[trigger] statuses[m] == Status::Success,
{
    let (trace, positions, statuses) = choose|trace: Seq<(T, X)>, positions: Seq<int>, statuses: Seq<Status>|
        #[trigger] parallel_ran(
            trace,
            positions,
            statuses,
            s.index() as int,
            s.succeeded() as int,
            Status::Success,
            s.body_spec(),
            blackboard,
            next.body_spec(),
            next_blackboard,
            Status::Success,
        );
    assert forall|m: int| 0 <= m < statuses.len() implies #[trigger] statuses[m] == Status::Success by {
        if m < statuses.len() - 1 {
            assert(statuses[m] == Status::Success);
        }
    }
}

/// A parallel selector whose children can only fail fails or keeps running:
/// whatever one run of it did, it never reports success.
pub proof fn law_parallel_select_never_succeeds_when_no_child_can<X, T: BehaviorChildren<X> + CancelSafeChildren>(
    s: ParallelSelect<T>,
    blackboard: X,
    next: ParallelSelect<T>,
    next_blackboard: X,
    r: Status,
)
    requires
        s.failed() < T::arity(),
        s.ran(blackboard, &next, next_blackboard, r),
        forall|c: T, i: int, b: X, c2: T, b2: X, st: Status|
            #[trigger] c.child_ran(i, b, &c2, b2, st) ==> st != Status::Success,
    ensures
        r != Status::Success,
{
    let (trace, positions, statuses) = choose|trace: Seq<(T, X)>, positions: Seq<int>, statuses: Seq<Status>|
        #[trigger] parallel_ran(
            trace,
            positions,
            statuses,
            s.index() as int,
            s.failed() as int,
            Status::Failure,
            s.body_spec(),
            blackboard,
            next.body_spec(),
            next_blackboard,
            r,
        );
    let k = statuses.len() - 1;
    assert(trace[k].0.child_ran(positions[k], trace[k].1, &trace[k + 1].0, trace[k + 1].1, statuses[k]));
}

/// A parallel selector reports success only where one of its children did.
pub proof fn law_parallel_select_succeeds_only_with_a_child<X, T: BehaviorChildren<X> + CancelSafeChildren>(
    s: ParallelSelect<T>,
    blackboard: X,
    next: ParallelSelect<T>,
    next_blackboard: X,
)
    requires
        s.failed() < T::arity(),
        s.ran(blackboard, &next, next_blackboard, Status::Success),
    ensures
        exists|c: T, i: int, b: X, c2: T, b2: X|
            0 <= i < T::arity() && #[trigger] c.child_ran(i, b, &c2, b2, Status::Success),
{
    let (trace, positions, statuses) = choose|trace: Seq<(T, X)>, positions: Seq<int>, statuses: Seq<Status>|
        #[trigger] parallel_ran(
            trace,
            positions,
            statuses,
            s.index() as int,
            s.failed() as int,
            Status::Failure,
            s.body_spec(),
            blackboard,
            next.body_spec(),
            next_blackboard,
            Status::Success,
        );
    let k = statuses.len() - 1;
    assert(0 <= positions[k] < T::arity());
    assert(trace[k].0.child_ran(positions[k], trace[k].1, &trace[k + 1].0, trace[k + 1].1, statuses[k]));
}

/// A parallel selector reports failure only once its count of children that did
/// reached the number of children: the children it ran in this call, all
/// of which reported failure, complete the count it started from.
pub proof fn law_parallel_select_fails_on_a_full_count<X, T: BehaviorChildren<X> + CancelSafeChildren>(
    s: ParallelSelect<T>,
    blackboard: X,
    next: ParallelSelect<T>,
    next_blackboard: X,
)
    requires
        s.failed() < T::arity(),
        s.ran(blackboard, &next, next_blackboard, Status::Failure),
    ensures
        exists|statuses: Seq<Status>|
            s.failed() + statuses.len() == T::arity() && forall|m: int|
                0 <= m < statuses.len() ==> #[trigger] statuses[m] == Status::Failure,
{
    let (trace, positions, statuses) = choose|trace: Seq<(T, X)>, positions: Seq<int>, statuses: Seq<Status>|
        #[trigger] parallel_ran(
            trace,
            positions,
            statuses,
            s.index() as int,
            s.failed() as int,
            Status::Failure,
            s.body_spec(),
            blackboard,
            next.body_spec(),
            next_blackboard,
            Status::Failure,
        );
    assert forall|m: int| 0 <= m < statuses.len() implies #[trigger] statuses[m] == Status::Failure by {
        if m < statuses.len() - 1 {
            assert(statuses[m] == Status::Failure);
        }
    }
}

/// Runs the children in turn, one step of one child per call, and finishes as soon as any child finishes, with its status, resetting them all.
pub struct ParallelAny<A> {
    pub body: A,
    index: usize,
}

impl<A> ParallelAny<A> {
    /// The position of the child that runs next.
    pub closed spec fn index(&self) -> usize {
        self.index
    }

    pub closed spec fn body_spec(&self) -> A {
        self.body
    }

    pub fn new(body: A) -> (r: Self)
        ensures
            r.index() == 0,
            r.body_spec() == body,
    {
        ParallelAny { body, index: 0 }
    }
}

impl<A: CancelSafeChildren> ParallelAny<A> {
    /// Back to the first child, with every child reset.
    fn reset_all(&mut self)
        ensures
            final(self).index() == 0,
            old(self).body_spec().children_reset(&final(self).body_spec()),
    {
        self.index = 0;
        self.body.reset_children();
    }
}

impl<A: CancelSafeChildren> CancelSafe for ParallelAny<A> {
    fn reset(&mut self)
        ensures
            final(self).index() == 0,
    {
        self.reset_all();
    }
}

impl<X, T: BehaviorChildren<X> + CancelSafeChildren> Behavior<X> for ParallelAny<T> {
    /// The next child (the first, where the round had ended) ran and its
    /// status is the node's; a finished run leaves every child reset.
    open spec fn ran(&self, blackboard: X, next: &Self, next_blackboard: X, r: Status) -> bool {
        exists|mid: T|
            #[trigger] self.body_spec().child_ran(
                round_position(self.index() as int, T::arity() as int),
                blackboard, &mid, next_blackboard, r) && (if r is Running {
                next.body_spec() == mid
            } else {
                mid.children_reset(&next.body_spec())
            })
    }

    fn run(&mut self, blackboard: &mut X) -> (r: Status)
        ensures
            !(r is Running) ==> final(self).index() == 0,
            r is Running ==> 1 <= final(self).index() <= T::arity(),
    {
        let n = self.body.len();
        let ghost start = self.index as int;
        let ghost body0 = self.body;
        let ghost bb0 = *blackboard;
        loop
            invariant
                n == T::arity(),
                n >= 1,
                start == old(self).index(),
                body0 == old(self).body_spec(),
                bb0 == *old(blackboard),
                self.body == body0,
                *blackboard == bb0,
                (if self.index < n { self.index as int } else { 0 }) == (if start < n { start } else { 0 }),
            decreases (if self.index < n { n - self.index } else { n + 1 }),
        {
            if self.index < n {
                let i = self.index;
                let status = self.body.run_child(i, blackboard);
                let ghost mid = self.body;
                let ghost p: int = round_position(start, n as int);
                assert(body0.child_ran(p, bb0, &mid, *blackboard, status));
                match status {
                    Status::Running => {
                        self.index = i + 1;
                        assert(body0.child_ran(p, bb0, &mid, *blackboard, status) && self.body == mid);
                        return Status::Running;
                    },
                    Status::Success => {
                        self.reset_all();
                        assert(body0.child_ran(p, bb0, &mid, *blackboard, status) && mid.children_reset(&self.body));
                        return Status::Success;
                    },
                    Status::Failure => {
                        self.reset_all();
                        assert(body0.child_ran(p, bb0, &mid, *blackboard, status) && mid.children_reset(&self.body));
                        return Status::Failure;
                    },
                }
            } else {
                self.index = 0;
            }
        }
    }
}

impl<X, T: InfallibleChildren<X> + CancelSafeChildren> InfallibleBehavior<X> for ParallelAny<T> {
    fn run_infallible(&mut self, blackboard: &mut X) -> (r: InfallibleStatus)
        ensures
            !(r is Running) ==> final(self).index() == 0,
            r is Running ==> 1 <= final(self).index() <= T::arity(),
    {
        let n = self.body.len();
        loop
            invariant
                n == T::arity(),
                n >= 1,
            decreases (if self.index < n { n - self.index } else { n + 1 }),
        {
            if self.index < n {
                let i = self.index;
                match self.body.run_child_infallible(i, blackboard) {
                    InfallibleStatus::Running => {
                        self.index = i + 1;
                        return InfallibleStatus::Running;
                    },
                    InfallibleStatus::Success => {
                        self.reset_all();
                        return InfallibleStatus::Success;
                    },
                }
            } else {
                self.index = 0;
            }
        }
    }
}

impl<X, T: FallibleChildren<X> + CancelSafeChildren> FallibleBehavior<X> for ParallelAny<T> {
    fn run_fallible(&mut self, blackboard: &mut X) -> (r: FallibleStatus)
        ensures
            !(r is Running) ==> final(self).index() == 0,
            r is Running ==> 1 <= final(self).index() <= T::arity(),
    {
        let n = self.body.len();
        loop
            invariant
                n == T::arity(),
                n >= 1,
            decreases (if self.index < n { n - self.index } else { n + 1 }),
        {
            if self.index < n {
                let i = self.index;
                match self.body.run_child_fallible(i, blackboard) {
                    FallibleStatus::Running => {
                        self.index = i + 1;
                        return FallibleStatus::Running;
                    },
                    FallibleStatus::Failure => {
                        self.reset_all();
                        return FallibleStatus::Failure;
                    },
                }
            } else {
                self.index = 0;
            }
        }
    }
}

impl<X, T: EternalChildren<X>> EternalBehavior<X> for ParallelAny<T> {
    fn run_eternal(&mut self, blackboard: &mut X) -> (r: EternalStatus)
        ensures
            !(r is Running) ==> final(self).index() == 0,
            r is Running ==> 1 <= final(self).index() <= T::arity(),
    {
        let n = self.body.len();
        loop
            invariant
                n == T::arity(),
                n >= 1,
            decreases (if self.index < n { n - self.index } else { n + 1 }),
        {
            if self.index < n {
                let i = self.index;
                match self.body.run_child_eternal(i, blackboard) {
                    EternalStatus::Running => {
                        self.index = i + 1;
                        return EternalStatus::Running;
                    },
                }
            } else {
                self.index = 0;
            }
        }
    }
}

/// A node that finishes with its first child to finish reports what one of
/// its children reported, and nothing else.
pub proof fn law_parallel_any_reports_a_childs_status<X, T: BehaviorChildren<X> + CancelSafeChildren>(
    s: ParallelAny<T>,
    blackboard: X,
    next: ParallelAny<T>,
    next_blackboard: X,
    r: Status,
)
    requires
        s.ran(blackboard, &next, next_blackboard, r),
    ensures
        exists|c: T, i: int, b: X, c2: T, b2: X| #[trigger] c.child_ran(i, b, &c2, b2, r),
{
    let mid = choose|mid: T|
        #[trigger] s.body_spec().child_ran(
            round_position(s.index() as int, T::arity() as int),
            blackboard,
            &mid,
            next_blackboard,
            r,
        ) && (if r is Running {
            next.body_spec() == mid
        } else {
            mid.children_reset(&next.body_spec())
        });
    assert(s.body_spec().child_ran(round_position(s.index() as int, T::arity() as int), blackboard, &mid, next_blackboard, r));
}

} // verus!
