//! A behavior tree run to completion in one call: actions are closures over
//! a blackboard, and the inner nodes combine their statuses. Any node may
//! end the whole run early with an exit status.
//!
//! A run ends as [`run_with`] computes from the tree's structure and the
//! statuses its actions returned, one after the other; a tree that reaches no
//! action (its result depends on the structure alone) is run exactly as
//! [`eval`] computes. A `While` loop gives up after `u64::MAX` passes and ends
//! as if its condition had failed.

use vstd::prelude::*;

use crate::foreign::{call_user_closure, call_user_tracer, string_push};
use crate::text::{decimal, push_decimal};

verus! {

/// `Ok(())` for success, `Err(())` for failure.
pub type Status = Result<(), ()>;

/// Success.
pub open spec fn ok() -> Status {
    Ok(())
}

/// Failure.
pub open spec fn err() -> Status {
    Err(())
}

/// Returns `Ok(())` if `status` is `true`, otherwise returns `Err(())`.
pub fn status(value: bool) -> (r: Status)
    ensures
        r == (if value { ok() } else { err() }),
{
    if value {
        Ok(())
    } else {
        Err(())
    }
}

/// An action: the library's user's code run on the blackboard.
pub trait ActionFn<B> {
    fn call(&mut self, blackboard: &mut B) -> Status;
}

/// An action that cannot fail.
pub trait InfallibleActionFn<B> {
    fn call_infallible(&mut self, blackboard: &mut B);
}

impl<B, F: FnMut(&mut B) -> Status> ActionFn<B> for F {
    fn call(&mut self, blackboard: &mut B) -> Status {
        call_user_closure(self, blackboard)
    }
}

impl<B, F: FnMut(&mut B)> InfallibleActionFn<B> for F {
    fn call_infallible(&mut self, blackboard: &mut B) {
        call_user_closure(self, blackboard)
    }
}

/// A boxed action.
pub type Action<B> = Box<dyn ActionFn<B>>;

/// A tree that owns its actions.
pub type StaticBehaviour<B> = Behaviour<B>;

/// A node of a behavior tree.
#[verifier::reject_recursive_types(B)]
pub enum Behaviour<B> {
    /// A function that takes a mutable reference to the blackboard and returns a status
    Action(Box<dyn ActionFn<B>>),
    /// A function that takes a mutable reference to the blackboard and returns nothing.
    ///
    /// `OK` is always returned.
    InfallibleAction(Box<dyn InfallibleActionFn<B>>),
    /// Runs `ok` if `condition` returns `OK`, otherwise runs `err`.
    If { condition: Box<Behaviour<B>>, ok: Box<Behaviour<B>>, err: Box<Behaviour<B>> },
    /// Runs behaviors sequentially while the condition returns `OK`.
    While {
        condition: Box<Behaviour<B>>,
        body: Vec<Behaviour<B>>,
        /// If `true`, `condition` is checked before every behavior in `body`.
        pedantic: bool,
    },
    /// Runs behaviors sequentially, exiting early if one succeeds
    Select(Vec<Behaviour<B>>),
    /// Runs behaviors sequentially, exiting early if one fails
    Sequence(Vec<Behaviour<B>>),
    /// Runs a behavior, but ignores its status
    Ignore(Box<Behaviour<B>>, Status),
    /// Inverts the result of a behavior
    Invert(Box<Behaviour<B>>),
    /// Runs a behavior; if it succeeds, runs `succeeded` and exits the tree with its status
    NeverSucceed { behavior: Box<Behaviour<B>>, succeeded: Box<dyn ActionFn<B>> },
    /// Runs a behavior; if it fails, runs `failed` and exits the tree with its status
    NeverFail { behavior: Box<Behaviour<B>>, failed: Box<dyn ActionFn<B>> },
    /// Exits the Behavior Tree with the given status
    Exit(Status),
    /// Returns the given status
    Constant(Status),
}

/// The outcome of a node: a status for its parent, or an exit of the whole tree.
#[derive(Clone, Copy, Debug, PartialEq, Eq)]
pub enum ReturnStatus {
    Normal(Status),
    Exit(Status),
}

impl ReturnStatus {
    /// Whether the tree is being exited.
    pub fn is_exit(&self) -> (r: bool)
        ensures
            r == (*self is Exit),
    {
        match self {
            ReturnStatus::Normal(_) => false,
            ReturnStatus::Exit(_) => true,
        }
    }

    /// The status, wherever it goes.
    pub fn status_of(&self) -> (r: Status)
        ensures
            r == self.status(),
    {
        match self {
            ReturnStatus::Normal(s) => *s,
            ReturnStatus::Exit(s) => *s,
        }
    }

    /// The status, wherever it goes.
    pub open spec fn status(self) -> Status {
        match self {
            ReturnStatus::Normal(s) => s,
            ReturnStatus::Exit(s) => s,
        }
    }
}

/// The name of a node on the trace stack.
#[derive(Clone, Copy, Debug)]
pub enum TraceName {
    Fixed(&'static str),
    Numbered(&'static str, usize),
}

/// Observes the nodes as they are entered and left.
pub trait BehaviorTracer<B> {
    fn push(&mut self, name: TraceName, bb: &B);

    fn pop(&mut self, bb: &B);
}

/// The name that a tracer shows for `name`: a numbered name is the prefix,
/// a hyphen and the number in decimal.
pub open spec fn trace_label(name: TraceName) -> Seq<char> {
    match name {
        TraceName::Fixed(s) => s@,
        TraceName::Numbered(s, i) => s@ + seq!['-'] + decimal(i as nat),
    }
}

/// Keeps the stack of node names and shows it to a closure at every change.
struct SimpleTracer<F> {
    stack: Vec<String>,
    trace_fn: F,
}

impl<F> SimpleTracer<F> {
    /// The names on the stack, innermost last.
    pub closed spec fn names(&self) -> Seq<Seq<char>> {
        self.stack@.map_values(|s: String| s@)
    }
}

impl<B, F: FnMut(&B, &[String])> BehaviorTracer<B> for SimpleTracer<F> {
    fn push(&mut self, name: TraceName, bb: &B)
        ensures
            final(self).names() == old(self).names().push(trace_label(name)),
    {
        let label = match name {
            TraceName::Fixed(s) => s.to_owned(),
            TraceName::Numbered(s, i) => {
                let mut label = s.to_owned();
                string_push(&mut label, '-');
                push_decimal(&mut label, i as u64);
                assert(label@ =~= s@ + seq!['-'] + decimal(i as nat));
                label
            },
        };
        self.stack.push(label);
        call_user_tracer(&mut self.trace_fn, bb, self.stack.as_slice());
    }

    fn pop(&mut self, bb: &B)
        ensures
            final(self).names() == (if old(self).names().len() > 0 {
                old(self).names().drop_last()
            } else {
                old(self).names()
            }),
    {
        self.stack.pop();
        call_user_tracer(&mut self.trace_fn, bb, self.stack.as_slice());
    }
}

impl<B> BehaviorTracer<B> for () {
    fn push(&mut self, _name: TraceName, _bb: &B) {
    }

    fn pop(&mut self, _bb: &B) {
    }
}

/// The outcome of a tree, where it depends on the tree alone; `None` where it
/// depends on an action, or where the run would not end.
pub open spec fn eval<B>(b: Behaviour<B>) -> Option<ReturnStatus>
    decreases b, 0int,
{
    match b {
        Behaviour::Action(_) => None,
        Behaviour::InfallibleAction(_) => None,
        Behaviour::If { condition, ok, err } => match eval(*condition) {
            Some(ReturnStatus::Normal(c)) => if c is Ok {
                eval(*ok)
            } else {
                eval(*err)
            },
            other => other,
        },
        Behaviour::While { condition, body, pedantic } => if pedantic && body@.len() == 0 {
            None
        } else {
            match eval(*condition) {
                Some(ReturnStatus::Normal(c)) => if c is Err {
                    Some(ReturnStatus::Normal(ok()))
                } else {
                    match eval_sequence(body@, 0) {
                        Some(ReturnStatus::Normal(s)) => if s is Ok {
                            None
                        } else {
                            Some(ReturnStatus::Normal(err()))
                        },
                        other => other,
                    }
                },
                other => other,
            }
        },
        Behaviour::Select(v) => eval_select(v@, 0),
        Behaviour::Sequence(v) => eval_sequence(v@, 0),
        Behaviour::Ignore(inner, with) => match eval(*inner) {
            Some(ReturnStatus::Normal(_)) => Some(ReturnStatus::Normal(with)),
            other => other,
        },
        Behaviour::Invert(inner) => match eval(*inner) {
            Some(ReturnStatus::Normal(s)) => Some(
                ReturnStatus::Normal(
                    if s is Ok {
                        err()
                    } else {
                        ok()
                    },
                ),
            ),
            other => other,
        },
        Behaviour::NeverSucceed { behavior, succeeded: _ } => match eval(*behavior) {
            Some(ReturnStatus::Normal(s)) => if s is Ok {
                None
            } else {
                Some(ReturnStatus::Normal(err()))
            },
            other => other,
        },
        Behaviour::NeverFail { behavior, failed: _ } => match eval(*behavior) {
            Some(ReturnStatus::Normal(s)) => if s is Err {
                None
            } else {
                Some(ReturnStatus::Normal(ok()))
            },
            other => other,
        },
        Behaviour::Exit(s) => Some(ReturnStatus::Exit(s)),
        Behaviour::Constant(s) => Some(ReturnStatus::Normal(s)),
    }
}

/// The outcome of running `s[i..]` as a sequence: the first failure or exit,
/// otherwise success.
pub open spec fn eval_sequence<B>(s: Seq<Behaviour<B>>, i: int) -> Option<ReturnStatus>
    decreases s, s.len() - i,
{
    if i < 0 || i >= s.len() {
        Some(ReturnStatus::Normal(ok()))
    } else {
        match eval(s[i]) {
            Some(ReturnStatus::Normal(r)) => if r is Ok {
                eval_sequence(s, i + 1)
            } else {
                Some(ReturnStatus::Normal(err()))
            },
            other => other,
        }
    }
}

/// The outcome of running `s[i..]` as a selector: the first success or exit,
/// otherwise failure.
pub open spec fn eval_select<B>(s: Seq<Behaviour<B>>, i: int) -> Option<ReturnStatus>
    decreases s, s.len() - i,
{
    if i < 0 || i >= s.len() {
        Some(ReturnStatus::Normal(err()))
    } else {
        match eval(s[i]) {
            Some(ReturnStatus::Normal(r)) => if r is Err {
                eval_select(s, i + 1)
            } else {
                Some(ReturnStatus::Normal(ok()))
            },
            other => other,
        }
    }
}

/// The structure of a tree, without its actions' code: what a run cannot
/// change, whatever its actions do.
pub enum Shape {
    Action,
    InfallibleAction,
    If { condition: Box<Shape>, ok: Box<Shape>, err: Box<Shape> },
    While { condition: Box<Shape>, body: Seq<Shape>, pedantic: bool },
    Select(Seq<Shape>),
    Sequence(Seq<Shape>),
    Ignore(Box<Shape>, Status),
    Invert(Box<Shape>),
    NeverSucceed(Box<Shape>),
    NeverFail(Box<Shape>),
    Exit(Status),
    Constant(Status),
}

/// The structure of a tree.
pub open spec fn shape_of<B>(b: Behaviour<B>) -> Shape
    decreases b, 0int,
{
    match b {
        Behaviour::Action(_) => Shape::Action,
        Behaviour::InfallibleAction(_) => Shape::InfallibleAction,
        Behaviour::If { condition, ok, err } => Shape::If {
            condition: Box::new(shape_of(*condition)),
            ok: Box::new(shape_of(*ok)),
            err: Box::new(shape_of(*err)),
        },
        Behaviour::While { condition, body, pedantic } => Shape::While {
            condition: Box::new(shape_of(*condition)),
            body: shape_list(body@),
            pedantic,
        },
        Behaviour::Select(v) => Shape::Select(shape_list(v@)),
        Behaviour::Sequence(v) => Shape::Sequence(shape_list(v@)),
        Behaviour::Ignore(inner, with) => Shape::Ignore(Box::new(shape_of(*inner)), with),
        Behaviour::Invert(inner) => Shape::Invert(Box::new(shape_of(*inner))),
        Behaviour::NeverSucceed { behavior, succeeded: _ } => Shape::NeverSucceed(
            Box::new(shape_of(*behavior)),
        ),
        Behaviour::NeverFail { behavior, failed: _ } => Shape::NeverFail(
            Box::new(shape_of(*behavior)),
        ),
        Behaviour::Exit(s) => Shape::Exit(s),
        Behaviour::Constant(s) => Shape::Constant(s),
    }
}

/// The structures of a list of trees.
pub open spec fn shape_list<B>(s: Seq<Behaviour<B>>) -> Seq<Shape>
    decreases s, 1int,
{
    if s.len() == 0 {
        Seq::empty()
    } else {
        shape_list(s.subrange(0, s.len() - 1)).push(shape_of(s[s.len() - 1]))
    }
}

proof fn lemma_shape_list<B>(s: Seq<Behaviour<B>>)
    ensures
        shape_list(s).len() == s.len(),
        forall|j: int| 0 <= j < s.len() ==> #[trigger] shape_list(s)[j] == shape_of(s[j]),
    decreases s.len(),
{
    if s.len() > 0 {
        let init = s.subrange(0, s.len() - 1);
        lemma_shape_list(init);
        assert forall|j: int| 0 <= j < s.len() implies #[trigger] shape_list(s)[j] == shape_of(s[j]) by {
            if j < s.len() - 1 {
                assert(init[j] == s[j]);
            }
        }
    }
}

/// Lists whose members have the same structures have the same structure.
proof fn lemma_shape_lists_agree<B>(s1: Seq<Behaviour<B>>, s2: Seq<Behaviour<B>>)
    requires
        s1.len() == s2.len(),
        forall|j: int| 0 <= j < s1.len() ==> shape_of(#[trigger] s1[j]) == shape_of(s2[j]),
    ensures
        shape_list(s1) == shape_list(s2),
{
    lemma_shape_list(s1);
    lemma_shape_list(s2);
    assert(shape_list(s1) =~= shape_list(s2));
}

/// The number of passes a `While` loop makes before it gives up.
pub open spec fn max_passes() -> nat {
    0xffff_ffff_ffff_ffff
}

/// The number of members of a `While` body, for the measure of a run.
pub open spec fn body_len(w: Shape) -> int {
    match w {
        Shape::While { body, .. } => body.len() as int,
        _ => 0,
    }
}

/// Running a tree of structure `s` whose actions return, one after the
/// other, the statuses of `t`: its outcome and the statuses left over; `None`
/// where the actions would want more statuses than `t` holds.
pub open spec fn run_with(s: Shape, t: Seq<Status>) -> Option<(ReturnStatus, Seq<Status>)>
    decreases s, 3int, 0int, 0int,
{
    match s {
        Shape::Action => if t.len() == 0 {
            None
        } else {
            Some((ReturnStatus::Normal(t[0]), t.drop_first()))
        },
        Shape::InfallibleAction => Some((ReturnStatus::Normal(ok()), t)),
        Shape::If { condition, ok, err } => match run_with(*condition, t) {
            Some((ReturnStatus::Normal(c), t1)) => if c is Ok {
                run_with(*ok, t1)
            } else {
                run_with(*err, t1)
            },
            other => other,
        },
        Shape::While { .. } => run_while_with(s, t, max_passes(), -1),
        Shape::Select(v) => run_list_with(v, 0, true, t),
        Shape::Sequence(v) => run_list_with(v, 0, false, t),
        Shape::Ignore(inner, with) => match run_with(*inner, t) {
            Some((ReturnStatus::Normal(_), t1)) => Some((ReturnStatus::Normal(with), t1)),
            other => other,
        },
        Shape::Invert(inner) => match run_with(*inner, t) {
            Some((ReturnStatus::Normal(x), t1)) => Some(
                (
                    ReturnStatus::Normal(
                        if x is Ok {
                            err()
                        } else {
                            ok()
                        },
                    ),
                    t1,
                ),
            ),
            other => other,
        },
        Shape::NeverSucceed(inner) => match run_with(*inner, t) {
            Some((ReturnStatus::Normal(x), t1)) => if x is Ok {
                if t1.len() == 0 {
                    None
                } else {
                    Some((ReturnStatus::Exit(t1[0]), t1.drop_first()))
                }
            } else {
                Some((ReturnStatus::Normal(err()), t1))
            },
            other => other,
        },
        Shape::NeverFail(inner) => match run_with(*inner, t) {
            Some((ReturnStatus::Normal(x), t1)) => if x is Err {
                if t1.len() == 0 {
                    None
                } else {
                    Some((ReturnStatus::Exit(t1[0]), t1.drop_first()))
                }
            } else {
                Some((ReturnStatus::Normal(ok()), t1))
            },
            other => other,
        },
        Shape::Exit(x) => Some((ReturnStatus::Exit(x), t)),
        Shape::Constant(x) => Some((ReturnStatus::Normal(x), t)),
    }
}

/// Running `v[i..]` as a selector (`select`) or a sequence.
pub open spec fn run_list_with(v: Seq<Shape>, i: int, select: bool, t: Seq<Status>) -> Option<
    (ReturnStatus, Seq<Status>),
>
    decreases v, 2int, v.len() - i, 0int,
{
    if i < 0 || i >= v.len() {
        Some(
            (
                ReturnStatus::Normal(
                    if select {
                        err()
                    } else {
                        ok()
                    },
                ),
                t,
            ),
        )
    } else {
        match run_with(v[i], t) {
            Some((ReturnStatus::Normal(x), t1)) => if (x is Ok) == select {
                Some(
                    (
                        ReturnStatus::Normal(
                            if select {
                                ok()
                            } else {
                                err()
                            },
                        ),
                        t1,
                    ),
                )
            } else {
                run_list_with(v, i + 1, select, t1)
            },
            other => other,
        }
    }
}

/// Running the `While` loop `w` with `passes` passes left, at member `i` of
/// its body (`-1` before a pass, where a loop that is not pedantic checks its
/// condition): a failed condition ends the loop with success, a failed
/// member with failure, and a loop out of passes gives up with success.
pub open spec fn run_while_with(w: Shape, t: Seq<Status>, passes: nat, i: int) -> Option<
    (ReturnStatus, Seq<Status>),
>
    decreases w, 1int, passes, body_len(w) + 1 - i,
{
    match w {
        Shape::While { condition, body, pedantic } => if passes == 0 {
            Some((ReturnStatus::Normal(ok()), t))
        } else if i < 0 {
            if pedantic {
                run_while_with(w, t, passes, 0)
            } else {
                match run_with(*condition, t) {
                    Some((ReturnStatus::Normal(c), t1)) => if c is Err {
                        Some((ReturnStatus::Normal(ok()), t1))
                    } else {
                        run_while_with(w, t1, passes, 0)
                    },
                    other => other,
                }
            }
        } else if i >= body.len() {
            run_while_with(w, t, (passes - 1) as nat, -1)
        } else {
            let checked: Result<Seq<Status>, Option<(ReturnStatus, Seq<Status>)>> = if pedantic {
                match run_with(*condition, t) {
                    Some((ReturnStatus::Normal(c), t1)) => if c is Err {
                        Err(Some((ReturnStatus::Normal(ok()), t1)))
                    } else {
                        Ok(t1)
                    },
                    other => Err(other),
                }
            } else {
                Ok(t)
            };
            match checked {
                Err(done) => done,
                Ok(t1) => match run_with(body[i], t1) {
                    Some((ReturnStatus::Normal(x), t2)) => if x is Err {
                        Some((ReturnStatus::Normal(err()), t2))
                    } else {
                        run_while_with(w, t2, passes, i + 1)
                    },
                    other => other,
                },
            }
        },
        _ => None,
    }
}

/// What a run gives does not depend on the statuses left over after it:
/// with more statuses after them, the same outcome comes, and the more
/// statuses are left over.
proof fn lemma_extend(s: Shape, t: Seq<Status>, v: Seq<Status>)
    ensures
        run_with(s, t) matches Some((r, rest)) ==> run_with(s, t + v) == Some((r, rest + v)),
    decreases s, 3int, 0int, 0int,
{
    if let Some((r, rest)) = run_with(s, t) {
        match s {
            Shape::Action => {
                assert((t + v).drop_first() =~= t.drop_first() + v);
            },
            Shape::If { condition, ok, err } => {
                lemma_extend(*condition, t, v);
                if let Some((ReturnStatus::Normal(c), t1)) = run_with(*condition, t) {
                    lemma_extend(*ok, t1, v);
                    lemma_extend(*err, t1, v);
                }
            },
            Shape::While { .. } => {
                lemma_extend_while(s, t, max_passes(), -1, v);
            },
            Shape::Select(vs) => {
                lemma_extend_list(vs, 0, true, t, v);
            },
            Shape::Sequence(vs) => {
                lemma_extend_list(vs, 0, false, t, v);
            },
            Shape::Ignore(inner, _) => {
                lemma_extend(*inner, t, v);
            },
            Shape::Invert(inner) => {
                lemma_extend(*inner, t, v);
            },
            Shape::NeverSucceed(inner) => {
                lemma_extend(*inner, t, v);
                if let Some((_, t1)) = run_with(*inner, t) {
                    if t1.len() > 0 {
                        assert((t1 + v).drop_first() =~= t1.drop_first() + v);
                    }
                }
            },
            Shape::NeverFail(inner) => {
                lemma_extend(*inner, t, v);
                if let Some((_, t1)) = run_with(*inner, t) {
                    if t1.len() > 0 {
                        assert((t1 + v).drop_first() =~= t1.drop_first() + v);
                    }
                }
            },
            _ => {},
        }
    }
}

proof fn lemma_extend_list(vs: Seq<Shape>, i: int, select: bool, t: Seq<Status>, v: Seq<Status>)
    ensures
        run_list_with(vs, i, select, t) matches Some((r, rest)) ==> run_list_with(vs, i, select, t + v)
            == Some((r, rest + v)),
    decreases vs, 2int, vs.len() - i, 0int,
{
    if 0 <= i < vs.len() {
        lemma_extend(vs[i], t, v);
        if let Some((ReturnStatus::Normal(_), t1)) = run_with(vs[i], t) {
            lemma_extend_list(vs, i + 1, select, t1, v);
        }
    }
}

proof fn lemma_extend_while(w: Shape, t: Seq<Status>, passes: nat, i: int, v: Seq<Status>)
    ensures
        run_while_with(w, t, passes, i) matches Some((r, rest)) ==> run_while_with(w, t + v, passes, i)
            == Some((r, rest + v)),
    decreases w, 1int, passes, body_len(w) + 1 - i,
{
    if let Shape::While { condition, body, pedantic } = w {
        if passes > 0 {
            if i < 0 {
                if pedantic {
                    lemma_extend_while(w, t, passes, 0, v);
                } else {
                    lemma_extend(*condition, t, v);
                    if let Some((ReturnStatus::Normal(_), t1)) = run_with(*condition, t) {
                        lemma_extend_while(w, t1, passes, 0, v);
                    }
                }
            } else if i >= body.len() {
                lemma_extend_while(w, t, (passes - 1) as nat, -1, v);
            } else {
                let t1 = if pedantic {
                    lemma_extend(*condition, t, v);
                    match run_with(*condition, t) {
                        Some((_, t1)) => t1,
                        None => t,
                    }
                } else {
                    t
                };
                lemma_extend(body[i], t1, v);
                if let Some((_, t2)) = run_with(body[i], t1) {
                    lemma_extend_while(w, t2, passes, i + 1, v);
                }
            }
        }
    }
}

/// `after` continues `before`.
pub open spec fn extends(before: Seq<Status>, after: Seq<Status>) -> bool {
    &&& before.len() <= after.len()
    &&& after.subrange(0, before.len() as int) == before
}

/// What `after` added to `before`.
pub open spec fn logged(before: Seq<Status>, after: Seq<Status>) -> Seq<Status> {
    after.subrange(before.len() as int, after.len() as int)
}

/// A run of a tree of structure `s` added to the log `before`, to make it
/// `after`, the statuses its actions returned, and on those gives `r`.
pub open spec fn logged_run(s: Shape, before: Seq<Status>, after: Seq<Status>, r: ReturnStatus) -> bool {
    &&& extends(before, after)
    &&& run_with(s, logged(before, after)) == Some((r, Seq::<Status>::empty()))
}

/// An action's status added to the log.
proof fn lemma_pushed(l: Seq<Status>, x: Status)
    ensures
        extends(l, l.push(x)),
        logged(l, l.push(x)) == seq![x],
        run_with(Shape::Action, seq![x]) == Some((ReturnStatus::Normal(x), Seq::<Status>::empty())),
{
    assert(l.push(x).subrange(0, l.len() as int) =~= l);
    assert(logged(l, l.push(x)) =~= seq![x]);
    assert(seq![x].drop_first() =~= Seq::<Status>::empty());
}

/// A run that calls no action adds nothing to the log.
proof fn lemma_logged_none(l: Seq<Status>)
    ensures
        extends(l, l),
        logged(l, l) == Seq::<Status>::empty(),
{
    assert(l.subrange(0, l.len() as int) =~= l);
    assert(logged(l, l) =~= Seq::<Status>::empty());
}

/// A run followed by more: on everything logged since its start, the first
/// run gives its outcome and leaves what the rest logged.
proof fn lemma_then(s: Shape, l0: Seq<Status>, l1: Seq<Status>, l2: Seq<Status>, r: ReturnStatus)
    requires
        logged_run(s, l0, l1, r),
        extends(l1, l2),
    ensures
        extends(l0, l2),
        run_with(s, logged(l0, l2)) == Some((r, logged(l1, l2))),
        logged(l0, l2) == logged(l0, l1) + logged(l1, l2),
{
    lemma_extend(s, logged(l0, l1), logged(l1, l2));
    assert(l2.subrange(0, l0.len() as int) =~= l1.subrange(0, l0.len() as int));
    assert(logged(l0, l1) + logged(l1, l2) =~= logged(l0, l2));
    assert(Seq::<Status>::empty() + logged(l1, l2) =~= logged(l1, l2));
}

/// A `While` loop `w` with `passes` passes left at member `i` of its body,
/// its condition checked where it is pedantic: the member runs, and a failure
/// ends the loop.
pub open spec fn run_while_after_check(w: Shape, t: Seq<Status>, passes: nat, i: int) -> Option<
    (ReturnStatus, Seq<Status>),
> {
    match w {
        Shape::While { body, .. } => match run_with(body[i], t) {
            Some((ReturnStatus::Normal(x), t2)) => if x is Err {
                Some((ReturnStatus::Normal(err()), t2))
            } else {
                run_while_with(w, t2, passes, i + 1)
            },
            other => other,
        },
        _ => None,
    }
}

/// A child run after what was logged since `l0`: on its own statuses
/// followed by anything, it gives its outcome and leaves that anything.
proof fn lemma_child(x: Shape, l0: Seq<Status>, li: Seq<Status>, l1: Seq<Status>, r: ReturnStatus)
    requires
        extends(l0, li),
        logged_run(x, li, l1, r),
    ensures
        extends(l0, l1),
        forall|v: Seq<Status>| #[trigger] run_with(x, logged(li, l1) + v) == Some((r, v)),
        forall|v: Seq<Status>| #[trigger] (logged(l0, l1) + v) == logged(l0, li) + (logged(li, l1) + v),
{
    assert(l1.subrange(0, l0.len() as int) =~= li.subrange(0, l0.len() as int));
    assert(logged(l0, l1) =~= logged(l0, li) + logged(li, l1));
    assert forall|v: Seq<Status>| #[trigger] run_with(x, logged(li, l1) + v) == Some((r, v)) by {
        lemma_extend(x, logged(li, l1), v);
        assert(Seq::<Status>::empty() + v =~= v);
    }
    assert forall|v: Seq<Status>| #[trigger] (logged(l0, l1) + v) == logged(l0, li) + (logged(li, l1)
        + v) by {
        assert(logged(l0, l1) + v =~= logged(l0, li) + (logged(li, l1) + v));
    }
}

/// Nothing follows what was logged.
proof fn lemma_child_empty(l0: Seq<Status>, li: Seq<Status>, l1: Seq<Status>)
    ensures
        logged(l0, l1) + Seq::<Status>::empty() == logged(l0, l1),
        logged(li, l1) + Seq::<Status>::empty() == logged(li, l1),
{
    assert(logged(l0, l1) + Seq::<Status>::empty() =~= logged(l0, l1));
    assert(logged(li, l1) + Seq::<Status>::empty() =~= logged(li, l1));
}

/// A tree of structure `s` whose actions return the statuses `statuses`, all
/// of them, ends with `r`, normally or through an exit.
pub open spec fn runs_to(s: Shape, statuses: Seq<Status>, r: Status) -> bool {
    run_with(s, statuses) matches Some((x, rest)) && rest.len() == 0 && x.status() == r
}

/// A whole run, logged from an empty log.
proof fn lemma_ran(s: Shape, log: Seq<Status>, outcome: ReturnStatus)
    requires
        logged_run(s, Seq::empty(), log, outcome),
    ensures
        runs_to(s, log, outcome.status()),
{
    assert(logged(Seq::empty(), log) =~= log);
}

/// `ensures` of a run: a tree whose outcome [`eval`] knows gives that outcome,
/// and still has it afterwards.
pub open spec fn run_ok<B>(before: Behaviour<B>, after: Behaviour<B>, r: ReturnStatus) -> bool {
    eval(before) matches Some(x) ==> r == x && eval(after) == eval(before)
}

/// Two lists whose members have the same outcomes have the same outcome as a
/// sequence and as a selector.
pub proof fn lemma_lists_agree<B>(s1: Seq<Behaviour<B>>, s2: Seq<Behaviour<B>>, i: int)
    requires
        0 <= i,
        s1.len() == s2.len(),
        forall|j: int| i <= j < s1.len() ==> eval(#[trigger] s1[j]) == eval(s2[j]),
    ensures
        eval_sequence(s1, i) == eval_sequence(s2, i),
        eval_select(s1, i) == eval_select(s2, i),
    decreases s1.len() - i,
{
    if i < s1.len() {
        lemma_lists_agree(s1, s2, i + 1);
        assert(eval(s1[i]) == eval(s2[i]));
    }
}

/// The larger of two numbers.
pub open spec fn nat_max(a: nat, b: nat) -> nat {
    if a < b {
        b
    } else {
        a
    }
}

/// The depth of a tree: what a run cannot change, whatever its actions do.
pub open spec fn height<B>(b: Behaviour<B>) -> nat
    decreases b, 0int,
{
    match b {
        Behaviour::If { condition, ok, err } => 1 + nat_max(
            height(*condition),
            nat_max(height(*ok), height(*err)),
        ),
        Behaviour::While { condition, body, pedantic: _ } => 1 + nat_max(
            height(*condition),
            height_list(body@, 0),
        ),
        Behaviour::Select(v) => 1 + height_list(v@, 0),
        Behaviour::Sequence(v) => 1 + height_list(v@, 0),
        Behaviour::Ignore(inner, _) => 1 + height(*inner),
        Behaviour::Invert(inner) => 1 + height(*inner),
        Behaviour::NeverSucceed { behavior, succeeded: _ } => 1 + height(*behavior),
        Behaviour::NeverFail { behavior, failed: _ } => 1 + height(*behavior),
        _ => 1,
    }
}

/// The greatest depth among `s[i..]`.
pub open spec fn height_list<B>(s: Seq<Behaviour<B>>, i: int) -> nat
    decreases s, s.len() - i,
{
    if i < 0 || i >= s.len() {
        0
    } else {
        nat_max(height(s[i]), height_list(s, i + 1))
    }
}

proof fn lemma_height_list_bound<B>(s: Seq<Behaviour<B>>, i: int, j: int)
    requires
        0 <= i <= j < s.len(),
    ensures
        height(s[j]) <= height_list(s, i),
    decreases j - i,
{
    if i < j {
        lemma_height_list_bound(s, i + 1, j);
    }
}

proof fn lemma_heights_agree<B>(s1: Seq<Behaviour<B>>, s2: Seq<Behaviour<B>>, i: int)
    requires
        0 <= i,
        s1.len() == s2.len(),
        forall|j: int| i <= j < s1.len() ==> height(#[trigger] s1[j]) == height(s2[j]),
    ensures
        height_list(s1, i) == height_list(s2, i),
    decreases s1.len() - i,
{
    if i < s1.len() {
        lemma_heights_agree(s1, s2, i + 1);
        assert(height(s1[i]) == height(s2[i]));
    }
}

impl<B> Behaviour<B> {
    /// Runs the tree on the blackboard and returns its status, whether it
    /// ended normally or through an exit.
    pub fn run(&mut self, blackboard: &mut B) -> (r: Status)
        ensures
            eval(*old(self)) matches Some(x) ==> r == x.status(),
            eval(*old(self)) is Some ==> eval(*final(self)) == eval(*old(self)),
            *old(self) is InfallibleAction ==> r == ok(),
            shape_of(*final(self)) == shape_of(*old(self)),
            exists|statuses: Seq<Status>| #[trigger] runs_to(shape_of(*old(self)), statuses, r),
            eval(*old(self)) is Some ==> *final(blackboard) == *old(blackboard),
    {
        let mut tracer = ();
        let mut log: Ghost<Seq<Status>> = Ghost(Seq::empty());
        let outcome = self.run_inner(blackboard, &mut tracer, &mut log);
        proof {
            lemma_ran(shape_of(*old(self)), log@, outcome);
        }
        match outcome {
            ReturnStatus::Normal(x) => x,
            ReturnStatus::Exit(x) => x,
        }
    }

    /// Runs the tree as [`Behaviour::run`] does, and shows `trace_fn` the
    /// stack of the nodes being run each time a node is entered or left.
    pub fn run_traced<F: FnMut(&B, &[String])>(&mut self, blackboard: &mut B, trace_fn: F) -> (r:
        Status)
        ensures
            eval(*old(self)) matches Some(x) ==> r == x.status(),
            eval(*old(self)) is Some ==> eval(*final(self)) == eval(*old(self)),
            *old(self) is InfallibleAction ==> r == ok(),
            shape_of(*final(self)) == shape_of(*old(self)),
            exists|statuses: Seq<Status>| #[trigger] runs_to(shape_of(*old(self)), statuses, r),
            eval(*old(self)) is Some ==> *final(blackboard) == *old(blackboard),
    {
        let mut tracer = SimpleTracer { stack: Vec::new(), trace_fn };
        let mut log: Ghost<Seq<Status>> = Ghost(Seq::empty());
        let outcome = self.run_inner(blackboard, &mut tracer, &mut log);
        proof {
            lemma_ran(shape_of(*old(self)), log@, outcome);
        }
        match outcome {
            ReturnStatus::Normal(x) => x,
            ReturnStatus::Exit(x) => x,
        }
    }

    /// A node that runs `action` on the blackboard.
    pub fn action<F: FnMut(&mut B) -> Status + 'static>(action: F) -> (r: Self)
        ensures
            r is Action,
    {
        let boxed: Box<dyn ActionFn<B>> = Box::new(action);
        Behaviour::Action(boxed)
    }

    /// A node that runs `ok` if `condition` succeeds, otherwise `err`.
    pub fn if_else(condition: Self, ok: Self, err: Self) -> (r: Self)
        ensures
            r == (Behaviour::If {
                condition: Box::new(condition),
                ok: Box::new(ok),
                err: Box::new(err),
            }),
    {
        Behaviour::If { condition: Box::new(condition), ok: Box::new(ok), err: Box::new(err) }
    }

    /// A loop that runs all of `body` while `condition` succeeds.
    pub fn while_loop(condition: Self, body: Vec<Self>) -> (r: Self)
        ensures
            r == (Behaviour::While { condition: Box::new(condition), body, pedantic: false }),
    {
        Behaviour::While { condition: Box::new(condition), body, pedantic: false }
    }

    /// A loop that checks `condition` before each member of `body`.
    pub fn while_loop_pedantic(condition: Self, body: Vec<Self>) -> (r: Self)
        ensures
            r == (Behaviour::While { condition: Box::new(condition), body, pedantic: true }),
    {
        Behaviour::While { condition: Box::new(condition), body, pedantic: true }
    }

    /// A selector over `behaviors`.
    pub fn select(behaviors: Vec<Self>) -> (r: Self)
        ensures
            r == Behaviour::Select(behaviors),
    {
        Behaviour::Select(behaviors)
    }

    /// A sequence of `behaviors`.
    pub fn sequence(behaviors: Vec<Self>) -> (r: Self)
        ensures
            r == Behaviour::Sequence(behaviors),
    {
        Behaviour::Sequence(behaviors)
    }

    /// A node that runs `behavior` and returns `with` in place of its status.
    pub fn ignore(behavior: Self, with: Status) -> (r: Self)
        ensures
            r == Behaviour::Ignore(Box::new(behavior), with),
    {
        Behaviour::Ignore(Box::new(behavior), with)
    }

    /// A node that runs `behavior` and inverts its status.
    pub fn invert(behavior: Self) -> (r: Self)
        ensures
            r == Behaviour::Invert(Box::new(behavior)),
    {
        Behaviour::Invert(Box::new(behavior))
    }

    /// A node that runs `behavior`; if it succeeds, runs `succeeded` and exits
    /// the tree with its status.
    pub fn never_succeed<F: FnMut(&mut B) -> Status + 'static>(behavior: Self, succeeded: F) -> (r:
        Self)
        ensures
            r matches Behaviour::NeverSucceed { behavior: b, succeeded: _ } && *b == behavior,
    {
        let boxed: Box<dyn ActionFn<B>> = Box::new(succeeded);
        Behaviour::NeverSucceed { behavior: Box::new(behavior), succeeded: boxed }
    }

    /// A node that runs `behavior`; if it fails, runs `failed` and exits the
    /// tree with its status.
    pub fn never_fail<F: FnMut(&mut B) -> Status + 'static>(behavior: Self, failed: F) -> (r: Self)
        ensures
            r matches Behaviour::NeverFail { behavior: b, failed: _ } && *b == behavior,
    {
        let boxed: Box<dyn ActionFn<B>> = Box::new(failed);
        Behaviour::NeverFail { behavior: Box::new(behavior), failed: boxed }
    }

    /// A node that exits the tree with `status`.
    pub fn exit(status: Status) -> (r: Self)
        ensures
            r == Behaviour::<B>::Exit(status),
    {
        Behaviour::Exit(status)
    }

    /// A node that returns `status`.
    pub fn constant(status: Status) -> (r: Self)
        ensures
            r == Behaviour::<B>::Constant(status),
    {
        Behaviour::Constant(status)
    }

    fn run_inner<T: BehaviorTracer<B>>(
        &mut self,
        blackboard: &mut B,
        tracer: &mut T,
        log: &mut Ghost<Seq<Status>>,
    ) -> (r: ReturnStatus)
        ensures
            run_ok(*old(self), *final(self), r),
            *old(self) is InfallibleAction ==> r == ReturnStatus::Normal(ok()),
            height(*final(self)) == height(*old(self)),
            shape_of(*final(self)) == shape_of(*old(self)),
            logged_run(shape_of(*old(self)), old(log)@, final(log)@, r),
            eval(*old(self)) is Some ==> *final(blackboard) == *old(blackboard),
        decreases height(*old(self)), 2int,
    {
        let ghost whole = *self;
        let ghost l0 = log@;
        match self {
            Behaviour::Action(action) => {
                tracer.push(TraceName::Fixed("Action"), blackboard);
                let result = action.call(blackboard);
                proof {
                    log@ = log@.push(result);
                    lemma_pushed(l0, result);
                }
                tracer.pop(blackboard);
                ReturnStatus::Normal(result)
            },
            Behaviour::InfallibleAction(action) => {
                tracer.push(TraceName::Fixed("InfallibleAction"), blackboard);
                action.call_infallible(blackboard);
                tracer.pop(blackboard);
                proof {
                    lemma_logged_none(l0);
                }
                ReturnStatus::Normal(Ok(()))
            },
            Behaviour::If { condition, ok, err } => {
                tracer.push(TraceName::Fixed("If"), blackboard);
                let ghost c0 = **condition;
                let outcome = condition.run_inner(blackboard, tracer, log);
                let ghost l1 = log@;
                if outcome.is_exit() {
                    return outcome;
                }
                let c = outcome.status_of();
                let result = if c.is_ok() {
                    tracer.pop(blackboard);
                    tracer.push(TraceName::Fixed("If-Ok"), blackboard);
                    ok.run_inner(blackboard, tracer, log)
                } else {
                    tracer.pop(blackboard);
                    tracer.push(TraceName::Fixed("If-Err"), blackboard);
                    err.run_inner(blackboard, tracer, log)
                };
                proof {
                    lemma_then(shape_of(c0), l0, l1, log@, outcome);
                }
                tracer.pop(blackboard);
                result
            },
            Behaviour::While { condition, body, pedantic } => {
                Self::run_while(
                    &mut **condition,
                    body,
                    *pedantic,
                    blackboard,
                    tracer,
                    Ghost(whole),
                    log,
                )
            },
            Behaviour::Select(behaviors) => {
                Self::run_list(behaviors, true, blackboard, tracer, log)
            },
            Behaviour::Sequence(behaviors) => {
                Self::run_list(behaviors, false, blackboard, tracer, log)
            },
            Behaviour::Ignore(behavior, replace) => {
                tracer.push(TraceName::Fixed("Ignore"), blackboard);
                let outcome = behavior.run_inner(blackboard, tracer, log);
                if outcome.is_exit() {
                    return outcome;
                }
                tracer.pop(blackboard);
                ReturnStatus::Normal(*replace)
            },
            Behaviour::Invert(behavior) => {
                tracer.push(TraceName::Fixed("Invert"), blackboard);
                let outcome = behavior.run_inner(blackboard, tracer, log);
                if outcome.is_exit() {
                    return outcome;
                }
                let s = outcome.status_of();
                let result = if s.is_ok() {
                    ReturnStatus::Normal(Err(()))
                } else {
                    ReturnStatus::Normal(Ok(()))
                };
                tracer.pop(blackboard);
                result
            },
            Behaviour::NeverSucceed { behavior, succeeded } => {
                tracer.push(TraceName::Fixed("NeverSucceed"), blackboard);
                let ghost b0 = **behavior;
                let outcome = behavior.run_inner(blackboard, tracer, log);
                let ghost l1 = log@;
                if outcome.is_exit() {
                    return outcome;
                }
                let s = outcome.status_of();
                if s.is_ok() {
                    tracer.pop(blackboard);
                    tracer.push(TraceName::Fixed("NeverSucceed-Exit"), blackboard);
                    let e = succeeded.call(blackboard);
                    proof {
                        log@ = log@.push(e);
                        lemma_pushed(l1, e);
                        lemma_then(shape_of(b0), l0, l1, log@, outcome);
                    }
                    ReturnStatus::Exit(e)
                } else {
                    tracer.pop(blackboard);
                    ReturnStatus::Normal(Err(()))
                }
            },
            Behaviour::NeverFail { behavior, failed } => {
                tracer.push(TraceName::Fixed("NeverFail"), blackboard);
                let ghost b0 = **behavior;
                let outcome = behavior.run_inner(blackboard, tracer, log);
                let ghost l1 = log@;
                if outcome.is_exit() {
                    return outcome;
                }
                let s = outcome.status_of();
                if s.is_err() {
                    tracer.pop(blackboard);
                    tracer.push(TraceName::Fixed("NeverFail-Exit"), blackboard);
                    let e = failed.call(blackboard);
                    proof {
                        log@ = log@.push(e);
                        lemma_pushed(l1, e);
                        lemma_then(shape_of(b0), l0, l1, log@, outcome);
                    }
                    ReturnStatus::Exit(e)
                } else {
                    tracer.pop(blackboard);
                    ReturnStatus::Normal(Ok(()))
                }
            },
            Behaviour::Exit(status) => {
                tracer.push(TraceName::Fixed("Exit"), blackboard);
                proof {
                    lemma_logged_none(l0);
                }
                ReturnStatus::Exit(*status)
            },
            Behaviour::Constant(status) => {
                tracer.push(TraceName::Fixed("Constant"), blackboard);
                tracer.pop(blackboard);
                proof {
                    lemma_logged_none(l0);
                }
                ReturnStatus::Normal(*status)
            },
        }
    }

    /// Runs a `While` node made of `condition`, `body` and `pedantic`.
    fn run_while<T: BehaviorTracer<B>>(
        condition: &mut Behaviour<B>,
        body: &mut Vec<Behaviour<B>>,
        pedantic: bool,
        blackboard: &mut B,
        tracer: &mut T,
        Ghost(whole): Ghost<Behaviour<B>>,
        log: &mut Ghost<Seq<Status>>,
    ) -> (r: ReturnStatus)
        requires
            whole == (Behaviour::While { condition: Box::new(*old(condition)), body: *old(body), pedantic }),
        ensures
            eval(whole) matches Some(x) ==> r == x && eval(*final(condition)) == eval(
                *old(condition),
            ) && eval_sequence(final(body)@, 0) == eval_sequence(old(body)@, 0),
            height(*final(condition)) == height(*old(condition)),
            height_list(final(body)@, 0) == height_list(old(body)@, 0),
            final(body)@.len() == old(body)@.len(),
            shape_of(*final(condition)) == shape_of(*old(condition)),
            shape_list(final(body)@) == shape_list(old(body)@),
            extends(old(log)@, final(log)@),
            run_while_with(shape_of(whole), logged(old(log)@, final(log)@), max_passes(), -1) == Some(
                (r, Seq::<Status>::empty()),
            ),
            eval(whole) is Some ==> *final(blackboard) == *old(blackboard),
        decreases height(whole), 1int,
    {
        let ghost c0 = *condition;
        let ghost s0 = body@;
        let ghost w = shape_of(whole);
        let ghost cs = shape_of(c0);
        let ghost sh = shape_list(s0);
        let ghost l0 = log@;
        proof {
            lemma_shape_list(s0);
            lemma_logged_none(l0);
            assert(w == Shape::While { condition: Box::new(cs), body: sh, pedantic });
            assert forall|v: Seq<Status>| #[trigger]
                run_while_with(w, logged(l0, log@) + v, max_passes(), -1) == run_while_with(
                    w,
                    v,
                    max_passes(),
                    -1,
                ) by {
                assert(logged(l0, log@) + v =~= v);
            }
        }
        let mut passes: u64 = 0;
        while passes < u64::MAX
            invariant
                whole == (Behaviour::While { condition: Box::new(c0), body: whole->While_body, pedantic }),
                c0 == *old(condition),
                s0 == old(body)@,
                s0 == whole->While_body@,
                body@.len() == s0.len(),
                height(*condition) == height(c0),
                forall|j: int| 0 <= j < s0.len() ==> height(#[trigger] body@[j]) == height(s0[j]),
                eval(whole) is Some ==> passes == 0 && eval(*condition) == eval(c0) && body@ == s0,
                eval(whole) is Some ==> *blackboard == *old(blackboard),
                w == (Shape::While { condition: Box::new(cs), body: sh, pedantic }),
                cs == shape_of(c0),
                sh == shape_list(s0),
                sh.len() == s0.len(),
                forall|j: int| 0 <= j < s0.len() ==> #[trigger] sh[j] == shape_of(s0[j]),
                l0 == old(log)@,
                shape_of(*condition) == cs,
                forall|j: int| 0 <= j < s0.len() ==> shape_of(#[trigger] body@[j]) == shape_of(s0[j]),
                extends(l0, log@),
                forall|v: Seq<Status>| #[trigger]
                    run_while_with(w, logged(l0, log@) + v, max_passes(), -1) == run_while_with(
                        w,
                        v,
                        (max_passes() - passes) as nat,
                        -1,
                    ),
            decreases u64::MAX - passes,
        {
            let ghost p: nat = (max_passes() - passes) as nat;
            if !pedantic {
                let ghost li = log@;
                tracer.push(TraceName::Fixed("While-Condition"), blackboard);
                let outcome = condition.run_inner(blackboard, tracer, log);
                proof {
                    lemma_child(cs, l0, li, log@, outcome);
                    assert forall|v: Seq<Status>| #[trigger]
                        run_while_with(w, logged(l0, log@) + v, max_passes(), -1) == run_while_with(
                            w,
                            logged(li, log@) + v,
                            p,
                            -1,
                        ) by {
                        assert(run_while_with(w, logged(l0, li) + (logged(li, log@) + v), max_passes(), -1)
                            == run_while_with(w, logged(li, log@) + v, p, -1));
                    }
                    lemma_child_empty(l0, li, log@);
                    assert(run_while_with(w, logged(l0, log@) + Seq::<Status>::empty(), max_passes(), -1)
                        == run_while_with(w, logged(li, log@) + Seq::<Status>::empty(), p, -1));
                }
                if outcome.is_exit() {
                        proof {
                            lemma_heights_agree(body@, s0, 0);
                            lemma_shape_lists_agree(body@, s0);
                        }
                        return outcome;
                    }
                let c = outcome.status_of();
                proof {
                    if eval(whole) is Some {
                        assert(eval(c0) is Some);
                        assert(outcome == eval(c0)->0);
                    }
                }
                if c.is_err() {
                    tracer.pop(blackboard);
                    proof {
                        lemma_heights_agree(body@, s0, 0);
                        lemma_shape_lists_agree(body@, s0);
                    }
                    return ReturnStatus::Normal(Ok(()));
                }
                proof {
                    if eval(whole) is Some {
                        assert(c is Ok);
                    }
                    assert forall|v: Seq<Status>| #[trigger]
                        run_while_with(w, logged(l0, log@) + v, max_passes(), -1) == run_while_with(
                            w,
                            v,
                            p,
                            0,
                        ) by {
                        assert(run_while_with(w, logged(l0, log@) + v, max_passes(), -1)
                            == run_while_with(w, logged(li, log@) + v, p, -1));
                        assert(run_with(cs, logged(li, log@) + v) == Some((outcome, v)));
                    }
                }
                tracer.pop(blackboard);
            } else {
                proof {
                    assert forall|v: Seq<Status>| #[trigger]
                        run_while_with(w, logged(l0, log@) + v, max_passes(), -1) == run_while_with(
                            w,
                            v,
                            p,
                            0,
                        ) by {
                        assert(run_while_with(w, logged(l0, log@) + v, max_passes(), -1)
                            == run_while_with(w, v, p, -1));
                    }
                }
            }
            let mut i: usize = 0;
            while i < body.len()
                invariant
                    whole == (Behaviour::While { condition: Box::new(c0), body: whole->While_body, pedantic }),
                    c0 == *old(condition),
                    s0 == old(body)@,
                    s0 == whole->While_body@,
                    0 <= i <= body@.len(),
                    body@.len() == s0.len(),
                    height(*condition) == height(c0),
                    forall|j: int| 0 <= j < s0.len() ==> height(#[trigger] body@[j]) == height(s0[j]),
                    eval(whole) is Some ==> forall|j: int| i <= j < s0.len() ==> body@[j] == s0[j],
                    eval(whole) is Some ==> eval(*condition) == eval(c0),
                    eval(whole) is Some ==> passes == 0,
                    eval(whole) is Some ==> *blackboard == *old(blackboard),
                    eval(whole) is Some ==> forall|j: int|
                        0 <= j < i ==> eval(#[trigger] body@[j]) == eval(s0[j]),
                    eval(whole) is Some && (!pedantic || i > 0) ==> eval(c0) matches Some(
                        ReturnStatus::Normal(Ok(_)),
                    ),
                    eval(whole) is Some ==> eval_sequence(s0, 0) == eval_sequence(s0, i as int),
                    w == (Shape::While { condition: Box::new(cs), body: sh, pedantic }),
                    cs == shape_of(c0),
                    sh == shape_list(s0),
                    sh.len() == s0.len(),
                    forall|j: int| 0 <= j < s0.len() ==> #[trigger] sh[j] == shape_of(s0[j]),
                    l0 == old(log)@,
                    shape_of(*condition) == cs,
                    forall|j: int|
                        0 <= j < s0.len() ==> shape_of(#[trigger] body@[j]) == shape_of(s0[j]),
                    passes < u64::MAX,
                    p == max_passes() - passes,
                    extends(l0, log@),
                    forall|v: Seq<Status>| #[trigger]
                        run_while_with(w, logged(l0, log@) + v, max_passes(), -1) == run_while_with(
                            w,
                            v,
                            p,
                            i as int,
                        ),
                decreases s0.len() - i,
            {
                if pedantic {
                    let ghost li = log@;
                    tracer.push(TraceName::Fixed("While-Condition"), blackboard);
                    let outcome = condition.run_inner(blackboard, tracer, log);
                    proof {
                        lemma_child(cs, l0, li, log@, outcome);
                        lemma_child_empty(l0, li, log@);
                        assert forall|v: Seq<Status>| #[trigger]
                            run_while_with(w, logged(l0, log@) + v, max_passes(), -1)
                                == run_while_with(w, logged(li, log@) + v, p, i as int) by {
                            assert(run_while_with(
                                w,
                                logged(l0, li) + (logged(li, log@) + v),
                                max_passes(),
                                -1,
                            ) == run_while_with(w, logged(li, log@) + v, p, i as int));
                        }
                        assert(run_while_with(w, logged(l0, log@) + Seq::<Status>::empty(), max_passes(), -1)
                            == run_while_with(w, logged(li, log@) + Seq::<Status>::empty(), p, i as int));
                    }
                    if outcome.is_exit() {
                            proof {
                                lemma_heights_agree(body@, s0, 0);
                                lemma_shape_lists_agree(body@, s0);
                                if eval(whole) is Some {
                                    lemma_lists_agree(body@, s0, 0);
                                }
                            }
                            return outcome;
                        }
                    let c = outcome.status_of();
                    if c.is_err() {
                        tracer.pop(blackboard);
                        proof {
                            lemma_heights_agree(body@, s0, 0);
                            lemma_shape_lists_agree(body@, s0);
                            if eval(whole) is Some {
                                lemma_lists_agree(body@, s0, 0);
                            }
                        }
                        return ReturnStatus::Normal(Ok(()));
                    }
                    tracer.pop(blackboard);
                    proof {
                        assert forall|v: Seq<Status>| #[trigger]
                            run_while_with(w, logged(l0, log@) + v, max_passes(), -1)
                                == run_while_after_check(w, v, p, i as int) by {
                            assert(run_while_with(w, logged(l0, log@) + v, max_passes(), -1)
                                == run_while_with(w, logged(li, log@) + v, p, i as int));
                            assert(run_with(cs, logged(li, log@) + v) == Some((outcome, v)));
                        }
                    }
                } else {
                    proof {
                        assert forall|v: Seq<Status>| #[trigger]
                            run_while_with(w, logged(l0, log@) + v, max_passes(), -1)
                                == run_while_after_check(w, v, p, i as int) by {
                            assert(run_while_with(w, logged(l0, log@) + v, max_passes(), -1)
                                == run_while_with(w, v, p, i as int));
                        }
                    }
                }
                proof {
                    lemma_height_list_bound(s0, 0, i as int);
                }
                let ghost lb = log@;
                tracer.push(TraceName::Numbered("While", i), blackboard);
                let outcome = body[i].run_inner(blackboard, tracer, log);
                proof {
                    lemma_child(sh[i as int], l0, lb, log@, outcome);
                    lemma_child_empty(l0, lb, log@);
                    lemma_shape_lists_agree(body@, s0);
                    assert forall|v: Seq<Status>| #[trigger]
                        run_while_with(w, logged(l0, log@) + v, max_passes(), -1)
                            == run_while_after_check(w, logged(lb, log@) + v, p, i as int) by {
                        assert(run_while_with(
                            w,
                            logged(l0, lb) + (logged(lb, log@) + v),
                            max_passes(),
                            -1,
                        ) == run_while_after_check(w, logged(lb, log@) + v, p, i as int));
                    }
                    assert(run_while_with(w, logged(l0, log@) + Seq::<Status>::empty(), max_passes(), -1)
                        == run_while_after_check(
                        w,
                        logged(lb, log@) + Seq::<Status>::empty(),
                        p,
                        i as int,
                    ));
                }
                if outcome.is_exit() {
                        proof {
                            lemma_heights_agree(body@, s0, 0);
                            if eval(whole) is Some {
                                lemma_lists_agree(body@, s0, 0);
                            }
                        }
                        return outcome;
                    }
                let s = outcome.status_of();
                if s.is_err() {
                    tracer.pop(blackboard);
                    proof {
                        lemma_heights_agree(body@, s0, 0);
                        if eval(whole) is Some {
                            lemma_lists_agree(body@, s0, 0);
                        }
                    }
                    return ReturnStatus::Normal(Err(()));
                }
                tracer.pop(blackboard);
                proof {
                    assert forall|v: Seq<Status>| #[trigger]
                        run_while_with(w, logged(l0, log@) + v, max_passes(), -1) == run_while_with(
                            w,
                            v,
                            p,
                            i + 1,
                        ) by {
                        assert(run_while_with(w, logged(l0, log@) + v, max_passes(), -1)
                            == run_while_after_check(w, logged(lb, log@) + v, p, i as int));
                    }
                }
                i = i + 1;
            }
            proof {
                if eval(whole) is Some {
                    assert(eval_sequence(s0, s0.len() as int) == Some(ReturnStatus::Normal(ok())));
                    assert(false);
                }
                assert forall|v: Seq<Status>| #[trigger]
                    run_while_with(w, logged(l0, log@) + v, max_passes(), -1) == run_while_with(
                        w,
                        v,
                        (p - 1) as nat,
                        -1,
                    ) by {
                    assert(run_while_with(w, logged(l0, log@) + v, max_passes(), -1)
                        == run_while_with(w, v, p, i as int));
                }
            }
            passes = passes + 1;
        }
        proof {
            lemma_heights_agree(body@, s0, 0);
            lemma_shape_lists_agree(body@, s0);
            assert(run_while_with(w, logged(l0, log@) + Seq::<Status>::empty(), max_passes(), -1)
                == run_while_with(w, Seq::<Status>::empty(), 0, -1));
            assert(logged(l0, log@) + Seq::<Status>::empty() =~= logged(l0, log@));
        }
        ReturnStatus::Normal(Ok(()))
    }

    /// Runs `behaviors` in order as a selector (`select`) or a sequence.
    fn run_list<T: BehaviorTracer<B>>(
        behaviors: &mut Vec<Behaviour<B>>,
        select: bool,
        blackboard: &mut B,
        tracer: &mut T,
        log: &mut Ghost<Seq<Status>>,
    ) -> (r: ReturnStatus)
        ensures
            (if select {
                eval_select(old(behaviors)@, 0)
            } else {
                eval_sequence(old(behaviors)@, 0)
            }) matches Some(x) ==> r == x && (if select {
                eval_select(final(behaviors)@, 0)
            } else {
                eval_sequence(final(behaviors)@, 0)
            }) == Some(x),
            height_list(final(behaviors)@, 0) == height_list(old(behaviors)@, 0),
            shape_list(final(behaviors)@) == shape_list(old(behaviors)@),
            extends(old(log)@, final(log)@),
            run_list_with(shape_list(old(behaviors)@), 0, select, logged(old(log)@, final(log)@))
                == Some((r, Seq::<Status>::empty())),
            (if select {
                eval_select(old(behaviors)@, 0)
            } else {
                eval_sequence(old(behaviors)@, 0)
            }) is Some ==> *final(blackboard) == *old(blackboard),
        decreases 1 + height_list(old(behaviors)@, 0), 1int,
    {
        let ghost s0 = behaviors@;
        let ghost sh = shape_list(s0);
        let ghost l0 = log@;
        let ghost goal = if select {
            eval_select(s0, 0)
        } else {
            eval_sequence(s0, 0)
        };
        let name = if select {
            "Select"
        } else {
            "Sequence"
        };
        proof {
            lemma_shape_list(s0);
            lemma_logged_none(l0);
            assert forall|v: Seq<Status>| #[trigger]
                run_list_with(sh, 0, select, logged(l0, log@) + v) == run_list_with(sh, 0, select, v) by {
                assert(logged(l0, log@) + v =~= v);
            }
        }
        let mut i: usize = 0;
        while i < behaviors.len()
            invariant
                s0 == old(behaviors)@,
                sh == shape_list(s0),
                sh.len() == s0.len(),
                forall|j: int| 0 <= j < s0.len() ==> #[trigger] sh[j] == shape_of(s0[j]),
                l0 == old(log)@,
                goal == (if select {
                    eval_select(s0, 0)
                } else {
                    eval_sequence(s0, 0)
                }),
                0 <= i <= behaviors@.len(),
                behaviors@.len() == s0.len(),
                forall|j: int| 0 <= j < s0.len() ==> height(#[trigger] behaviors@[j]) == height(s0[j]),
                forall|j: int| 0 <= j < s0.len() ==> shape_of(#[trigger] behaviors@[j]) == shape_of(s0[j]),
                forall|j: int| i <= j < s0.len() ==> behaviors@[j] == s0[j],
                goal is Some ==> forall|j: int|
                    0 <= j < i ==> eval(#[trigger] behaviors@[j]) == eval(s0[j]),
                goal is Some ==> *blackboard == *old(blackboard),
                goal is Some ==> goal == (if select {
                    eval_select(s0, i as int)
                } else {
                    eval_sequence(s0, i as int)
                }),
                extends(l0, log@),
                forall|v: Seq<Status>| #[trigger]
                    run_list_with(sh, 0, select, logged(l0, log@) + v) == run_list_with(
                        sh,
                        i as int,
                        select,
                        v,
                    ),
            decreases s0.len() - i,
        {
            proof {
                lemma_height_list_bound(s0, 0, i as int);
            }
            let ghost li = log@;
            tracer.push(TraceName::Numbered(name, i), blackboard);
            let outcome = behaviors[i].run_inner(blackboard, tracer, log);
            proof {
                lemma_list_step(sh, i as int, select, l0, li, log@, outcome);
                lemma_shape_lists_agree(behaviors@, s0);
            }
            if outcome.is_exit() {
                    proof {
                        lemma_heights_agree(behaviors@, s0, 0);
                        if goal is Some {
                            lemma_lists_agree(behaviors@, s0, 0);
                        }
                    }
                    return outcome;
                }
            let s = outcome.status_of();
            if s.is_ok() == select {
                tracer.pop(blackboard);
                proof {
                    lemma_heights_agree(behaviors@, s0, 0);
                    if goal is Some {
                        lemma_lists_agree(behaviors@, s0, 0);
                    }
                }
                return ReturnStatus::Normal(
                    if select {
                        Ok(())
                    } else {
                        Err(())
                    },
                );
            }
            tracer.pop(blackboard);
            proof {
                assert forall|v: Seq<Status>| #[trigger]
                    run_list_with(sh, 0, select, logged(l0, log@) + v) == run_list_with(
                        sh,
                        i + 1,
                        select,
                        v,
                    ) by {
                    assert(run_list_with(sh, 0, select, logged(l0, log@) + v) == run_list_with(
                        sh,
                        i as int,
                        select,
                        logged(li, log@) + v,
                    ));
                    assert(run_with(sh[i as int], logged(li, log@) + v) == Some((outcome, v)));
                }
            }
            i = i + 1;
        }
        proof {
            lemma_heights_agree(behaviors@, s0, 0);
            lemma_shape_lists_agree(behaviors@, s0);
            if goal is Some {
                lemma_lists_agree(behaviors@, s0, 0);
            }
            assert(logged(l0, log@) + Seq::<Status>::empty() =~= logged(l0, log@));
        }
        ReturnStatus::Normal(
            if select {
                Err(())
            } else {
                Ok(())
            },
        )
    }
}

/// One member of a list run after the others: its run on what it logged
/// gives its outcome, and the list's run on all that was logged since the
/// list started goes on from that member.
proof fn lemma_list_step(
    sh: Seq<Shape>,
    i: int,
    select: bool,
    l0: Seq<Status>,
    li: Seq<Status>,
    l1: Seq<Status>,
    r: ReturnStatus,
)
    requires
        0 <= i < sh.len(),
        extends(l0, li),
        logged_run(sh[i], li, l1, r),
        forall|v: Seq<Status>| #[trigger]
            run_list_with(sh, 0, select, logged(l0, li) + v) == run_list_with(sh, i, select, v),
    ensures
        extends(l0, l1),
        forall|v: Seq<Status>| #[trigger]
            run_list_with(sh, 0, select, logged(l0, l1) + v) == run_list_with(
                sh,
                i,
                select,
                logged(li, l1) + v,
            ),
        forall|v: Seq<Status>| #[trigger] run_with(sh[i], logged(li, l1) + v) == Some((r, v)),
        run_list_with(sh, 0, select, logged(l0, l1)) == run_list_with(sh, i, select, logged(li, l1)),
{
    let u = logged(li, l1);
    assert(l1.subrange(0, l0.len() as int) =~= li.subrange(0, l0.len() as int));
    assert(logged(l0, l1) =~= logged(l0, li) + u);
    assert forall|v: Seq<Status>| #[trigger] run_with(sh[i], logged(li, l1) + v) == Some((r, v)) by {
        lemma_extend(sh[i], u, v);
        assert(Seq::<Status>::empty() + v =~= v);
    }
    assert forall|v: Seq<Status>| #[trigger]
        run_list_with(sh, 0, select, logged(l0, l1) + v) == run_list_with(
            sh,
            i,
            select,
            logged(li, l1) + v,
        ) by {
        assert(logged(l0, l1) + v =~= logged(l0, li) + (u + v));
        assert(run_list_with(sh, 0, select, logged(l0, li) + (u + v)) == run_list_with(
            sh,
            i,
            select,
            u + v,
        ));
    }
    assert(logged(l0, l1) + Seq::<Status>::empty() =~= logged(l0, l1));
    assert(u + Seq::<Status>::empty() =~= u);
    assert(run_list_with(sh, 0, select, logged(l0, l1) + Seq::<Status>::empty()) == run_list_with(
        sh,
        i,
        select,
        u + Seq::<Status>::empty(),
    ));
}

/// An `Exit` at the head of a sequence ends the whole tree with its status,
/// whatever follows it and whatever the actions return.
pub proof fn law_exit_ends_sequence<B>(v: Vec<Behaviour<B>>, status: Status, t: Seq<Status>)
    requires
        v@.len() > 0,
        v@[0] == Behaviour::<B>::Exit(status),
    ensures
        run_with(shape_of(Behaviour::Sequence(v)), t) == Some((ReturnStatus::Exit(status), t)),
{
    lemma_shape_list(v@);
    assert(shape_list(v@)[0] == Shape::Exit(status));
    assert(run_with(shape_list(v@)[0], t) == Some((ReturnStatus::Exit(status), t)));
    assert(run_list_with(shape_list(v@), 0, false, t) == Some((ReturnStatus::Exit(status), t)));
}

/// A sequence stops at the first member that fails, whatever follows it.
pub proof fn law_sequence_stops_at_failure<B>(v: Vec<Behaviour<B>>, t: Seq<Status>)
    requires
        v@.len() > 0,
        run_with(shape_of(v@[0]), t) matches Some((ReturnStatus::Normal(Err(_)), _)),
    ensures
        run_with(shape_of(Behaviour::Sequence(v)), t) == Some(
            (ReturnStatus::Normal(err()), run_with(shape_of(v@[0]), t).unwrap().1),
        ),
{
    lemma_shape_list(v@);
    assert(shape_list(v@)[0] == shape_of(v@[0]));
    assert(run_list_with(shape_list(v@), 0, false, t) == Some(
        (ReturnStatus::Normal(err()), run_with(shape_of(v@[0]), t).unwrap().1),
    ));
}

/// A selector stops at the first member that succeeds, whatever follows it.
pub proof fn law_select_stops_at_success<B>(v: Vec<Behaviour<B>>, t: Seq<Status>)
    requires
        v@.len() > 0,
        run_with(shape_of(v@[0]), t) matches Some((ReturnStatus::Normal(Ok(_)), _)),
    ensures
        run_with(shape_of(Behaviour::Select(v)), t) == Some(
            (ReturnStatus::Normal(ok()), run_with(shape_of(v@[0]), t).unwrap().1),
        ),
{
    lemma_shape_list(v@);
    assert(shape_list(v@)[0] == shape_of(v@[0]));
    assert(run_list_with(shape_list(v@), 0, true, t) == Some(
        (ReturnStatus::Normal(ok()), run_with(shape_of(v@[0]), t).unwrap().1),
    ));
}

/// A loop whose condition fails succeeds without running its body, whatever
/// the body holds (a pedantic loop needs a body to check the condition at all).
pub proof fn law_while_false_condition<B>(
    condition: Behaviour<B>,
    body: Vec<Behaviour<B>>,
    pedantic: bool,
    t: Seq<Status>,
)
    requires
        run_with(shape_of(condition), t) matches Some((ReturnStatus::Normal(Err(_)), _)),
        pedantic ==> body@.len() > 0,
    ensures
        run_with(shape_of(Behaviour::While { condition: Box::new(condition), body, pedantic }), t)
            == Some((ReturnStatus::Normal(ok()), run_with(shape_of(condition), t).unwrap().1)),
{
    let w = shape_of(Behaviour::While { condition: Box::new(condition), body, pedantic });
    lemma_shape_list(body@);
    if pedantic {
        assert(run_while_with(w, t, max_passes(), -1) == run_while_with(w, t, max_passes(), 0));
    }
}

/// Inverting twice gives back the outcome of a behavior that returns
/// normally, whatever its actions return.
pub proof fn law_invert_involution<B>(b: Behaviour<B>, t: Seq<Status>)
    requires
        run_with(shape_of(b), t) matches Some((ReturnStatus::Normal(_), _)),
    ensures
        run_with(shape_of(Behaviour::Invert(Box::new(Behaviour::Invert(Box::new(b))))), t)
            == run_with(shape_of(b), t),
{
    let inner = shape_of(Behaviour::Invert(Box::new(b)));
    match run_with(shape_of(b), t) {
        Some((ReturnStatus::Normal(Ok(u)), t1)) => {
            assert(u == ());
            assert(run_with(inner, t) == Some((ReturnStatus::Normal(err()), t1)));
        },
        Some((ReturnStatus::Normal(Err(u)), t1)) => {
            assert(u == ());
            assert(run_with(inner, t) == Some((ReturnStatus::Normal(ok()), t1)));
        },
        _ => {},
    }
}

/// `Ignore` replaces the status of a behavior that returns normally, and lets
/// an exit through.
pub proof fn law_ignore_replaces<B>(b: Behaviour<B>, with: Status, t: Seq<Status>)
    ensures
        run_with(shape_of(Behaviour::Ignore(Box::new(b), with)), t) == (match run_with(
            shape_of(b),
            t,
        ) {
            Some((ReturnStatus::Normal(_), t1)) => Some((ReturnStatus::Normal(with), t1)),
            other => other,
        }),
{
}

/// Members `i..k` of a list that each return normally without deciding the
/// list (success in a sequence, failure in a selector), one after the other
/// along the traces `ts`, hand the run on to member `k`.
proof fn lemma_list_passes(sh: Seq<Shape>, select: bool, ts: Seq<Seq<Status>>, i: int, k: int)
    requires
        0 <= i <= k <= sh.len(),
        ts.len() == sh.len() + 1,
        forall|j: int|
            i <= j < k ==> #[trigger] run_with(sh[j], ts[j]) == Some(
                (ReturnStatus::Normal(if select { err() } else { ok() }), ts[j + 1]),
            ),
    ensures
        run_list_with(sh, i, select, ts[i]) == run_list_with(sh, k, select, ts[k]),
    decreases k - i,
{
    if i < k {
        assert(run_with(sh[i], ts[i]) == Some(
            (ReturnStatus::Normal(if select { err() } else { ok() }), ts[i + 1]),
        ));
        lemma_list_passes(sh, select, ts, i + 1, k);
    }
}

/// A sequence whose members each succeed, one after the other along the
/// traces `ts`, runs them all in order and succeeds.
pub proof fn law_sequence_all_succeed<B>(v: Vec<Behaviour<B>>, ts: Seq<Seq<Status>>)
    requires
        ts.len() == v@.len() + 1,
        forall|j: int|
            0 <= j < v@.len() ==> #[trigger] run_with(shape_of(v@[j]), ts[j]) == Some(
                (ReturnStatus::Normal(ok()), ts[j + 1]),
            ),
    ensures
        run_with(shape_of(Behaviour::Sequence(v)), ts[0]) == Some(
            (ReturnStatus::Normal(ok()), ts[v@.len() as int]),
        ),
{
    let sh = shape_list(v@);
    lemma_shape_list(v@);
    assert forall|j: int| 0 <= j < v@.len() implies #[trigger] run_with(sh[j], ts[j]) == Some(
        (ReturnStatus::Normal(ok()), ts[j + 1]),
    ) by {
        assert(sh[j] == shape_of(v@[j]));
    }
    lemma_list_passes(sh, false, ts, 0, v@.len() as int);
}

/// A sequence whose members before `k` each succeed, one after the other
/// along the traces `ts`, and whose member `k` then fails, fails there: the
/// members after `k` do not run.
pub proof fn law_sequence_first_failure<B>(v: Vec<Behaviour<B>>, ts: Seq<Seq<Status>>, k: int)
    requires
        0 <= k < v@.len(),
        ts.len() == v@.len() + 1,
        forall|j: int|
            0 <= j < k ==> #[trigger] run_with(shape_of(v@[j]), ts[j]) == Some(
                (ReturnStatus::Normal(ok()), ts[j + 1]),
            ),
        run_with(shape_of(v@[k]), ts[k]) == Some((ReturnStatus::Normal(err()), ts[k + 1])),
    ensures
        run_with(shape_of(Behaviour::Sequence(v)), ts[0]) == Some(
            (ReturnStatus::Normal(err()), ts[k + 1]),
        ),
{
    let sh = shape_list(v@);
    lemma_shape_list(v@);
    assert forall|j: int| 0 <= j < k implies #[trigger] run_with(sh[j], ts[j]) == Some(
        (ReturnStatus::Normal(ok()), ts[j + 1]),
    ) by {
        assert(sh[j] == shape_of(v@[j]));
    }
    lemma_list_passes(sh, false, ts, 0, k);
    assert(sh[k] == shape_of(v@[k]));
}

/// A selector whose members each fail, one after the other along the traces
/// `ts`, runs them all in order and fails.
pub proof fn law_select_all_fail<B>(v: Vec<Behaviour<B>>, ts: Seq<Seq<Status>>)
    requires
        ts.len() == v@.len() + 1,
        forall|j: int|
            0 <= j < v@.len() ==> #[trigger] run_with(shape_of(v@[j]), ts[j]) == Some(
                (ReturnStatus::Normal(err()), ts[j + 1]),
            ),
    ensures
        run_with(shape_of(Behaviour::Select(v)), ts[0]) == Some(
            (ReturnStatus::Normal(err()), ts[v@.len() as int]),
        ),
{
    let sh = shape_list(v@);
    lemma_shape_list(v@);
    assert forall|j: int| 0 <= j < v@.len() implies #[trigger] run_with(sh[j], ts[j]) == Some(
        (ReturnStatus::Normal(err()), ts[j + 1]),
    ) by {
        assert(sh[j] == shape_of(v@[j]));
    }
    lemma_list_passes(sh, true, ts, 0, v@.len() as int);
}

/// A selector whose members before `k` each fail, one after the other along
/// the traces `ts`, and whose member `k` then succeeds, succeeds there: the
/// members after `k` do not run.
pub proof fn law_select_first_success<B>(v: Vec<Behaviour<B>>, ts: Seq<Seq<Status>>, k: int)
    requires
        0 <= k < v@.len(),
        ts.len() == v@.len() + 1,
        forall|j: int|
            0 <= j < k ==> #[trigger] run_with(shape_of(v@[j]), ts[j]) == Some(
                (ReturnStatus::Normal(err()), ts[j + 1]),
            ),
        run_with(shape_of(v@[k]), ts[k]) == Some((ReturnStatus::Normal(ok()), ts[k + 1])),
    ensures
        run_with(shape_of(Behaviour::Select(v)), ts[0]) == Some(
            (ReturnStatus::Normal(ok()), ts[k + 1]),
        ),
{
    let sh = shape_list(v@);
    lemma_shape_list(v@);
    assert forall|j: int| 0 <= j < k implies #[trigger] run_with(sh[j], ts[j]) == Some(
        (ReturnStatus::Normal(err()), ts[j + 1]),
    ) by {
        assert(sh[j] == shape_of(v@[j]));
    }
    lemma_list_passes(sh, true, ts, 0, k);
    assert(sh[k] == shape_of(v@[k]));
}

/// One step of counting checks of a loop with `l` members: the member after
/// check `j` is the next one in the same pass, or the first of the next pass.
proof fn lemma_next_check(j: int, l: int)
    requires
        0 <= j,
        0 < l,
    ensures
        0 <= j % l < l,
        0 <= j / l,
        j % l + 1 < l ==> (j + 1) % l == j % l + 1 && (j + 1) / l == j / l,
        j % l + 1 >= l ==> (j + 1) % l == 0 && (j + 1) / l == j / l + 1,
{
    vstd::arithmetic::div_mod::lemma_fundamental_div_mod(j, l);
    vstd::arithmetic::div_mod::lemma_mod_pos_bound(j, l);
    vstd::arithmetic::div_mod::lemma_div_pos_is_pos(j, l);
    vstd::arithmetic::mul::lemma_mul_is_commutative(l, j / l);
    if j % l + 1 < l {
        vstd::arithmetic::div_mod::lemma_fundamental_div_mod_converse(j + 1, l, j / l, j % l + 1);
    } else {
        assert((j / l + 1) * l == (j / l) * l + l) by (nonlinear_arith);
        vstd::arithmetic::div_mod::lemma_fundamental_div_mod_converse(j + 1, l, j / l + 1, 0);
    }
}

/// The pedantic loop `w` at check `j` (member `j % l` of pass `j / l`)
/// hands the run on to check `n`, where every check from `j` on succeeds
/// and the member after it too, one after the other along the traces `ts`.
proof fn lemma_pedantic_checks(w: Shape, ts: Seq<Seq<Status>>, j: int, n: int)
    requires
        w matches Shape::While { pedantic: true, .. },
        w->While_body.len() > 0,
        0 <= j <= n,
        n / (w->While_body.len() as int) < max_passes(),
        ts.len() == 2 * n + 2,
        forall|m: int|
            j <= m < n ==> #[trigger] run_with(*w->While_condition, ts[2 * m]) == Some(
                (ReturnStatus::Normal(ok()), ts[2 * m + 1]),
            ) && run_with(w->While_body[m % (w->While_body.len() as int)], ts[2 * m + 1]) == Some(
                (ReturnStatus::Normal(ok()), ts[2 * m + 2]),
            ),
    ensures
        ({
            let l = w->While_body.len() as int;
            run_while_with(w, ts[2 * j], (max_passes() - j / l) as nat, j % l) == run_while_with(
                w,
                ts[2 * n],
                (max_passes() - n / l) as nat,
                n % l,
            )
        }),
    decreases n - j,
{
    let l = w->While_body.len() as int;
    if j < n {
        lemma_next_check(j, l);
        vstd::arithmetic::div_mod::lemma_div_is_ordered(j, n, l);
        vstd::arithmetic::div_mod::lemma_div_is_ordered(j + 1, n, l);
        let p = (max_passes() - j / l) as nat;
        assert(run_with(*w->While_condition, ts[2 * j]) == Some(
            (ReturnStatus::Normal(ok()), ts[2 * j + 1]),
        ));
        assert(ts[2 * (j + 1)] == ts[2 * j + 2]);
        assert(run_while_with(w, ts[2 * j], p, j % l) == run_while_with(
            w,
            ts[2 * j + 2],
            p,
            j % l + 1,
        ));
        if j % l + 1 >= l {
            assert(run_while_with(w, ts[2 * j + 2], p, j % l + 1) == run_while_with(
                w,
                ts[2 * j + 2],
                (p - 1) as nat,
                -1,
            ));
            assert(run_while_with(w, ts[2 * j + 2], (p - 1) as nat, -1) == run_while_with(
                w,
                ts[2 * j + 2],
                (p - 1) as nat,
                0,
            ));
        }
        lemma_pedantic_checks(w, ts, j + 1, n);
    }
}

/// A pedantic loop checks its condition before each member of its body, pass
/// after pass, and ends with success at the first check that fails: where
/// the first `n` checks succeed and each is followed by its member (check
/// `j` by member `j % body.len()`), which succeeds, one after the other
/// along the traces `ts`, and check `n` then fails before the loop has run
/// out of passes, the loop ends there with success and runs nothing more.
pub proof fn law_pedantic_while_checks_before_each<B>(
    condition: Behaviour<B>,
    body: Vec<Behaviour<B>>,
    ts: Seq<Seq<Status>>,
    n: int,
)
    requires
        body@.len() > 0,
        0 <= n,
        n / (body@.len() as int) < max_passes(),
        ts.len() == 2 * n + 2,
        forall|j: int|
            0 <= j < n ==> #[trigger] run_with(shape_of(condition), ts[2 * j]) == Some(
                (ReturnStatus::Normal(ok()), ts[2 * j + 1]),
            ) && run_with(shape_of(body@[j % (body@.len() as int)]), ts[2 * j + 1]) == Some(
                (ReturnStatus::Normal(ok()), ts[2 * j + 2]),
            ),
        run_with(shape_of(condition), ts[2 * n]) == Some(
            (ReturnStatus::Normal(err()), ts[2 * n + 1]),
        ),
    ensures
        run_with(
            shape_of(Behaviour::While { condition: Box::new(condition), body, pedantic: true }),
            ts[0],
        ) == Some((ReturnStatus::Normal(ok()), ts[2 * n + 1])),
{
    let w = shape_of(Behaviour::While { condition: Box::new(condition), body, pedantic: true });
    let l = body@.len() as int;
    lemma_shape_list(body@);
    assert(w->While_body == shape_list(body@));
    assert(*w->While_condition == shape_of(condition));
    assert forall|j: int| 0 <= j < n implies #[trigger] run_with(*w->While_condition, ts[2 * j])
        == Some((ReturnStatus::Normal(ok()), ts[2 * j + 1])) && run_with(
        w->While_body[j % l],
        ts[2 * j + 1],
    ) == Some((ReturnStatus::Normal(ok()), ts[2 * j + 2])) by {
        lemma_next_check(j, l);
        assert(w->While_body[j % l] == shape_of(body@[j % l]));
        assert(run_with(shape_of(condition), ts[2 * j]) == Some(
            (ReturnStatus::Normal(ok()), ts[2 * j + 1]),
        ));
    }
    vstd::arithmetic::div_mod::lemma_fundamental_div_mod_converse(0, l, 0, 0);
    lemma_next_check(n, l);
    assert(ts[2 * 0int] == ts[0]);
    lemma_pedantic_checks(w, ts, 0, n);
    assert(run_while_with(w, ts[0], max_passes(), -1) == run_while_with(w, ts[0], max_passes(), 0));
    assert(run_while_with(w, ts[2 * n], (max_passes() - n / l) as nat, n % l) == Some(
        (ReturnStatus::Normal(ok()), ts[2 * n + 1]),
    ));
}

} // verus!
