use lunamisc::bt::looping::WhileLoop;
use lunamisc::bt::status::{InfallibleBehavior, InfallibleStatus};

#[test]
fn test_sum() {
    let mut sum = 0;
    let is_ok = WhileLoop::new(
        |sum: &mut usize| (*sum < 10).into(),
        |sum: &mut usize| {
            *sum += 1;
            InfallibleStatus::Success
        },
    )
    .run_infallible(&mut sum)
    .is_ok();
    assert!(is_ok);
    assert_eq!(sum, 10);
}

use lunamisc::bt::action::{AlwaysFail, AlwaysRunning, AlwaysSucceed};
use lunamisc::bt::branching::{IfElse, TryCatch};
use lunamisc::bt::converters::Invert;
use lunamisc::bt::sequence::{Select, Sequence};
use lunamisc::bt::status::{Behavior, Status};

#[test]
fn if_else_takes_the_branch_of_the_condition() {
    let mut taken = IfElse::new(AlwaysSucceed, AlwaysSucceed, AlwaysFail);
    assert_eq!(Behavior::<()>::run(&mut taken, &mut ()), Status::Success);
    let mut other = IfElse::new(AlwaysFail, AlwaysFail, AlwaysSucceed);
    assert_eq!(Behavior::<()>::run(&mut other, &mut ()), Status::Success);
}

#[test]
fn invert_swaps_success_and_failure() {
    assert_eq!(Behavior::<()>::run(&mut Invert(AlwaysSucceed), &mut ()), Status::Failure);
    assert_eq!(Behavior::<()>::run(&mut Invert(AlwaysFail), &mut ()), Status::Success);
    assert_eq!(Behavior::<()>::run(&mut Invert(AlwaysRunning), &mut ()), Status::Running);
}

#[test]
fn try_catch_runs_the_catch_on_failure() {
    let mut t = TryCatch::new(AlwaysFail, AlwaysSucceed);
    assert_eq!(Behavior::<()>::run(&mut t, &mut ()), Status::Success);
}

#[test]
fn sequence_stops_at_the_first_failure() {
    let mut count = 0u32;
    let mut s = Sequence::new((
        |c: &mut u32| {
            *c += 1;
            Status::Success
        },
        AlwaysFail,
        |c: &mut u32| {
            *c += 10;
            Status::Success
        },
    ));
    assert_eq!(s.run(&mut count), Status::Failure);
    assert_eq!(count, 1);
}

#[test]
fn select_stops_at_the_first_success() {
    let mut count = 0u32;
    let mut s = Select::new((
        AlwaysFail,
        |c: &mut u32| {
            *c += 1;
            Status::Success
        },
        |c: &mut u32| {
            *c += 10;
            Status::Success
        },
    ));
    assert_eq!(s.run(&mut count), Status::Success);
    assert_eq!(count, 1);
}
