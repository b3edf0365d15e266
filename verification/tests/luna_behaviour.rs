use lunamisc::luna_bt::{status, Behaviour, Status};

#[test]
fn simple_sum() {
    let mut sum = 0usize;
    Behaviour::while_loop(
        Behaviour::action(|sum: &mut usize| status(*sum < 10)),
        vec![Behaviour::action(|sum: &mut usize| -> Status {
            *sum += 1;
            Ok(())
        })],
    )
    .run(&mut sum)
    .unwrap();

    assert_eq!(sum, 10);
}

#[test]
fn early_exit_sum() {
    let mut sum = 0usize;
    Behaviour::while_loop(
        Behaviour::action(|sum: &mut usize| status(*sum < 10)),
        vec![
            Behaviour::action(|sum: &mut usize| -> Status {
                *sum += 1;
                Ok(())
            }),
            Behaviour::if_else(
                Behaviour::action(|sum: &mut usize| status(*sum == 7)),
                Behaviour::exit(Ok(())),
                Behaviour::constant(Ok(())),
            ),
        ],
    )
    .run(&mut sum)
    .unwrap();

    assert_eq!(sum, 7);
}

#[test]
fn status_maps_bool() {
    assert_eq!(status(true), Ok(()));
    assert_eq!(status(false), Err(()));
}

#[test]
fn exit_ends_sequence_before_later_actions() {
    let mut count = 0u32;
    let r = Behaviour::sequence(vec![
        Behaviour::exit(Err(())),
        Behaviour::action(|c: &mut u32| -> Status {
            *c += 1;
            Ok(())
        }),
    ])
    .run(&mut count);
    assert_eq!(r, Err(()));
    assert_eq!(count, 0);
}

#[test]
fn sequence_stops_at_failure() {
    let mut count = 0u32;
    let r = Behaviour::sequence(vec![
        Behaviour::constant(Err(())),
        Behaviour::action(|c: &mut u32| -> Status {
            *c += 1;
            Ok(())
        }),
    ])
    .run(&mut count);
    assert_eq!(r, Err(()));
    assert_eq!(count, 0);
}

#[test]
fn select_stops_at_success() {
    let mut count = 0u32;
    let r = Behaviour::select(vec![
        Behaviour::constant(Err(())),
        Behaviour::constant(Ok(())),
        Behaviour::action(|c: &mut u32| -> Status {
            *c += 1;
            Err(())
        }),
    ])
    .run(&mut count);
    assert_eq!(r, Ok(()));
    assert_eq!(count, 0);
}

#[test]
fn select_of_failures_fails() {
    let mut bb = ();
    let r = Behaviour::select(vec![Behaviour::constant(Err(())), Behaviour::constant(Err(()))])
        .run(&mut bb);
    assert_eq!(r, Err(()));
}

#[test]
fn while_with_false_condition_skips_body() {
    let mut count = 0u32;
    let r = Behaviour::while_loop_pedantic(
        Behaviour::constant(Err(())),
        vec![Behaviour::action(|c: &mut u32| -> Status {
            *c += 1;
            Ok(())
        })],
    )
    .run(&mut count);
    assert_eq!(r, Ok(()));
    assert_eq!(count, 0);
}

#[test]
fn pedantic_while_checks_condition_before_each_member() {
    let mut count = 0u32;
    let r = Behaviour::while_loop_pedantic(
        Behaviour::action(|c: &mut u32| status(*c < 3)),
        vec![
            Behaviour::action(|c: &mut u32| -> Status {
                *c += 1;
                Ok(())
            }),
            Behaviour::action(|c: &mut u32| -> Status {
                *c += 1;
                Ok(())
            }),
        ],
    )
    .run(&mut count);
    assert_eq!(r, Ok(()));
    assert_eq!(count, 3);
}

#[test]
fn invert_twice_and_ignore() {
    let mut bb = ();
    let r = Behaviour::invert(Behaviour::invert(Behaviour::constant(Err(())))).run(&mut bb);
    assert_eq!(r, Err(()));
    let r = Behaviour::ignore(Behaviour::constant(Err(())), Ok(())).run(&mut bb);
    assert_eq!(r, Ok(()));
    let r = Behaviour::ignore(Behaviour::exit(Err(())), Ok(())).run(&mut bb);
    assert_eq!(r, Err(()));
}

#[test]
fn never_succeed_and_never_fail_exit_with_action_status() {
    let mut count = 0u32;
    let r = Behaviour::sequence(vec![
        Behaviour::never_succeed(Behaviour::constant(Ok(())), |c: &mut u32| -> Status {
            *c += 10;
            Err(())
        }),
        Behaviour::action(|c: &mut u32| -> Status {
            *c += 1;
            Ok(())
        }),
    ])
    .run(&mut count);
    assert_eq!(r, Err(()));
    assert_eq!(count, 10);

    let r = Behaviour::never_fail(Behaviour::constant(Err(())), |_c: &mut u32| -> Status { Ok(()) })
        .run(&mut count);
    assert_eq!(r, Ok(()));
    let r = Behaviour::never_fail(Behaviour::constant(Ok(())), |_c: &mut u32| -> Status { Err(()) })
        .run(&mut count);
    assert_eq!(r, Ok(()));
}

#[test]
fn run_traced_shows_stack() {
    let mut bb = 0u32;
    let mut seen: Vec<Vec<String>> = Vec::new();
    let r = Behaviour::sequence(vec![Behaviour::constant(Ok(()))]).run_traced(
        &mut bb,
        |_b: &u32, stack: &[String]| seen.push(stack.to_vec()),
    );
    assert_eq!(r, Ok(()));
    assert_eq!(seen[0], vec!["Sequence-0".to_string()]);
    assert_eq!(seen[1], vec!["Sequence-0".to_string(), "Constant".to_string()]);
    assert_eq!(seen.len(), 4);
}

#[test]
fn tree_without_actions_leaves_blackboard() {
    let mut bb = 0i32;
    let mut seen: Vec<Vec<String>> = Vec::new();
    let r = Behaviour::constant(Err(())).run_traced(&mut bb, |_b: &i32, stack: &[String]| {
        seen.push(stack.to_vec())
    });
    assert_eq!(r, Err(()));
    assert_eq!(bb, 0);
    assert_eq!(seen, vec![vec!["Constant".to_string()], Vec::<String>::new()]);
}
