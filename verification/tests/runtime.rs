use std::cell::RefCell;

use stuck::parse::parse_usize;
use stuck::runtime::{Builder, SchedulerState, Serve, Serving, NO_PARALLELISM, STOP_MSG};
use stuck::task::SchedFlow;

fn ungrabbed(_: u64) -> bool {
    panic!("nothing to grab")
}

#[test]
fn parallelism_of_runtime() {
    let mut builder = Builder::default();
    assert_eq!(builder.build(None, None), 4);
    assert_eq!(builder.build(None, Some(8)), 8);
    assert_eq!(builder.build(Some("3"), Some(8)), 3);
    assert_eq!(builder.build(Some("0"), Some(8)), 8);
    assert_eq!(builder.build(Some("x"), Some(8)), 8);
    builder.parallelism(2);
    assert_eq!(builder.build(Some("3"), Some(8)), 2);
    assert_eq!(NO_PARALLELISM, "parallelism must not be zero");
}

#[test]
fn numbers_in_settings() {
    assert_eq!(parse_usize("0"), Some(0));
    assert_eq!(parse_usize("+12"), Some(12));
    assert_eq!(parse_usize("007"), Some(7));
    assert_eq!(parse_usize("18446744073709551615"), Some(usize::MAX));
    assert_eq!(parse_usize("18446744073709551616"), None);
    for text in ["", "+", "-1", " 1", "1_0", "1x", "99999999999999999999999x"] {
        assert_eq!(parse_usize(text), None);
        assert!(text.parse::<usize>().is_err());
    }
}

#[test]
fn tasks_run_in_turn() {
    let mut state = SchedulerState::new();
    assert_eq!(state.serve(Serving::Running, 1, &ungrabbed), (Serve::Wait, Serving::Running));
    state.sched(1, "first");
    state.sched(2, "second");
    assert_eq!(state.serve(Serving::Running, 1, &ungrabbed), (Serve::Run(1), Serving::Running));
    state.ran(1, SchedFlow::Yield);
    assert_eq!(state.serve(Serving::Running, 1, &ungrabbed), (Serve::Run(2), Serving::Running));
    state.ran(2, SchedFlow::Block);
    assert_eq!(state.serve(Serving::Running, 1, &ungrabbed), (Serve::Run(1), Serving::Running));
    state.ran(1, SchedFlow::Cease);
    assert_eq!(state.serve(Serving::Running, 1, &ungrabbed), (Serve::Wait, Serving::Running));
    state.resume(2);
    assert_eq!(state.serve(Serving::Running, 1, &ungrabbed), (Serve::Run(2), Serving::Running));
}

#[test]
fn last_thread_aborts_what_is_left() {
    let mut state = SchedulerState::new();
    state.sched(1, ());
    state.sched(2, ());
    assert_eq!(state.serve(Serving::Running, 2, &ungrabbed).0, Serve::Run(1));
    state.ran(1, SchedFlow::Block);
    assert_eq!(state.serve(Serving::Running, 2, &ungrabbed).0, Serve::Run(2));
    state.ran(2, SchedFlow::Block);
    state.stop();
    assert_eq!(state.serve(Serving::Running, 2, &ungrabbed), (Serve::Exit, Serving::Running));
    assert_eq!(state.serve(Serving::Running, 2, &ungrabbed), (Serve::StopTimer, Serving::Draining));
    assert_eq!(state.serve(Serving::Draining, 2, &ungrabbed), (Serve::Wait, Serving::Draining));
    state.resume(1);
    assert_eq!(state.serve(Serving::Draining, 2, &ungrabbed), (Serve::Run(1), Serving::Draining));
    state.ran(1, SchedFlow::Block);
    state.stop();
    let asked = RefCell::new(Vec::new());
    let grab = |id: u64| {
        asked.borrow_mut().push(id);
        id == 2
    };
    assert_eq!(state.serve(Serving::Draining, 2, &grab), (Serve::Abort(2), Serving::Aborting));
    asked.borrow_mut().sort();
    assert_eq!(*asked.borrow(), vec![1, 2]);
    state.aborted(2);
    assert_eq!(state.serve(Serving::Aborting, 2, &ungrabbed), (Serve::Sleep, Serving::Collecting));
    state.resume(1);
    assert_eq!(state.serve(Serving::Collecting, 2, &|_| false), (Serve::Abort(1), Serving::Aborting));
    state.aborted(1);
    assert_eq!(state.serve(Serving::Aborting, 2, &ungrabbed), (Serve::Sleep, Serving::Collecting));
    assert_eq!(state.serve(Serving::Collecting, 2, &ungrabbed), (Serve::Exit, Serving::Collecting));
    assert_eq!(STOP_MSG, "runtime stopped");
}
