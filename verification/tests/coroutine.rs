use stuck::coroutine::context::Entry;
use stuck::coroutine::page_size;
use stuck::coroutine::stack::{GlobalSize, Stack, StackSize};
use stuck::coroutine::suspension::{
    suspension, JoinHandle, Joining, Wakeup, ALREADY_JOINED, NO_RESUMPTION, SUSPENSION_DROPPED,
};
use stuck::coroutine::{Coroutine, Running};
use stuck::error::PanicError;
use stuck::select;
use stuck::select::{Branch, Identifier, Permit, Selector, TrySelectError};

type P = &'static str;

const MINIMUM: usize = libc::MINSIGSTKSZ;

fn page() -> usize {
    page_size::get(4096).unwrap()
}

#[test]
fn page_size() {
    let n = page();
    assert_ne!(n, 0);
    assert_eq!(n & (n - 1), 0);
    assert_eq!(page_size::get(-1), None);
}

#[test]
fn stack_zeroed() {
    let stack = Stack::zeroed();
    assert_eq!(stack.size(), 0);
    assert_eq!(stack.base(), 0);
    assert_eq!(stack.unmapping(page()), None);
}

fn stack_of(size: StackSize) -> Stack {
    let global = StackSize::global_size(None, page());
    let mapping = Stack::plan(size, global, MINIMUM, page());
    let low = 0x10_0000;
    let stack = Stack::mapped(low, &mapping);
    assert_eq!(stack.base(), low + page());
    assert_eq!(stack.unmapping(page()), Some((low, mapping.alloc_size)));
    assert_eq!(mapping.alloc_size, stack.size() + 2 * page());
    stack
}

#[test]
fn stack_default() {
    let stack = stack_of(StackSize::default());
    assert!(stack.size() / page() > 0);
    assert_eq!(stack.size() % page(), 0);
    assert_eq!(stack.size(), 1024 * 1024);
}

#[test]
fn stack_custom() {
    let stack = stack_of(StackSize::with_size(20));
    assert!(stack.size() / page() > 0);
    assert_eq!(stack.size() % page(), 0);
    assert_eq!(stack.size(), 4096);
    assert_eq!(stack_of(StackSize::with_size(0)).size(), 4096);
    assert_eq!(stack_of(StackSize::with_size(4097)).size(), 8192);
}

#[test]
fn stack_extra_size() {
    let stack = stack_of(StackSize::with_extra_size(20));
    assert!(stack.size() / page() > 0);
    assert_eq!(stack.size() % page(), 0);
    assert_eq!(stack.size(), 1024 * 1024 + 4096);
}

#[test]
fn stack_size_from_environment() {
    assert_eq!(StackSize::global_size(Some("5000"), 4096), 8192);
    assert_eq!(StackSize::global_size(Some("0"), 4096), 1024 * 1024);
    assert_eq!(StackSize::global_size(Some("many"), 4096), 1024 * 1024);
    assert_eq!(StackSize::with_size(1).aligned_page_size(8192, 10000, 4096), 12288);
}

#[test]
fn desired_size_is_kept() {
    for size in [1, 4096, 4097, 100_000] {
        let aligned = StackSize::with_size(size).aligned_page_size(8192, 100, 4096);
        assert!(aligned >= size);
        assert_eq!(StackSize::with_size(size).aligned_page_size(1 << 20, 100, 4096), aligned);
    }
    assert_eq!(StackSize::with_size(0).aligned_page_size(8192, 100, 4096), 4096);
    assert_eq!(StackSize::with_size(1).aligned_page_size(8192, 100, 4096), 4096);
}

#[test]
fn stack_size_is_found_once() {
    let mut global = GlobalSize::new();
    assert_eq!(global.found(), None);
    assert_eq!(global.get(Some("5000"), 4096), 8192);
    assert_eq!(global.found(), Some(8192));
    assert_eq!(global.get(Some("50000"), 4096), 8192);
    assert_eq!(global.get(None, 4096), 8192);
}

#[test]
fn entry_address_round_trip() {
    let address = 0x7fff_1234_8765_4321;
    let entry = Entry::new(address, StackSize::default());
    assert_eq!(entry.arg1, 0x7fff_1234);
    assert_eq!(entry.arg2, 0x8765_4321);
    assert_eq!(Entry::address(entry.arg1, entry.arg2), address);
}

#[test]
fn coroutine_runs_once() {
    let mut running = Running::new();
    let mut co = Coroutine::new(3, || 5);
    assert_eq!(running.current(), None);
    co.resume(&mut running);
    assert_eq!(running.current(), Some(3));
    let f = co.run();
    co.suspend(&mut running);
    assert!(co.resumable());
    co.resume(&mut running);
    assert_eq!(f(), 5);
    co.complete(&mut running);
    assert_eq!(running.current(), None);
    assert!(!co.resumable());
}

#[test]
fn resumption() {
    let (mut joint, suspension, resumption) = suspension::<i32, P, u64, u32>();
    let other = resumption.another(&mut joint);
    assert!(matches!(other.close(&mut joint), Wakeup::Nobody));
    assert_eq!(suspension.is_ready(&joint), false);
    let other = resumption.another(&mut joint);
    assert!(matches!(suspension.suspend(&mut joint, 11), Joining::Suspend));
    let (result1, wakeup) = resumption.send(&mut joint, 5);
    assert!(matches!(wakeup, Wakeup::Coroutine(11)));
    let (result2, wakeup) = other.send(&mut joint, 6);
    assert!(matches!(wakeup, Wakeup::Nobody));
    let value = match joint.take() {
        Ok(value) => value,
        Err(_) => panic!("there is a value"),
    };
    assert_eq!(result1, Ok(()));
    assert_eq!(result2.is_err(), true);
    assert_eq!(value, 11 - result2.unwrap_err());
}

#[test]
fn suspension_dropped() {
    let (mut joint, suspension, resumption) = suspension::<(), P, u64, u32>();
    assert!(matches!(suspension.close(&mut joint), Wakeup::Nobody));
    assert!(matches!(joint.take(), Err(PanicError::Static(text)) if text == SUSPENSION_DROPPED));
    let (resumed, _) = resumption.resume(&mut joint, ());
    assert!(!resumed);
}

#[test]
fn only_one_value_is_sent() {
    let (mut joint, suspension, resumption) = suspension::<i32, P, u64, u32>();
    let other = resumption.another(&mut joint);
    assert!(resumption.resume(&mut joint, 1).0);
    assert!(matches!(suspension.suspend(&mut joint, 2), Joining::Done(Ok(1))));
    assert_eq!(other.send(&mut joint, 3).0, Err(3));
}

#[test]
fn no_resumption_panics() {
    let (mut joint, suspension, resumption) = suspension::<i32, P, u64, u32>();
    assert!(matches!(suspension.suspend(&mut joint, 2), Joining::Suspend));
    assert!(matches!(resumption.close(&mut joint), Wakeup::Coroutine(2)));
    assert!(matches!(joint.take(), Err(PanicError::Static(text)) if text == NO_RESUMPTION));
    assert_eq!(NO_RESUMPTION, "suspend: no resumption");
}

#[test]
fn interrupted_suspension_is_not_woken() {
    let (mut joint, suspension, resumption) = suspension::<i32, P, u64, u32>();
    assert!(matches!(suspension.suspend(&mut joint, 2), Joining::Suspend));
    let (interrupted, wakeup) = joint.interrupt("deadlock");
    assert!(interrupted);
    assert!(matches!(wakeup, Wakeup::Nobody));
    assert_eq!(resumption.send(&mut joint, 3).0, Err(3));
    assert!(matches!(joint.take(), Err(PanicError::Static("deadlock"))));
}

#[test]
fn join_handle_join() {
    let (mut joint, suspension, resumption) = suspension::<i32, P, u64, u32>();
    let join_handle = JoinHandle::new(suspension);
    assert!(matches!(resumption.set_result(&mut joint, Ok(5)), Wakeup::Nobody));
    assert!(matches!(join_handle.join(&mut joint, 1), Joining::Done(Ok(5))));
}

#[test]
fn join_handle_join_panic() {
    const REASON: &'static str = "oooooops";
    let (mut joint, suspension, resumption) = suspension::<i32, P, u64, u32>();
    let join_handle = JoinHandle::new(suspension);
    let panic = PanicError::Unwind { object: REASON, text: Ok(String::from(REASON)) };
    resumption.set_result(&mut joint, Err(panic));
    match join_handle.join(&mut joint, 1) {
        Joining::Done(result) => {
            let err = stuck::error::join_result(result).unwrap_err();
            assert!(err.to_string().contains(REASON));
        }
        Joining::Suspend => panic!("there is a panic"),
    }
}

fn select_join(permit: Result<Permit, TrySelectError>) -> Branch {
    let selection = match permit {
        Ok(permit) => Some((0, permit)),
        Err(TrySelectError::Completed) => None,
        Err(TrySelectError::WouldBlock) => panic!("would block"),
    };
    select::branch(selection, false)
}

#[test]
fn join_handle_select() {
    let (mut joint, suspension, resumption) = suspension::<i32, P, u64, u32>();
    let mut join_handle = JoinHandle::new(suspension);
    assert!(matches!(join_handle.select_permit(&joint), Err(TrySelectError::WouldBlock)));
    let (watched, wakeup) = join_handle.watch_permit(&mut joint, Selector::new(4, 9, Identifier::new(1)));
    assert!(!watched);
    assert!(matches!(wakeup, Wakeup::Nobody));
    assert!(matches!(resumption.set_result(&mut joint, Ok(5)), Wakeup::Select { waker: 9, index: 4 }));
    join_handle.unwatch_permit(&mut joint, &Identifier::new(1));
    match select_join(join_handle.select_permit(&joint)) {
        Branch::Case { permit, .. } => assert!(matches!(join_handle.consume_permit(&mut joint, permit), Ok(5))),
        _ => panic!("not completed"),
    }
}

#[test]
fn join_handle_join_after_consumed() {
    let (mut joint, suspension, resumption) = suspension::<i32, P, u64, u32>();
    let mut join_handle = JoinHandle::new(suspension);
    resumption.set_result(&mut joint, Ok(5));
    match select_join(join_handle.select_permit(&joint)) {
        Branch::Case { permit, .. } => assert!(matches!(join_handle.consume_permit(&mut joint, permit), Ok(5))),
        _ => panic!("not completed"),
    }
    assert!(join_handle.is_consumed());
    assert_eq!(ALREADY_JOINED, "already joined by select");
    // Selecting again finds nothing to run.
    assert!(matches!(select_join(join_handle.select_permit(&joint)), Branch::Panic));
    let (watched, _) = join_handle.watch_permit(&mut joint, Selector::new(4, 9, Identifier::new(1)));
    assert!(!watched);
    assert!(!join_handle.parallel());
}

#[test]
fn unwatched_join_handle_can_be_joined() {
    let (mut joint, suspension, resumption) = suspension::<i32, P, u64, u32>();
    let join_handle = JoinHandle::new(suspension);
    join_handle.watch_permit(&mut joint, Selector::new(4, 9, Identifier::new(1)));
    join_handle.unwatch_permit(&mut joint, &Identifier::new(1));
    assert!(matches!(join_handle.join(&mut joint, 6), Joining::Suspend));
    assert!(matches!(resumption.resume(&mut joint, 8), (true, Wakeup::Coroutine(6))));
    assert!(matches!(joint.take(), Ok(8)));
}

#[test]
fn dropped_join_handle_loses_the_result() {
    let (mut joint, suspension, resumption) = suspension::<i32, P, u64, u64>();
    let handle = JoinHandle::new(suspension);
    assert!(matches!(handle.close(&mut joint), Wakeup::Nobody));
    let (sent, wakeup) = resumption.send(&mut joint, 5);
    assert_eq!(sent, Err(5));
    assert!(matches!(wakeup, Wakeup::Nobody));
    match joint.take() {
        Err(PanicError::Static(text)) => assert_eq!(text, SUSPENSION_DROPPED),
        _ => panic!("nobody joined"),
    }
}
