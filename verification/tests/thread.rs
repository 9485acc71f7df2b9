use stuck::error::PanicError;
use stuck::select::thread::{parker, Parking, NO_UNPARKER};

#[test]
fn parker_cancelled() {
    let (mut state, parker, unparker) = parker::<(), ()>();
    parker.cancel(&mut state);
    assert_eq!(unparker.unpark((), &mut state), false);
}

#[test]
fn parker_readiness() {
    let (mut state, parker, unparker) = parker::<(), ()>();
    assert_eq!(parker.is_ready(&state), false);
    unparker.unpark((), &mut state);
    assert_eq!(parker.is_ready(&state), true);
    assert!(matches!(parker.park(&mut state), Parking::Ready(())));
}

#[test]
fn unparkers_dropped() {
    let (mut state, parker, unparker) = parker::<(), ()>();
    let other = unparker.another(&mut state);
    assert!(!other.close(&mut state));
    assert!(unparker.close(&mut state));
    match parker.park(&mut state) {
        Parking::Panic(PanicError::Static(text)) => assert_eq!(text, NO_UNPARKER),
        _ => panic!("should panic"),
    }
    assert_eq!(NO_UNPARKER, "all unparkers dropped");
}

#[test]
fn unpark_early() {
    let (mut state, parker, unparker) = parker::<i32, ()>();
    assert!(unparker.unpark(4, &mut state));
    assert!(matches!(parker.park(&mut state), Parking::Ready(4)));
}

#[test]
fn unpark_later() {
    let (mut state, parker, unparker) = parker::<i32, ()>();
    let parker = match parker.park(&mut state) {
        Parking::Wait(parker) => parker,
        _ => panic!("nothing to take"),
    };
    assert!(unparker.unpark(4, &mut state));
    assert!(matches!(parker.park(&mut state), Parking::Ready(4)));
}

#[test]
fn unpark_concurrent() {
    let (mut state, parker, unparker) = parker::<i32, ()>();
    let other = unparker.another(&mut state);
    let unparked1 = unparker.unpark(1, &mut state);
    let unparked2 = other.unpark(2, &mut state);
    assert!(matches!(parker.park(&mut state), Parking::Ready(1)));
    assert_ne!(unparked1, unparked2);
}
