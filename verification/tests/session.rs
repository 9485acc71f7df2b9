use stuck::error::{join_result, JoinError, Panic, PanicError};
use stuck::task::session::{session, JoinFlow, SessionJoiner, SessionValue, NO_WAKEUP};

type P = &'static str;

#[test]
fn session_waker() {
    let (mut joint, session, waker) = session::<i32, P, u32, u32>();
    let other = waker.another(&mut joint);
    assert!(other.close(&mut joint).is_none());
    assert_eq!(session.is_ready(&joint), false);
    let other = waker.another(&mut joint);
    let result1 = waker.send(&mut joint, 5);
    let result2 = other.send(&mut joint, 6);
    assert!(matches!(result1, Ok(None)));
    assert!(matches!(result2, Err(6)));
    match session.wait(&mut joint, SessionJoiner::Thread { thread: 1 }) {
        JoinFlow::Ready { value: SessionValue::Value(value) } => assert_eq!(value, 11 - 6),
        _ => panic!("there is a value"),
    }
}

#[test]
fn session_dropped() {
    let (mut joint, _session, waker) = session::<(), P, u32, u32>();
    joint.drop_value();
    assert_eq!(joint.is_ready(), true);
    assert!(!waker.wake(&mut joint, ()).waked);
}

#[test]
fn session_sleeps_until_woken() {
    let (mut joint, session, waker) = session::<i32, P, u32, u32>();
    assert!(matches!(session.wait(&mut joint, SessionJoiner::Thread { thread: 7 }), JoinFlow::Wait));
    assert!(matches!(joint.join_again(), JoinFlow::Wait));
    let wakeup = waker.wake(&mut joint, 5);
    assert!(wakeup.waked);
    assert!(matches!(wakeup.joiner, Some(SessionJoiner::Thread { thread: 7 })));
    assert!(matches!(joint.join_again(), JoinFlow::Ready { value: SessionValue::Value(5) }));
}

#[test]
fn session_without_wakers_panics() {
    let (mut joint, session, waker) = session::<i32, P, u32, u32>();
    assert!(matches!(session.wait(&mut joint, SessionJoiner::Thread { thread: 7 }), JoinFlow::Wait));
    assert!(matches!(waker.close(&mut joint), Some(SessionJoiner::Thread { thread: 7 })));
    match joint.join_again() {
        JoinFlow::Ready { value: SessionValue::Panic(PanicError::Static(text)) } => assert_eq!(text, NO_WAKEUP),
        _ => panic!("should panic"),
    }
    assert_eq!(NO_WAKEUP, "session: no wakeup");
}

#[test]
fn interrupted_session_has_no_value() {
    let (mut joint, session, waker) = session::<i32, P, u32, u32>();
    assert!(matches!(session.wait(&mut joint, SessionJoiner::Thread { thread: 7 }), JoinFlow::Wait));
    assert!(joint.interrupt("stop"));
    assert!(!joint.interrupt("again"));
    assert!(matches!(waker.send(&mut joint, 3), Err(3)));
    assert!(matches!(joint.join_again(), JoinFlow::Ready { value: SessionValue::Panic(PanicError::Static("stop")) }));
}

#[test]
fn result_of_task() {
    let (mut joint, session, waker) = session::<i32, P, u32, u32>();
    let panic = PanicError::Unwind { object: "object", text: Ok(String::from("oooooops")) };
    assert!(waker.set_result(&mut joint, Err(panic)).is_none());
    let value = match session.wait(&mut joint, SessionJoiner::Thread { thread: 1 }) {
        JoinFlow::Ready { value } => value,
        JoinFlow::Wait => panic!("there is a panic"),
    };
    let err: JoinError<P> = join_result(value.into_result()).unwrap_err();
    assert_eq!(err.to_string(), "panic(oooooops)");
    assert_eq!(err.to_debug_string(), "JoinError::Panic(oooooops)");
    assert!(matches!(err.into_panic(), Panic::Object("object")));
    assert!(matches!(join_result::<i32, P>(Ok(4)), Ok(4)));
}

#[test]
fn panic_without_words() {
    let err: JoinError<i32> = JoinError::new(PanicError::Unwind { object: 3, text: Err(String::from("i32")) });
    assert_eq!(err.to_string(), "panic(..)");
    assert_eq!(err.to_debug_string(), "JoinError::Panic(i32)");
    let err: JoinError<i32> = JoinError::new(PanicError::Static("deadlock"));
    assert_eq!(err.to_string(), "panic(deadlock)");
    assert!(matches!(err.into_panic(), Panic::Message("deadlock")));
}
