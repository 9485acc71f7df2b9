use stuck::fs::{File, FileKinds, Metadata, OpenError, OpenFlags, OpenOptions, Timestamp};
use stuck::io::operation::{OpCode, Operation};
use stuck::io::pool::{outcome, process, Call};
use stuck::io::uring::{
    Code, Pushed, Request, State, AT_EMPTY_PATH, AT_FDCWD, AT_STATX_SYNC_AS_STAT, AT_SYMLINK_NOFOLLOW, ECANCELED, STATX_ALL, STAT_FLAGS,
};
use stuck::io::{self, Branches, Route};
use stuck::net::{self, Attempted, Entry, Event, Linger, Polled, Registry, WAKER_TOKEN};

#[test]
fn constants_are_those_of_the_system() {
    assert_eq!(AT_FDCWD, libc::AT_FDCWD);
    assert_eq!(AT_SYMLINK_NOFOLLOW, libc::AT_SYMLINK_NOFOLLOW);
    assert_eq!(AT_STATX_SYNC_AS_STAT, libc::AT_STATX_SYNC_AS_STAT);
    assert_eq!(AT_EMPTY_PATH, libc::AT_EMPTY_PATH);
    assert_eq!(STAT_FLAGS, libc::AT_SYMLINK_NOFOLLOW | libc::AT_STATX_SYNC_AS_STAT | libc::AT_EMPTY_PATH);
    assert_eq!(STATX_ALL, libc::STATX_ALL);
    assert_eq!(ECANCELED, libc::ECANCELED);
}

const OPEN_FLAGS: OpenFlags = OpenFlags {
    rdonly: libc::O_RDONLY,
    wronly: libc::O_WRONLY,
    rdwr: libc::O_RDWR,
    creat: libc::O_CREAT,
    excl: libc::O_EXCL,
    trunc: libc::O_TRUNC,
    append: libc::O_APPEND,
};

const FILE_KINDS: FileKinds =
    FileKinds { mask: libc::S_IFMT, directory: libc::S_IFDIR, regular: libc::S_IFREG, symlink: libc::S_IFLNK };

#[test]
fn flags_of_open_options() {
    assert_eq!(OpenOptions::new().flags(&OPEN_FLAGS), 0);
    assert_eq!(OpenOptions::new().read(true).flags(&OPEN_FLAGS), libc::O_RDONLY);
    assert_eq!(OpenOptions::new().write(true).flags(&OPEN_FLAGS), libc::O_WRONLY);
    assert_eq!(OpenOptions::new().read(true).write(true).flags(&OPEN_FLAGS), libc::O_RDWR);
    assert_eq!(OpenOptions::new().append(true).flags(&OPEN_FLAGS), libc::O_WRONLY | libc::O_APPEND);
    assert_eq!(OpenOptions::new().write(true).append(true).flags(&OPEN_FLAGS), libc::O_WRONLY | libc::O_APPEND);
    assert_eq!(OpenOptions::new().read(true).append(true).flags(&OPEN_FLAGS), libc::O_RDWR | libc::O_APPEND);
    assert_eq!(File::open().flags(&OPEN_FLAGS), libc::O_RDONLY);
    assert_eq!(File::create().flags(&OPEN_FLAGS), libc::O_WRONLY | libc::O_CREAT | libc::O_TRUNC);
    assert_eq!(File::create_new().flags(&OPEN_FLAGS), libc::O_WRONLY | libc::O_CREAT | libc::O_EXCL);
    assert_eq!(
        OpenOptions::new().write(true).create(true).create_new(true).flags(&OPEN_FLAGS),
        libc::O_WRONLY | libc::O_CREAT | libc::O_EXCL
    );
    // Another system has other flags.
    let other = OpenFlags { rdonly: 0, wronly: 1, rdwr: 2, creat: 0x200, excl: 0x800, trunc: 0x400, append: 8 };
    assert_eq!(File::open().flags(&other), 0);
    assert_eq!(File::create().flags(&other), 0x601);
    assert_eq!(OpenOptions::new().read(true).append(true).create_new(true).flags(&other), 0xa0a);
}

#[test]
fn options_that_do_not_go_together() {
    assert!(!OpenOptions::new().is_valid());
    assert!(!OpenOptions::new().read(true).truncate(true).is_valid());
    assert!(!OpenOptions::new().read(true).create(true).is_valid());
    assert!(!OpenOptions::new().append(true).truncate(true).is_valid());
    assert!(OpenOptions::new().append(true).truncate(true).create_new(true).is_valid());
    assert!(OpenOptions::new().append(true).create(true).is_valid());
    let path = b"/tmp/a".to_vec();
    assert_eq!(OpenOptions::new().open(&path, &OPEN_FLAGS).err(), Some(OpenError::InvalidOptions));
    let opening = File::create().open(&path, &OPEN_FLAGS).ok().unwrap();
    assert_eq!(opening.path, b"/tmp/a\0");
    assert_eq!(opening.mode, 0o666);
    assert_eq!(opening.flags, File::create().flags(&OPEN_FLAGS));
    assert_eq!(File::create().open(&b"a\0b".to_vec(), &OPEN_FLAGS).err(), Some(OpenError::InvalidPath));
}

#[test]
fn operations_on_files() {
    let file = File::new(7);
    assert_eq!(file.fd(), 7);
    assert_eq!(file.read(8, 9), Operation::Read { fd: 7, buf: 8, len: 9, offset: -1 });
    assert_eq!(file.write(8, usize::MAX), Operation::Write { fd: 7, buf: 8, len: i32::MAX as usize, offset: -1 });
    assert_eq!(file.sync_all(), Operation::Fsync { fd: 7, only_data: false });
    assert_eq!(file.sync_data(), Operation::Fsync { fd: 7, only_data: true });
    assert_eq!(file.set_len(5), Operation::Truncate { fd: 7, size: 5 });
    assert_eq!(file.metadata(1, 2), Operation::Stat { fd: 7, path: 1, metadata: 2 });
    let opcodes: Vec<OpCode> = [file.read(0, 0), file.write(0, 0), file.sync_all(), file.set_len(0), file.metadata(0, 0)]
        .iter()
        .map(|operation| operation.opcode())
        .collect();
    assert_eq!(opcodes, vec![OpCode::Read, OpCode::Write, OpCode::Fsync, OpCode::Truncate, OpCode::Stat]);
}

#[test]
fn metadata_of_files() {
    let time = |secs| Timestamp { secs, nanos: 5 };
    let metadata = |mode| Metadata { mode, kinds: FILE_KINDS, size: 6, accessed: time(1), modified: time(-2), created: time(3) };
    let directory = metadata(libc::S_IFDIR | 0o755);
    assert!(directory.is_dir() && !directory.is_file() && !directory.is_symlink());
    let file = metadata(libc::S_IFREG | 0o644);
    assert!(!file.is_dir() && file.is_file() && !file.is_symlink());
    let link = metadata(libc::S_IFLNK | 0o777);
    assert!(!link.is_dir() && !link.is_file() && link.is_symlink());
    let socket = metadata(libc::S_IFSOCK);
    assert!(!socket.file_type().is_dir() && !socket.file_type().is_file() && !socket.file_type().is_symlink());
    assert_eq!(file.len(), 6);
    assert_eq!(file.accessed(), time(1));
    assert_eq!(file.modified(), time(-2));
    assert_eq!(file.created(), time(3));
}

#[test]
fn truncation_goes_to_the_pool() {
    let file = File::new(7);
    assert_eq!(io::send(&file.set_len(5), true), Route::Pool);
    assert_eq!(io::send(&file.read(1, 2), true), Route::Uring);
    assert_eq!(io::cancel(OpCode::Truncate, 3, true), None);
    assert_eq!(io::cancel(OpCode::Read, 3, true), Some(Operation::Cancel { user_data: 3 }));
    assert_eq!(io::pool_size(true), 2);
    // All goes there if there is nothing else.
    assert_eq!(io::send(&file.set_len(5), false), Route::Pool);
    assert_eq!(io::send(&file.read(1, 2), false), Route::Pool);
    assert_eq!(io::cancel(OpCode::Read, 3, false), None);
    assert_eq!(io::pool_size(false), 4);
    assert_eq!(io::serve(true, true, false), None);
    assert_eq!(io::serve(false, true, true), Some(Branches { request: false, closing: false, readable: true }));
    assert_eq!(io::serve(true, false, false), Some(Branches { request: true, closing: true, readable: true }));
}

#[test]
fn system_calls_of_operations() {
    assert_eq!(process(&Operation::Open { path: 1, flags: 2, mode: 3 }), Call::Open { path: 1, flags: 2, mode: 3 });
    assert_eq!(process(&Operation::Read { fd: 1, buf: 2, len: 3, offset: -1 }), Call::Read { fd: 1, buf: 2, len: 3 });
    assert_eq!(process(&Operation::Read { fd: 1, buf: 2, len: 3, offset: 4 }), Call::Pread { fd: 1, buf: 2, len: 3, offset: 4 });
    assert_eq!(process(&Operation::Write { fd: 1, buf: 2, len: 3, offset: -1 }), Call::Write { fd: 1, buf: 2, len: 3 });
    assert_eq!(process(&Operation::Write { fd: 1, buf: 2, len: 3, offset: 0 }), Call::Pwrite { fd: 1, buf: 2, len: 3, offset: 0 });
    assert_eq!(process(&Operation::Fsync { fd: 1, only_data: true }), Call::SyncData { fd: 1 });
    assert_eq!(process(&Operation::Fsync { fd: 1, only_data: false }), Call::SyncAll { fd: 1 });
    assert_eq!(process(&Operation::Truncate { fd: 1, size: 2 }), Call::SetLen { fd: 1, size: 2 });
    assert_eq!(process(&Operation::Stat { fd: 1, path: 2, metadata: 3 }), Call::Fstat { fd: 1, metadata: 3 });
    assert_eq!(outcome(-1, 2), Err(2));
    assert_eq!(outcome(5, 2), Ok(5));
    assert_eq!(outcome((1 << 32) + 5, 2), Ok(5));
}

fn request(user_data: usize, operation: Operation) -> Request<&'static str> {
    Request { result: if user_data == 1 { "one" } else { "other" }, user_data, operation }
}

#[test]
fn entries_of_requests() {
    let entry = request(9, Operation::Read { fd: 1, buf: 2, len: 3, offset: -1 }).uring_entry();
    assert_eq!(entry.user_data, 9);
    assert_eq!(entry.code, Code::Read { fd: 1, buf: 2, len: 3, offset: u64::MAX });
    let code = |operation| request(9, operation).uring_entry().code;
    assert_eq!(code(Operation::Write { fd: 1, buf: 2, len: 3, offset: 8 }), Code::Write { fd: 1, buf: 2, len: 3, offset: 8 });
    assert_eq!(
        code(Operation::Open { path: 1, flags: 2, mode: 3 }),
        Code::OpenAt { dirfd: libc::AT_FDCWD, path: 1, flags: 2, mode: 3 }
    );
    assert_eq!(code(Operation::Fsync { fd: 1, only_data: true }), Code::Fsync { fd: 1, datasync: true });
    assert_eq!(
        code(Operation::Stat { fd: 1, path: 2, metadata: 3 }),
        Code::Statx { fd: 1, path: 2, metadata: 3, flags: STAT_FLAGS, mask: STATX_ALL }
    );
    let long = (1 << 32) + 3;
    assert_eq!(code(Operation::Write { fd: 1, buf: 2, len: long, offset: 8 }), Code::Write { fd: 1, buf: 2, len: 3, offset: 8 });
    assert_eq!(code(Operation::Cancel { user_data: 4 }), Code::AsyncCancel { user_data: 4 });
}

#[test]
fn cancellation_before_submission() {
    let mut state = State::new();
    assert!(state.is_empty());
    for user_data in [1, 2, 3] {
        assert!(matches!(state.push(request(user_data, Operation::Fsync { fd: 0, only_data: true })), Pushed::Queued));
    }
    assert!(!state.accepts(&request(2, Operation::Fsync { fd: 0, only_data: true })));
    assert!(state.accepts(&request(4, Operation::Fsync { fd: 0, only_data: true })));
    assert!(!state.accepts(&request(4, Operation::Truncate { fd: 0, size: 1 })));
    assert!(state.accepts(&request(4, Operation::Read { fd: 0, buf: 1, len: u32::MAX as usize, offset: 0 })));
    assert!(state.accepts(&request(4, Operation::Write { fd: 0, buf: 1, len: 1 << 32, offset: 0 })));
    assert!(state.wants_more(4));
    assert!(!state.wants_more(3));
    match state.push(request(4, Operation::Cancel { user_data: 1 })) {
        Pushed::Cancelled { canceller, cancelled } => assert_eq!((canceller, cancelled), ("other", "one")),
        _ => panic!("not submitted"),
    }
    match state.push(request(4, Operation::Cancel { user_data: 1 })) {
        Pushed::Completed { canceller } => assert_eq!(canceller, "other"),
        _ => panic!("already gone"),
    }
    assert!(!state.is_submitted(2));
    let submitted: Vec<u64> = state.submit().iter().map(|entry| entry.user_data).collect();
    assert_eq!(submitted, vec![3, 2]);
    assert!(state.is_submitted(2));
    assert!(!state.is_submitted(1));
    assert!(matches!(state.push(request(5, Operation::Cancel { user_data: 3 })), Pushed::Queued));
    assert_eq!(state.submit().len(), 1);
    assert_eq!(state.consume(3, -ECANCELED), ("other", Err(ECANCELED)));
    assert_eq!(state.consume(5, 0), ("other", Ok(0)));
    assert!(!state.is_empty());
    assert_eq!(state.consume(2, 6), ("other", Ok(6)));
    assert!(state.is_empty());
}

fn event(token: usize) -> Event {
    Event { token, readable: false, writable: false, error: false, read_closed: false, write_closed: false }
}

#[test]
fn events_signal_readiness() {
    let mut registry = Registry::new();
    let reader = registry.register_entry(Entry::Reader { readable: 10 });
    let stream = registry.register_entry(Entry::Stream { readable: 20, writable: 30 });
    assert_ne!(reader, stream);
    assert!(registry.is_registered(reader));
    let events = vec![
        Event { readable: true, writable: true, ..event(reader) },
        Event { writable: true, ..event(stream) },
        Event { error: true, ..event(stream) },
        Event { read_closed: true, ..event(stream) },
        Event { write_closed: true, ..event(stream) },
        Event { readable: true, ..event(99) },
        event(stream),
    ];
    assert_eq!(registry.wake_events(&events), (false, vec![10, 30, 20, 30, 20, 30]));
    assert_eq!(registry.wake_events(&vec![Event { readable: true, ..event(WAKER_TOKEN) }]), (true, vec![]));
    registry.unregister_entry(stream);
    assert!(!registry.is_registered(stream));
    assert_eq!(registry.wake_events(&vec![Event { error: true, ..event(stream) }]), (false, vec![]));
    assert_eq!(registry.register_entry(Entry::Reader { readable: 40 }), stream);
}

#[test]
fn attempts_and_polls() {
    assert_eq!(net::attempted(true, false), Attempted::Return);
    assert_eq!(net::attempted(false, false), Attempted::Return);
    assert_eq!(net::attempted(false, true), Attempted::Wait);
    assert_eq!(net::polled(true, false), Polled::Wake);
    assert_eq!(net::polled(false, true), Polled::Poll);
    assert_eq!(net::polled(false, false), Polled::Fail);
}

#[test]
fn linger_round_trip() {
    assert_eq!(Linger::from_secs(None), Linger { onoff: 0, linger: 0 });
    assert_eq!(Linger::from_secs(Some(3)), Linger { onoff: 1, linger: 3 });
    assert_eq!(Linger::from_secs(Some(3)).into_secs(), Some(3));
    assert_eq!(Linger::from_secs(None).into_secs(), None);
}
