# stuck

Multi-threading task facility building on cooperative stackful coroutine.

`src/` is the library: what tasks, coroutines, sessions, suspensions, channels, `select!`, timers, sockets
and files decide. It is written in Verus. Every function states in its contract what it returns and changes,
and Verus proves it. The exceptions are the few functions that wrap a call into `hashbrown`, `slab` or `syn`:
their contracts are believed, and the comment above each says what of that crate is believed. State is
explicit: a channel or a session is a value that its operations take by `&mut`, and an operation that would
block says so in its result.

`app/` runs these decisions. It owns threads, stacks, locks, sockets and io_uring, and offers the crate's
blocking interface: `runtime`, `task`, `coroutine`, `channel`, `select!`, `time`, `net` and `fs`.

`tests/` holds the tests of the library.

| Module                  | Content                                                                        |
|-------------------------|--------------------------------------------------------------------------------|
| `channel::parallel`     | Channels across tasks, with permits for `select!`                              |
| `channel::serial`       | Channels across coroutines of one task                                         |
| `channel::order`        | What passes a channel, first in first out, over any number of calls            |
| `select`                | Trying, watching and unwatching candidates; branches of `select!`              |
| `select::thread`        | Parking the thread that selects                                                |
| `coroutine`             | Coroutines, their stacks, suspensions and join handles                         |
| `task`                  | Scheduling of the coroutines of a task, and its abortion                       |
| `task::session`         | Sessions to wait for and wake across tasks, down to their atomic steps         |
| `task::mpsc`            | Multi-producer, single-consumer queue                                          |
| `runtime`               | Scheduling of tasks, and shutdown                                              |
| `time`, `time::wheel`   | Timer messages, sleeping, intervals; the timing wheel                          |
| `io`                    | Requests to io_uring and to a pool of threads                                  |
| `net`                   | Registration of sockets and their readiness                                    |
| `fs`                    | Open options, file operations and metadata                                     |
| `attribute`             | Options of the attributes `main` and `test`                                    |
