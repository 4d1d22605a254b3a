# executors

A small executor toolkit, verified with Verus.

- `src/` is the verified library:
  - `future`: `SharedState`, the cell a promise fills and a future reads, with
    the `Future` and `Promise` traits;
  - `sync::queue`: `MPMCQueue`, a closable first-in first-out queue, and the
    step functions (`offer`, `poll`) a thread-shared queue is built from;
  - `scheduler`: the `Runnable` work items and `RunnableWrapper`;
    `scheduler::easy`: worker channels, task counts and least-loaded dispatch;
  - `channel`: the `std::sync::mpsc` calls, trusted: a sending end
    (`Outbox`) records every message handed to it and whether it was
    accepted, and the two ends of one channel carry the same label.
- `app/` holds what runs on threads: the shared queue (`SharedQueue`), the
  blocking future and promise, the easy scheduler's threads and loops, and the
  fiber entry points `init`, `go` and `stop`.
- `tests/` exercises the library.
