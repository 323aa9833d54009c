# mmtk

The logic of a garbage collector, with contracts that Verus proves.

- `src/` is the verified library.
  - `plan/lxr`: reference counting on an Immix heap. Increments, decrements, root slots, and how a
    pause is scheduled.
  - `plan/concurrent`: Bactrian, a copying nursery over a concurrently marked mature space. Which
    pause comes next, what each pause does, the trace of a pause, quanta of marking and sweeping,
    and mutators.
  - `policy/immix`: blocks, the bookkeeping of clean blocks, and the sweep after decrements.
  - `scheduler`: buckets, workers and their queues. `queues.rs` holds everything that is taken on
    trust.
  - `util`: reference counts, the allocator of large objects, single-tracer mode.
- `tests/` runs the library.
- `app/` is ordinary Rust around it: settings, clocks, threads, locks, and running the packets that the
  library names.

Laws that relate several functions are public proof functions whose names begin with `law_`.
