# taquba

The decision core of a durable task queue kept in an ordered key-value store,
written in Verus.

A job is pending, scheduled, claimed, done or dead, and each state is a key
space of the store. Every operation of the queue moves jobs between the key
spaces in one transaction, together with the job index, the deduplication keys,
the counters, the attempt histories and the caller's own entries.

`src/` performs no I/O. A transition is a function of the entries read so far:
it asks for the next entry, refuses the request, or returns the operations to
commit and what to report. Its contract says what it does to every store that
holds what was read.

- `keys`, `bytes`, `range`: the key layout, its order, and ranges of keys.
- `job`, `options`, `ids`, `time`, `error`: what jobs and requests are made of.
- `store`, `txn`: the contents of the store, the operations of a transaction,
  and the steps that transitions share.
- `enqueue`, `claim`, `settle`, `reaper`, `scheduler`: the transitions.
- `claim_cursor`, `lease_registry`, `time_bound`, `queue_core`: the state that an
  open queue keeps in memory.
- `read`, `stats`, `reader`, `payload`, `worker`: listings and lookups, counters,
  readers, offloaded payloads, and the worker loops.
- `laws`: what holds across transitions, such as that each job has one record
  and that the counters are the numbers of jobs.
- `passes`: what whole passes leave behind, such as that no due job is left
  scheduled and that no claim outlives its process.

`tests/` drives the transitions over an in-memory ordered store. `app/` runs
them on SlateDB and an object store.
