# RustKV

An embedded, ordered key-value database for one process. An index engine keeps, for every key, a
pointer into a value log; the values themselves lie in that log.

- `put`, `delete`, `get`, and atomic batches
- `sync = false` and `sync = true` writes, and an empty synced batch as a barrier
- snapshots, cursors in both directions, and range queries
- recovery when a database is opened, cleanup behind durable commits, and `destroy`

## Layout

- `src/` is the library. Everything that decides or computes is here, with contracts that Verus
  proves: byte formats, the layout of the log, the writer and its synchronization, the order of a
  commit, the state of an instance, reads and cursors, recovery, cleanup, and destruction. Where a
  step needs a file, a lock, a clock or the index engine, a function says what to do next and takes
  the outcome back.
- `app/` carries these steps out: directories and files, the Fjall index engine, threads and
  locks, and the public handles `Db`, `Snapshot`, `DbIterator` and `RangeCursor`.
- `tests/` runs the library, with a small database in memory that drives it end to end.

Functions named `law_..` state what holds of the library as a whole. A few to begin with:

- `db::contents`: a commit changes what the database holds as its operations do, one after the
  other; a lookup finds exactly that; an earlier view stays readable; commits that are undone, the
  last one first, leave nothing behind
- `commit::coordinator`: the log comes before the index, and an unknown outcome stops the instance
- `vlog::round_trip`: what is written for a transaction is found again
- `recovery::plan` and `recovery::execute`: durable commits survive, and recovery ends

## What is trusted

`checksum` calls the `crc32c` crate, `memory` calls `Vec::try_reserve` and
`Vec::try_reserve_exact`, and `shown` hands an error to a formatter of the standard library. Their contracts are believed, not proved. Memory that was made with
`Memory::rehearsal` does not ask the machine: its answers are fixed beforehand, and the contracts
say what follows from each of them. What the index engine and the
file system do is outside the library: it says what it asks of them, and what it makes of every
answer.
