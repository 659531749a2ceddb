# chirps

Building blocks of a small cluster transport, written in Verus:

- `gossip`: SWIM-style membership with hybrid logical timestamps
- `mock`: a deterministic network simulator, fault schedules and their minimisation
- `raft`: write-ahead-log frames, snapshot files and the state that a Raft log describes
- `transfer`: chunked file transfer, with resume, retries, integrity checks, bandwidth
  limits, synchronisation, broadcast and remote file operations

`src/` is the verified library. It computes on plain values: sockets, files, clocks and
timers stay with the caller, who hands in what happened and does what the library answers.
Contracts are stated over spec functions and views; properties that span several functions
are public proof functions beside them.

What the library has from other crates (CRC-32, XXHash64, BLAKE3, SHA-256, Zstandard, a
random choice) stands behind small functions whose contracts are trusted; each says so in its
doc comment.

`app/` is ordinary Rust around the library: an asynchronous transport, the file system,
Prometheus metrics, openraft storage, and the serialised form of messages and sessions.

`tests/` runs the library with the real crates.
