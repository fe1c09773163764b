# cuda_device

The host-side logic of a CUDA device, verified with Verus.

The centre is a caching allocator. Freed device buffers are kept and served again
at exactly their size, so that a warmed-up forward can be captured into a graph
without allocating. What it retains is bounded: crossing the cap gives the least
recently used buffers back until retention is at seven eighths of it. Around the
allocator stand the demand profile and the miss ledger of graph captures, the host
copies that a graph replays, and the device that ties them together.

## Layout

- `src/` is the library. It holds no driver call: the methods of `CudaDevice` say
  what the driver is to be asked and take in what it answered. Every function has a
  contract over the mathematical state in `src/model.rs` and `src/device.rs`.
- `src/laws.rs`, `src/retention.rs`, `src/traffic.rs`, `src/protocol.rs` and
  `src/history.rs` prove what holds of the library as a whole, with more in
  `src/capture.rs`, `src/storage.rs`, `src/ladder.rs` and `src/ids.rs`: that no buffer
  is lost or handed out twice, that retention stays under the cap, who survives an
  eviction, that a capture that was warmed up and pre-warmed never falls through to
  the driver, and that the counts of a capture are exact.
- `tests/` runs the library on concrete values, without a device.
- `app/` is the device itself: the same methods with the driver calls around them.

## What is taken on trust

The contracts of a few standard library functions (`sort_unstable`, `trim`, `parse`,
`leak`) and the sizes of two element types of the crates `half` and `float8`. Each
stands in a small function of its own that says what it claims.
