# Tessera

MLA-aware KV block management, verified with Verus.

- `src/` is the library. Every item in it is verified; what it takes on trust from outside crates
  (`dashmap`, `xxhash-rust`, `rand`, `rand_chacha`) stands in `shared_map.rs`, `content_hash.rs` and
  `transport/latency.rs`, each behind a small function whose contract says what is relied on.
- `app/` is ordinary Rust around the library: locks, Prometheus metrics, region files, GPU memory,
  asynchronous transports, the vector index, tracing and the Python bindings.
- `tests/` runs the library.

Where to start reading:

| Module | What it states |
| --- | --- |
| `pool` | Which block is handed out, evicted or freed, as a state machine over mathematical maps |
| `block_manager` | The manager over a device: allocation, sealing, forking, export, import, reservations |
| `block_manager::transfer`, `block_manager::delivery` | Moving a request to another rank, and what arrives there |
| `config`, `multiples` | Validation and sizes of block layouts |
| `device` | Byte regions, the host-memory backend, the rules of the on-disk tier |
| `transport` | What a transport between ranks does, the in-process one, injected delays |
| `index` | Labels of indexed blocks, lookup of a hash on other ranks |
| `state_cache`, `cross_agent`, `rank`, `observability` | Per-request arenas, sharing, topology, tracing settings |

The modules named `laws` hold what relates several operations.
