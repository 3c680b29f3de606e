# bidx

The in-RAM block index of an NVMe key-value store, verified with Verus.

- `src/addr.rs`: addresses (container id, page offset) and their masks.
- `src/codec.rs`: little-endian byte layouts, and the calls into `bytevec`
  and `bincode` that write and read them.
- `src/convert.rs`: the store's value word, key bytes, and conversions.
- `src/index.rs`: the second-level cache of page slots (with its bincode
  form) and the first-level map of index blocks.
- `src/indexapi4c.rs`: put, get and delete by internal key, with the laws
  that relate them.
- `src/rbio.rs`, `src/kvdb.rs`, `src/bench.rs`: page keys, store options and
  run figures used by the store's driver.
- `app/`: the C interface of the index, the store's C calls, page buffers and
  the throughput program.
