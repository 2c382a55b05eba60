# glean-hs

The runtime of a fact store, verified with Verus: the prefix-free nat
encoding, the mangled string format, the binary codec, facts and fact sets
with their id and key indexes, stacked lookups, the predicate inventory and
the bytecode interpreter that typechecks facts.

Layout:

- `src/rts/` — the verified library. Each module states its model as spec
  functions and proves its functions against it; the `lemma_*` proof
  functions state the laws (round trips, order preservation, what `define`
  returns and keeps, what a lookup in an inventory finds, how a run ends).
- `src/storage.rs` — how a storage container's open mode maps to options.
- `app/` — what touches memory by address or the outside world: the
  interpreter's run loop, the RocksDB backend's C interface, and `Display`
  and `Write` adapters.
- `tests/` — tests of the library.

The interpreter runs one instruction per `Subroutine::step`; instructions
that read memory or need an address hand that work to the caller, which
completes them with `complete_load` and `complete_address`.
