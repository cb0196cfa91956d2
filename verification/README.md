# aletheia_storage

The storage layer of a bi-temporal graph database, with its behaviour stated in contracts that
Verus proves.

- `src/historical`: the version history. Versions form chains of anchors and deltas; reads walk
  them, in two times, and agree with what was written, whatever the caches hold and wherever
  versions were moved.
- `src/current`: the graph as it is now: nodes and edges, adjacency in a frozen and a fresh layer,
  property and vector indexes, snapshots of vectors over time, paging, namespaces, and searches for
  similar nodes.
- `src/sharding`: clients of shards, circuit breakers, connection pools, and queries to several
  shards.
- `src/index_persistence`: the errors of keeping indexes on disk.

The laws of each part are public proof functions whose names begin with `law_`. What is believed
without proof stands in `historical/cache.rs` (`quick_cache`), `current/registry.rs` (`dashmap`),
`index_persistence/error.rs` (`bitcode`) and `time.rs` (the clock and the text of durations).

How similar two vectors are is left to the caller, who hands in the search: floating-point numbers
are stored by their bit patterns. `app/` holds such searches, locks and threads, the guarded calls
of hooks, the moving of versions to a cold store, the restoring of a snapshot, and impls of outside
traits.
