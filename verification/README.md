# kv_router

Diagnostics of a router's index of cached blocks, and a catalog of
worker-selection policies, written and proved in Verus.

- `src/protocols.rs`, `src/identity.rs`: the events a router receives, and the
  owner each event speaks for.
- `src/indexer/age_tracking.rs`: how long blocks stay resident, how old the
  resident ones are, and which worker holds how many. `age_model.rs` says what
  an event does, `age_laws.rs` what follows over streams of events.
- `src/indexer/demand_tracking.rs`: how much distinct content was stored lately.
- `src/indexer/redundancy.rs`: distinct blocks in an index, and their copies.
- `src/selection.rs`, `src/custom_catalog.rs`: policy names, and registering the
  catalog.
- `src/indexer/concurrent_maps.rs`, `src/indexer/clock.rs`: what is taken on
  trust of `dashmap`, `std::collections::HashSet` and `std::time::Instant`. The
  sort in `age_stats.rs` is the only other trusted function.
- `app/`: sharing between threads, floating-point seconds, and histograms.
