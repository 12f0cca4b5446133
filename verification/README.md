# dactor (verified core)

The library in `src/` holds the scheduling and bookkeeping logic of the
dactor actor framework, with contracts proved by Verus:

- `outbound_queue` / `outbound_model` / `outbound_laws`: the per-destination
  outbound priority queue (five priority lanes with optional fairness, or a
  pluggable comparer; stream/feed items in a FIFO interleaved with the
  priority side), its abstract model, and the properties proved of it
  (every popped envelope was queued and none is lost or repeated, FIFO
  streams, no starvation, strict order and a bounded run per lane under
  fairness, stable drain order, the comparer's pick).
- `registry`, `name_map`: the name registry of actor refs.
- `type_registry`: decoders and factories by type name for remote messages
  and remote spawning.
- `fault`: the test harness's active-fault table (kept in a `DashMap`).
- `events`: the decisions of the event waiter, and what a whole wait
  delivers.
- `mailbox`, `message`, `remote`, `actor`, `clock`: supporting types.

`app/` holds what needs run-time type information, serde, async I/O or
locking: thread-safe type-erased registries, JSON decoders and factories,
and the async event stream of test nodes.
