# gitlawb-node

The core of a gitlawb node, written in Verus: what the node decides and computes, with its
contracts proved.

- `src/identity/`: how a start gets the node's identity key from disk, or makes one. Publishing,
  loading, crash recovery, the sweep and the claims' heartbeat are state machines over file
  operations.
- `src/p2p/`: the book of addresses that peers report, the swarm's state, keys and messages.
- `src/state/`: write leases, encryption tasks in flight, work budgets, the scan token's key.
- `src/startup/`: the order of the start, the retries of the database, gossip, rate limits, the
  drain at the end.
- `src/metrics.rs`: the node's counters and gauges, in Prometheus's text format.
- `src/test_harness.rs`: the paths and the teardown of a node under test.
- `src/text.rs`, `src/bytes.rs`, `src/json.rs`: what the others build on.

Public proof functions state the laws that span several operations, such as that a recovery
moves a key only when it cannot be read, or that a claim never outlives the start that made it.
The laws on what starts leave on disk are in `src/identity/disk.rs` (the key, from one start to the
next), `src/identity/race.rs` (starts side by side) and `src/identity/leftovers.rs` (the files
beside the key).

`app/` is ordinary Rust around the library: it touches files, sockets, threads and tasks, and
hands what came of that back. A deployment brings its keys, its database and its routes by
implementing the traits in `app/deployment.rs`.

`tests/` runs the library from outside; the identity tests work on a directory in memory.
