# dex_simulator_core

A local simulator of PancakeSwap pools: it follows pool events from the
chain, keeps the pools' state as snapshots, finds swap paths through the
pools and simulates swaps along them.

The library in `src/` is written in Verus; each public function carries a
contract that Verus proves. `app/` is the command-line program around it
(configuration files, logging, the chain connection, the HTTP service).

## Modules of the library

- `num`, `types`, `assoc`, `order`, `text`: 256-bit integers, addresses,
  hashes, assets and pool identifiers, association lists and ordered
  sequences, decimal text.
- `abi`: ABI words, event topics, address text (the `ethers` and `hex`
  calls sit behind small trusted wrappers).
- `event`, `event_source`, `listen`: chain events, the in-memory queue,
  store and replay source, the decisions of the live log source (backfill
  chunks, reconnection waits, log to event), the sample event stream,
  subscription metadata and the planner that decides when a pool's state
  must be fetched first.
- `pancake_v2`, `pancake_v3`: event parsing, pool state and its updates,
  the swap calculators and the event handlers.
- `state`, `repository`, `snapshot_files`, `onchain`, `syncer`: snapshots,
  the pool repository and snapshot stores, snapshot file names, snapshots
  built from chain reads, and synchronisation.
- `token_graph`, `search`, `path`: the token graph and the path search.
- `simulation`, `setup`, `router`: simulation requests and results, the
  set-up of a simulation, and the event router.
- `config`, `bootstrap`, `logging`, `serve`, `utils`: settings and their
  defaults, bootstrap entries, the logging rules, the service rules and
  pool identifiers as text.
