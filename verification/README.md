# s2d2

A spatially sharded database, as a verified library with the programs around it.

- `src/` is the library, verified with Verus:
  - `geometry`, `lookup`, `operations`, `command`: the master node — grid cells,
    the table that maps a point to the zone node owning it, the plan of ports
    for new nodes, and the console language.
  - `store`, `handle`, `context`, `metadata`, `network`, `certificate`, `config`:
    the zone node — its key-value store and request protocol, its neighbours,
    its certificates and the identity they carry.
  - `quad_tree`: a point quad tree.
  - `shared`, `lookup_spatial`, `lookup_traditional`: the two lookup strategies
    compared by the load tests.
  - `text`, `json`, `dash`: text helpers and the contracts given to the outside
    crates (serde_json, dashmap) that the library calls.
- `app/` holds the programs: `s2d2 master`, `s2d2 zone-node <config.json>`, and
  the two load tests. They do the I/O and call the library for every decision.
- `tests/` runs the library on concrete values.
