# RutSeriDB

A distributed time-series database. This crate is its core, written in
Verus: the library's functions carry contracts that Verus proves, except
a few small trusted wrappers whose contracts are taken from the outside
code they call: XXH64 hashing (`xxhash-rust`), LZ4 compression and
decompression (`lz4_flex`), random peer and replica choice (`rand`), the
system clock, `BTreeMap` lookups, inserts and iteration order, string
comparison and UTF-8 decoding from std.

## Layout

- `src/` — the verified library (`rutseridb`):
  - `common/` — domain types, errors and their texts, shard keys, table
    schemas, a string-keyed map, text building (decimal, SQL literals);
  - `storage/` — WAL record framing and crash-recovery reading, the
    MemTable, the `.rpart` file format (header, footer, column encodings,
    LZ4, the file layout and what reading it back gives), the MinMax,
    Bloom and inverted indexes, and the Catalog;
  - `ingest/` — schema checks and shard routing, and the decisions of a
    shard's group-commit actor;
  - `coordinator/` — the Raft-replicated metadata state, write and read
    routing, failover;
  - `query/` — the query AST and the planner that prunes Parts with the
    inverted, MinMax and Bloom indexes;
  - `gossip/` — the SWIM membership table and failure-detection
    decisions; `raft/` — the metadata log;
  - `background/` — which WAL segments cleanup may delete, and metrics;
  - `client/` — the write and query builders; `config/` — configuration
    and its defaults; `rpc/`, `api/`, `replication/` — message and
    request types.
- `tests/` — tests of the library.
- `app/` — the program around the library: command line, configuration
  and catalog files, WAL segment files and their cleanup, reading Part
  index sections for the planner, the HTTP server and client, the Tokio
  shard actors, the gossip event channel.

Files, sockets, clocks, randomness and async tasks stay outside the
library; the library takes what they produce as plain values and returns
what to do next.
