# hydra

The verified core of the Hydra queue runner and of the builders that connect
to it, written in Verus.

- `src/protocol`: the RPC messages, their length-prefixed framing and the
  incremental frame reader.
- `src/server.rs`: routing, authentication, query parameters and the version
  handshake of the queue runner's RPC server.
- `src/client.rs`: the builder's gateway endpoint, its failure messages and
  the receiving loop of the tunnel.
- `src/dispatch.rs`: the order in which ready steps are offered to machines.
- `src/steps.rs`: decisions about steps: required features, limits, log
  files, output checks, retries and queue notifications.
- `src/queue.rs`: the steps dispatched to machines.
- `src/resolve.rs`: resolving inputs of content-addressed derivations.
- `src/notify.rs`: notification payloads and the callers waiting for builds.
- `src/io.rs`: status reports and the parsing of cgroup statistics.
- `src/text.rs`: the string functions the rest is written with.

`app/` holds what stays outside Verus: serde wire types, HTTP glue, reading
files under `/proc` and `/sys`, and asynchronous waiting.
