# shard

One shard of a replicated message-streaming server, with the decisions it makes
proved in [Verus](https://github.com/verus-lang/verus).

A node runs one shard per core. Every shard owns some partitions, keeps a route
to all others, and drains two lanes: a main one for consensus and lifecycle
frames and one for client replies. Shard 0 also runs the metadata consensus
group and places new connections.

## Layout

`src/` is the verified library. It performs no I/O: what a consensus group, a
journal, the bus or the clock answers comes in as an argument, and what is to be
done comes back as a value.

| module | what it decides |
|---|---|
| `wire`, `frames` | prepare headers, operations, and the frames shards exchange |
| `channel` | the lanes between shards and how a refused send is classified |
| `metrics` | the counters of a shard |
| `coordinator` | which shard a connection goes to, and client ids |
| `router`, `shard` | where a message belongs, and what a shard does with it |
| `park` | frames that wait for their partition, and the budgets they wait under |
| `reconcile` | partitions, fences and routes, and the staged changes to them |
| `forwards` | logins and logouts forwarded to the primary |
| `view_log`, `control`, `view_change` | what a view change says of the log, the frames it sends, and what follows |
| `repair` | serving and ingesting journal repair |
| `serving`, `segment_cache` | state transfers served to lagging replicas |
| `transfer`, `partition_transfer` | state transfers received, on either plane |
| `allocator` | which CPUs each shard runs on |

Public proof functions named `law_..` state what holds across functions: no
request vanishes, a fence lifts only when its removal is confirmed, a parked
frame comes back, an offer is never swapped under its nonce.

The functions marked `external_body` in `channel` and `metrics` wrap the
`crossfire` channels and the `prometheus-client` counters. Each says above it
what is believed of the call.

`app/` is the runtime around the library: the pump, the timers, the bus, CPU
pinning. `tests/` exercises the library from outside.
