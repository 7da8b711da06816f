# server_poller

A collector of Minecraft server statuses. It polls the servers of a catalog,
tells what has changed since the last report, and forwards the changes to a
monitoring service.

`src/` is the library: what is to be decided, computed, read or written at each
step, with the contracts that Verus proves.

| module | subject |
| --- | --- |
| `models` | addresses, editions, ports, the state of a server |
| `change_detection` | what a poll reports, and when it stays silent |
| `scheduler`, `collector` | when servers are polled, what a poll leads to, ingest batches |
| `sync` | catalog refresh, triggers, force pings, discovery probes |
| `ping`, `bedrock` | results of status polls, favicons, Bedrock probes and packets |
| `geo` | caches of addresses and places |
| `wal` | the write-ahead log's format, order and bookkeeping |
| `config` | settings from environment variables |
| `grpc_clients` | rows and catalog items of the internal services |
| `json`, `text`, `bytes`, `digest`, `chance`, `table` | what the others build on |

Points in time are nanoseconds since the start of the process; fractions are
held in billionths. Where a step rests on chance, a function whose name ends in
`_with` takes the random number, and another one draws it.

`app/` is the process around the library: sockets, HTTP, Redis, files, metrics
and tasks. `tests/` runs the library on examples.
