# wdic_gateway

A local-network gateway: gateways announce themselves by UDP broadcast,
keep a registry of the others, answer directory searches and file requests,
and watch their own performance.

The library under `src/` is verified with Verus:

- `path`, `security`: Unix path components, normalisation, allowed roots,
  file size limits, and the filter applied to search results.
- `address`: socket addresses and the broadcast addresses of a gateway.
- `registry`: the gateways known to a gateway, keyed by identifier.
- `connections`: the peers heard from, and their expiry.
- `directory`: directory indexes, mounted directories and keyword search.
- `tokens`: the UDP tokens and the answers to searches and file requests.
- `sources`: the choice of the nearest gateways to ask for a cached file.
- `gateway`: configuration, and what the gateway does with each message.
- `performance`: traffic, connection and memory counters, and a registry
  workload.
- `text`: decimal numbers and joined lists.
- `runtime`: the clock and fresh identifiers.
- `laws`: properties relating several operations.

`app/` is the program around it: sockets, tasks and timers (tokio), the
JSON forms of messages and tokens (serde), system readings (sysinfo), and
the floating-point statistics and reports.
