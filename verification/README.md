# quic-perf

A QUIC performance baseline. A listener serves a tiny protocol: a stream opens with
an eight byte request, zero announces an upload, any other number asks for that many
bytes. A dialer runs uploads, downloads and latency tests against it, one connection
each, and reports order statistics as YAML on standard output. The two find each
other through a key in a Redis store.

- `src/` is the library, verified with Verus: the request protocol, both sides of a
  stream and of a connection, the run through the tests, statistics, addresses,
  configuration and the report.
- `app/` runs the library on one of four QUIC stacks, named by the first argument:
  `quiche`, `quinn`, `tokio-quiche` or `tquic`. It does the network and Redis
  traffic, reads the clock and the environment, and computes with floating point.
- `tests/` runs the library on given values.

The library does no input or output. Where a stack asks, it answers what to do next;
where a stack reports what came of it, it takes that in. Times are nanoseconds that
the caller reads from its clock. Measured values are the bits of IEEE 754 doubles:
the library orders them, ranks them and tells outliers apart, and is handed the two
functions that do arithmetic on them.

The environment says what to run:

| variable | meaning | default |
| --- | --- | --- |
| `IS_DIALER` | `true` for a dialer | a listener |
| `REDIS_ADDR` | where the store is | `redis:6379` |
| `TEST_KEY` | the name of the test run | `default` |
| `UPLOAD_BYTES`, `DOWNLOAD_BYTES` | bytes per test | 1073741824 |
| `UPLOAD_ITERATIONS`, `DOWNLOAD_ITERATIONS` | number of tests | 10 |
| `LATENCY_ITERATIONS` | number of tests | 100 |

What is believed without proof of other crates stands beside the calls:
`credentials.rs` (rcgen, ring), `payload.rs` (bytes), `perf_socket.rs` (slab) and
`report.rs` (lower case in the standard library).
