# httpress

An HTTP benchmarking library and command-line tool. The library (`src/`)
holds the benchmark's logic, verified with Verus; the tool (`app/`) runs it
against the network.

## Layout

- `src/config.rs` — configuration types, hook contexts, parsing of duration
  text (`10s`, `1m`, `500ms`) and `Key: Value` headers, configuration from
  command-line options.
- `src/benchmark.rs` — the builder and its validation rules.
- `src/executor.rs` — the shared request counters, hook chains, and the
  per-request flow of hooks, sending and retries as a state machine.
- `src/metrics.rs` — recording results; latency statistics, percentiles,
  histogram, status-code listing and latency text.
- `src/binary64.rs` — the binary64 values that latency, span and size texts
  are printed from, computed exactly with integers.
- `src/progress.rs` — clock text and progress position.
- `src/client.rs` — request target parsing and body accounting.
- `src/time.rs`, `src/text.rs`, `src/body.rs`, `src/error.rs` — durations,
  character-level text handling, request bodies, errors.
- `app/` — the command-line tool: clap arguments, the tokio executor, the
  hyper client, indicatif progress, printing and JSON output.
- `tests/` — tests of the library.
