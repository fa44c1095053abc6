# scanengine

An incremental complex-event-processing scanner engine: it keeps
per-instrument OHLC state from market ticks, evaluates only the rules that
can apply to each tick's instrument, and emits a signal when a rule starts
firing (a rising edge). Around it stand the resilience primitives that guard
its boundaries: a token-bucket rate limiter, a circuit breaker, a bulkhead
and a retry policy with jittered exponential backoff.

## Layout

- `src/` is the library, written in Verus. Its functions carry
  `requires`/`ensures` contracts over mathematical models (`Seq`, `Set`,
  `Map`, `int`); where a result rests on the machine (clock readings, random
  ids, semaphore permits held elsewhere) the contract says only what holds of
  every outcome. The laws that relate several operations (rising-edge firing,
  sequence numbering, rule registration and removal, admission budget,
  breaker transitions, retry bounds, index lookups) stand as public proof
  functions.
  - `engine.rs`: the scan engine (`ScanEngine::process` and its laws).
  - `index.rs`: the rule index by instrument scope.
  - `tick.rs`, `rule.rs`, `units.rs`, `signal.rs`, `stats.rs`: domain types.
  - `limiter.rs`, `breaker.rs`, `bulkhead.rs`, `retry.rs`, `clock.rs`,
    `timeout.rs`: resilience primitives.
  - `model.rs`, `explain.rs`, `text.rs`: API views and exact text rendering.
  - `table.rs`, `timestamp.rs`, `generator.rs`: the instrument table (a
    `dashmap::DashMap`), wall-clock instants and the deterministic tick
    generator.
- `tests/` exercises the library on concrete values.
- `app/` is the node binary: the async rule store and signal bus, the
  GraphQL API (async-graphql over axum), metrics, tracing, the command line
  and the load test. It drives the verified engine and holds what Verus
  cannot take (async code, I/O, floating point).
