# RustyGate

An OpenAI-compatible inference gateway whose decision-making core is verified
with Verus.

## Layout

- `src/` — the verified library. Request models and validation, model
  aliases and pools, routing policies (priority, cost, latency, prefix
  affinity), retries with bounded backoff, circuit breakers, admission control,
  the streaming relay, response-cache keys, API-key formats and quotas, config
  validation, the metrics registry, the totals recomputed from the stored
  request log, and the Prometheus text format. Calls into
  `sha2`, `lru`, `argon2`, `subtle`, `uuid` and `serde_json` go through small
  trusted wrappers whose contracts are stated next to them.
- `tests/` — tests of the library through its public API.
- `app/` — the server around the library: configuration loading, the axum
  routes and middleware, HTTP providers, SQLite storage, token-bucket rate
  limiting, and the floating-point parts of metrics (costs, averages,
  percentile ranks).

## Running

`rustygate` serves the gateway with the configuration named by
`RUSTYGATE_CONFIG`; `rustygate keys create|list|revoke|rotate` manages API keys
in the configured SQLite database.
