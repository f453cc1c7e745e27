# kiro_rs

A prompt cache that is simulated in front of a model that has none, and the settings of the proxy
that it is part of. The library under `src/` is verified with Verus.

- `text`, `json`, `serde_values`: texts and JSON values, and the passage to and from `serde_json`.
- `tokens`, `request`, `path`, `plan`: from a request to its prefixes, their hashes and tokens, and
  the breakpoints that are worth caching; `headers` reads the API key and the content type.
- `store`, `lookup`, `simulator`: the cache, what a lookup reads and writes, and the simulator that
  holds the two together.
- `cch`, `usage`: cleaning system prompts, and reporting cache tokens in responses and events.
- `env`, `config`: the settings, their defaults, and what environment variables override.
- `request_laws`, `control_laws`, `extension_laws`, `plan_laws`, `lookup_laws`, `config_laws`: what
  holds of all requests, plans, lookups and settings.

`tests/` runs the library on given values. `app/` is the ordinary Rust around it: files, the
process environment, locks and logs.
