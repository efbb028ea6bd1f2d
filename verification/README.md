# beckon

Plans type-safe HTTP clients from endpoint definitions, and holds the helpers
that the generated clients call. The library is verified with Verus.

- `src/input.rs`: the client definition (name, endpoints, auth, retries).
- `src/parse.rs`: the grammar of a client definition over the macro's input tokens.
- `src/expanders/`: validation and the plan of a client, meaning its type names,
  method names, method signatures, retry counts and auth parameters.
- `src/client.rs`, `src/auth.rs`, `src/runtime.rs`: what a generated client calls,
  meaning request preparation, the auth header, the status check and its error,
  path encoding, and retries with backoff.
- `app/`: the macro's work (`beckon_expand`): it flattens the input tokens, parses
  them with the library and writes the plan out as Rust tokens with `quote!`. The
  code it writes calls the library, and uses `reqwest`, `serde_json` and `tokio`.
