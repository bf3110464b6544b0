# underclass

A proxy that pools Codex and Copilot subscriptions for opencode. This crate holds its
logic as a Verus library whose contracts Verus proves. Two things stay outside it, in
`app/`: the I/O, and the floating-point mean of the pooled usage percentages, which the
library takes as one rounded-up number per pooled window.

## Layout

- `src/json.rs` — the JSON document model (`Json` and its view `JsonV`) and the object
  operations that the rest is stated over: lookup, set and remove of members.
- `src/jsonc.rs` — JSONC cleaning: comments blanked out (`json_comments`), trailing commas
  dropped outside string literals.
- `src/opencode.rs` — what `connect` writes: file locations, the provider block, merging it
  into (and removing it from) the configuration and the credential store, with the laws
  that merging is idempotent, keeps unrelated members, and is undone by removal.
- `src/jwt.rs` — the payload of an access token (`base64`) and the claims read from it.
- `src/correlation.rs` — which `x-request-id` is accepted (one canonical UUIDv4, checked
  with `uuid`) and which identity a request carries.
- `src/tokens.rs` — which credential a request uses and what a token refresh stores.
- `src/usage.rs` — reading upstream usage samples, when an exhausted window cools an
  account down, and the pooled usage report: the windows of the eligible accounts pooled
  by duration, each account counting once.
- `src/server.rs` — start-up decisions: loopback binds, where the proxy key and the UI
  token come from, catalog seeding, identity look-ups.
- `app/` — the command line and the I/O around the library: files, HTTP, the request
  middleware, JSON (de)serialisation, and the floating-point mean of pooled usage.
- `tests/` — tests of the library on concrete values.
