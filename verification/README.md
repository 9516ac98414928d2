# clavem

An AI API gateway. Clients point their existing SDK at clavem, clavem holds
the real provider credentials, forwards the request unchanged, and records
token usage on the way back.

The gateway's decisions are a library, written in Verus and proved against the
contracts that stand at its functions:

- `src/config.rs`: which configurations are accepted, and what they become
- `src/provider.rs`: routing by path prefix, upstream URLs, headers and
  credentials
- `src/proxy.rs`: one request from its head to the end of its response, as a
  state machine, and the errors that clients are answered with
- `src/sniffer.rs`, `src/sse.rs`, `src/line_endings.rs`: what a response has used,
  read while it passes through, whatever its line endings
- `src/usage.rs`: totals per provider and model
- `src/headers.rs`, `src/json.rs`, `src/text.rs`, `src/names.rs`: header maps,
  JSON documents, strings and name-ordered maps

What holds of the library as a whole is stated by the proof functions whose
names start with `law_`.

`app/` is the program around it: arguments, files, sockets and logs. `tests/`
runs the library with the `http` and `serde_json` crates that it calls.

## Configure

Each `[[provider]]` block of `~/.config/clavem/clavem.toml` is one upstream
instance:

```toml
[[provider]]
name = "anthropic"
kind = "anthropic"
base_url = "https://api.anthropic.com"
key_file = "~/.config/clavem/anthropic.key"
```

`name` is the path prefix clients use. `kind` selects the wire dialect and
decides which header carries the credential: `anthropic` (`x-api-key`), `xai`
(`Authorization: Bearer`) or `azure` (`api-key`). Credentials are read from a
file per instance, one line, key only.

Metering covers the Anthropic dialect. Usage is logged per request and totalled
per provider and model, printed on graceful shutdown.
