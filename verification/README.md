# sendword

An HTTP webhook receiver that runs shell commands, scripts or HTTP calls,
with the decisions it makes proved correct by Verus.

- `src/` is the verified library: configuration model, payload validation
  and interpolation, trigger rules (filters, time windows, cooldowns, rate
  limits), execution barriers, retry policy, secret masking and log
  streaming, the hook edit form and the edits it makes to a `sendword.toml`
  document, backup retention and scheduling, and the text helpers they
  rest on. Calls into other crates (regex, humantime, chrono, cron,
  serde_json, toml_edit, argon2, base64, rand, rust-s3) go through small
  trusted wrappers whose contracts say what is assumed of them.
- `app/` is the service around it: command line, configuration loading,
  SQLite storage, process spawning, S3 transfers, and an HTTP server with
  the webhook endpoint, health, and the execution status, log and log
  stream API. The dashboard pages (hook editing, approvals, scripts,
  settings, login) are not served: their templates and the login crate
  are not part of this project.
- `tests/` exercises the library on concrete values.
