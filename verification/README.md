# robot_fleet

The rules of a robot fleet, verified with Verus: which devices may enrol and how often, what an
update job goes through, which artifact is the newest, what the bytes of a telemetry frame say,
and when an update is installed.

## Layout

- `src/device/` — the fleet's records, factory provisioning, enrolment, heartbeats, telemetry
  counters and the requests of the device-management service; `laws.rs` states what holds of the
  records whatever happens to them.
- `src/ota/` — update jobs, the channels on which devices are told about them, and the requests of
  the update service.
- `src/artifact/` — the register of published artifacts and the requests of the artifact store.
- `src/agent/` — the robot's side: credentials, retries, the telemetry wire format, statistics and
  the installation of updates.
- `src/pki/` — certificate requests, certificates and mutual TLS; `laws.rs` states what holds of a
  certificate from the request to the check of its signature.
- `src/keyed.rs`, `src/selection.rs`, `src/scan.rs`, `src/text.rs`, `src/status.rs`,
  `src/sources.rs` — tables with unique keys, ordered selections, text, answers, and what the
  machine supplies (the time and fresh identifiers).
- `app/` — the four programs around the library: databases, sockets, files, gRPC.
- `tests/` — the library at work.

## What is taken on trust

Functions marked `#[verifier::external_body]` call other crates: `rcgen`, `rustls`,
`rustls_pemfile` and `x509_parser` for certificates, `sha2` and `hex` for checksums, tokio's
broadcast channels, `time` and `uuid`. The comment above each one says what is claimed of the
call. Everything else is proved.

The records work on tables in memory. The programs load a table inside a database transaction, run
one verified operation on it and write it back.
