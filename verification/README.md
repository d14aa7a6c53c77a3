# librorum_core

The metadata and transfer-planning core of a hybrid file service, verified
with Verus. Control traffic (file metadata, listings, deletions, sync status)
is handled by the service; bulk data travels through a "data portal": POSIX
shared memory for local clients, TCP otherwise.

Layout:

- `src/` — the verified library
  - `model.rs`: file metadata, permissions, request/response messages, errors
  - `catalog.rs`: the in-memory catalogue (unique ids, insertion order)
  - `transport.rs`: transport choice, portal ports, portal plans, sessions
  - `download.rs`: download message streams and chunking
  - `service.rs`: `HybridFileServiceV2` and its request handlers
  - `laws.rs`: properties that span operations
  - `text.rs`: character-level string helpers and decimal rendering
  - `external.rs`: the trusted calls (uuid, chrono, std path and clock)
  - `data_portal.rs`: the network transport endpoint
- `app/` — the server program: async request handling, streams, storage and
  shared memory, gRPC status mapping
- `tests/` — tests of the library
