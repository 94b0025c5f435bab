# Linkwise

Linkwise is a self-hosted bookmark manager that runs as a Cloudflare Worker on D1. This
crate holds its logic as a library verified with Verus, and the worker around it.

## Layout

- `src/` — the verified library:
  - `text.rs`: character-level string tools (trimming, splitting, decimal notation).
  - `base64url.rs`, `cbor.rs`, `crypto.rs`: encodings, the CBOR reader, SHA-256 and hex.
  - `weburl.rs`: the parts of a URL that the `url` crate parses.
  - `db.rs`, `paths.rs`, `ordering.rs`: folder paths, URL normalization, bookmark saving,
    moving and reordering rules.
  - `folders.rs`, `import.rs`, `settings.rs`: folder order rows, bulk import, WebDAV settings.
  - `auth.rs`, `routes.rs`: sessions, cookies, tokens, request guards, rate limits and the
    decisions of the authentication endpoints.
  - `webauthn.rs`: passkey registration and login checks.
  - `export.rs`, `models.rs`, `error.rs`: export file, shared records, error texts.
- `app/` — the worker: routing, D1 statements, the JavaScript clock, randomness and Web
  Crypto, and JSON (de)serialization.
- `tests/` — tests of the library.
