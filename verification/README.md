# marketplace

The verified core of a small marketplace web service, written in Verus.

- `src/` is the library, proved with Verus:
  - `codec` — unpadded URL-safe base64 as a specification, with proofs that an
    encoding uses only the URL-safe alphabet and determines its bytes;
  - `mac` — the HMAC-SHA-256 tag;
  - `jwt` — session tokens `header.claims.signature`: signing, splitting,
    signature check, and the header, claims and expiry checks as steps the
    caller drives, with round-trip and injectivity laws;
  - `auth` — reading a `Bearer` credential from the raw `Authorization` header;
  - `password` — Argon2id password hashes;
  - `purchase` — the purchase workflow as a state machine driven by the caller's
    database transaction, with the law that a purchase commits exactly when the
    product exists, is in stock and is affordable;
  - `account`, `catalog`, `error`, `text` — login decisions, wallets, listing
    writes, handler errors and the text of response messages.
- `app/` is the HTTP server (axum, sqlx, tokio): routes, database queries,
  environment, clock and JSON, calling the library for every decision.
- `tests/` runs the library on concrete values.
