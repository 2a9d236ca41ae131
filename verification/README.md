# auth_framework

An identity, session, token and permission framework whose logic is written
in Verus and proved against its contracts.

- `src/` is the verified library:
  - `model`, `collections`, `strings`, `decimal`, `json`, `error`: users, tokens
    and sessions; insertion-ordered string sets and maps; JSON values.
  - `crypto`, `clock`: the calls into `ring`, `base64`, `subtle`, `serde_json`
    and the system clock, each behind a small trusted function.
  - `hasher`: PBKDF2 password hashes and their checking.
  - `storage`: the key/value store and its key scheme.
  - `tokens`, `jwt`, `opaque`: HMAC-SHA256 JWTs and opaque tokens, with
    revocation and refresh families.
  - `providers`: local accounts, API keys, and the trait for providers of
    one's own.
  - `policy`, `wildcard`: RBAC/ABAC checks with wildcard patterns.
  - `session`: sessions with a per-user index.
  - `auth`: the front door, with login, verification, revocation and refresh
    token rotation with reuse detection.
  - `laws`: properties relating several operations.
- `tests/` exercises the library with the outside crates linked.
- `app/` adds a thread-safe handle and the standard error traits.
