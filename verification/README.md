# web_access

Authentication core of a remote-access web service, written in Rust and verified with Verus:
password login, session tokens, a pairing token that survives restarts, a registry and a blocklist
of devices, and a rate limiter for failed logins.

- `src/` is the verified library.
  - `auth` holds the state of the service and its operations.
  - `login` answers login, logout and authentication requests.
  - `rate_limit` limits failed logins for each address.
  - `passwords`, `phc`, `tokens`, `headers`, `clock` and `text` hold the pieces that lean on Argon2,
    UUIDs, HTTP header maps, the clocks and the standard library's text functions. Their items
    marked "Trusted" state what is taken from outside without proof.
  - `access_store` and `devices` hold stored pairing state and the registry.
  - `laws` states what holds across operations.
- `tests/` runs the library.
- `app/` is the ordinary Rust around it: axum handlers, locks, JSON and the data directory.
