# authenticate_oauth2

Authenticate by oauth2: verifies a token by introspection at the authorization
server.

It has the authorization server's RFC 7662 introspection endpoint asked whether
a token is active, and checks `exp`, `nbf`, the issuer, the audience, the
required scopes and that the subject is the claim. An `exp`, `nbf` or `sub`
that is there, is not `null` and cannot be read is refused. The call is made over plain
HTTP, only where configuration says the node is online or the endpoint is
loopback, and is refused saying why otherwise (ADR-0045). HTTPS to the endpoint
and local JWT access-token validation are not covered.

- `src/` is the library, verified with Verus: what is asked, whom it may be
  asked of, and what must come back. It opens no connection.
- `app/` is ordinary Rust around it: it resolves, connects and exchanges, and
  makes the verifier one of the estate's authenticators.
- `tests/` runs the library.

What is taken on trust is marked `external_body`, `assume_specification` or
`uninterp` where it stands: `serde_json`'s reading of a text (`src/json.rs`),
the system's clock and a duration in seconds (`src/clock.rs`).
