//! Authenticate by oauth2: verifies a token by introspection at the
//! authorization server.
//!
//! An OAuth 2.0 access token says nothing a resource server can check by
//! looking at it; RFC 7662 has the resource server ask whoever issued it.
//! The token's subject is presented as the claim, with the token riding as
//! the `oauth2.token` proof, or as `bearer.token` where what read it off the
//! `Authorization` header called it that. The [`Verifier`] has the token
//! posted to the introspection endpoint the configuration names and holds the
//! answer to account: `active` is true, `exp` has not passed and `nbf` has
//! come with the configured leeway, the issuer and audience are the expected
//! ones where any are expected, every scope the node requires is in `scope`,
//! and the subject (`sub`, or `client_id` where the token was issued to a
//! client on its own behalf and has no `sub`) is the value that was claimed.
//!
//! A member that is `null` is as good as none. An `exp` or `nbf` that is there
//! otherwise and is no integer, and a `sub` that is there otherwise and is no
//! text, are not taken for none: the answer is refused.
//!
//! Offline is the default (ADR-0045): the call is made only where the
//! endpoint is loopback or the configuration says the node is online, and is
//! otherwise refused with that reason; see [`introspection`]. Nothing is
//! cached: every verification is one call, so a token revoked at the server
//! is refused at the next arrival.
//!
//! What this does not cover: a JWT access token validated locally (RFC 9068)
//! is another authenticator's; TLS to the endpoint is the host's (see
//! [`Introspection`]); the scopes are checked here and not carried onward,
//! because [`Verified`] has no place for them.
//!
//! The modules: [`authenticator`] holds the verifier, [`introspection`] the call
//! that it has made, [`answer`] what came back, read out of [`json`], and
//! [`claim`] what is presented to it and what it says. [`percent`],
//! [`base64`], [`text`] and [`clock`] are what these are written with. What
//! holds across them stands in [`laws`].
pub mod answer;
pub mod authenticator;
pub mod base64;
pub mod claim;
pub mod clock;
pub mod introspection;
pub mod json;
pub mod laws;
pub mod mechanism;
pub mod percent;
pub mod text;

pub use answer::{Answer, Audience, Stamp, Subject};
pub use claim::{AuthenticateError, Mechanism, Presented, Verified};
pub use clock::now;
pub use authenticator::{Verifier, BEARER_TOKEN, TOKEN};
pub use introspection::{Http, Introspection};
