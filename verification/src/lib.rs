//! The engine of a proof-of-work gate for HTTP servers.
//!
//! A client that is challenged searches a nonce whose hash lies below a target,
//! submits it together with a public key, and is given a clearance cookie; later
//! requests pass on the cookie, with a signature per request where one is asked
//! for. The server keeps no state per client: challenges, grants and clearances
//! are bound to it by HMACs.
//!
//! Tokens and rules:
//!
//!   * [`target`]        difficulty, target and the hash check
//!   * [`pow`]           challenge issuance and solution verification
//!   * [`clearance`]     the clearance token
//!   * [`request_proof`] the per-request proof
//!   * [`nojs`]          the grant of the no-JS challenge
//!   * [`decision`]      the operator's per-request verdict
//!   * [`ranges`]        IP ranges and host suffixes of good bots
//!   * [`replay`]        a captured request inside the challenge page
//!   * [`uri`]           targets that may be handed back to a client
//!
//! [`server`] answers requests with them, on plain values; [`perf`] is the client's
//! side of the handshake. The other modules hold what these share: [`text`],
//! [`number`], [`bytes`], [`address`], [`codec`], [`json`] and [`mac`].
//!
//! The functions state what they return, and what they state is proved; of a draw of
//! random bytes and of a reading of the clock nothing is claimed, but what is made of
//! each is stated. The laws at the end of each module say what the functions are for.
//! What `base64`, `hmac`, `sha2`, `subtle`, `p256`, `getrandom` and `serde_json` compute
//! is taken from those crates; the functions that call them say what is relied on.

pub mod address;
pub mod bytes;
pub mod clearance;
pub mod codec;
pub mod decision;
pub mod json;
pub mod mac;
pub mod nojs;
pub mod number;
pub mod perf;
pub mod pow;
pub mod ranges;
pub mod replay;
pub mod request_proof;
pub mod server;
pub mod target;
pub mod text;
pub mod uri;
