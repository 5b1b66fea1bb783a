//! The HTTP side: what is answered to a request, given the request and the
//! configuration as plain values.
//!
//!   * [`config`]    directives and their inheritance
//!   * [`runtime`]   resolved configuration, cookies, headers, the request body
//!   * [`response`]  a complete response
//!   * [`challenge`] challenge pages and the internal routes
//!   * [`access`]    the allow / deny / challenge decision
//!   * [`clearance`] the clearance cookie and the per-request proof
//!   * [`pow`]       the `challenge` and `verify` endpoints
//!   * [`nojs`]      the `pass` endpoint
//!   * [`capture`]   a challenged request that survives the challenge
//!   * [`good_bots`] the verified good-bot allowlist

pub mod access;
pub mod capture;
pub mod challenge;
pub mod clearance;
pub mod config;
pub mod good_bots;
pub mod nojs;
pub mod pow;
pub mod response;
pub mod runtime;

