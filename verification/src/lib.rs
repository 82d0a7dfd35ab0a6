//! Verified authentication core of a remote-access web service: password login, session tokens, a
//! pairing token that survives restarts, the devices that were seen or blocked, and a rate limiter
//! for failed logins.

pub mod access_store;
pub mod auth;
pub mod clock;
pub mod devices;
pub mod headers;
pub mod laws;
pub mod login;
pub mod passwords;
pub mod phc;
pub mod rate_limit;
pub mod text;
pub mod tokens;
