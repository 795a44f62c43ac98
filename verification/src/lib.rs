//! A verified core for a cookie-keyed, in-memory session store.
//!
//! The library models session identity issuance, the per-visitor typed
//! attribute store, the session table with its idle-expiry sweep, the
//! per-request gateway that resolves a cookie to a session record, and the
//! typed accessor contract used by request handlers.  The asynchronous
//! shell (HTTP routing, cookie transport, the background sweeper task)
//! drives these functions from outside.

pub mod assoc;
pub mod auth;
pub mod config;
pub mod errors;
pub mod gateway;
pub mod record;
pub mod session;
pub mod table;
pub mod token;
