//! A per-tenant database-access broker: it keeps one bounded connection pool
//! per tenant, dispatches SQL statements and queries to the right pool, and
//! serialises result rows into a compact, self-describing binary form.
//!
//! The verified core is the tenant registry (a map from tenant identifier to
//! pool handle), the row codec (encoding and decoding of result rows, with a
//! proved round trip), and the decision half of the request dispatcher.
//! Network I/O, the async runtime and the database driver live outside this
//! crate and hand plain values in and out.

pub mod cell;
pub mod codec;
pub mod config;
pub mod dispatch;
pub mod error;
pub mod registry;
