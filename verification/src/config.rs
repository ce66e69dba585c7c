//! Connection parameters for one tenant's pool, resolved once at link
//! establishment, and their validation: malformed parameters reject the
//! link rather than silently creating a broken pool.

use vstd::prelude::*;

use crate::error::DbError;

verus! {

/// How the transport to the database is secured. Only `Disabled` ships; a
/// TLS transport substitutes at the connection layer without changing any
/// contract here.
#[derive(Clone, Copy, PartialEq, Eq, Structural, Debug)]
pub enum TlsMode {
    Disabled,
    Required,
}

/// Connection parameters for one tenant: where the database lives, who
/// connects, and how large the tenant's pool may grow.
#[derive(Clone, Debug)]
pub struct ConnectionConfig {
    pub host: String,
    pub port: u16,
    pub database: String,
    pub user: String,
    pub password: String,
    pub tls: TlsMode,
    /// Upper bound on live connections in this tenant's pool; requests
    /// beyond it wait or fail rather than opening more connections.
    pub pool_max_size: u32,
}

/// Well-formed connection parameters: a named host, a nonzero port, a named
/// database and user, and room for at least one connection.
pub open spec fn config_wf(c: ConnectionConfig) -> bool {
    &&& c.host@.len() > 0
    &&& c.port > 0
    &&& c.database@.len() > 0
    &&& c.user@.len() > 0
    &&& c.pool_max_size >= 1
}

/// Accepts exactly the well-formed configurations; anything else is a
/// `Config` error naming the first offending field, raised at link
/// establishment so the link is rejected.
pub fn validate_config(c: &ConnectionConfig) -> (r: Result<(), DbError>)
    ensures
        r is Ok <==> config_wf(*c),
        r matches Err(e) ==> e is Config,
{
    if c.host.as_str().is_empty() {
        return Err(DbError::Config("connection host is empty".to_owned()));
    }
    if c.port == 0 {
        return Err(DbError::Config("connection port is zero".to_owned()));
    }
    if c.database.as_str().is_empty() {
        return Err(DbError::Config("database name is empty".to_owned()));
    }
    if c.user.as_str().is_empty() {
        return Err(DbError::Config("database user is empty".to_owned()));
    }
    if c.pool_max_size == 0 {
        return Err(DbError::Config("pool size bound is zero".to_owned()));
    }
    Ok(())
}

} // verus!
