use vstd::prelude::*;

verus! {

/// The uniform error taxonomy. Every failure a caller can observe is one of
/// these variants, returned in-band as part of a structured result, never as
/// a transport-level fault.
#[derive(Clone, PartialEq, Eq, Debug)]
pub enum DbError {
    /// The tenant has no registered pool; the caller must re-establish its
    /// link before issuing requests.
    NotLinked,
    /// The pool was exhausted or the database was unreachable when a
    /// connection was requested; carries the pool's message.
    Pool(String),
    /// The database rejected the statement or query; carries the driver's
    /// message.
    Db(String),
    /// A result cell's type has no encoder, or the row buffer could not be
    /// constructed.
    Encoding(String),
    /// Malformed connection parameters at link establishment; the link is
    /// rejected rather than silently creating a broken pool.
    Config(String),
}

} // verus!
