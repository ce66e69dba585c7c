//! The decision half of the request dispatcher. Each call-boundary request
//! resolves its tenant in the registry, borrows a pooled connection, runs
//! the statement, and assembles a structured result; the connection borrow
//! and the statement run are network I/O and happen outside this crate.
//! What stands here is everything decided from plain values: whether a
//! tenant is linked, and how every possible driver outcome becomes a
//! structured result. Database and encoding failures are returned as data in
//! the result -- never by aborting the call -- so a caller can tell "the
//! query failed" from "the transport failed".

use vstd::prelude::*;

use crate::cell::Cell;
use crate::codec::{encode_rows, rows_bytes, rows_ok};
use crate::error::DbError;
use crate::registry::Registry;

verus! {

/// One column of a fetched result set: the name the database reports, the
/// zero-based position, and the database type name that chose the cell
/// encoding.
#[derive(Clone, PartialEq, Eq, Debug)]
pub struct Column {
    pub name: String,
    pub ordinal: u32,
    pub db_type: String,
}

/// The outcome of `execute`: a rows-affected count or an in-band error,
/// never both.
#[derive(Clone, PartialEq, Eq, Debug)]
pub struct ExecuteResult {
    pub rows_affected: u64,
    pub error: Option<DbError>,
}

/// The outcome of `fetch`: column descriptors, the row count, and the
/// encoded row buffer -- or an in-band error.
#[derive(Clone, PartialEq, Eq, Debug)]
pub struct FetchResult {
    pub columns: Vec<Column>,
    pub num_rows: u64,
    pub rows: Vec<u8>,
    pub error: Option<DbError>,
}

/// First step of the execute path: resolve the tenant. A tenant that is not
/// linked yields the complete `NotLinked` result; a linked one yields its
/// pool handle, from which the caller borrows a connection.
pub fn execute_begin<'a, P>(reg: &'a Registry<P>, tenant: &String) -> (r: Result<
    &'a P,
    ExecuteResult,
>)
    requires
        reg.wf(),
    ensures
        match r {
            Ok(p) => reg@.contains_key(tenant@) && *p == reg@[tenant@],
            Err(e) => !reg@.contains_key(tenant@) && e.rows_affected == 0 && e.error == Some(
                DbError::NotLinked,
            ),
        },
{
    match reg.lookup(tenant) {
        Some(p) => Ok(p),
        None => Err(ExecuteResult { rows_affected: 0, error: Some(DbError::NotLinked) }),
    }
}

/// First step of the fetch path: resolve the tenant, as `execute_begin`.
pub fn fetch_begin<'a, P>(reg: &'a Registry<P>, tenant: &String) -> (r: Result<&'a P, FetchResult>)
    requires
        reg.wf(),
    ensures
        match r {
            Ok(p) => reg@.contains_key(tenant@) && *p == reg@[tenant@],
            Err(e) => !reg@.contains_key(tenant@) && e.columns@.len() == 0 && e.num_rows == 0
                && e.rows@.len() == 0 && e.error == Some(DbError::NotLinked),
        },
{
    match reg.lookup(tenant) {
        Some(p) => Ok(p),
        None => Err(
            FetchResult {
                columns: Vec::new(),
                num_rows: 0,
                rows: Vec::new(),
                error: Some(DbError::NotLinked),
            },
        ),
    }
}

/// The execute result for a statement the database ran: the driver's
/// rows-affected count, no error.
pub fn execute_done(rows_affected: u64) -> (r: ExecuteResult)
    ensures
        r.rows_affected == rows_affected,
        r.error is None,
{
    ExecuteResult { rows_affected, error: None }
}

/// The execute result when no connection could be borrowed from the pool:
/// the pool's message, in band.
pub fn execute_pool_error(message: String) -> (r: ExecuteResult)
    ensures
        r.rows_affected == 0,
        r.error == Some(DbError::Pool(message)),
{
    ExecuteResult { rows_affected: 0, error: Some(DbError::Pool(message)) }
}

/// The execute result when the database rejected the statement: the
/// driver's message, in band.
pub fn execute_db_error(message: String) -> (r: ExecuteResult)
    ensures
        r.rows_affected == 0,
        r.error == Some(DbError::Db(message)),
{
    ExecuteResult { rows_affected: 0, error: Some(DbError::Db(message)) }
}

/// The fetch result when no connection could be borrowed from the pool.
pub fn fetch_pool_error(message: String) -> (r: FetchResult)
    ensures
        r.columns@.len() == 0,
        r.num_rows == 0,
        r.rows@.len() == 0,
        r.error == Some(DbError::Pool(message)),
{
    FetchResult {
        columns: Vec::new(),
        num_rows: 0,
        rows: Vec::new(),
        error: Some(DbError::Pool(message)),
    }
}

/// The fetch result when the database rejected the query.
pub fn fetch_db_error(message: String) -> (r: FetchResult)
    ensures
        r.columns@.len() == 0,
        r.num_rows == 0,
        r.rows@.len() == 0,
        r.error == Some(DbError::Db(message)),
{
    FetchResult {
        columns: Vec::new(),
        num_rows: 0,
        rows: Vec::new(),
        error: Some(DbError::Db(message)),
    }
}

/// Last step of the fetch path: assemble the result from the rows the
/// driver returned, already read into cells. `names` and `types` describe
/// the columns of the first row, in the order the database reports them;
/// every row carries one cell per column.
///
/// A query returning zero rows yields the empty result -- no columns, no
/// bytes, no error. A cell no encoder accepts yields an in-band `Encoding`
/// error and no partial buffer. Otherwise the result carries one descriptor
/// per column with ordinals numbered from zero in input order, the exact
/// row count, and the encoded buffer.
pub fn fetch_assemble(names: Vec<String>, types: Vec<String>, rows: &Vec<Vec<Cell>>) -> (r:
    FetchResult)
    requires
        names@.len() == types@.len(),
        names@.len() <= u32::MAX,
        forall|i: int| 0 <= i < rows.deep_view().len() ==> #[trigger] rows.deep_view()[i].len()
            == names@.len(),
    ensures
        rows.deep_view().len() == 0 ==> r.columns@.len() == 0 && r.num_rows == 0 && r.rows@.len()
            == 0 && r.error is None,
        rows.deep_view().len() > 0 && !rows_ok(rows.deep_view()) ==> r.columns@.len() == 0
            && r.num_rows == 0 && r.rows@.len() == 0 && (r.error matches Some(e) && e is Encoding),
        rows.deep_view().len() > 0 && rows_ok(rows.deep_view()) ==> r.error is None && r.num_rows
            == rows.deep_view().len() && r.rows@ == rows_bytes(rows.deep_view()) && r.columns@.len()
            == names@.len() && forall|i: int|
            0 <= i < names@.len() ==> (#[trigger] r.columns@[i]).name@ == names@[i]@
                && r.columns@[i].ordinal == i && r.columns@[i].db_type@ == types@[i]@,
{
    if rows.len() == 0 {
        return FetchResult { columns: Vec::new(), num_rows: 0, rows: Vec::new(), error: None };
    }
    match encode_rows(rows) {
        Err(e) => FetchResult {
            columns: Vec::new(),
            num_rows: 0,
            rows: Vec::new(),
            error: Some(e),
        },
        Ok(buf) => {
            let mut columns: Vec<Column> = Vec::new();
            let mut i: usize = 0;
            while i < names.len()
                invariant
                    i <= names@.len(),
                    names@.len() == types@.len(),
                    names@.len() <= u32::MAX,
                    columns@.len() == i,
                    forall|j: int| 0 <= j < i ==> (#[trigger] columns@[j]).name@ == names@[j]@
                        && columns@[j].ordinal == j && columns@[j].db_type@ == types@[j]@,
                decreases names@.len() - i,
            {
                let name = names[i].clone();
                let db_type = types[i].clone();
                columns.push(Column { name, ordinal: i as u32, db_type });
                i += 1;
            }
            FetchResult { columns, num_rows: rows.len() as u64, rows: buf, error: None }
        },
    }
}

} // verus!
