use sqldb_postgres::cell::Cell;
use sqldb_postgres::codec::{decode_rows, encode_rows};
use sqldb_postgres::config::{validate_config, ConnectionConfig, TlsMode};
use sqldb_postgres::dispatch::{
    execute_begin, execute_db_error, execute_done, execute_pool_error, fetch_assemble,
    fetch_begin, fetch_db_error, fetch_pool_error,
};
use sqldb_postgres::error::DbError;
use sqldb_postgres::registry::Registry;

fn sample_rows() -> Vec<Vec<Cell>> {
    vec![
        vec![
            Cell::Null,
            Cell::Bool(true),
            Cell::Bool(false),
            Cell::Int(-5),
            Cell::Uint(u64::MAX),
            Cell::F32Bits(1.5f32.to_bits()),
            Cell::F64Bits((-2.75f64).to_bits()),
            Cell::Text(String::from("h\u{e9}llo \u{2295} world")),
            Cell::Blob(vec![0, 1, 2, 254, 255]),
            Cell::Timestamp(-62_135_596_800_000_000),
        ],
        vec![
            Cell::Int(i64::MIN),
            Cell::Int(i64::MAX),
            Cell::Uint(0),
            Cell::F32Bits(0),
            Cell::F64Bits(u64::MAX),
            Cell::Text(String::new()),
            Cell::Blob(Vec::new()),
            Cell::Timestamp(1_700_000_000_000_000),
            Cell::Null,
            Cell::Bool(true),
        ],
    ]
}

#[test]
fn round_trip_preserves_rows_and_values() {
    let rows = sample_rows();
    let buf = encode_rows(&rows).expect("all sample cells are encodable");
    let back = decode_rows(&buf).expect("an encoded result set decodes");
    assert_eq!(back, rows);
}

#[test]
fn round_trip_empty_result_set() {
    let rows: Vec<Vec<Cell>> = Vec::new();
    let buf = encode_rows(&rows).expect("the empty result set encodes");
    assert!(buf.is_empty());
    assert_eq!(decode_rows(&buf), Some(Vec::new()));
}

#[test]
fn encoding_rejects_unsupported_cell() {
    let rows = vec![vec![Cell::Int(1), Cell::Unsupported(String::from("money"))]];
    match encode_rows(&rows) {
        Err(DbError::Encoding(_)) => {}
        other => panic!("expected an encoding error, got {:?}", other),
    }
}

#[test]
fn exact_wire_bytes_of_one_integer_row() {
    let rows = vec![vec![Cell::Int(1)]];
    let buf = encode_rows(&rows).unwrap();
    // one row: cell count 1 (little endian), tag 3, value 1 (little endian)
    assert_eq!(buf, vec![1, 0, 0, 0, 3, 1, 0, 0, 0, 0, 0, 0, 0]);
}

#[test]
fn exact_wire_bytes_of_text_and_null() {
    let rows = vec![vec![Cell::Text(String::from("ab")), Cell::Null]];
    let buf = encode_rows(&rows).unwrap();
    assert_eq!(buf, vec![2, 0, 0, 0, 7, 2, 0, 0, 0, b'a', b'b', 0]);
}

#[test]
fn decoding_rejects_unknown_tag() {
    // one row claiming one cell, with an unassigned tag
    let buf = vec![1, 0, 0, 0, 77];
    assert_eq!(decode_rows(&buf), None);
}

#[test]
fn decoding_rejects_truncated_buffer() {
    let rows = vec![vec![Cell::Uint(9)]];
    let mut buf = encode_rows(&rows).unwrap();
    buf.pop();
    assert_eq!(decode_rows(&buf), None);
}

#[test]
fn decoding_rejects_trailing_bytes() {
    let rows = vec![vec![Cell::Bool(true)]];
    let mut buf = encode_rows(&rows).unwrap();
    buf.push(0);
    // a lone trailing byte is not a whole row
    assert_eq!(decode_rows(&buf), None);
}

#[test]
fn decoding_rejects_short_row() {
    // the row claims two cells but carries only one
    let buf = vec![2, 0, 0, 0, 0];
    assert_eq!(decode_rows(&buf), None);
}

#[test]
fn draining_an_empty_registry_yields_nothing() {
    let mut reg: Registry<u32> = Registry::new();
    assert!(reg.drain_all().is_empty());
}

#[test]
fn decoding_rejects_invalid_utf8_text() {
    // one row, one text cell of two bytes that are not valid UTF-8
    let buf = vec![1, 0, 0, 0, 7, 2, 0, 0, 0, 0xc3, 0x28];
    assert_eq!(decode_rows(&buf), None);
}

#[test]
fn unlinked_tenant_is_not_resolved() {
    let reg: Registry<u32> = Registry::new();
    assert!(reg.lookup(&String::from("acme")).is_none());
    match execute_begin(&reg, &String::from("acme")) {
        Err(r) => {
            assert_eq!(r.rows_affected, 0);
            assert_eq!(r.error, Some(DbError::NotLinked));
        }
        Ok(_) => panic!("an unlinked tenant must not resolve"),
    }
    match fetch_begin(&reg, &String::from("acme")) {
        Err(r) => {
            assert_eq!(r.error, Some(DbError::NotLinked));
            assert_eq!(r.num_rows, 0);
            assert!(r.columns.is_empty() && r.rows.is_empty());
        }
        Ok(_) => panic!("an unlinked tenant must not resolve"),
    }
}

#[test]
fn linked_tenant_resolves_to_its_pool() {
    let mut reg: Registry<u32> = Registry::new();
    assert_eq!(reg.register(String::from("acme"), 7), None);
    match execute_begin(&reg, &String::from("acme")) {
        Ok(pool) => assert_eq!(*pool, 7),
        Err(_) => panic!("a linked tenant must resolve"),
    }
    match fetch_begin(&reg, &String::from("acme")) {
        Ok(pool) => assert_eq!(*pool, 7),
        Err(_) => panic!("a linked tenant must resolve"),
    }
    // other tenants stay unlinked
    assert!(reg.lookup(&String::from("globex")).is_none());
}

#[test]
fn repeated_link_replaces_the_pool() {
    let mut reg: Registry<u32> = Registry::new();
    assert_eq!(reg.register(String::from("acme"), 1), None);
    // the superseded pool is handed back for release
    assert_eq!(reg.register(String::from("acme"), 2), Some(1));
    assert_eq!(reg.lookup(&String::from("acme")), Some(&2));
}

#[test]
fn removed_link_is_not_resolved_and_pool_is_returned() {
    let mut reg: Registry<u32> = Registry::new();
    reg.register(String::from("acme"), 5);
    reg.register(String::from("globex"), 6);
    assert_eq!(reg.unregister(&String::from("acme")), Some(5));
    assert!(reg.lookup(&String::from("acme")).is_none());
    match execute_begin(&reg, &String::from("acme")) {
        Err(r) => assert_eq!(r.error, Some(DbError::NotLinked)),
        Ok(_) => panic!("a removed tenant must not resolve"),
    }
    // the other tenant is untouched
    assert_eq!(reg.lookup(&String::from("globex")), Some(&6));
}

#[test]
fn removing_an_unlinked_tenant_is_a_noop() {
    let mut reg: Registry<u32> = Registry::new();
    reg.register(String::from("acme"), 5);
    assert_eq!(reg.unregister(&String::from("globex")), None);
    assert_eq!(reg.unregister(&String::from("globex")), None);
    assert_eq!(reg.lookup(&String::from("acme")), Some(&5));
}

#[test]
fn drain_returns_every_pool_and_unlinks_everyone() {
    let mut reg: Registry<u32> = Registry::new();
    reg.register(String::from("acme"), 1);
    reg.register(String::from("globex"), 2);
    reg.register(String::from("initech"), 3);
    let mut pools = reg.drain_all();
    pools.sort();
    assert_eq!(pools, vec![1, 2, 3]);
    for t in ["acme", "globex", "initech"] {
        assert!(reg.lookup(&String::from(t)).is_none());
    }
    // the registry is usable again afterwards
    reg.register(String::from("acme"), 9);
    assert_eq!(reg.lookup(&String::from("acme")), Some(&9));
}

#[test]
fn execute_outcomes_carry_the_driver_answer() {
    let done = execute_done(42);
    assert_eq!(done.rows_affected, 42);
    assert_eq!(done.error, None);

    let db = execute_db_error(String::from("syntax error at or near \"FRM\""));
    assert_eq!(db.rows_affected, 0);
    assert_eq!(db.error, Some(DbError::Db(String::from("syntax error at or near \"FRM\""))));

    let pool = execute_pool_error(String::from("connection pool: timed out"));
    assert_eq!(pool.rows_affected, 0);
    assert_eq!(pool.error, Some(DbError::Pool(String::from("connection pool: timed out"))));
}

#[test]
fn fetch_error_outcomes_are_empty_except_the_error() {
    let db = fetch_db_error(String::from("relation \"t\" does not exist"));
    assert!(db.columns.is_empty() && db.rows.is_empty());
    assert_eq!(db.num_rows, 0);
    assert_eq!(db.error, Some(DbError::Db(String::from("relation \"t\" does not exist"))));

    let pool = fetch_pool_error(String::from("connection pool: closed"));
    assert_eq!(pool.error, Some(DbError::Pool(String::from("connection pool: closed"))));
    assert_eq!(pool.num_rows, 0);
}

#[test]
fn fetch_of_zero_rows_is_the_empty_result_not_an_error() {
    let rows: Vec<Vec<Cell>> = Vec::new();
    let r = fetch_assemble(Vec::new(), Vec::new(), &rows);
    assert_eq!(r.num_rows, 0);
    assert!(r.columns.is_empty());
    assert!(r.rows.is_empty());
    assert_eq!(r.error, None);
}

#[test]
fn fetch_assembles_columns_in_ordinal_order() {
    let names = vec![String::from("id"), String::from("name")];
    let types = vec![String::from("int8"), String::from("text")];
    let rows = vec![
        vec![Cell::Int(1), Cell::Text(String::from("ada"))],
        vec![Cell::Int(2), Cell::Text(String::from("grace"))],
    ];
    let r = fetch_assemble(names, types, &rows);
    assert_eq!(r.error, None);
    assert_eq!(r.num_rows, 2);
    assert_eq!(r.columns.len(), 2);
    assert_eq!(r.columns[0].name, "id");
    assert_eq!(r.columns[0].ordinal, 0);
    assert_eq!(r.columns[0].db_type, "int8");
    assert_eq!(r.columns[1].name, "name");
    assert_eq!(r.columns[1].ordinal, 1);
    assert_eq!(r.columns[1].db_type, "text");
    assert_eq!(decode_rows(&r.rows), Some(rows));
}

#[test]
fn fetch_with_an_unsupported_cell_is_an_encoding_error() {
    let names = vec![String::from("total")];
    let types = vec![String::from("money")];
    let rows = vec![vec![Cell::Unsupported(String::from("money"))]];
    let r = fetch_assemble(names, types, &rows);
    assert_eq!(r.num_rows, 0);
    assert!(r.columns.is_empty() && r.rows.is_empty());
    assert!(matches!(r.error, Some(DbError::Encoding(_))));
}

fn local_config() -> ConnectionConfig {
    ConnectionConfig {
        host: String::from("localhost"),
        port: 5432,
        database: String::from("postgres"),
        user: String::from("postgres"),
        password: String::from("SECRET-REDACTED"),
        tls: TlsMode::Disabled,
        pool_max_size: 4,
    }
}

#[test]
fn valid_config_is_accepted() {
    assert_eq!(validate_config(&local_config()), Ok(()));
}

#[test]
fn malformed_configs_are_rejected_as_config_errors() {
    let mut c = local_config();
    c.host = String::new();
    assert!(matches!(validate_config(&c), Err(DbError::Config(_))));

    let mut c = local_config();
    c.port = 0;
    assert!(matches!(validate_config(&c), Err(DbError::Config(_))));

    let mut c = local_config();
    c.database = String::new();
    assert!(matches!(validate_config(&c), Err(DbError::Config(_))));

    let mut c = local_config();
    c.user = String::new();
    assert!(matches!(validate_config(&c), Err(DbError::Config(_))));

    let mut c = local_config();
    c.pool_max_size = 0;
    assert!(matches!(validate_config(&c), Err(DbError::Config(_))));
}

#[test]
fn scenario_link_execute_insert_fetch() {
    // link tenant "acme" with a valid local configuration
    assert_eq!(validate_config(&local_config()), Ok(()));
    let mut reg: Registry<u32> = Registry::new();
    reg.register(String::from("acme"), 1);

    // CREATE TABLE t(id INT) -> zero rows affected, no error
    assert!(execute_begin(&reg, &String::from("acme")).is_ok());
    let created = execute_done(0);
    assert_eq!(created.rows_affected, 0);
    assert_eq!(created.error, None);

    // INSERT INTO t VALUES (1) -> one row affected
    let inserted = execute_done(1);
    assert_eq!(inserted.rows_affected, 1);
    assert_eq!(inserted.error, None);

    // SELECT id FROM t -> one column named "id", one row, decoded [1]
    assert!(fetch_begin(&reg, &String::from("acme")).is_ok());
    let rows = vec![vec![Cell::Int(1)]];
    let r = fetch_assemble(vec![String::from("id")], vec![String::from("int4")], &rows);
    assert_eq!(r.error, None);
    assert_eq!(r.num_rows, 1);
    assert_eq!(r.columns.len(), 1);
    assert_eq!(r.columns[0].name, "id");
    assert_eq!(decode_rows(&r.rows), Some(vec![vec![Cell::Int(1)]]));
}
