//! Trusted layer over the storage engine.
//!
//! Persistence is delegated to SQLite through rusqlite.  Each wrapper makes
//! the calls its doc comment names and converts the engine's error to its
//! message; what the stored rows mean is checked by the verified store on
//! top of this layer.
use vstd::prelude::*;

verus! {

#[verifier::external_type_specification]
#[verifier::external_body]
pub struct ExConnection(rusqlite::Connection);

/// Relies on rusqlite::Connection::open: opens (creating if absent) the
/// database file at the path; the path `:memory:` opens a fresh in-memory
/// database.
#[verifier::external_body]
pub(crate) fn sql_open(path: &str) -> Result<rusqlite::Connection, String> {
    rusqlite::Connection::open(path).map_err(|e| e.to_string())
}

/// Relies on rusqlite::Connection::execute_batch: runs the statements of
/// the batch in order.
#[verifier::external_body]
pub(crate) fn sql_exec_batch(conn: &rusqlite::Connection, sql: &str) -> Result<(), String> {
    conn.execute_batch(sql).map_err(|e| e.to_string())
}

/// Relies on rusqlite::Connection::query_row: reads the stored dimension
/// from the `meta` table; `None` when the table is empty.
#[verifier::external_body]
pub(crate) fn sql_get_dim(conn: &rusqlite::Connection) -> Result<Option<i64>, String> {
    match conn.query_row("SELECT dim FROM meta", (), |row| row.get::<_, i64>(0)) {
        Ok(v) => Ok(Some(v)),
        Err(rusqlite::Error::QueryReturnedNoRows) => Ok(None),
        Err(e) => Err(e.to_string()),
    }
}

/// Relies on rusqlite::Connection::execute: records the dimension in the
/// `meta` table.
#[verifier::external_body]
pub(crate) fn sql_set_dim(conn: &rusqlite::Connection, dim: i64) -> Result<(), String> {
    match conn.execute("INSERT INTO meta(dim) VALUES(?)", (dim,)) {
        Ok(_) => Ok(()),
        Err(e) => Err(e.to_string()),
    }
}

/// Relies on rusqlite::Connection::unchecked_transaction, execute,
/// last_insert_rowid and Transaction::commit: appends the metadata row and
/// its vector row under one fresh shared id, together or not at all.
#[verifier::external_body]
pub(crate) fn sql_insert_record(
    conn: &rusqlite::Connection,
    path: &str,
    line: i64,
    kind: &str,
    name: &str,
    code: &str,
    blob: &[u8],
) -> Result<(), String> {
    let run = || -> rusqlite::Result<()> {
        let tx = conn.unchecked_transaction()?;
        conn.execute(
            "INSERT INTO symbols(path, line, kind, name, code) VALUES(?, ?, ?, ?, ?)",
            (path, line, kind, name, code),
        )?;
        let id = conn.last_insert_rowid();
        conn.execute("INSERT INTO vectors(id, embedding) VALUES(?, ?)", (id, blob))?;
        tx.commit()
    };
    run().map_err(|e| e.to_string())
}

/// Relies on rusqlite::Connection::prepare, Statement::query_map and the
/// row getters: every stored metadata row joined with its vector row, in id
/// order, as plain values.
#[verifier::external_body]
pub(crate) fn sql_select_all(
    conn: &rusqlite::Connection,
) -> Result<Vec<(String, i64, String, String, String, Vec<u8>)>, String> {
    let run = || -> rusqlite::Result<Vec<(String, i64, String, String, String, Vec<u8>)>> {
        let mut stmt = conn.prepare(
            "SELECT s.path, s.line, s.kind, s.name, s.code, v.embedding \
             FROM symbols s JOIN vectors v ON v.id = s.id ORDER BY s.id",
        )?;
        let rows = stmt.query_map((), |row| {
            Ok((row.get(0)?, row.get(1)?, row.get(2)?, row.get(3)?, row.get(4)?, row.get(5)?))
        })?;
        rows.collect()
    };
    run().map_err(|e| e.to_string())
}

} // verus!
