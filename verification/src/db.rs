//! The clip catalog: a schema-versioned SQLite store of clip metadata and
//! encoded payloads, with online migration from the uncompressed v0 payload
//! to the v1 packet container.
//!
//! The store itself is SQLite through rusqlite; everything the engine
//! decides — schema migration steps, name uniqueness, id assignment,
//! payload framing — is verified here against contracts on a small set of
//! single-statement wrappers. The packet coder is driven by the caller:
//! `save` and the migration take already-coded packets, `load` hands
//! packets back.

use vstd::prelude::*;
use crate::ErrorKind;
use crate::clip::AudioClip;
use crate::codec::{
    be32_bytes, be32_val, build_records, decode_v0, decode_v1_container, encode_v1_container,
    parse_records,
};

verus! {

/// One catalog row in the model: name, date text, sample rate, payload.
pub type DbRowModel = (Seq<char>, Seq<char>, u32, Seq<u8>);

/// What the clips table holds, keyed by row id. The table is created with
/// a UNIQUE constraint on the name column, which `names_unique` reflects.
pub uninterp spec fn db_rows(c: rusqlite::Connection) -> Map<int, DbRowModel>;

/// The shape of the store: 0 before the clips table exists, 1 while the
/// payload column is the uncompressed `samples`, 2 once it is `opus`.
pub uninterp spec fn db_schema(c: rusqlite::Connection) -> int;

/// The store's `user_version` pragma.
pub uninterp spec fn db_version(c: rusqlite::Connection) -> int;

#[verifier::external_type_specification]
#[verifier::external_body]
pub struct ExConnection(rusqlite::Connection);

#[verifier::external_type_specification]
#[verifier::external_body]
pub struct ExSqlError(rusqlite::Error);

/// No two rows carry the same name.
pub open spec fn names_unique(rows: Map<int, DbRowModel>) -> bool {
    forall|k1: int, k2: int|
        rows.dom().contains(k1) && rows.dom().contains(k2) && k1 != k2 ==> (#[trigger] rows[k1]).0
            != (#[trigger] rows[k2]).0
}

/// Some row carries this name.
pub open spec fn has_name(rows: Map<int, DbRowModel>, name: Seq<char>) -> bool {
    exists|k: int| rows.dom().contains(k) && (#[trigger] rows[k]).0 == name
}

/// A listing (id, name, date, rate, payload) covers the row map exactly:
/// as many entries as rows, distinct ids, each entry a row of the map.
pub open spec fn listing_covers(rows: Map<int, DbRowModel>, v: Seq<(i64, Seq<char>, Seq<char>, u32, Seq<u8>)>) -> bool {
    &&& rows.dom().finite()
    &&& v.len() == rows.dom().len()
    &&& (forall|i: int, j: int| 0 <= i < j < v.len() ==> (#[trigger] v[i]).0 != (#[trigger] v[j]).0)
    &&& (forall|i: int|
        0 <= i < v.len() ==> rows.dom().contains((#[trigger] v[i]).0 as int) && rows[v[i].0 as int]
            == (v[i].1, v[i].2, v[i].3, v[i].4))
}

/// Lexicographic order on text, by character code.
pub open spec fn text_le(a: Seq<char>, b: Seq<char>) -> bool
    decreases a.len(),
{
    if a.len() == 0 {
        true
    } else if b.len() == 0 {
        false
    } else if a[0] != b[0] {
        (a[0] as u32) < (b[0] as u32)
    } else {
        text_le(a.drop_first(), b.drop_first())
    }
}

/// Relies on rusqlite's `Connection::open_in_memory`: a fresh in-memory
/// database has no tables and a zero `user_version`.
#[verifier::external_body]
fn open_memory_connection() -> (r: Result<rusqlite::Connection, rusqlite::Error>)
    ensures
        match r {
            Ok(c) => db_schema(c) == 0 && db_version(c) == 0 && db_rows(c) == Map::<
                int,
                DbRowModel,
            >::empty(),
            Err(_) => true,
        },
{
    rusqlite::Connection::open_in_memory()
}

/// Relies on rusqlite's `Connection::query_row` over the
/// `pragma_user_version` table: returns the store's `user_version`.
#[verifier::external_body]
fn read_user_version(c: &rusqlite::Connection) -> (r: Result<u32, rusqlite::Error>)
    ensures
        match r {
            Ok(v) => v == db_version(*c),
            Err(_) => true,
        },
{
    c.query_row("SELECT user_version FROM pragma_user_version", (), |row| row.get(0))
}

/// Relies on rusqlite's `Connection::pragma_update` for `user_version`:
/// records the version and changes nothing else in the store.
#[verifier::external_body]
fn write_user_version(c: &mut rusqlite::Connection, v: u32) -> (r: Result<(), rusqlite::Error>)
    ensures
        match r {
            Ok(_) => db_version(*final(c)) == v && db_schema(*final(c)) == db_schema(*old(c))
                && db_rows(*final(c)) == db_rows(*old(c)),
            Err(_) => db_version(*final(c)) == db_version(*old(c)) && db_schema(*final(c))
                == db_schema(*old(c)) && db_rows(*final(c)) == db_rows(*old(c)),
        },
{
    c.pragma_update(None, "user_version", v)
}

/// Relies on rusqlite's `Connection::pragma_update` for `page_size`: a
/// storage knob with no effect on the store's contents.
#[verifier::external_body]
fn write_page_size(c: &mut rusqlite::Connection) -> (r: Result<(), rusqlite::Error>)
    ensures
        db_version(*final(c)) == db_version(*old(c)),
        db_schema(*final(c)) == db_schema(*old(c)),
        db_rows(*final(c)) == db_rows(*old(c)),
{
    c.pragma_update(None, "page_size", 8192)
}

/// Relies on rusqlite's `Connection::execute` with `CREATE TABLE IF NOT
/// EXISTS`: creates the clips table (id primary key, name UNIQUE, date,
/// sample_rate, samples payload) when no clips table exists, and leaves an
/// existing one untouched. The UNIQUE constraint is why readers may state
/// that names are unique.
#[verifier::external_body]
fn create_clips_table(c: &mut rusqlite::Connection) -> (r: Result<(), rusqlite::Error>)
    ensures
        match r {
            Ok(_) => {
                &&& db_schema(*final(c)) == (if db_schema(*old(c)) == 0 {
                    1int
                } else {
                    db_schema(*old(c))
                })
                &&& db_schema(*old(c)) == 0 ==> db_rows(*final(c)) == Map::<
                    int,
                    DbRowModel,
                >::empty()
                &&& db_schema(*old(c)) != 0 ==> db_rows(*final(c)) == db_rows(*old(c))
                &&& db_version(*final(c)) == db_version(*old(c))
            },
            Err(_) => db_schema(*final(c)) == db_schema(*old(c)) && db_rows(*final(c)) == db_rows(
                *old(c),
            ) && db_version(*final(c)) == db_version(*old(c)),
        },
{
    c.execute(
        "
        CREATE TABLE IF NOT EXISTS clips (
          id INTEGER PRIMARY KEY,
          name TEXT NOT NULL UNIQUE,
          date TEXT NOT NULL,
          sample_rate INTEGER NOT NULL,
          samples BLOB NOT NULL
        );
        ",
        (),
    ).map(|_| ())
}

/// Relies on rusqlite's `Connection::execute` with `ALTER TABLE ... RENAME
/// COLUMN`: renames the payload column from `samples` to `opus`, keeping
/// every row.
#[verifier::external_body]
fn rename_payload_column(c: &mut rusqlite::Connection) -> (r: Result<(), rusqlite::Error>)
    requires
        db_schema(*old(c)) == 1,
    ensures
        match r {
            Ok(_) => db_schema(*final(c)) == 2 && db_rows(*final(c)) == db_rows(*old(c))
                && db_version(*final(c)) == db_version(*old(c)),
            Err(_) => db_schema(*final(c)) == db_schema(*old(c)) && db_rows(*final(c)) == db_rows(
                *old(c),
            ) && db_version(*final(c)) == db_version(*old(c)),
        },
{
    c.execute("ALTER TABLE clips RENAME COLUMN samples TO opus", ()).map(|_| ())
}

/// Relies on rusqlite's `Statement::query_map` over `SELECT id, name,
/// date, sample_rate, <payload> FROM clips`: returns every row of the
/// table. The UNIQUE constraint on the name column makes the names
/// distinct. `v0` selects the pre-migration payload column.
#[verifier::external_body]
fn select_all_rows(c: &rusqlite::Connection, v0: bool) -> (r: Result<
    Vec<(i64, String, String, u32, Vec<u8>)>,
    rusqlite::Error,
>)
    requires
        v0 ==> db_schema(*c) == 1,
        !v0 ==> db_schema(*c) == 2,
    ensures
        match r {
            Ok(v) => {
                &&& listing_covers(
                    db_rows(*c),
                    v@.map_values(
                        |t: (i64, String, String, u32, Vec<u8>)| (t.0, t.1@, t.2@, t.3, t.4@),
                    ),
                )
                &&& names_unique(db_rows(*c))
            },
            Err(_) => true,
        },
{
    let column = if v0 {
        "samples"
    } else {
        "opus"
    };
    let sql = format!("SELECT id, name, date, sample_rate, {} FROM clips", column);
    let mut stmt = c.prepare(&sql)?;
    let rows = stmt.query_map(
        (),
        |row| Ok((row.get(0)?, row.get(1)?, row.get(2)?, row.get(3)?, row.get(4)?)),
    )?;
    rows.collect()
}

/// Relies on rusqlite's `Statement::query_map` over `SELECT ... WHERE name
/// = ?1`: returns the row carrying the name, if any. The UNIQUE constraint
/// on the name column means no second row can carry it.
#[verifier::external_body]
fn select_row_by_name(c: &rusqlite::Connection, name: &String) -> (r: Result<
    Option<(i64, String, String, u32, Vec<u8>)>,
    rusqlite::Error,
>)
    requires
        db_schema(*c) == 2,
    ensures
        match r {
            Ok(row) => {
                &&& names_unique(db_rows(*c))
                &&& match row {
                    Some(t) => {
                        &&& db_rows(*c).dom().contains(t.0 as int)
                        &&& db_rows(*c)[t.0 as int] == (t.1@, t.2@, t.3, t.4@)
                        &&& t.1@ == name@
                    },
                    None => !has_name(db_rows(*c), name@),
                }
            },
            Err(_) => true,
        },
{
    let mut stmt = c.prepare("SELECT id, name, date, sample_rate, opus FROM clips WHERE name = ?1")?;
    let mut rows = stmt.query_map(
        (name.as_str(),),
        |row| Ok((row.get(0)?, row.get(1)?, row.get(2)?, row.get(3)?, row.get(4)?)),
    )?;
    match rows.next() {
        Some(row) => Ok(Some(row?)),
        None => Ok(None),
    }
}

/// Relies on rusqlite's `Statement::query_map` over `SELECT ... WHERE id =
/// ?1`: returns the row with that id, if any.
#[verifier::external_body]
fn select_row_by_id(c: &rusqlite::Connection, id: i64) -> (r: Result<
    Option<(i64, String, String, u32, Vec<u8>)>,
    rusqlite::Error,
>)
    requires
        db_schema(*c) == 2,
    ensures
        match r {
            Ok(row) => {
                &&& names_unique(db_rows(*c))
                &&& match row {
                    Some(t) => {
                        &&& t.0 == id
                        &&& db_rows(*c).dom().contains(id as int)
                        &&& db_rows(*c)[id as int] == (t.1@, t.2@, t.3, t.4@)
                    },
                    None => !db_rows(*c).dom().contains(id as int),
                }
            },
            Err(_) => true,
        },
{
    let mut stmt = c.prepare("SELECT id, name, date, sample_rate, opus FROM clips WHERE id = ?1")?;
    let mut rows = stmt.query_map(
        (id,),
        |row| Ok((row.get(0)?, row.get(1)?, row.get(2)?, row.get(3)?, row.get(4)?)),
    )?;
    match rows.next() {
        Some(row) => Ok(Some(row?)),
        None => Ok(None),
    }
}

/// Relies on rusqlite's `Statement::query_map` over `SELECT id, name, date
/// FROM clips ORDER BY date`: the clip metadata, ascending by the date
/// text (SQLite compares TEXT bytewise, which on UTF-8 is code-point
/// order).
#[verifier::external_body]
fn select_metas(c: &rusqlite::Connection) -> (r: Result<
    Vec<(i64, String, String)>,
    rusqlite::Error,
>)
    requires
        db_schema(*c) == 2,
    ensures
        match r {
            Ok(v) => {
                &&& db_rows(*c).dom().finite()
                &&& v@.len() == db_rows(*c).dom().len()
                &&& (forall|i: int, j: int|
                    0 <= i < j < v@.len() ==> (#[trigger] v@[i]).0 != (#[trigger] v@[j]).0)
                &&& (forall|i: int|
                    0 <= i < v@.len() ==> db_rows(*c).dom().contains((#[trigger] v@[i]).0 as int)
                        && db_rows(*c)[v@[i].0 as int].0 == v@[i].1@ && db_rows(*c)[v@[i].0 as int].1
                        == v@[i].2@)
                &&& (forall|i: int, j: int|
                    0 <= i < j < v@.len() ==> text_le((#[trigger] v@[i]).2@, (#[trigger] v@[j]).2@))
            },
            Err(_) => true,
        },
{
    let mut stmt = c.prepare("SELECT id, name, date FROM clips ORDER BY date")?;
    let rows = stmt.query_map((), |row| Ok((row.get(0)?, row.get(1)?, row.get(2)?)))?;
    rows.collect()
}

/// Relies on rusqlite's `Connection::execute` with `INSERT OR REPLACE` and
/// `Connection::last_insert_rowid`: writes the row under the given id, or
/// under a fresh id when none is given, and returns the row's id. SQLite
/// documents that a fresh rowid is one larger than the largest rowid in
/// use, falling back to an unused random one only once the largest
/// possible rowid is taken. The caller must have ruled out a name held by
/// a different row; `REPLACE` would otherwise drop that row. `v0` writes
/// the pre-migration payload column.
#[verifier::external_body]
fn insert_row(
    c: &mut rusqlite::Connection,
    v0: bool,
    id: Option<i64>,
    name: &String,
    date: &String,
    rate: u32,
    payload: &Vec<u8>,
) -> (r: Result<i64, rusqlite::Error>)
    requires
        v0 ==> db_schema(*old(c)) == 1,
        !v0 ==> db_schema(*old(c)) == 2,
        forall|k: int|
            db_rows(*old(c)).dom().contains(k) && (#[trigger] db_rows(*old(c))[k]).0 == name@
                ==> id == Some(k as i64),
    ensures
        match r {
            Ok(k) => {
                &&& (match id {
                    Some(i) => k == i,
                    None => !db_rows(*old(c)).dom().contains(k as int) && ((forall|k2: int|
                        db_rows(*old(c)).dom().contains(k2) ==> k2 < k as int) || db_rows(
                        *old(c),
                    ).dom().contains(0x7FFF_FFFF_FFFF_FFFF)),
                })
                &&& db_rows(*final(c)) == db_rows(*old(c)).insert(
                    k as int,
                    (name@, date@, rate, payload@),
                )
                &&& db_schema(*final(c)) == db_schema(*old(c))
                &&& db_version(*final(c)) == db_version(*old(c))
            },
            Err(_) => db_rows(*final(c)) == db_rows(*old(c)) && db_schema(*final(c)) == db_schema(
                *old(c),
            ) && db_version(*final(c)) == db_version(*old(c)),
        },
{
    let sql = if v0 {
        "INSERT OR REPLACE INTO clips (id, name, date, sample_rate, samples) VALUES (?1, ?2, ?3, ?4, ?5)"
    } else {
        "INSERT OR REPLACE INTO clips (id, name, date, sample_rate, opus) VALUES (?1, ?2, ?3, ?4, ?5)"
    };
    c.execute(sql, (id, name.as_str(), date.as_str(), rate, payload.as_slice()))?;
    Ok(c.last_insert_rowid())
}

/// Relies on rusqlite's `Connection::execute` with `DELETE ... WHERE name
/// = ?1`: removes the rows carrying the name and reports how many went.
#[verifier::external_body]
fn delete_rows_by_name(c: &mut rusqlite::Connection, name: &String) -> (r: Result<
    usize,
    rusqlite::Error,
>)
    requires
        db_schema(*old(c)) == 2,
    ensures
        match r {
            Ok(n) => {
                &&& db_rows(*final(c)) == db_rows(*old(c)).remove_keys(
                    Set::new(|k: int| (db_rows(*old(c)).dom().contains(k) && db_rows(
                        *old(c),
                    )[k].0 == name@)),
                )
                &&& (n == 0 <==> !has_name(db_rows(*old(c)), name@))
                &&& db_schema(*final(c)) == db_schema(*old(c))
                &&& db_version(*final(c)) == db_version(*old(c))
            },
            Err(_) => db_rows(*final(c)) == db_rows(*old(c)) && db_schema(*final(c)) == db_schema(
                *old(c),
            ) && db_version(*final(c)) == db_version(*old(c)),
        },
{
    c.execute("DELETE FROM clips WHERE name = ?1", (name.as_str(),))
}

/// Relies on rusqlite's `Connection::execute` with `DELETE ... WHERE id =
/// ?1`: removes the row with that id, if present.
#[verifier::external_body]
fn delete_row_by_id(c: &mut rusqlite::Connection, id: i64) -> (r: Result<usize, rusqlite::Error>)
    requires
        db_schema(*old(c)) == 2,
    ensures
        match r {
            Ok(n) => {
                &&& db_rows(*final(c)) == db_rows(*old(c)).remove(id as int)
                &&& (n == 0 <==> !db_rows(*old(c)).dom().contains(id as int))
                &&& db_schema(*final(c)) == db_schema(*old(c))
                &&& db_version(*final(c)) == db_version(*old(c))
            },
            Err(_) => db_rows(*final(c)) == db_rows(*old(c)) && db_schema(*final(c)) == db_schema(
                *old(c),
            ) && db_version(*final(c)) == db_version(*old(c)),
        },
{
    c.execute("DELETE FROM clips WHERE id = ?1", (id,))
}

/// How an UPDATE of the name column can fail: on the UNIQUE constraint
/// (the new name is another row's), or on any other store failure.
pub enum SqlUpdateError {
    Conflict,
    Failed(rusqlite::Error),
}

/// Relies on rusqlite's `Connection::execute` with `UPDATE clips SET name
/// = ?2 WHERE name = ?1`: renames the row carrying the old name. The
/// UNIQUE constraint rejects the statement exactly when the new name is
/// carried by a different row than the one being renamed — so on a
/// successful rename no other row carried the new name — and a single
/// statement leaves the store unchanged when it fails.
#[verifier::external_body]
fn update_name_where_name(
    c: &mut rusqlite::Connection,
    old_name: &String,
    new_name: &String,
) -> (r: Result<usize, SqlUpdateError>)
    requires
        db_schema(*old(c)) == 2,
    ensures
        db_schema(*final(c)) == db_schema(*old(c)),
        db_version(*final(c)) == db_version(*old(c)),
        names_unique(db_rows(*old(c))),
        match r {
            Ok(n) => {
                &&& (n == 0 <==> !has_name(db_rows(*old(c)), old_name@))
                &&& (n == 0 ==> db_rows(*final(c)) == db_rows(*old(c)))
                &&& (n != 0 ==> n == 1 && exists|k: int|
                    {
                        &&& db_rows(*old(c)).dom().contains(k)
                        &&& (#[trigger] db_rows(*old(c))[k]).0 == old_name@
                        &&& db_rows(*final(c)) == db_rows(*old(c)).insert(
                            k,
                            (
                                new_name@,
                                db_rows(*old(c))[k].1,
                                db_rows(*old(c))[k].2,
                                db_rows(*old(c))[k].3,
                            ),
                        )
                        &&& forall|k2: int|
                            db_rows(*old(c)).dom().contains(k2) && k2 != k ==> (
                            #[trigger] db_rows(*old(c))[k2]).0 != new_name@
                    })
            },
            Err(SqlUpdateError::Conflict) => {
                &&& db_rows(*final(c)) == db_rows(*old(c))
                &&& has_name(db_rows(*old(c)), old_name@)
                &&& exists|k: int|
                    {
                        &&& db_rows(*old(c)).dom().contains(k)
                        &&& (#[trigger] db_rows(*old(c))[k]).0 == new_name@
                        &&& db_rows(*old(c))[k].0 != old_name@
                    }
            },
            Err(SqlUpdateError::Failed(_)) => db_rows(*final(c)) == db_rows(*old(c)),
        },
{
    match c.execute(
        "UPDATE clips SET name = ?2 WHERE name = ?1",
        (old_name.as_str(), new_name.as_str()),
    ) {
        Ok(n) => Ok(n),
        Err(rusqlite::Error::SqliteFailure(f, _)) if f.code
            == rusqlite::ErrorCode::ConstraintViolation => Err(SqlUpdateError::Conflict),
        Err(e) => Err(SqlUpdateError::Failed(e)),
    }
}

/// Relies on rusqlite's `Connection::execute` with `UPDATE clips SET name
/// = ?2 WHERE id = ?1`, as `update_name_where_name` but keyed by id.
#[verifier::external_body]
fn update_name_where_id(c: &mut rusqlite::Connection, id: i64, new_name: &String) -> (r: Result<
    usize,
    SqlUpdateError,
>)
    requires
        db_schema(*old(c)) == 2,
    ensures
        db_schema(*final(c)) == db_schema(*old(c)),
        db_version(*final(c)) == db_version(*old(c)),
        names_unique(db_rows(*old(c))),
        match r {
            Ok(n) => {
                &&& (n == 0 <==> !db_rows(*old(c)).dom().contains(id as int))
                &&& (n == 0 ==> db_rows(*final(c)) == db_rows(*old(c)))
                &&& (n != 0 ==> n == 1 && db_rows(*old(c)).dom().contains(id as int) && db_rows(
                    *final(c),
                ) == db_rows(*old(c)).insert(
                    id as int,
                    (
                        new_name@,
                        db_rows(*old(c))[id as int].1,
                        db_rows(*old(c))[id as int].2,
                        db_rows(*old(c))[id as int].3,
                    ),
                ))
                &&& (n != 0 ==> forall|k2: int|
                    db_rows(*old(c)).dom().contains(k2) && k2 != id as int ==> (
                    #[trigger] db_rows(*old(c))[k2]).0 != new_name@)
            },
            Err(SqlUpdateError::Conflict) => {
                &&& db_rows(*final(c)) == db_rows(*old(c))
                &&& db_rows(*old(c)).dom().contains(id as int)
                &&& exists|k: int|
                    {
                        &&& k != id as int
                        &&& db_rows(*old(c)).dom().contains(k)
                        &&& (#[trigger] db_rows(*old(c))[k]).0 == new_name@
                    }
            },
            Err(SqlUpdateError::Failed(_)) => db_rows(*final(c)) == db_rows(*old(c)),
        },
{
    match c.execute("UPDATE clips SET name = ?2 WHERE id = ?1", (id, new_name.as_str())) {
        Ok(n) => Ok(n),
        Err(rusqlite::Error::SqliteFailure(f, _)) if f.code
            == rusqlite::ErrorCode::ConstraintViolation => Err(SqlUpdateError::Conflict),
        Err(e) => Err(SqlUpdateError::Failed(e)),
    }
}

/// The clip catalog.
pub struct Db {
    conn: rusqlite::Connection,
}

/// The listing projection of a clip: identity, name, creation text.
pub struct ClipMeta {
    pub id: usize,
    pub name: String,
    pub date: String,
}

/// A stored clip as the catalog holds it: metadata plus the coded packets
/// of its payload. The packet coder turns the packets back into sample
/// frames; `assemble_frames` then rebuilds the buffer.
pub struct EncodedClip {
    pub id: usize,
    pub name: String,
    pub date: String,
    pub sample_rate: u32,
    pub num_samples: u32,
    pub packets: Vec<Vec<u8>>,
}

/// A row still carrying the uncompressed v0 payload, read out during
/// migration: the caller codes its samples into packets and commits it
/// back with `Db::migrate_row`.
pub struct MigrationJob {
    pub id: i64,
    pub name: String,
    pub date: String,
    pub sample_rate: u32,
    pub samples: Vec<u32>,
}

/// The conflict save and rename reject: some other row already carries
/// the name.
pub open spec fn name_conflict(rows: Map<int, DbRowModel>, name: Seq<char>, id: Option<i64>) -> bool {
    exists|k: int|
        db_row_named(rows, k, name) && id != Some(k as i64)
}

/// Row `k` exists and carries `name`.
pub open spec fn db_row_named(rows: Map<int, DbRowModel>, k: int, name: Seq<char>) -> bool {
    rows.dom().contains(k) && rows[k].0 == name
}

impl Db {
    /// The catalog's contents: the rows of its clips table.
    pub closed spec fn rows(&self) -> Map<int, DbRowModel> {
        db_rows(self.conn)
    }

    /// A catalog ready for use: the payload column is migrated and the
    /// schema version recorded.
    pub closed spec fn wf(&self) -> bool {
        db_schema(self.conn) == 2 && db_version(self.conn) >= 2
    }

    /// Opens a fresh in-memory catalog.
    pub fn in_memory() -> (r: Result<(Db, Vec<MigrationJob>), ErrorKind>)
        ensures
            match r {
                Ok(pair) => pair.0.wf() && pair.0.rows() == Map::<int, DbRowModel>::empty()
                    && pair.1@.len() == 0,
                Err(e) => e == ErrorKind::Io,
            },
    {
        match open_memory_connection() {
            Ok(conn) => Db::from_connection(conn),
            Err(_) => Err(ErrorKind::Io),
        }
    }

    /// Attaches to a store and applies the schema migrations: creates the
    /// clips table on a fresh store, and on a store still holding
    /// uncompressed v0 payloads, reads every row out as a migration job
    /// and renames the payload column. The caller codes each job's
    /// samples and commits it back through `migrate_row`; metadata and
    /// row identities are not touched by that step.
    ///
    /// The connection must be a store this engine wrote (or a fresh one):
    /// its recorded version tells which shape the table has.
    pub fn from_connection(conn: rusqlite::Connection) -> (r: Result<
        (Db, Vec<MigrationJob>),
        ErrorKind,
    >)
        requires
            db_version(conn) <= 0 ==> db_schema(conn) == 0,
            0 < db_version(conn) < 2 ==> db_schema(conn) == 1,
            db_version(conn) >= 2 ==> db_schema(conn) == 2,
        ensures
            match r {
                Ok(pair) => {
                    &&& pair.0.wf()
                    &&& db_version(conn) >= 2 ==> pair.0.rows() == db_rows(conn) && pair.1@.len()
                        == 0
                    &&& db_version(conn) <= 0 ==> pair.0.rows() == Map::<
                        int,
                        DbRowModel,
                    >::empty() && pair.1@.len() == 0
                    &&& 0 < db_version(conn) < 2 ==> {
                        &&& pair.0.rows() == db_rows(conn)
                        &&& names_unique(db_rows(conn))
                        &&& db_rows(conn).dom().finite()
                        &&& pair.1@.len() == db_rows(conn).dom().len()
                        &&& (forall|i: int, j: int|
                            0 <= i < j < pair.1@.len() ==> (#[trigger] pair.1@[i]).id != (
                            #[trigger] pair.1@[j]).id)
                        &&& (forall|i: int|
                            0 <= i < pair.1@.len() ==> {
                                let job = #[trigger] pair.1@[i];
                                let rows = db_rows(conn);
                                &&& rows.dom().contains(job.id as int)
                                &&& job.name@ == rows[job.id as int].0
                                &&& job.date@ == rows[job.id as int].1
                                &&& job.sample_rate == rows[job.id as int].2
                                &&& job.samples@ == crate::codec::v0_decoded(
                                    rows[job.id as int].3,
                                )
                            })
                    }
                },
                Err(e) => e == ErrorKind::Io,
            },
    {
        let mut conn = conn;
        let version: u32 = match read_user_version(&conn) {
            Ok(v) => v,
            Err(_) => {
                return Err(ErrorKind::Io);
            },
        };
        if write_page_size(&mut conn).is_err() {
            return Err(ErrorKind::Io);
        }
        if version < 2 {
            if write_user_version(&mut conn, 2).is_err() {
                return Err(ErrorKind::Io);
            }
        }
        if version < 1 {
            if create_clips_table(&mut conn).is_err() {
                return Err(ErrorKind::Io);
            }
        }
        let mut jobs: Vec<MigrationJob> = Vec::new();
        if version < 2 {
            let ghost rows0 = db_rows(conn);
            let raw = match select_all_rows(&conn, true) {
                Ok(v) => v,
                Err(_) => {
                    return Err(ErrorKind::Io);
                },
            };
            let n = raw.len();
            let mut i: usize = 0;
            while i < n
                invariant
                    n == raw@.len(),
                    i <= n,
                    jobs@.len() == i,
                    forall|q: int|
                        0 <= q < i ==> {
                            let job = #[trigger] jobs@[q];
                            let t = raw@[q];
                            &&& job.id == t.0
                            &&& job.name@ == t.1@
                            &&& job.date@ == t.2@
                            &&& job.sample_rate == t.3
                            &&& job.samples@ == crate::codec::v0_decoded(t.4@)
                        },
                decreases n - i,
            {
                let row = &raw[i];
                let samples = decode_v0(&row.4);
                let job = MigrationJob {
                    id: row.0,
                    name: row.1.clone(),
                    date: row.2.clone(),
                    sample_rate: row.3,
                    samples,
                };
                jobs.push(job);
                i = i + 1;
            }
            proof {
                let mv = raw@.map_values(
                    |t: (i64, String, String, u32, Vec<u8>)| (t.0, t.1@, t.2@, t.3, t.4@),
                );
                assert forall|i: int, j: int|
                    0 <= i < j < jobs@.len() implies (#[trigger] jobs@[i]).id != (
                #[trigger] jobs@[j]).id by {
                    assert(mv[i].0 == raw@[i].0 && mv[j].0 == raw@[j].0);
                }
                assert forall|i: int|
                    0 <= i < jobs@.len() implies {
                    let job = #[trigger] jobs@[i];
                    &&& rows0.dom().contains(job.id as int)
                    &&& job.name@ == rows0[job.id as int].0
                    &&& job.date@ == rows0[job.id as int].1
                    &&& job.sample_rate == rows0[job.id as int].2
                    &&& job.samples@ == crate::codec::v0_decoded(rows0[job.id as int].3)
                } by {
                    assert(mv[i] == (raw@[i].0, raw@[i].1@, raw@[i].2@, raw@[i].3, raw@[i].4@));
                    assert(rows0.dom().contains(mv[i].0 as int) && rows0[mv[i].0 as int] == (
                    mv[i].1, mv[i].2, mv[i].3, mv[i].4));
                }
            }
            if rename_payload_column(&mut conn).is_err() {
                return Err(ErrorKind::Io);
            }
        }
        Ok((Db { conn }, jobs))
    }

    /// Commits one migrated row back: wraps the caller-coded packets as a
    /// v1 payload and rewrites the row in place, keeping its identity,
    /// name, date and declared sample count.
    pub fn migrate_row(
        &mut self,
        job: &MigrationJob,
        rate: u32,
        num_samples: u32,
        packets: &Vec<Vec<u8>>,
    ) -> (r: Result<(), ErrorKind>)
        requires
            old(self).wf(),
            forall|k: int|
                db_row_named(old(self).rows(), k, job.name@) ==> k == job.id as int,
        ensures
            final(self).wf(),
            match r {
                Ok(_) => final(self).rows() == old(self).rows().insert(
                    job.id as int,
                    (
                        job.name@,
                        job.date@,
                        rate,
                        be32_bytes(num_samples) + build_records(
                            packets@.map_values(|v: Vec<u8>| v@),
                        ),
                    ),
                ),
                Err(e) => {
                    &&& (e == ErrorKind::Encode || e == ErrorKind::Io)
                    &&& final(self).rows() == old(self).rows()
                },
            },
    {
        let payload = match encode_v1_container(num_samples, packets) {
            Ok(bytes) => bytes,
            Err(_) => {
                return Err(ErrorKind::Encode);
            },
        };
        proof {
            assert forall|k: int|
                db_rows(self.conn).dom().contains(k) && (#[trigger] db_rows(self.conn)[k]).0
                    == job.name@ implies Some(job.id) == Some(k as i64) by {
                assert(db_row_named(old(self).rows(), k, job.name@));
            };
        }
        match insert_row(
            &mut self.conn,
            false,
            Some(job.id),
            &job.name,
            &job.date,
            rate,
            &payload,
        ) {
            Ok(_) => Ok(()),
            Err(_) => Err(ErrorKind::Io),
        }
    }

    /// Saves a clip: its metadata plus the packets the coder produced for
    /// it, wrapped as a v1 payload. A clip without an id gets a fresh row
    /// and learns its id; a clip with an id rewrites its own row. A name
    /// carried by any other row is rejected as a conflict, before the
    /// store is touched.
    pub fn save(
        &mut self,
        clip: &mut AudioClip,
        rate: u32,
        num_samples: u32,
        packets: &Vec<Vec<u8>>,
    ) -> (r: Result<(), ErrorKind>)
        requires
            old(self).wf(),
            old(clip).id matches Some(i) ==> i <= 0x7FFF_FFFF_FFFF_FFFF,
        ensures
            final(self).wf(),
            final(clip).name@ == old(clip).name@ && final(clip).date@ == old(clip).date@
                && final(clip).samples@ == old(clip).samples@ && final(clip).sample_rate == old(clip).sample_rate,
            match r {
                Ok(_) => {
                    &&& !name_conflict(old(self).rows(), old(clip).name@, id_as_i64(old(clip).id))
                    &&& final(clip).id is Some
                    &&& (match old(clip).id {
                        Some(i) => final(clip).id == old(clip).id && final(self).rows() == old(
                            self,
                        ).rows().insert(
                            i as int,
                            saved_row(
                                old(clip).name@,
                                old(clip).date@,
                                rate,
                                num_samples,
                                packets@,
                            ),
                        ),
                        None => (final(clip).id matches Some(k) && 1 <= k as int
                            <= 0x7FFF_FFFF_FFFF_FFFF && !old(self).rows().dom().contains(k as int)
                            && ((forall|k2: int|
                                old(self).rows().dom().contains(k2) ==> k2 < k as int) || old(
                                self,
                            ).rows().dom().contains(0x7FFF_FFFF_FFFF_FFFF)) && final(self).rows()
                            == old(self).rows().insert(
                            k as int,
                            saved_row(
                                old(clip).name@,
                                old(clip).date@,
                                rate,
                                num_samples,
                                packets@,
                            ),
                        )),
                    })
                },
                Err(ErrorKind::Conflict) => {
                    &&& name_conflict(old(self).rows(), old(clip).name@, id_as_i64(old(clip).id))
                    &&& final(self).rows() == old(self).rows()
                    &&& final(clip).id == old(clip).id
                },
                Err(ErrorKind::Encode) => {
                    &&& (exists|p: int|
                        0 <= p < packets@.len() && (#[trigger] packets@[p])@.len() > 0xFFFF)
                    &&& final(self).rows() == old(self).rows()
                    &&& final(clip).id == old(clip).id
                },
                Err(ErrorKind::Io) => final(self).rows() == old(self).rows() && final(clip).id
                    == old(clip).id,
                Err(ErrorKind::Internal) => {
                    &&& old(clip).id is None && final(clip).id is None
                    &&& !name_conflict(old(self).rows(), old(clip).name@, id_as_i64(old(clip).id))
                    &&& exists|k: int|
                        !old(self).rows().dom().contains(k) && final(self).rows()
                            == #[trigger] old(self).rows().insert(
                            k,
                            saved_row(
                                old(clip).name@,
                                old(clip).date@,
                                rate,
                                num_samples,
                                packets@,
                            ),
                        )
                },
                _ => false,
            },
    {
        match select_row_by_name(&self.conn, &clip.name) {
            Err(_) => {
                return Err(ErrorKind::Io);
            },
            Ok(Some(t)) => {
                let same = match clip.id {
                    Some(i) => t.0 >= 0 && (i as i64) == t.0,
                    None => false,
                };
                if !same {
                    proof {
                        assert(db_row_named(old(self).rows(), t.0 as int, old(clip).name@));
                    }
                    return Err(ErrorKind::Conflict);
                }
            },
            Ok(None) => {},
        }
        let payload = match encode_v1_container(num_samples, packets) {
            Ok(bytes) => bytes,
            Err(_) => {
                return Err(ErrorKind::Encode);
            },
        };
        let id_param: Option<i64> = match clip.id {
            Some(i) => Some(i as i64),
            None => None,
        };
        proof {
            assert forall|k: int|
                db_rows(self.conn).dom().contains(k) && (#[trigger] db_rows(self.conn)[k]).0
                    == old(clip).name@ implies id_param == Some(k as i64) by {
                assert(db_row_named(old(self).rows(), k, old(clip).name@));
            };
        }
        match insert_row(&mut self.conn, false, id_param, &clip.name, &clip.date, rate, &payload) {
            Err(_) => Err(ErrorKind::Io),
            Ok(k) => {
                if clip.id.is_none() {
                    if k < 1 || (k as u64) > (usize::MAX as u64) {
                        proof {
                            assert(db_rows(self.conn) == old(self).rows().insert(
                                k as int,
                                saved_row(
                                    old(clip).name@,
                                    old(clip).date@,
                                    rate,
                                    num_samples,
                                    packets@,
                                ),
                            ));
                        }
                        return Err(ErrorKind::Internal);
                    }
                    clip.id = Some(k as usize);
                }
                Ok(())
            },
        }
    }

    /// Loads the clip carrying a name, as its stored packets.
    pub fn load(&self, name: &String) -> (r: Result<Option<EncodedClip>, ErrorKind>)
        requires
            self.wf(),
        ensures
            load_contract(self.rows(), name@, None, r),
    {
        match select_row_by_name(&self.conn, name) {
            Err(_) => Err(ErrorKind::Io),
            Ok(None) => Ok(None),
            Ok(Some(t)) => {
                let ghost tid = t.0 as int;
                proof {
                    assert(self.rows()[tid] == (t.1@, t.2@, t.3, t.4@));
                    assert(db_row_named(self.rows(), tid, name@));
                }
                let res = self.decode_loaded_row(t);
                proof {
                    if res == Err::<Option<EncodedClip>, ErrorKind>(ErrorKind::Decode) {
                        assert(!(0 <= tid <= usize::MAX as int) || self.rows()[tid].3.len() < 4
                            || parse_records(self.rows()[tid].3.skip(4)) is None);
                    }
                }
                res
            },
        }
    }

    /// Loads the clip stored under an id, as its stored packets.
    pub fn load_by_id(&self, id: usize) -> (r: Result<Option<EncodedClip>, ErrorKind>)
        requires
            self.wf(),
            id <= 0x7FFF_FFFF_FFFF_FFFF,
        ensures
            load_by_id_contract(self.rows(), id as int, r),
    {
        match select_row_by_id(&self.conn, id as i64) {
            Err(_) => Err(ErrorKind::Io),
            Ok(None) => Ok(None),
            Ok(Some(t)) => {
                let ghost tid = t.0 as int;
                proof {
                    assert(tid == id as int);
                    assert(self.rows()[tid] == (t.1@, t.2@, t.3, t.4@));
                }
                let res = self.decode_loaded_row(t);
                proof {
                    if res == Err::<Option<EncodedClip>, ErrorKind>(ErrorKind::Decode) {
                        assert(self.rows()[tid].3.len() < 4 || parse_records(
                            self.rows()[tid].3.skip(4),
                        ) is None);
                    }
                }
                res
            },
        }
    }

    /// Splits a fetched row into an `EncodedClip`, parsing its payload.
    fn decode_loaded_row(&self, t: (i64, String, String, u32, Vec<u8>)) -> (r: Result<
        Option<EncodedClip>,
        ErrorKind,
    >)
        requires
            self.rows().dom().contains(t.0 as int),
            self.rows()[t.0 as int] == (t.1@, t.2@, t.3, t.4@),
        ensures
            match r {
                Ok(Some(ec)) => {
                    &&& ec.id as int == t.0 as int
                    &&& ec.name@ == t.1@
                    &&& ec.date@ == t.2@
                    &&& ec.sample_rate == t.3
                    &&& t.4@.len() >= 4
                    &&& ec.num_samples == be32_val(t.4@[0], t.4@[1], t.4@[2], t.4@[3])
                    &&& parse_records(t.4@.skip(4)) == Some(
                        ec.packets@.map_values(|v: Vec<u8>| v@),
                    )
                },
                Err(ErrorKind::Decode) => t.0 < 0 || t.0 as int > usize::MAX as int || t.4@.len()
                    < 4 || parse_records(t.4@.skip(4)) is None,
                _ => false,
            },
    {
        if t.0 < 0 || (t.0 as u64) > (usize::MAX as u64) {
            return Err(ErrorKind::Decode);
        }
        match decode_v1_container(&t.4) {
            Err(_) => Err(ErrorKind::Decode),
            Ok((n, packets)) => Ok(
                Some(
                    EncodedClip {
                        id: t.0 as usize,
                        name: t.1,
                        date: t.2,
                        sample_rate: t.3,
                        num_samples: n,
                        packets,
                    },
                ),
            ),
        }
    }

    /// Lists the catalog's clips, ascending by creation text.
    pub fn list(&self) -> (r: Result<Vec<ClipMeta>, ErrorKind>)
        requires
            self.wf(),
        ensures
            list_contract(self.rows(), r),
    {
        let raw = match select_metas(&self.conn) {
            Ok(v) => v,
            Err(_) => {
                return Err(ErrorKind::Io);
            },
        };
        let mut out: Vec<ClipMeta> = Vec::new();
        let n = raw.len();
        let mut i: usize = 0;
        while i < n
            invariant
                n == raw@.len(),
                i <= n,
                out@.len() == i,
                self.rows().dom().finite(),
                n == self.rows().dom().len(),
                forall|q: int|
                    0 <= q < n ==> self.rows().dom().contains((#[trigger] raw@[q]).0 as int)
                        && self.rows()[raw@[q].0 as int].0 == raw@[q].1@ && self.rows()[raw@[q].0
                        as int].1 == raw@[q].2@,
                forall|p: int, q: int|
                    0 <= p < q < n ==> (#[trigger] raw@[p]).0 != (#[trigger] raw@[q]).0,
                forall|p: int, q: int|
                    0 <= p < q < n ==> text_le((#[trigger] raw@[p]).2@, (#[trigger] raw@[q]).2@),
                forall|q: int|
                    0 <= q < i ==> {
                        let m = #[trigger] out@[q];
                        &&& m.id as int == raw@[q].0 as int
                        &&& m.name@ == raw@[q].1@
                        &&& m.date@ == raw@[q].2@
                    },
            decreases n - i,
        {
            let t = &raw[i];
            if t.0 < 0 || (t.0 as u64) > (usize::MAX as u64) {
                proof {
                    assert(self.rows().dom().contains(raw@[i as int].0 as int));
                    assert(!(0 <= raw@[i as int].0 as int <= usize::MAX as int));
                }
                return Err(ErrorKind::Decode);
            }
            let meta = ClipMeta { id: t.0 as usize, name: t.1.clone(), date: t.2.clone() };
            out.push(meta);
            i = i + 1;
        }
        Ok(out)
    }

    /// Removes the clip carrying a name; removing an absent name is a
    /// successful no-op.
    pub fn delete(&mut self, name: &String) -> (r: Result<(), ErrorKind>)
        requires
            old(self).wf(),
        ensures
            final(self).wf(),
            match r {
                Ok(_) => final(self).rows() == old(self).rows().remove_keys(
                    Set::new(|k: int| db_row_named(old(self).rows(), k, name@)),
                ),
                Err(e) => e == ErrorKind::Io && final(self).rows() == old(self).rows(),
            },
    {
        match delete_rows_by_name(&mut self.conn, name) {
            Ok(_) => {
                proof {
                    assert(db_rows(self.conn) =~= old(self).rows().remove_keys(
                        Set::new(|k: int| db_row_named(old(self).rows(), k, name@)),
                    ));
                }
                Ok(())
            },
            Err(_) => Err(ErrorKind::Io),
        }
    }

    /// Removes the clip stored under an id; removing an absent id is a
    /// successful no-op.
    pub fn delete_by_id(&mut self, id: usize) -> (r: Result<(), ErrorKind>)
        requires
            old(self).wf(),
            id <= 0x7FFF_FFFF_FFFF_FFFF,
        ensures
            final(self).wf(),
            match r {
                Ok(_) => final(self).rows() == old(self).rows().remove(id as int),
                Err(e) => e == ErrorKind::Io && final(self).rows() == old(self).rows(),
            },
    {
        match delete_row_by_id(&mut self.conn, id as i64) {
            Ok(_) => Ok(()),
            Err(_) => Err(ErrorKind::Io),
        }
    }

    /// Renames the clip carrying `old_name` to `new_name`. An absent old
    /// name is reported as not found; a new name carried by another row
    /// is a conflict; either way the catalog is unchanged.
    pub fn rename(&mut self, old_name: &String, new_name: &String) -> (r: Result<(), ErrorKind>)
        requires
            old(self).wf(),
        ensures
            final(self).wf(),
            match r {
                Ok(_) => {
                    &&& has_name(old(self).rows(), old_name@)
                    &&& exists|k: int|
                        {
                            &&& #[trigger] db_row_named(old(self).rows(), k, old_name@)
                            &&& final(self).rows() == old(self).rows().insert(
                                k,
                                (
                                    new_name@,
                                    old(self).rows()[k].1,
                                    old(self).rows()[k].2,
                                    old(self).rows()[k].3,
                                ),
                            )
                            &&& forall|k2: int|
                                old(self).rows().dom().contains(k2) && k2 != k ==> (#[trigger] old(
                                    self,
                                ).rows()[k2]).0 != new_name@
                        }
                },
                Err(ErrorKind::NotFound) => !has_name(old(self).rows(), old_name@) && final(self).rows() == old(self).rows(),
                Err(ErrorKind::Conflict) => {
                    &&& has_name(old(self).rows(), old_name@)
                    &&& (exists|k: int|
                        db_row_named(old(self).rows(), k, new_name@) && old(self).rows()[k].0
                            != old_name@)
                    &&& final(self).rows() == old(self).rows()
                },
                Err(ErrorKind::Io) => final(self).rows() == old(self).rows(),
                _ => false,
            },
    {
        let ghost rows0 = old(self).rows();
        match update_name_where_name(&mut self.conn, old_name, new_name) {
            Ok(n) => {
                if n == 0 {
                    Err(ErrorKind::NotFound)
                } else {
                    proof {
                        let k0 = choose|k: int|
                            {
                                &&& rows0.dom().contains(k)
                                &&& (#[trigger] rows0[k]).0 == old_name@
                                &&& db_rows(self.conn) == rows0.insert(
                                    k,
                                    (new_name@, rows0[k].1, rows0[k].2, rows0[k].3),
                                )
                                &&& forall|k2: int|
                                    rows0.dom().contains(k2) && k2 != k ==> (
                                    #[trigger] rows0[k2]).0 != new_name@
                            };
                        assert(db_row_named(rows0, k0, old_name@));
                    }
                    Ok(())
                }
            },
            Err(SqlUpdateError::Conflict) => {
                proof {
                    let k0 = choose|k: int|
                        {
                            &&& rows0.dom().contains(k)
                            &&& (#[trigger] rows0[k]).0 == new_name@
                            &&& rows0[k].0 != old_name@
                        };
                    assert(db_row_named(rows0, k0, new_name@));
                }
                Err(ErrorKind::Conflict)
            },
            Err(SqlUpdateError::Failed(_)) => Err(ErrorKind::Io),
        }
    }

    /// Renames the clip stored under an id, as `rename` but keyed by id.
    pub fn rename_by_id(&mut self, id: usize, new_name: &String) -> (r: Result<(), ErrorKind>)
        requires
            old(self).wf(),
            id <= 0x7FFF_FFFF_FFFF_FFFF,
        ensures
            final(self).wf(),
            match r {
                Ok(_) => {
                    &&& old(self).rows().dom().contains(id as int)
                    &&& final(self).rows() == old(self).rows().insert(
                        id as int,
                        (
                            new_name@,
                            old(self).rows()[id as int].1,
                            old(self).rows()[id as int].2,
                            old(self).rows()[id as int].3,
                        ),
                    )
                    &&& forall|k2: int|
                        old(self).rows().dom().contains(k2) && k2 != id as int ==> (#[trigger] old(
                            self,
                        ).rows()[k2]).0 != new_name@
                },
                Err(ErrorKind::NotFound) => !old(self).rows().dom().contains(id as int) && final(self).rows() == old(self).rows(),
                Err(ErrorKind::Conflict) => {
                    &&& old(self).rows().dom().contains(id as int)
                    &&& (exists|k: int|
                        k != id as int && db_row_named(old(self).rows(), k, new_name@))
                    &&& final(self).rows() == old(self).rows()
                },
                Err(ErrorKind::Io) => final(self).rows() == old(self).rows(),
                _ => false,
            },
    {
        let ghost rows0 = old(self).rows();
        match update_name_where_id(&mut self.conn, id as i64, new_name) {
            Ok(n) => {
                if n == 0 {
                    Err(ErrorKind::NotFound)
                } else {
                    Ok(())
                }
            },
            Err(SqlUpdateError::Conflict) => {
                proof {
                    let k0 = choose|k: int|
                        {
                            &&& k != id as i64 as int
                            &&& rows0.dom().contains(k)
                            &&& (#[trigger] rows0[k]).0 == new_name@
                        };
                    assert(db_row_named(rows0, k0, new_name@));
                }
                Err(ErrorKind::Conflict)
            },
            Err(SqlUpdateError::Failed(_)) => Err(ErrorKind::Io),
        }
    }
}

/// The id the store would be keyed by for a clip's optional identity.
pub open spec fn id_as_i64(id: Option<usize>) -> Option<i64> {
    match id {
        Some(i) => Some(i as i64),
        None => None,
    }
}

/// The row `save` writes: name, date, and the v1 payload wrapping the
/// coder's packets under the declared sample count.
pub open spec fn saved_row(
    name: Seq<char>,
    date: Seq<char>,
    rate: u32,
    num_samples: u32,
    packets: Seq<Vec<u8>>,
) -> DbRowModel {
    (name, date, rate, be32_bytes(num_samples) + build_records(packets.map_values(|v: Vec<u8>| v@)))
}

/// What `load` promises, shared with the id-keyed variant.
pub open spec fn load_contract(
    rows: Map<int, DbRowModel>,
    name: Seq<char>,
    _unused: Option<int>,
    r: Result<Option<EncodedClip>, ErrorKind>,
) -> bool {
    match r {
        Ok(Some(ec)) => {
            &&& db_row_named(rows, ec.id as int, name)
            &&& ec.name@ == name
            &&& ec.date@ == rows[ec.id as int].1
            &&& ec.sample_rate == rows[ec.id as int].2
            &&& payload_parses(rows[ec.id as int].3, ec)
        },
        Ok(None) => !has_name(rows, name),
        Err(ErrorKind::Decode) => exists|k: int|
            #[trigger] db_row_named(rows, k, name) && (!(0 <= k <= usize::MAX as int)
                || rows[k].3.len() < 4 || parse_records(rows[k].3.skip(4)) is None),
        Err(ErrorKind::Io) => true,
        _ => false,
    }
}

/// What `load_by_id` promises.
pub open spec fn load_by_id_contract(
    rows: Map<int, DbRowModel>,
    id: int,
    r: Result<Option<EncodedClip>, ErrorKind>,
) -> bool {
    match r {
        Ok(Some(ec)) => {
            &&& ec.id as int == id
            &&& rows.dom().contains(id)
            &&& ec.name@ == rows[id].0
            &&& ec.date@ == rows[id].1
            &&& ec.sample_rate == rows[id].2
            &&& payload_parses(rows[id].3, ec)
        },
        Ok(None) => !rows.dom().contains(id),
        Err(ErrorKind::Decode) => rows.dom().contains(id) && (rows[id].3.len() < 4
            || parse_records(rows[id].3.skip(4)) is None),
        Err(ErrorKind::Io) => true,
        _ => false,
    }
}

/// What `list` promises: a faithful listing — one meta per row with
/// distinct ids, each naming its row, ascending by date text — or a
/// diagnosed failure.
pub open spec fn list_contract(
    rows: Map<int, DbRowModel>,
    r: Result<Vec<ClipMeta>, ErrorKind>,
) -> bool {
    match r {
        Ok(v) => {
            &&& rows.dom().finite()
            &&& v@.len() == rows.dom().len()
            &&& (forall|i: int, j: int|
                0 <= i < j < v@.len() ==> (#[trigger] v@[i]).id != (#[trigger] v@[j]).id)
            &&& (forall|i: int|
                0 <= i < v@.len() ==> {
                    let m = #[trigger] v@[i];
                    &&& rows.dom().contains(m.id as int)
                    &&& rows[m.id as int].0 == m.name@
                    &&& rows[m.id as int].1 == m.date@
                })
            &&& (forall|i: int, j: int|
                0 <= i < j < v@.len() ==> text_le((#[trigger] v@[i]).date@, (#[trigger] v@[j]).date@))
        },
        Err(ErrorKind::Decode) => exists|k: int|
            rows.dom().contains(k) && !(0 <= k <= usize::MAX as int),
        Err(ErrorKind::Io) => true,
        _ => false,
    }
}

/// The stored payload parses back to the loaded clip's header count and
/// packets.
pub open spec fn payload_parses(payload: Seq<u8>, ec: EncodedClip) -> bool {
    &&& payload.len() >= 4
    &&& ec.num_samples == be32_val(payload[0], payload[1], payload[2], payload[3])
    &&& parse_records(payload.skip(4)) == Some(ec.packets@.map_values(|v: Vec<u8>| v@))
}

/// Unique names: a row holds its name exclusively, so a save of any clip
/// that is not that row under the same name meets the conflict that
/// `save` rejects.
pub proof fn lemma_unique_names(rows: Map<int, DbRowModel>, k: int, id2: Option<i64>)
    requires
        rows.dom().contains(k),
        id2 != Some(k as i64),
    ensures
        name_conflict(rows, rows[k].0, id2),
{
    assert(db_row_named(rows, k, rows[k].0));
}

/// Id immutability: with unique names, the row found under a clip's name
/// after a save is the very row the save wrote, so the id a clip learns
/// at its first save is the id every later load returns.
pub proof fn lemma_saved_id_stable(rows: Map<int, DbRowModel>, k: int, k2: int, name: Seq<char>)
    requires
        names_unique(rows),
        db_row_named(rows, k, name),
        db_row_named(rows, k2, name),
    ensures
        k == k2,
{
}

/// Migration preserves the catalog: committing a migrated row keeps the
/// row set, every name and every date, and the re-encoded payload's
/// header declares exactly the sample count that was decoded from the v0
/// payload.
pub proof fn lemma_migration_preserves_row(
    rows: Map<int, DbRowModel>,
    job_id: int,
    rate: u32,
    num_samples: u32,
    packets: Seq<Vec<u8>>,
)
    requires
        rows.dom().contains(job_id),
    ensures
        ({
            let row2 = saved_row(rows[job_id].0, rows[job_id].1, rate, num_samples, packets);
            let rows2 = rows.insert(job_id, row2);
            &&& rows2.dom() == rows.dom()
            &&& forall|k: int|
                rows2.dom().contains(k) ==> (#[trigger] rows2[k]).0 == rows[k].0 && rows2[k].1
                    == rows[k].1
            &&& be32_val(row2.3[0], row2.3[1], row2.3[2], row2.3[3]) == num_samples
        }),
{
    let row2 = saved_row(rows[job_id].0, rows[job_id].1, rate, num_samples, packets);
    let rows2 = rows.insert(job_id, row2);
    assert(rows2.dom() =~= rows.dom());
    lemma_v1_header(num_samples, packets.map_values(|v: Vec<u8>| v@));
}

/// A v1 payload's first four bytes read back as its declared count.
pub proof fn lemma_v1_header(num_samples: u32, packets: Seq<Seq<u8>>)
    ensures
        ({
            let payload = be32_bytes(num_samples) + build_records(packets);
            &&& payload.len() >= 4
            &&& be32_val(payload[0], payload[1], payload[2], payload[3]) == num_samples
        }),
{
    let payload = be32_bytes(num_samples) + build_records(packets);
    assert(payload[0] == be32_bytes(num_samples)[0]);
    assert(payload[1] == be32_bytes(num_samples)[1]);
    assert(payload[2] == be32_bytes(num_samples)[2]);
    assert(payload[3] == be32_bytes(num_samples)[3]);
    crate::codec::lemma_be32_round_trip(num_samples);
}

} // verus!
