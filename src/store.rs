use vstd::prelude::*;

use crate::error::Mp3Error;
use crate::record::{opt_u32_to_i32, TagRecord};

verus! {

/// The connection to the relational store, carried through unopened.
#[verifier::external_type_specification]
#[verifier::external_body]
pub struct ExConnection(rusqlite::Connection);

/// An error reported by the store, carried through unopened.
#[verifier::external_type_specification]
#[verifier::external_body]
pub struct ExSqlError(rusqlite::Error);

/// The statement that makes the `tags` table unless it is already there.
pub open spec fn schema_sql() -> Seq<char> {
    "CREATE TABLE IF NOT EXISTS tags (track_id INTEGER PRIMARY KEY, path TEXT, title TEXT, number INTEGER, artist TEXT, album TEXT, genre TEXT);"@
}

/// The statement that adds one row, its six parameters in the column order
/// of `InsertValues`.
pub open spec fn insert_sql() -> Seq<char> {
    "INSERT INTO tags (path, title, number, artist, album, genre) VALUES (?1, ?2, ?3, ?4, ?5, ?6)"@
}

/// Relies on rusqlite::Connection::execute_batch: runs the statements of
/// `sql` one after another and reports the first failure.
#[verifier::external_body]
fn execute_batch(db: &rusqlite::Connection, sql: &str) -> (r: Result<(), rusqlite::Error>)
    requires
        sql@ == schema_sql(),
{
    db.execute_batch(sql)
}

/// The six column values of one row, in the order the insert binds them.
pub struct InsertValues {
    pub path: String,
    pub title: Option<String>,
    pub number: Option<i32>,
    pub artist: Option<String>,
    pub album: Option<String>,
    pub genre: Option<String>,
}

/// Relies on rusqlite::Connection::execute: runs one statement with six
/// positional parameters, an absent value bound as NULL; on success the count
/// of rows changed.
#[verifier::external_body]
fn execute_insert(db: &rusqlite::Connection, sql: &str, v: &InsertValues) -> (r: Result<
    usize,
    rusqlite::Error,
>)
    requires
        sql@ == insert_sql(),
{
    db.execute(sql, (v.path.as_str(), &v.title, v.number, &v.artist, &v.album, &v.genre))
}

/// Relies on rusqlite::Connection::last_insert_rowid: the row id that the
/// store assigned to the most recent successful insert.
#[verifier::external_body]
fn last_insert_rowid(db: &rusqlite::Connection) -> (r: i64) {
    db.last_insert_rowid()
}

/// A stored row as values: the id the store gave it, its source path, and
/// the metadata written into it.
pub struct DBTagView {
    pub track_id: i64,
    pub path: Seq<char>,
    pub tag: TagRecord,
}

/// One row of the `tags` table, as the insert that created it left it.
pub struct DBTag {
    track_id: i64,
    path: String,
    tag: TagRecord,
}

impl View for DBTag {
    type V = DBTagView;

    closed spec fn view(&self) -> DBTagView {
        DBTagView { track_id: self.track_id, path: self.path@, tag: self.tag }
    }
}

/// The failure an insert of `tag` ends in before the store is
/// reached, if any: a track number too large for the store's integers.
pub open spec fn insert_refusal(tag: TagRecord) -> Option<u32> {
    match tag.track {
        Some(n) => if n > i32::MAX {
            Some(n)
        } else {
            None
        },
        None => None,
    }
}

/// The store's integer for a track number that fits one.
pub open spec fn stored_number(track: Option<u32>) -> Option<i32> {
    match track {
        Some(n) => Some(n as i32),
        None => None,
    }
}

fn copy_text(f: &Option<String>) -> (r: Option<String>)
    ensures
        r == *f,
{
    match f {
        Some(s) => Some(s.clone()),
        None => None,
    }
}

/// The column values that store `tag` as a row for `path`: the path, the
/// title, the track number in the store's width, the artist, the album and
/// the genre. A track number too large for the store is handed back instead.
pub fn insert_values(tag: &TagRecord, path: &str) -> (r: Result<InsertValues, u32>)
    ensures
        match insert_refusal(*tag) {
            Some(n) => r == Err::<InsertValues, u32>(n),
            None => r is Ok && r->Ok_0.path@ == path@ && r->Ok_0.title == tag.title
                && r->Ok_0.number == stored_number(tag.track) && r->Ok_0.artist == tag.artist
                && r->Ok_0.album == tag.album && r->Ok_0.genre == tag.genre,
        },
{
    let number = match opt_u32_to_i32(tag.track) {
        Ok(n) => n,
        Err(n) => {
            return Err(n);
        },
    };
    Ok(
        InsertValues {
            path: path.to_owned(),
            title: copy_text(&tag.title),
            number,
            artist: copy_text(&tag.artist),
            album: copy_text(&tag.album),
            genre: copy_text(&tag.genre),
        },
    )
}

impl DBTag {
    /// Creates the `tags` table unless it is already there, so that a second
    /// call changes nothing and does not fail.
    pub fn create(db: &rusqlite::Connection) -> (r: Result<(), rusqlite::Error>) {
        let sql = "CREATE TABLE IF NOT EXISTS tags (track_id INTEGER PRIMARY KEY, path TEXT, title TEXT, number INTEGER, artist TEXT, album TEXT, genre TEXT);";
        proof {
            reveal_strlit("CREATE TABLE IF NOT EXISTS tags (track_id INTEGER PRIMARY KEY, path TEXT, title TEXT, number INTEGER, artist TEXT, album TEXT, genre TEXT);");
        }
        execute_batch(db, sql)
    }

    /// Stores `tag` as a new row for `path`. A track number that does not fit
    /// the store's integers is a decode failure and nothing is written; a
    /// failed write is a database failure. On success the row carries the id
    /// the store assigned, the path and the record unchanged.
    pub fn insert(db: &rusqlite::Connection, tag: TagRecord, path: &str) -> (r: Result<
        DBTag,
        Mp3Error,
    >)
        ensures
            insert_refusal(tag) is Some ==> r is Err && match r->Err_0 {
                Mp3Error::Decode { path: p, cause: _ } => p@ == path@,
                _ => false,
            },
            insert_refusal(tag) is None ==> match r {
                Ok(row) => row@.path == path@ && row@.tag == tag,
                Err(e) => match e {
                    Mp3Error::Database { path: p, error: _ } => p@ == path@,
                    _ => false,
                },
            },
    {
        let values = match insert_values(&tag, path) {
            Ok(v) => v,
            Err(_) => {
                return Err(
                    Mp3Error::Decode {
                        path: path.to_owned(),
                        cause: "track number does not fit a 32-bit signed integer".to_owned(),
                    },
                );
            },
        };
        let stmt = "INSERT INTO tags (path, title, number, artist, album, genre) VALUES (?1, ?2, ?3, ?4, ?5, ?6)";
        proof {
            reveal_strlit("INSERT INTO tags (path, title, number, artist, album, genre) VALUES (?1, ?2, ?3, ?4, ?5, ?6)");
        }
        match execute_insert(db, stmt, &values) {
            Ok(_) => {},
            Err(e) => {
                return Err(Mp3Error::Database { path: values.path, error: e });
            },
        }
        let track_id = last_insert_rowid(db);
        Ok(DBTag { track_id, path: values.path, tag })
    }

    /// The id the store assigned to this row.
    pub fn track_id(&self) -> (r: i64)
        ensures
            r == self@.track_id,
    {
        self.track_id
    }

    /// The path of the file the row was made from.
    pub fn path(&self) -> (r: &str)
        ensures
            r@ == self@.path,
    {
        self.path.as_str()
    }

    /// The metadata written into the row.
    pub fn tag(&self) -> (r: &TagRecord)
        ensures
            *r == self@.tag,
    {
        &self.tag
    }
}

} // verus!
