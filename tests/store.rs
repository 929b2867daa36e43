use mp3_walker::error::Mp3Error;
use mp3_walker::record::{clean_tag, opt_u32_to_i32, TagRecord};
use mp3_walker::store::{insert_values, DBTag};
use rusqlite::Connection;

fn full_record() -> TagRecord {
    TagRecord {
        title: Some("Title".to_string()),
        artist: Some("Artist".to_string()),
        album: Some("Album".to_string()),
        genre: Some("Rock".to_string()),
        track: Some(7),
    }
}

fn empty_record() -> TagRecord {
    TagRecord { title: None, artist: None, album: None, genre: None, track: None }
}

type Row = (String, Option<String>, Option<i64>, Option<String>, Option<String>, Option<String>);

fn read_row(db: &Connection, id: i64) -> Row {
    db.query_row(
        "SELECT path, title, number, artist, album, genre FROM tags WHERE track_id = ?1",
        [id],
        |r| Ok((r.get(0)?, r.get(1)?, r.get(2)?, r.get(3)?, r.get(4)?, r.get(5)?)),
    )
    .unwrap()
}

fn schema(db: &Connection) -> Vec<String> {
    let mut stmt = db.prepare("SELECT sql FROM sqlite_master ORDER BY name").unwrap();
    let rows = stmt.query_map([], |r| r.get::<_, String>(0)).unwrap();
    rows.map(|r| r.unwrap()).collect()
}

fn count(db: &Connection) -> i64 {
    db.query_row("SELECT COUNT(*) FROM tags", [], |r| r.get(0)).unwrap()
}

#[test]
fn create_twice_is_idempotent() {
    let once = Connection::open_in_memory().unwrap();
    DBTag::create(&once).unwrap();
    let twice = Connection::open_in_memory().unwrap();
    DBTag::create(&twice).unwrap();
    assert!(DBTag::create(&twice).is_ok());
    assert_eq!(schema(&once), schema(&twice));
    assert_eq!(schema(&twice).len(), 1);
}

#[test]
fn full_record_round_trips() {
    let db = Connection::open_in_memory().unwrap();
    DBTag::create(&db).unwrap();
    let row = DBTag::insert(&db, full_record(), "music/a.mp3").unwrap();
    assert_eq!(row.path(), "music/a.mp3");
    assert_eq!(row.tag().track, Some(7));
    let stored = read_row(&db, row.track_id());
    assert_eq!(
        stored,
        (
            "music/a.mp3".to_string(),
            Some("Title".to_string()),
            Some(7),
            Some("Artist".to_string()),
            Some("Album".to_string()),
            Some("Rock".to_string())
        )
    );
}

#[test]
fn absent_fields_are_stored_as_null() {
    let db = Connection::open_in_memory().unwrap();
    DBTag::create(&db).unwrap();
    let row = DBTag::insert(&db, empty_record(), "music/b.mp3").unwrap();
    let stored = read_row(&db, row.track_id());
    assert_eq!(stored, ("music/b.mp3".to_string(), None, None, None, None, None));
}

#[test]
fn empty_text_is_not_absent() {
    let db = Connection::open_in_memory().unwrap();
    DBTag::create(&db).unwrap();
    let mut rec = empty_record();
    rec.title = Some(String::new());
    let row = DBTag::insert(&db, rec, "e.mp3").unwrap();
    assert_eq!(read_row(&db, row.track_id()).1, Some(String::new()));
}

#[test]
fn identical_tags_get_distinct_rows() {
    let db = Connection::open_in_memory().unwrap();
    DBTag::create(&db).unwrap();
    let a = DBTag::insert(&db, full_record(), "one.mp3").unwrap();
    let b = DBTag::insert(&db, full_record(), "two.mp3").unwrap();
    assert_ne!(a.track_id(), b.track_id());
    assert_eq!(count(&db), 2);
}

#[test]
fn out_of_range_track_is_a_decode_failure() {
    let db = Connection::open_in_memory().unwrap();
    DBTag::create(&db).unwrap();
    let mut rec = full_record();
    rec.track = Some(u32::MAX);
    match DBTag::insert(&db, rec, "big.mp3") {
        Err(Mp3Error::Decode { path, .. }) => assert_eq!(path, "big.mp3"),
        other => panic!("unexpected {:?}", other.map(|r| r.track_id())),
    }
    assert_eq!(count(&db), 0);
}

#[test]
fn missing_table_is_a_database_failure() {
    let db = Connection::open_in_memory().unwrap();
    match DBTag::insert(&db, full_record(), "x.mp3") {
        Err(Mp3Error::Database { path, .. }) => assert_eq!(path, "x.mp3"),
        other => panic!("unexpected {:?}", other.map(|r| r.track_id())),
    }
}

#[test]
fn track_number_conversion() {
    assert_eq!(opt_u32_to_i32(None), Ok(None));
    assert_eq!(opt_u32_to_i32(Some(0)), Ok(Some(0)));
    assert_eq!(opt_u32_to_i32(Some(2147483647)), Ok(Some(2147483647)));
    assert_eq!(opt_u32_to_i32(Some(2147483648)), Err(2147483648));
}

#[test]
fn clean_tag_keeps_absence() {
    assert_eq!(clean_tag(None), None);
    assert_eq!(clean_tag(Some("")), Some(String::new()));
    assert_eq!(clean_tag(Some("abc")), Some("abc".to_string()));
}

#[test]
fn summary_uses_placeholder() {
    assert_eq!(full_record().summary(), "Artist - Album - Title");
    let mut rec = empty_record();
    rec.album = Some("Only".to_string());
    assert_eq!(rec.summary(), "??? - Only - ???");
}

#[test]
fn insert_values_in_column_order() {
    let mut rec = full_record();
    rec.genre = None;
    let v = insert_values(&rec, "p.mp3").unwrap();
    assert_eq!(v.path, "p.mp3");
    assert_eq!(v.title, Some("Title".to_string()));
    assert_eq!(v.number, Some(7));
    assert_eq!(v.artist, Some("Artist".to_string()));
    assert_eq!(v.album, Some("Album".to_string()));
    assert_eq!(v.genre, None);
    rec.track = Some(2147483648);
    assert!(matches!(insert_values(&rec, "p.mp3"), Err(2147483648)));
}
