use spotify_bootstrap::coerce::DecodeError;
use spotify_bootstrap::record::Value;
use spotify_bootstrap::record::decode_row;
use spotify_bootstrap::record::field_text;
use spotify_bootstrap::schema::create_table_sql;
use spotify_bootstrap::schema::insert_sql;
use spotify_bootstrap::schema::track_schema;
use spotify_bootstrap::schema::user_schema;

fn strings(items: &[&str]) -> Vec<String> {
    items.iter().map(|s| s.to_string()).collect()
}

fn full_header() -> Vec<String> {
    strings(&[
        "track_id",
        "track_name",
        "track_number",
        "track_popularity",
        "explicit",
        "artist_name",
        "artist_popularity",
        "artist_followers",
        "artist_genres",
        "album_id",
        "album_name",
        "album_release_date",
        "album_total_tracks",
        "album_type",
        "track_duration_min",
    ])
}

#[test]
fn decodes_a_full_row() {
    let header = full_header();
    let row = strings(&[
        "t1",
        "Song One",
        "1",
        "50",
        "TRUE",
        "Artist A",
        "60",
        "1000",
        "pop, rock",
        "al1",
        "Album One",
        "2020-01-01",
        "10",
        "album",
        "3.5",
    ]);
    let t = decode_row(&header, &row).expect("row should decode");
    assert_eq!(t.track_id, "t1");
    assert_eq!(t.track_name.as_deref(), Some("Song One"));
    assert_eq!(t.track_number, Some(1));
    assert_eq!(t.track_popularity, Some(50));
    assert_eq!(t.explicit, Some(1));
    assert_eq!(t.artist_name.as_deref(), Some("Artist A"));
    assert_eq!(t.artist_popularity, Some(60));
    assert_eq!(t.artist_followers, Some(1000));
    assert_eq!(t.artist_genres.as_deref(), Some("pop, rock"));
    assert_eq!(t.album_id.as_deref(), Some("al1"));
    assert_eq!(t.album_name.as_deref(), Some("Album One"));
    assert_eq!(t.album_release_date.as_deref(), Some("2020-01-01"));
    assert_eq!(t.album_total_tracks, Some(10));
    assert_eq!(t.album_type.as_deref(), Some("album"));
    assert_eq!(t.track_duration_min.as_deref(), Some("3.5"));
}

#[test]
fn header_order_does_not_matter() {
    let header = strings(&["explicit", "track_id"]);
    let row = strings(&["false", "t9"]);
    let t = decode_row(&header, &row).expect("row should decode");
    assert_eq!(t.track_id, "t9");
    assert_eq!(t.explicit, Some(0));
    assert_eq!(t.track_name, None);
}

#[test]
fn empty_optional_fields_become_null() {
    let header = full_header();
    let row = strings(&["t2", "", "", "", "", "", "", "", "", "", "", "", "", "", ""]);
    let t = decode_row(&header, &row).expect("row should decode");
    assert_eq!(t.track_id, "t2");
    assert_eq!(t.track_name, None);
    assert_eq!(t.track_number, None);
    assert_eq!(t.explicit, None);
    assert_eq!(t.track_duration_min, None);
    let vals = t.bind_values();
    assert_eq!(vals.len(), 15);
    assert_eq!(vals[0], Value::Text("t2".to_string()));
    for v in &vals[1..] {
        assert_eq!(*v, Value::Null);
    }
}

#[test]
fn empty_track_id_is_rejected() {
    let header = full_header();
    let row = strings(&["", "x", "", "", "", "", "", "", "", "", "", "", "", "", ""]);
    assert_eq!(
        decode_row(&header, &row),
        Err(DecodeError::MissingTrackId)
    );
}

#[test]
fn absent_track_id_column_is_rejected() {
    let header = strings(&["track_name"]);
    let row = strings(&["Song"]);
    assert_eq!(
        decode_row(&header, &row),
        Err(DecodeError::MissingTrackId)
    );
}

#[test]
fn bad_integer_fails_decoding() {
    let header = strings(&["track_id", "track_number"]);
    let row = strings(&["t1", "one"]);
    assert_eq!(
        decode_row(&header, &row),
        Err(DecodeError::InvalidInteger)
    );
}

#[test]
fn bad_boolean_fails_decoding() {
    let header = strings(&["track_id", "explicit"]);
    let row = strings(&["t1", "maybe"]);
    assert_eq!(
        decode_row(&header, &row),
        Err(DecodeError::InvalidBoolean)
    );
}

#[test]
fn bad_real_fails_decoding() {
    let header = strings(&["track_id", "track_duration_min"]);
    let row = strings(&["t1", "fast"]);
    assert_eq!(decode_row(&header, &row), Err(DecodeError::InvalidReal));
}

#[test]
fn bind_values_follow_schema_order() {
    let header = full_header();
    let row = strings(&[
        "t3", "Name", "2", "40", "false", "A", "55", "2000", "g", "al", "Al", "2021", "12",
        "single", "4.25",
    ]);
    let t = decode_row(&header, &row).expect("row should decode");
    let vals = t.bind_values();
    assert_eq!(vals[0], Value::Text("t3".to_string()));
    assert_eq!(vals[2], Value::Int(2));
    assert_eq!(vals[4], Value::Int(0));
    assert_eq!(vals[7], Value::Int(2000));
    assert_eq!(vals[13], Value::Text("single".to_string()));
    assert_eq!(vals[14], Value::Real("4.25".to_string()));
}

#[test]
fn field_text_picks_first_matching_column() {
    let header = strings(&["a", "b", "a"]);
    let row = strings(&["1", "2", "3"]);
    assert_eq!(field_text(&header, &row, "a"), Some("1".to_string()));
    assert_eq!(field_text(&header, &row, "b"), Some("2".to_string()));
    assert_eq!(field_text(&header, &row, "c"), None);
}

#[test]
fn track_ddl_text() {
    let cols = track_schema();
    assert_eq!(
        create_table_sql("track", &cols),
        "CREATE TABLE IF NOT EXISTS track (track_id TEXT PRIMARY KEY, track_name TEXT, \
         track_number INTEGER, track_popularity INTEGER, explicit INTEGER, artist_name TEXT, \
         artist_popularity INTEGER, artist_followers INTEGER, artist_genres TEXT, album_id TEXT, \
         album_name TEXT, album_release_date TEXT, album_total_tracks INTEGER, album_type TEXT, \
         track_duration_min REAL)"
    );
}

#[test]
fn track_insert_text() {
    let cols = track_schema();
    assert_eq!(
        insert_sql("track", &cols),
        "INSERT INTO track (track_id, track_name, track_number, track_popularity, explicit, \
         artist_name, artist_popularity, artist_followers, artist_genres, album_id, album_name, \
         album_release_date, album_total_tracks, album_type, track_duration_min) \
         VALUES (?, ?, ?, ?, ?, ?, ?, ?, ?, ?, ?, ?, ?, ?, ?)"
    );
}

#[test]
fn user_ddl_text() {
    let cols = user_schema();
    assert_eq!(
        create_table_sql("user", &cols),
        "CREATE TABLE IF NOT EXISTS user (id INTEGER PRIMARY KEY, email TEXT, \
         password_hash TEXT, role TEXT)"
    );
}
