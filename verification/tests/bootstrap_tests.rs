use spotify_bootstrap::bootstrap::BootstrapError;
use spotify_bootstrap::bootstrap::run_model;
use spotify_bootstrap::coerce::DecodeError;
use spotify_bootstrap::record::Value;
use spotify_bootstrap::store::MemStore;

const HEADER: &str = "track_id,track_name,track_number,track_popularity,explicit,artist_name,\
                      artist_popularity,artist_followers,artist_genres,album_id,album_name,\
                      album_release_date,album_total_tracks,album_type,track_duration_min";

fn three_valid_rows() -> String {
    format!(
        "{HEADER}\n\
         t1,Song One,1,50,TRUE,Artist A,60,1000,\"pop, rock\",al1,Album One,2020-01-01,10,album,3.5\n\
         t2,Song Two,2,40,false,Artist B,55,2000,,al2,Album Two,2021-02-02,12,single,4.25\n\
         t3,Song Three,,,,,,,,,,,,,\n"
    )
}

#[test]
fn three_records() {
    let mut store = MemStore::new();
    let content = three_valid_rows();
    let result = run_model(&mut store, Some(&content));
    assert_eq!(result, Ok(()));
    assert!(store.table_exists);
    assert_eq!(store.rows.len(), 3);
    assert_eq!(store.rows[0][0], Value::Text("t1".to_string()));
    assert_eq!(store.rows[1][0], Value::Text("t2".to_string()));
    assert_eq!(store.rows[2][0], Value::Text("t3".to_string()));
    // the explicit flag is stored as its integer coding
    assert_eq!(store.rows[0][4], Value::Int(1));
    assert_eq!(store.rows[1][4], Value::Int(0));
    assert_eq!(store.rows[2][4], Value::Null);
    // a quoted field keeps its comma: the csv split did real work
    assert_eq!(store.rows[0][8], Value::Text("pop, rock".to_string()));
    // empty optional fields land as nulls
    assert_eq!(store.rows[1][8], Value::Null);
    assert_eq!(store.rows[2][1], Value::Text("Song Three".to_string()));
    assert_eq!(store.rows[2][2], Value::Null);
    assert_eq!(store.rows[0][14], Value::Real("3.5".to_string()));
}

#[test]
fn second_bootstrap_is_a_no_op() {
    let mut store = MemStore::new();
    let content = three_valid_rows();
    assert_eq!(run_model(&mut store, Some(&content)), Ok(()));
    assert_eq!(store.rows.len(), 3);
    // a second run, even over different content, reads nothing and inserts
    // nothing
    let other = format!("{HEADER}\nt9,Other,,,,,,,,,,,,,\n");
    assert_eq!(run_model(&mut store, Some(&other)), Ok(()));
    assert_eq!(store.rows.len(), 3);
    assert_eq!(run_model(&mut store, None), Ok(()));
    assert_eq!(store.rows.len(), 3);
}

#[test]
fn bad_boolean_in_second_row_leaves_one_committed_row() {
    let mut store = MemStore::new();
    let content = format!(
        "{HEADER}\n\
         t1,Song One,1,50,TRUE,Artist A,60,1000,,al1,Album One,2020-01-01,10,album,3.5\n\
         t2,Song Two,2,40,maybe,Artist B,55,2000,,al2,Album Two,2021-02-02,12,single,4.25\n\
         t3,Song Three,,,,,,,,,,,,,\n"
    );
    let result = run_model(&mut store, Some(&content));
    assert_eq!(
        result,
        Err(BootstrapError::Decode(DecodeError::InvalidBoolean))
    );
    // row 1 stays committed, row 3 is never reached
    assert!(store.table_exists);
    assert_eq!(store.rows.len(), 1);
    assert_eq!(store.rows[0][0], Value::Text("t1".to_string()));
    // the relation now exists, so a retry is a no-op: the dataset stays
    // incomplete until the relation is dropped externally
    assert_eq!(run_model(&mut store, Some(&content)), Ok(()));
    assert_eq!(store.rows.len(), 1);
}

#[test]
fn duplicate_track_id_fails_and_keeps_first_row() {
    let mut store = MemStore::new();
    let content = format!(
        "{HEADER}\n\
         t1,Song One,1,50,TRUE,Artist A,60,1000,,al1,Album One,2020-01-01,10,album,3.5\n\
         t1,Song Clone,2,40,false,Artist B,55,2000,,al2,Album Two,2021-02-02,12,single,4.25\n\
         t3,Song Three,,,,,,,,,,,,,\n"
    );
    let result = run_model(&mut store, Some(&content));
    assert_eq!(result, Err(BootstrapError::Store));
    assert_eq!(store.rows.len(), 1);
    assert_eq!(store.rows[0][1], Value::Text("Song One".to_string()));
}

#[test]
fn unreadable_file_fails_after_creating_the_relation() {
    let mut store = MemStore::new();
    assert_eq!(run_model(&mut store, None), Err(BootstrapError::Input));
    // the relation was created before the read was attempted
    assert!(store.table_exists);
    assert_eq!(store.rows.len(), 0);
}

#[test]
fn empty_content_loads_nothing() {
    let mut store = MemStore::new();
    assert_eq!(run_model(&mut store, Some("")), Ok(()));
    assert!(store.table_exists);
    assert_eq!(store.rows.len(), 0);
}

#[test]
fn header_only_content_loads_nothing() {
    let mut store = MemStore::new();
    let content = format!("{HEADER}\n");
    assert_eq!(run_model(&mut store, Some(&content)), Ok(()));
    assert!(store.table_exists);
    assert_eq!(store.rows.len(), 0);
}

#[test]
fn empty_track_id_row_is_rejected() {
    let mut store = MemStore::new();
    let content = format!(
        "{HEADER}\n\
         ,Song One,1,50,TRUE,Artist A,60,1000,,al1,Album One,2020-01-01,10,album,3.5\n"
    );
    assert_eq!(
        run_model(&mut store, Some(&content)),
        Err(BootstrapError::Decode(DecodeError::MissingTrackId))
    );
    assert_eq!(store.rows.len(), 0);
}

#[test]
fn ragged_rows_are_an_input_error() {
    let mut store = MemStore::new();
    let content = format!("{HEADER}\nt1,only-two-fields\n");
    assert_eq!(
        run_model(&mut store, Some(&content)),
        Err(BootstrapError::Input)
    );
    assert_eq!(store.rows.len(), 0);
}
