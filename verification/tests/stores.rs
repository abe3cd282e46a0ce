use gsync::codec::{decode_path, encode_path};
use gsync::error::Error;
use gsync::store::{Row, StateStore, SyncRecord};

fn record(path: &str, id: &str, time: u64, included: bool) -> SyncRecord {
    SyncRecord {
        path: String::from(path),
        remote_id: String::from(id),
        modification_time: time,
        included,
    }
}

fn row(path: &str, id: &str, time: u64, sync_include: bool) -> Row {
    Row { id: String::from(id), path: String::from(path), modification_time: time, sync_include }
}

fn all(store: &StateStore) -> Vec<SyncRecord> {
    let mut out = Vec::new();
    let mut index = 0;
    while index < store.len() {
        out.push(store.record(index).duplicate());
        index += 1;
    }
    out
}

#[test]
fn a_new_store_holds_nothing() {
    let store = StateStore::new();
    assert_eq!(store.len(), 0);
    assert_eq!(store.get("/a"), None);
    assert_eq!(store.stale(), Vec::new());
}

#[test]
fn upsert_creates_a_record_that_is_marked() {
    let mut store = StateStore::new();
    store.upsert("/a/x", "id-x", 7);
    assert_eq!(store.get("/a/x"), Some(record("/a/x", "id-x", 7, true)));
    assert_eq!(store.len(), 1);
}

#[test]
fn upsert_replaces_the_record_of_the_path() {
    let mut store = StateStore::new();
    store.upsert("/a/x", "id-x", 7);
    store.upsert("/a/y", "id-y", 8);
    store.reset_include_flags();
    store.upsert("/a/x", "id-new", 9);
    assert_eq!(
        all(&store),
        vec![record("/a/x", "id-new", 9, true), record("/a/y", "id-y", 8, false)]
    );
}

#[test]
fn get_goes_by_the_exact_text_of_the_path() {
    let mut store = StateStore::new();
    store.upsert("/a/x", "id-x", 7);
    assert_eq!(store.get("/a/x/"), None);
    assert_eq!(store.get("/a"), None);
}

#[test]
fn reset_clears_every_mark() {
    let mut store = StateStore::new();
    store.upsert("/a", "1", 1);
    store.upsert("/b", "2", 2);
    store.reset_include_flags();
    assert_eq!(all(&store), vec![record("/a", "1", 1, false), record("/b", "2", 2, false)]);
}

#[test]
fn touch_marks_the_record_and_keeps_its_identifier() {
    let mut store = StateStore::new();
    store.upsert("/a", "1", 1);
    store.upsert("/b", "2", 2);
    store.reset_include_flags();
    store.touch("/b", 5);
    assert_eq!(all(&store), vec![record("/a", "1", 1, false), record("/b", "2", 5, true)]);
}

#[test]
fn touch_of_an_unknown_path_changes_nothing() {
    let mut store = StateStore::new();
    store.upsert("/a", "1", 1);
    store.touch("/c", 5);
    assert_eq!(all(&store), vec![record("/a", "1", 1, true)]);
}

#[test]
fn stale_lists_the_unmarked_records_in_their_order() {
    let mut store = StateStore::new();
    store.upsert("/a", "1", 1);
    store.upsert("/b", "2", 2);
    store.upsert("/c", "3", 3);
    store.reset_include_flags();
    store.touch("/b", 2);
    assert_eq!(store.stale(), vec![record("/a", "1", 1, false), record("/c", "3", 3, false)]);
    assert_eq!(store.len(), 3);
}

#[test]
fn sweep_returns_the_stale_records_and_removes_them() {
    let mut store = StateStore::new();
    store.upsert("/a", "1", 1);
    store.upsert("/b", "2", 2);
    store.upsert("/c", "3", 3);
    store.reset_include_flags();
    store.touch("/b", 2);
    let removed = store.sweep();
    assert_eq!(removed, vec![record("/a", "1", 1, false), record("/c", "3", 3, false)]);
    assert_eq!(all(&store), vec![record("/b", "2", 2, true)]);
    assert_eq!(store.sweep(), Vec::new());
}

#[test]
fn encode_path_writes_base64() {
    assert_eq!(encode_path("/a/x.txt"), Some(String::from("L2EveC50eHQ=")));
    assert_eq!(encode_path("/a"), Some(String::from("L2E=")));
    assert_eq!(encode_path(""), Some(String::new()));
    assert_eq!(encode_path("héllo/ü"), Some(String::from("aMOpbGxvL8O8")));
}

#[test]
fn decode_path_reads_base64() {
    assert_eq!(decode_path("L2EveC50eHQ="), Ok(String::from("/a/x.txt")));
    assert_eq!(decode_path("aMOpbGxvL8O8"), Ok(String::from("héllo/ü")));
    assert_eq!(decode_path(""), Ok(String::new()));
}

#[test]
fn decode_path_refuses_what_is_not_base64() {
    assert!(matches!(decode_path("L"), Err(Error::Other(_))));
    assert!(matches!(decode_path("/a/x.txt"), Err(Error::Other(_))));
    assert!(matches!(decode_path("L2E=\n"), Err(Error::Other(_))));
}

#[test]
fn decode_path_refuses_bytes_that_are_no_text() {
    assert!(matches!(decode_path("/w=="), Err(Error::Other(_))));
}

#[test]
fn a_path_is_read_back_as_it_was_written() {
    for path in ["/a/b c", "/tab\there", "/new\nline", "/ünï/cødé/文件", "//a/./b/"] {
        let key = encode_path(path).unwrap();
        assert_eq!(decode_path(&key), Ok(String::from(path)));
    }
}

#[test]
fn to_row_writes_the_path_as_its_key() {
    let made = record("/a/x.txt", "id-x", 7, true).to_row();
    assert_eq!(made, Some(row("L2EveC50eHQ=", "id-x", 7, true)));
}

#[test]
fn from_rows_reads_the_records() {
    let rows = vec![row("L2E=", "id-a", 3, false), row("L2EveC50eHQ=", "id-x", 7, true)];
    let store = StateStore::from_rows(&rows).unwrap();
    assert_eq!(
        all(&store),
        vec![record("/a", "id-a", 3, false), record("/a/x.txt", "id-x", 7, true)]
    );
}

#[test]
fn from_rows_of_nothing_is_the_empty_store() {
    assert_eq!(StateStore::from_rows(&Vec::new()).unwrap().len(), 0);
}

#[test]
fn from_rows_refuses_a_key_that_cannot_be_read() {
    let rows = vec![row("L2E=", "id-a", 3, false), row("not base64!", "id-x", 7, true)];
    assert!(matches!(StateStore::from_rows(&rows), Err(Error::Other(_))));
}

#[test]
fn from_rows_refuses_a_path_that_occurs_twice() {
    let rows = vec![row("L2E=", "id-a", 3, false), row("L2E=", "id-b", 4, false)];
    assert!(matches!(StateStore::from_rows(&rows), Err(Error::Other(_))));
}

#[test]
fn from_rows_refuses_an_empty_identifier() {
    let rows = vec![row("L2E=", "", 3, false)];
    assert!(matches!(StateStore::from_rows(&rows), Err(Error::Other(_))));
}
