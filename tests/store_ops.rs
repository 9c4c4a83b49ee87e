use kiro::error::KiroError;
use kiro::store::NoteStore;
use kiro::time::Timestamp;

fn at(year: i32, month: u32, day: u32, hour: u32) -> Timestamp {
    Timestamp { year, month, day, hour, minute: 0, second: 0, nanosecond: 0 }
}

#[test]
fn create_then_get_returns_same_note() {
    let mut store = NoteStore::new();
    let id = store.create("Title", "Body text").unwrap();
    let note = store.get(id).unwrap().unwrap();
    assert_eq!(note.id, id);
    assert_eq!(note.title, "Title");
    assert_eq!(note.body, "Body text");
    assert_eq!(note.created_at, note.updated_at);
    assert!(note.import_hash.is_none());
}

#[test]
fn get_missing_is_none() {
    let store = NoteStore::new();
    assert!(store.get(42).unwrap().is_none());
}

#[test]
fn ids_start_at_one_and_are_not_reused() {
    let mut store = NoteStore::new();
    let a = store.create("a", "1").unwrap();
    let b = store.create("b", "2").unwrap();
    assert_eq!((a, b), (1, 2));
    assert_eq!(store.delete_many(&vec![b]).unwrap(), 1);
    let c = store.create("c", "3").unwrap();
    assert_eq!(c, 3);
}

#[test]
fn update_changes_body_and_keeps_title() {
    let mut store = NoteStore::new();
    let id = store.create_at("Keep", "old", at(2024, 1, 1, 10)).unwrap();
    store.update_at(id, "new", at(2024, 1, 2, 10)).unwrap();
    let n = store.get(id).unwrap().unwrap();
    assert_eq!(n.title, "Keep");
    assert_eq!(n.body, "new");
    assert_eq!(n.created_at, at(2024, 1, 1, 10));
    assert_eq!(n.updated_at, at(2024, 1, 2, 10));
}

#[test]
fn update_never_moves_updated_at_back() {
    let mut store = NoteStore::new();
    let id = store.create_at("t", "b", at(2024, 5, 1, 10)).unwrap();
    store.update_at(id, "b2", at(2023, 1, 1, 0)).unwrap();
    let n = store.get(id).unwrap().unwrap();
    assert_eq!(n.updated_at, at(2024, 5, 1, 10));
    assert_eq!(n.body, "b2");
}

#[test]
fn update_with_clock_advances() {
    let mut store = NoteStore::new();
    let id = store.create("t", "b").unwrap();
    let before = store.get(id).unwrap().unwrap().updated_at;
    store.update(id, "b2").unwrap();
    let n = store.get(id).unwrap().unwrap();
    assert_eq!(n.body, "b2");
    assert!(n.updated_at.instant_value() >= before.instant_value());
}

#[test]
fn update_title_and_body_replaces_both() {
    let mut store = NoteStore::new();
    let id = store.create("t", "b").unwrap();
    store.update_title_and_body(id, "T2", "B2").unwrap();
    let n = store.get(id).unwrap().unwrap();
    assert_eq!(n.title, "T2");
    assert_eq!(n.body, "B2");
}

#[test]
fn update_missing_is_not_found_and_changes_nothing() {
    let mut store = NoteStore::new();
    let id = store.create("t", "b").unwrap();
    let e = store.update(id + 10, "x").unwrap_err();
    assert!(matches!(e, KiroError::NoteNotFound(n) if n == id + 10));
    let e = store.update_title_and_body(id + 10, "x", "y").unwrap_err();
    assert!(matches!(e, KiroError::NoteNotFound(_)));
    let n = store.get(id).unwrap().unwrap();
    assert_eq!(n.body, "b");
    assert_eq!(store.count().unwrap(), 1);
}

#[test]
fn not_found_message() {
    assert_eq!(KiroError::NoteNotFound(7).message(), "Note not found: 7");
    assert_eq!(KiroError::NoteNotFound(-3).message(), "Note not found: -3");
}

#[test]
fn delete_many_empty_is_noop() {
    let mut store = NoteStore::new();
    store.create("a", "1").unwrap();
    assert_eq!(store.delete_many(&vec![]).unwrap(), 0);
    assert_eq!(store.count().unwrap(), 1);
}

#[test]
fn delete_many_counts_only_existing() {
    let mut store = NoteStore::new();
    let a = store.create("a", "1").unwrap();
    let b = store.create("b", "2").unwrap();
    let c = store.create("c", "3").unwrap();
    assert_eq!(store.delete_many(&vec![a, 99, c, 100]).unwrap(), 2);
    assert_eq!(store.count().unwrap(), 1);
    assert!(store.get(b).unwrap().is_some());
    assert!(store.get(a).unwrap().is_none());
}

#[test]
fn delete_single() {
    let mut store = NoteStore::new();
    let a = store.create("a", "1").unwrap();
    store.delete(a).unwrap();
    assert!(matches!(store.delete(a), Err(KiroError::NoteNotFound(_))));
}

#[test]
fn get_many_orders_by_updated_desc() {
    let mut store = NoteStore::new();
    let a = store.create_at("a", "1", at(2024, 1, 1, 0)).unwrap();
    let b = store.create_at("b", "2", at(2024, 1, 3, 0)).unwrap();
    let c = store.create_at("c", "3", at(2024, 1, 2, 0)).unwrap();
    let notes = store.get_many(&vec![a, b, c, 77]).unwrap();
    let ids: Vec<i64> = notes.iter().map(|n| n.id).collect();
    assert_eq!(ids, vec![b, c, a]);
    assert!(store.get_many(&vec![]).unwrap().is_empty());
}

#[test]
fn seed_creates_samples() {
    let mut store = NoteStore::new();
    store.seed(3).unwrap();
    assert_eq!(store.count().unwrap(), 3);
    let n = store.get(2).unwrap().unwrap();
    assert_eq!(n.title, "Sample note 2");
    assert!(n.body.starts_with("This is sample note number 2."));
    assert!(n.body.contains("alpha beta gamma delta"));
}

#[test]
fn load_rejects_taken_ids() {
    let mut store = NoteStore::new();
    let n = kiro::note::Note {
        id: 5,
        title: "t".to_string(),
        body: "b".to_string(),
        created_at: at(2024, 1, 1, 0),
        updated_at: at(2024, 1, 1, 0),
        import_hash: None,
    };
    assert!(store.load(n.clone()));
    assert!(!store.load(n));
    assert_eq!(store.create("x", "y").unwrap(), 6);
}

#[test]
fn every_error_message_prefix() {
    assert_eq!(KiroError::Database("locked".to_string()).message(), "Database error: locked");
    assert_eq!(KiroError::Io("denied".to_string()).message(), "IO error: denied");
    assert_eq!(KiroError::InvalidPath("p".to_string()).message(), "Invalid path: p");
    assert_eq!(KiroError::ImportFailed("i".to_string()).message(), "Import failed: i");
    assert_eq!(KiroError::ExportFailed("e".to_string()).message(), "Export failed: e");
}

#[test]
fn load_raises_early_update_time() {
    let mut store = NoteStore::new();
    let n = kiro::note::Note {
        id: 2,
        title: "t".to_string(),
        body: "b".to_string(),
        created_at: at(2024, 6, 1, 0),
        updated_at: at(2024, 1, 1, 0),
        import_hash: None,
    };
    assert!(store.load(n));
    let got = store.get(2).unwrap().unwrap();
    assert_eq!(got.updated_at, at(2024, 6, 1, 0));
}

#[test]
fn ids_not_reused_after_seed_and_import() {
    let mut store = NoteStore::new();
    store.seed(2).unwrap();
    store.import_file(Some("f"), "imported text", None).unwrap();
    assert_eq!(store.delete_many(&vec![1, 2, 3]).unwrap(), 3);
    assert_eq!(store.create("x", "y").unwrap(), 4);
}
