use kiro::commands::glob_to_regex;
use kiro::digest::compute_hash;
use kiro::export::{file_name_for, sanitize_title};
use kiro::store::{ImportCandidate, NoteStore};
use kiro::time::Timestamp;

fn at(year: i32, month: u32, day: u32) -> Timestamp {
    Timestamp { year, month, day, hour: 9, minute: 5, second: 0, nanosecond: 0 }
}

#[test]
fn hash_is_sha256_hex_of_title_and_body() {
    assert_eq!(
        compute_hash("Groceries", "milk"),
        "a713956383ee053117af4b2a764a0ed84812b1f3f3a4528b850a3e9bcc1a555a"
    );
}

#[test]
fn importing_same_file_twice_skips_second() {
    let mut s = NoteStore::new();
    let r1 = s.import_file(Some("notes"), "hello world", Some(at(2023, 5, 1))).unwrap();
    assert_eq!(r1, (true, Some(1)));
    let hash = s.get(1).unwrap().unwrap().import_hash.clone();
    let r2 = s.import_file(Some("notes"), "hello world", None).unwrap();
    assert_eq!(r2, (false, None));
    assert_eq!(s.count().unwrap(), 1);
    assert_eq!(s.get(1).unwrap().unwrap().import_hash, hash);
    assert_eq!(hash, Some(compute_hash("notes", "hello world")));
    assert_eq!(s.get(1).unwrap().unwrap().created_at, at(2023, 5, 1));
}

#[test]
fn same_body_other_name_is_duplicate() {
    let mut s = NoteStore::new();
    assert_eq!(s.import_file(Some("a"), "same body", None).unwrap(), (true, Some(1)));
    assert_eq!(s.import_file(Some("b"), "same body", None).unwrap(), (false, None));
    assert_eq!(s.count().unwrap(), 1);
}

#[test]
fn authored_note_body_blocks_import() {
    let mut s = NoteStore::new();
    s.create("x", "typed by hand").unwrap();
    assert_eq!(s.import_file(Some("y"), "typed by hand", None).unwrap(), (false, None));
}

#[test]
fn same_title_and_prefix_is_duplicate() {
    let mut s = NoteStore::new();
    s.create("t", "abc and more text").unwrap();
    assert!(s.content_exists("t", "abc", "h"));
    assert!(!s.content_exists("u", "abc", "h"));
    assert!(!s.content_exists("t", "abd", "h"));
}

#[test]
fn untitled_when_name_unreadable() {
    let mut s = NoteStore::new();
    s.import_file(None, "text", None).unwrap();
    assert_eq!(s.get(1).unwrap().unwrap().title, "(untitled)");
}

#[test]
fn import_batch_counts() {
    let mut s = NoteStore::new();
    let files = vec![
        ImportCandidate { file_stem: Some("a".to_string()), content: Some("one".to_string()), modified: None },
        ImportCandidate { file_stem: Some("b".to_string()), content: None, modified: None },
        ImportCandidate { file_stem: Some("c".to_string()), content: Some("one".to_string()), modified: None },
        ImportCandidate { file_stem: Some("d".to_string()), content: Some("two".to_string()), modified: None },
    ];
    let (imported, skipped, ids) = s.import_files(&files).unwrap();
    assert_eq!((imported, skipped), (2, 2));
    assert_eq!(ids, vec![1, 2]);
}

#[test]
fn export_round_trip() {
    let mut s = NoteStore::new();
    let id = s.create_at("My Note: draft #1", "line one\nline two", at(2024, 3, 7)).unwrap();
    let files = s.export_notes(&vec![id, id, 99]);
    assert_eq!(files.len(), 1);
    assert_eq!(files[0].file_name, "note-1-My-Note-draft-1.md");
    assert_eq!(
        files[0].content,
        "# My Note: draft #1\n\n_Created: 2024-03-07 09:05 | Updated: 2024-03-07 09:05_\n\nline one\nline two"
    );
    let body = files[0].content.splitn(2, "_\n\n").nth(1).unwrap();
    assert_eq!(body, "line one\nline two");
}

#[test]
fn file_names() {
    assert_eq!(file_name_for(3, "!!!"), "note-3.md");
    assert_eq!(file_name_for(4, "  a  b  "), "note-4-a--b.md");
    assert_eq!(sanitize_title(&"x".repeat(60)).len(), 50);
    assert_eq!(sanitize_title("snake_case-name"), "snake_case-name");
}

#[test]
fn glob_translation() {
    assert_eq!(glob_to_regex("*.md"), "^.*\\.md$");
    assert_eq!(glob_to_regex("a?c"), "^a.c$");
}

#[test]
fn import_batch_notes_follow_files_in_order() {
    let mut s = NoteStore::new();
    let files = vec![
        ImportCandidate { file_stem: Some("first".to_string()), content: Some("alpha".to_string()), modified: Some(at(2022, 1, 1)) },
        ImportCandidate { file_stem: None, content: Some("beta".to_string()), modified: None },
        ImportCandidate { file_stem: Some("again".to_string()), content: Some("alpha".to_string()), modified: None },
    ];
    let (imported, skipped, ids) = s.import_files(&files).unwrap();
    assert_eq!((imported, skipped, ids.clone()), (2, 1, vec![1, 2]));
    let a = s.get(1).unwrap().unwrap();
    assert_eq!((a.title.as_str(), a.body.as_str()), ("first", "alpha"));
    assert_eq!(a.created_at, at(2022, 1, 1));
    assert_eq!(a.import_hash, Some(compute_hash("first", "alpha")));
    let b = s.get(2).unwrap().unwrap();
    assert_eq!((b.title.as_str(), b.body.as_str()), ("(untitled)", "beta"));
    assert_eq!(b.created_at, b.updated_at);
}

#[test]
fn import_without_mtime_is_created_now() {
    let mut s = NoteStore::new();
    s.import_file(Some("n"), "text", None).unwrap();
    let n = s.get(1).unwrap().unwrap();
    assert_eq!(n.created_at, n.updated_at);
}

#[test]
fn negative_id_file_name() {
    assert_eq!(file_name_for(-3, "x"), "note--3-x.md");
}

#[test]
fn punctuation_dropped_from_file_name() {
    assert_eq!(file_name_for(8, "Hello, World!"), "note-8-Hello-World.md");
}
