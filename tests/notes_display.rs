use kiro::config::{default_font_size, default_theme, Config, ThemeSettings};
use kiro::note::{Note, SearchResult};
use kiro::time::Timestamp;

fn ts() -> Timestamp {
    Timestamp { year: 2024, month: 3, day: 9, hour: 1, minute: 2, second: 3, nanosecond: 0 }
}

fn result(title: &str, preview: &str, words: usize) -> SearchResult {
    SearchResult {
        id: 1,
        title: title.to_string(),
        body_preview: preview.to_string(),
        created_at: ts(),
        word_count: words,
    }
}

#[test]
fn display_text_joins_and_cuts() {
    let r = result("Title", "some\n\tbody   text", 3);
    assert_eq!(r.display_text(100), "Title - some body text");
    assert_eq!(r.display_text(10), "Title -...");
    assert_eq!(result("Only", "", 0).display_text(100), "Only");
}

#[test]
fn date_and_words_labels() {
    let r = result("t", "p", 12);
    assert_eq!(r.date_str(), "03/09/24");
    assert_eq!(r.words_str(), "12w");
    assert_eq!(result("t", "p", 12345).words_str(), "12k");
}

#[test]
fn minute_text_pads() {
    assert_eq!(ts().minute_text(), "2024-03-09 01:02");
    let t = Timestamp { year: 12, month: 1, day: 1, hour: 0, minute: 0, second: 0, nanosecond: 0 };
    assert_eq!(t.minute_text(), "0012-01-01 00:00");
}

#[test]
fn snippet_one_line() {
    let n = Note::new(1, "Head".to_string(), "a\nb".to_string());
    assert_eq!(n.snippet(100), "Head a b");
    assert_eq!(n.snippet(4), "Head...");
}

#[test]
fn config_defaults() {
    let c = Config::default();
    assert!(!c.has_scan_directories());
    assert_eq!(default_theme(), "dark");
    assert_eq!(default_font_size(), 16);
    assert_eq!(ThemeSettings::default().preset, "dark");
}

#[test]
fn config_scan_directories() {
    let mut c = Config::default();
    c.set_scan_directories(vec!["/home/me/notes".to_string()]);
    assert!(c.has_scan_directories());
    c.clear_scan_directories();
    assert!(!c.has_scan_directories());
}

#[test]
fn snippet_cuts_by_bytes() {
    let n = Note::new(1, "é".to_string(), String::new());
    assert_eq!(n.snippet(2), "é...");
    assert_eq!(n.snippet(3), "é ");
}
