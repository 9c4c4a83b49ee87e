use kiro::query::{parse_date_filter, parse_month_year};
use kiro::store::NoteStore;
use kiro::time::Timestamp;

fn at(year: i32, month: u32, day: u32) -> Timestamp {
    Timestamp { year, month, day, hour: 12, minute: 0, second: 0, nanosecond: 0 }
}

fn sample() -> NoteStore {
    let mut s = NoteStore::new();
    s.create_at("Alpha plan", "first", at(2024, 3, 5)).unwrap();
    s.create_at("Other", "has ALPHA inside", at(2024, 3, 20)).unwrap();
    s.create_at("Alpha old", "x", at(2023, 3, 1)).unwrap();
    s.create_at("Beta", "nothing", at(2024, 7, 1)).unwrap();
    s.create_at("alpha april", "y", at(2024, 4, 2)).unwrap();
    s
}

#[test]
fn empty_query_on_empty_store() {
    let s = NoteStore::new();
    assert!(s.search("", 50).unwrap().is_empty());
}

#[test]
fn empty_query_lists_all_newest_first() {
    let s = sample();
    let r = s.search("   ", 50).unwrap();
    let ids: Vec<i64> = r.iter().map(|x| x.id).collect();
    assert_eq!(ids, vec![4, 5, 2, 1, 3]);
}

#[test]
fn year_query_filters_and_limits() {
    let s = sample();
    let r = s.search("y:2024", 50).unwrap();
    let ids: Vec<i64> = r.iter().map(|x| x.id).collect();
    assert_eq!(ids, vec![4, 5, 2, 1]);
    assert!(r.iter().all(|x| x.created_at.year == 2024));
    let r = s.search("year:2024", 2).unwrap();
    let ids: Vec<i64> = r.iter().map(|x| x.id).collect();
    assert_eq!(ids, vec![4, 5]);
}

#[test]
fn month_and_text_query() {
    let s = sample();
    let r = s.search("m:03/24 alpha", 50).unwrap();
    let ids: Vec<i64> = r.iter().map(|x| x.id).collect();
    assert_eq!(ids, vec![2, 1]);
}

#[test]
fn text_query_is_case_insensitive() {
    let s = sample();
    let r = s.search("ALPHA", 50).unwrap();
    let ids: Vec<i64> = r.iter().map(|x| x.id).collect();
    assert_eq!(ids, vec![5, 2, 1, 3]);
}

#[test]
fn out_of_range_year_is_text() {
    let s = sample();
    assert!(s.search("y:1800", 50).unwrap().is_empty());
    let (f, t) = parse_date_filter("y:1800 x");
    assert_eq!(f, None);
    assert_eq!(t, "y:1800 x");
}

#[test]
fn result_projection() {
    let mut s = NoteStore::new();
    let body = "word ".repeat(30);
    s.create_at("T", &body, at(2024, 1, 1)).unwrap();
    let r = s.search("", 10).unwrap();
    assert_eq!(r[0].word_count, 30);
    assert_eq!(r[0].body_preview.chars().count(), 100);
    assert_eq!(r[0].body_preview, body.chars().take(100).collect::<String>());
}

#[test]
fn date_filter_last_token_wins() {
    let (f, t) = parse_date_filter("y:2020 hello  m:1/2021   world");
    assert_eq!(f, Some((2021, Some(1))));
    assert_eq!(t, "hello world");
}

#[test]
fn date_filter_upper_case_prefix() {
    let (f, t) = parse_date_filter("Y:2024");
    assert_eq!(f, Some((2024, None)));
    assert_eq!(t, "");
    let (f, _) = parse_date_filter("MONTH:12/99");
    assert_eq!(f, Some((2099, Some(12))));
}

#[test]
fn month_year_forms() {
    assert_eq!(parse_month_year("03/24"), Some((3, 2024)));
    assert_eq!(parse_month_year("3/2024"), Some((3, 2024)));
    assert_eq!(parse_month_year("13/24"), None);
    assert_eq!(parse_month_year("03/1899"), None);
    assert_eq!(parse_month_year("03/24/1"), None);
    assert_eq!(parse_month_year("0/24"), None);
    assert_eq!(parse_month_year("ab"), None);
}
