use std::sync::Arc;
use wolog::date::Date;
use wolog::feed::{feed_entries, latest_date, tag_counts};
use wolog::meta::ArticleMeta;
use wolog::search::Entry;

fn entry(path: &str, tags: &[&str], exclude: bool) -> Entry {
    let mut m = ArticleMeta::default();
    m.tags = tags.iter().map(|t| t.to_string()).collect();
    m.exclude_from_rss = exclude;
    (path.to_string(), Arc::new(m))
}

#[test]
fn feed_leaves_out_excluded_documents() {
    let r = feed_entries(vec![entry("a", &[], false), entry("b", &[], true), entry("c", &[], false)]);
    let p: Vec<String> = r.iter().map(|e| e.0.clone()).collect();
    assert_eq!(p, vec!["a", "c"]);
}

#[test]
fn latest_update_of_a_feed() {
    let d = |y, m, dd| Date { year: y, month: m, day: dd };
    assert_eq!(latest_date(&vec![d(2020, 1, 1), d(2021, 6, 15), d(2019, 3, 3)]), d(2021, 6, 15));
    assert_eq!(latest_date(&vec![]), Date::unset());
    assert_eq!(latest_date(&vec![d(1960, 5, 5)]), d(1960, 5, 5));
}

#[test]
fn tags_counted_in_order() {
    let es = vec![entry("a", &["web", "rust"], false), entry("b", &["rust"], false), entry("c", &["art", "rust", "rust"], false)];
    let r = tag_counts(&es);
    assert_eq!(r, vec![("art".to_string(), 1), ("rust".to_string(), 4), ("web".to_string(), 1)]);
    assert!(tag_counts(&vec![]).is_empty());
}
