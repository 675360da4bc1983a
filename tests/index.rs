use std::sync::Arc;
use wolog::index::{is_document_path, merge_visible, under_root, visible_under, Throttle};
use wolog::meta::ArticleMeta;
use wolog::search::Entry;

fn entry(path: &str, hidden: bool) -> Entry {
    let mut m = ArticleMeta::default();
    m.hidden = hidden;
    m.title = path.to_string();
    (path.to_string(), Arc::new(m))
}

#[test]
fn throttle_walks_once_per_interval() {
    let mut t = Throttle::new();
    assert!(t.begin(100, true));
    assert!(!t.begin(100 + 1800, true));
    assert!(t.begin(100 + 1801, true));
    assert!(!t.begin(100 + 1802, true));
}

#[test]
fn walks_below_the_root_do_not_reset_the_throttle() {
    let mut t = Throttle::new();
    assert!(t.begin(5, false));
    assert!(t.begin(6, false));
    assert!(t.begin(7, true));
    assert!(!t.begin(8, false));
    assert_eq!(t.last_full_scan, Some(7));
}

#[test]
fn forced_rescan_walks_on_next_call() {
    let mut t = Throttle::new();
    assert!(t.begin(50, true));
    assert!(!t.begin(60, true));
    t.force_rescan();
    assert!(t.begin(61, true));
}

#[test]
fn paths_compare_by_component() {
    assert!(under_root("articles/a.md", "articles"));
    assert!(under_root("articles/a.md", "articles/"));
    assert!(under_root("articles", "articles"));
    assert!(!under_root("articles2/a.md", "articles"));
    assert!(!under_root("art", "articles"));
    assert!(under_root("anything", ""));
}

#[test]
fn document_files_end_in_md() {
    assert!(is_document_path("articles/a.md"));
    assert!(!is_document_path("articles/.md"));
    assert!(!is_document_path("articles/a.txt"));
    assert!(!is_document_path(".md"));
}

#[test]
fn hidden_document_three_levels_down_never_indexed() {
    let mut deepest: Vec<Entry> = vec![];
    merge_visible(&mut deepest, vec![entry("articles/a/b/c/secret.md", true), entry("articles/a/b/c/open.md", false)]);
    let mut middle: Vec<Entry> = vec![];
    merge_visible(&mut middle, deepest);
    let mut upper: Vec<Entry> = vec![];
    merge_visible(&mut upper, middle);
    let mut root: Vec<Entry> = vec![entry("articles/index.md", false)];
    merge_visible(&mut root, upper);
    let p: Vec<String> = root.iter().map(|e| e.0.clone()).collect();
    assert_eq!(p, vec!["articles/index.md", "articles/a/b/c/open.md"]);
}

#[test]
fn later_entry_for_a_path_replaces_earlier() {
    let mut out = vec![entry("a.md", false), entry("b.md", false)];
    let mut newer = ArticleMeta::default();
    newer.title = "newer".to_string();
    merge_visible(&mut out, vec![("a.md".to_string(), Arc::new(newer))]);
    assert_eq!(out.len(), 2);
    assert_eq!(out[0].1.title, "newer");
}

#[test]
fn snapshot_keeps_visible_entries_under_root() {
    let es = vec![entry("articles/x/a.md", false), entry("articles/y/b.md", false), entry("articles/x/c.md", true)];
    let r = visible_under(es, &"articles/x".to_string());
    let p: Vec<String> = r.iter().map(|e| e.0.clone()).collect();
    assert_eq!(p, vec!["articles/x/a.md"]);
}
