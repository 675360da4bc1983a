use std::sync::Arc;
use wolog::bounds::{unbounded, Bound};
use wolog::date::Date;
use wolog::meta::ArticleMeta;
use wolog::search::{search, Entry, FieldError, Search, SortType};

fn day(year: i32, month: u32, day: u32) -> Date {
    Date { year, month, day }
}

fn doc(path: &str, title: &str, created: Date, tags: &[&str], hidden: bool) -> Entry {
    let mut m = ArticleMeta::default();
    m.title = title.to_string();
    m.created = created;
    m.updated = created;
    m.tags = tags.iter().map(|t| t.to_string()).collect();
    m.hidden = hidden;
    (path.to_string(), Arc::new(m))
}

fn three_docs() -> Vec<Entry> {
    vec![
        doc("articles/a.md", "Alpha", day(2020, 1, 1), &["rust"], false),
        doc("articles/b.md", "Beta", day(2021, 6, 15), &["rust", "web"], false),
        doc("articles/c.md", "Gamma", day(2019, 3, 3), &["web"], false),
    ]
}

fn paths(r: &[Entry]) -> Vec<String> {
    r.iter().map(|e| e.0.clone()).collect()
}

#[test]
fn create_desc_orders_newest_first() {
    let mut s = Search::default();
    s.sort_type = SortType::CreateDesc;
    let r = search(&s, three_docs());
    let dates: Vec<Date> = r.iter().map(|e| e.1.created).collect();
    assert_eq!(dates, vec![day(2021, 6, 15), day(2020, 1, 1), day(2019, 3, 3)]);
}

#[test]
fn create_asc_is_exact_reverse_of_desc() {
    let mut asc = Search::default();
    asc.sort_type = SortType::CreateAsc;
    let mut desc = Search::default();
    desc.sort_type = SortType::CreateDesc;
    let mut docs = three_docs();
    docs.push(doc("articles/d.md", "Delta", day(2020, 1, 1), &[], false));
    let a = paths(&search(&asc, docs.clone()));
    let mut d = paths(&search(&desc, docs));
    d.reverse();
    assert_eq!(a, d);
    assert_eq!(a, vec!["articles/c.md", "articles/a.md", "articles/d.md", "articles/b.md"]);
}

#[test]
fn inclusive_lower_bound_keeps_the_boundary_date() {
    let mut s = Search::default();
    s.created = (Bound::Included(day(2020, 1, 1)), Bound::Unbounded);
    let r = paths(&search(&s, three_docs()));
    assert!(r.contains(&"articles/a.md".to_string()));
    assert!(!r.contains(&"articles/c.md".to_string()));
}

#[test]
fn exclusive_lower_bound_drops_the_boundary_date() {
    let mut s = Search::default();
    s.created = (Bound::Excluded(day(2020, 1, 1)), Bound::Unbounded);
    let r = paths(&search(&s, three_docs()));
    assert_eq!(r, vec!["articles/b.md"]);
}

#[test]
fn upper_bounds_on_updated() {
    let mut s = Search::default();
    s.updated = (Bound::Unbounded, Bound::Included(day(2020, 1, 1)));
    s.sort_type = SortType::UpdateAsc;
    assert_eq!(paths(&search(&s, three_docs())), vec!["articles/c.md", "articles/a.md"]);
}

#[test]
fn hidden_documents_never_returned() {
    let mut docs = three_docs();
    docs.push(doc("articles/x/y/z/secret.md", "Secret", day(2020, 5, 5), &["rust"], true));
    let mut s = Search::default();
    s.tags = vec!["rust".to_string()];
    s.title_filter = Some("Secret".to_string());
    assert!(search(&s, docs.clone()).is_empty());
    let r = paths(&search(&Search::default(), docs));
    assert_eq!(r.len(), 3);
    assert!(!r.contains(&"articles/x/y/z/secret.md".to_string()));
}

#[test]
fn every_tag_must_be_present() {
    let mut s = Search::default();
    s.tags = vec!["rust".to_string(), "web".to_string()];
    assert_eq!(paths(&search(&s, three_docs())), vec!["articles/b.md"]);
    s.tags = vec!["web".to_string()];
    assert_eq!(paths(&search(&s, three_docs())), vec!["articles/b.md", "articles/c.md"]);
}

#[test]
fn title_filter_is_a_substring_match() {
    let mut s = Search::default();
    s.title_filter = Some("amm".to_string());
    assert_eq!(paths(&search(&s, three_docs())), vec!["articles/c.md"]);
    s.title_filter = Some(String::new());
    assert_eq!(search(&s, three_docs()).len(), 3);
    s.title_filter = Some("alpha".to_string());
    assert!(search(&s, three_docs()).is_empty());
}

#[test]
fn excluded_paths_removed_before_limit() {
    let mut s = Search::default();
    s.exclude_paths = vec!["articles/b.md".to_string()];
    s.limit = Some(1);
    assert_eq!(paths(&search(&s, three_docs())), vec!["articles/a.md"]);
}

#[test]
fn limit_truncates_and_larger_limit_keeps_all() {
    let mut s = Search::default();
    s.limit = Some(2);
    assert_eq!(paths(&search(&s, three_docs())), vec!["articles/b.md", "articles/a.md"]);
    s.limit = Some(10);
    assert_eq!(search(&s, three_docs()).len(), 3);
    s.limit = Some(0);
    assert!(search(&s, three_docs()).is_empty());
}

#[test]
fn name_orders_are_lexicographic() {
    let mut s = Search::default();
    s.sort_type = SortType::NameAsc;
    let mut docs = three_docs();
    docs.push(doc("articles/e.md", "Al", day(2018, 1, 1), &[], false));
    assert_eq!(
        paths(&search(&s, docs.clone())),
        vec!["articles/e.md", "articles/a.md", "articles/b.md", "articles/c.md"]
    );
    s.sort_type = SortType::NameDesc;
    assert_eq!(
        paths(&search(&s, docs)),
        vec!["articles/c.md", "articles/b.md", "articles/a.md", "articles/e.md"]
    );
}

#[test]
fn empty_index_gives_empty_result() {
    assert!(search(&Search::default(), vec![]).is_empty());
}

#[test]
fn default_search_is_unbounded_and_newest_first() {
    let s = Search::default();
    assert_eq!(s.sort_type, SortType::CreateDesc);
    assert_eq!(s.created, unbounded());
    assert!(s.limit.is_none() && s.title_filter.is_none() && s.tags.is_empty());
    assert_eq!(SortType::default(), SortType::CreateDesc);
}

#[test]
fn sort_types_read_by_exact_name() {
    assert_eq!(SortType::from_value("NameAsc"), Ok(SortType::NameAsc));
    assert_eq!(SortType::from_value("UpdateDesc"), Ok(SortType::UpdateDesc));
    assert_eq!(SortType::from_value(""), Err(FieldError::Missing));
    assert_eq!(SortType::from_value("nameasc"), Err(FieldError::Invalid));
    assert_eq!(SortType::from_name("CreateAsc"), Some(SortType::CreateAsc));
}

#[test]
fn sort_fn_compares_in_the_chosen_direction() {
    let a = doc("a", "A", day(2020, 1, 1), &[], false);
    let b = doc("b", "B", day(2021, 1, 1), &[], false);
    assert_eq!(SortType::CreateAsc.sort_fn(&a.1, &b.1), std::cmp::Ordering::Less);
    assert_eq!(SortType::CreateDesc.sort_fn(&a.1, &b.1), std::cmp::Ordering::Greater);
    assert_eq!(SortType::NameAsc.sort_fn(&a.1, &a.1), std::cmp::Ordering::Equal);
    assert!(SortType::NameDesc.is_descending());
}

#[test]
fn embedding_document_leaves_itself_out() {
    let mut s = Search::default();
    s.exclude("articles/b.md".to_string());
    assert_eq!(paths(&search(&s, three_docs())), vec!["articles/a.md", "articles/c.md"]);
}

#[test]
fn matches_and_excludes() {
    let mut s = Search::default();
    s.exclude_paths = vec!["articles/a.md".to_string()];
    let d = three_docs();
    assert!(s.matches(&d[0].1));
    assert!(s.excludes(&d[0].0));
    assert!(!s.excludes(&d[1].0));
}
