use std::sync::Arc;
use pandoc_ast::Pandoc;
use wolog::cache::{
    backfill_dates, index_of_trees, judge, next_step, resolve_dates, Article, DocumentCache, Lookup,
    ParsedDoc, Step,
};
use wolog::date::Date;
use wolog::error::ArticleError;
use wolog::meta::ArticleMeta;

fn meta(ready: bool, always_rerender: bool) -> Arc<ArticleMeta> {
    let mut m = ArticleMeta::default();
    m.ready = ready;
    m.always_rerender = always_rerender;
    Arc::new(m)
}

fn article(content: &str, rendered_at: u64, ready: bool) -> Article {
    Article { content: content.to_string(), meta: meta(ready, false), rendered_at }
}

#[test]
fn unreadable_file_is_missing() {
    let c = Arc::new(article("x", 10, true));
    assert!(matches!(judge(None, Some(c)), Lookup::Missing));
    assert!(matches!(judge::<Article>(None, None), Lookup::Missing));
}

#[test]
fn unchanged_file_is_served_from_cache() {
    let c = Arc::new(article("x", 10, true));
    match judge(Some(10), Some(c.clone())) {
        Lookup::Fresh(a) => assert!(Arc::ptr_eq(&a, &c)),
        _ => panic!("expected a fresh entry"),
    }
    assert!(matches!(judge(Some(3), Some(c)), Lookup::Fresh(_)));
}

#[test]
fn modified_file_is_rendered_again() {
    let c = Arc::new(article("x", 10, true));
    match judge(Some(11), Some(c.clone())) {
        Lookup::Stale(Some(p)) => assert!(Arc::ptr_eq(&p, &c)),
        _ => panic!("expected a stale entry"),
    }
    assert!(matches!(judge::<Article>(Some(11), None), Lookup::Stale(None)));
}

#[test]
fn always_rerender_is_never_fresh() {
    let c = Arc::new(Article { content: String::new(), meta: meta(true, true), rendered_at: 100 });
    assert!(matches!(judge(Some(1), Some(c)), Lookup::Stale(Some(_))));
}

#[test]
fn repeated_requests_return_the_same_render() {
    let cache = DocumentCache::new();
    let path = "articles/a.md".to_string();
    assert!(matches!(cache.lookup_article(&path, Some(5)), Lookup::Stale(None)));
    let first = cache.finish_article(&path, Ok(article("<p>hi</p>", 7, true)), None).unwrap();
    for _ in 0..3 {
        match cache.lookup_article(&path, Some(5)) {
            Lookup::Fresh(a) => {
                assert!(Arc::ptr_eq(&a, &first));
                assert_eq!(a.content, "<p>hi</p>");
            }
            _ => panic!("expected the cached render"),
        }
    }
    assert!(matches!(cache.lookup_article(&path, Some(8)), Lookup::Stale(Some(_))));
    assert!(matches!(cache.lookup_article(&path, None), Lookup::Missing));
}

#[test]
fn failed_render_falls_back_to_previous() {
    let cache = DocumentCache::new();
    let path = "articles/a.md".to_string();
    let good = cache.finish_article(&path, Ok(article("good", 7, true)), None).unwrap();
    let r = cache.finish_article(
        &path,
        Err(ArticleError::PandocFailed("boom".to_string())),
        Some(good.clone()),
    );
    assert_eq!(r.unwrap().content, "good");
    let r = cache.finish_article(&path, Err(ArticleError::NoArticle), None);
    assert!(matches!(r, Err(ArticleError::NoArticle)));
}

#[test]
fn unready_document_hidden_from_first_viewers_only() {
    let cache = DocumentCache::new();
    let path = "articles/draft.md".to_string();
    let r = cache.finish_article(&path, Ok(article("draft", 7, false)), None);
    assert!(matches!(r, Err(ArticleError::NotForPublication)));
    assert!(matches!(cache.lookup_article(&path, Some(1)), Lookup::Stale(None)));
    let prev = Arc::new(article("published", 3, true));
    let r = cache.finish_article(&path, Ok(article("draft", 9, false)), Some(prev));
    assert_eq!(r.unwrap().content, "published");
}

#[test]
fn ten_claims_of_one_path_grant_exactly_one() {
    let cache = DocumentCache::new();
    let path = "articles/new.md".to_string();
    let granted = (0..10).filter(|_| cache.claim(&path)).count();
    assert_eq!(granted, 1);
    assert!(cache.claim(&"articles/other.md".to_string()));
    let r = cache.finish_tree(&path, Err(ArticleError::NoArticle), None);
    assert!(matches!(r, Err(ArticleError::NoArticle)));
    assert!(cache.claim(&path));
}

#[test]
fn current_tree_without_entry_is_no_article() {
    let cache = DocumentCache::new();
    assert!(matches!(cache.current_tree(&"x.md".to_string()), Err(ArticleError::NoArticle)));
    assert!(matches!(cache.lookup_tree(&"x.md".to_string(), Some(1)), Lookup::Stale(None)));
}

#[test]
fn backfill_fills_only_unset_dates() {
    let mut m = ArticleMeta::default();
    m.created = Date { year: 2019, month: 3, day: 3 };
    backfill_dates(&mut m, Date { year: 2024, month: 2, day: 29 }, Date { year: 2000, month: 1, day: 1 });
    assert_eq!(m.updated, Date { year: 2024, month: 2, day: 29 });
    assert_eq!(m.created, Date { year: 2019, month: 3, day: 3 });
}

#[test]
fn resolved_dates_are_calendar_dates() {
    let mut m = ArticleMeta::default();
    resolve_dates(&mut m, 1_700_000_000_000_000_000, 1_600_000_000_000_000_000);
    assert!(m.updated.year >= 2023 && m.updated.year <= 2024);
    assert!(m.created.year == 2020 && m.created.month == 9);
    assert!(m.created.day == 13 || m.created.day == 14);
    assert!(!m.updated.is_unset());
}

#[test]
fn missing_file_answers_no_article() {
    assert!(matches!(next_step::<Article>(Lookup::Missing), Step::Serve(Err(ArticleError::NoArticle))));
    let c = Arc::new(article("x", 10, true));
    match next_step(Lookup::Fresh(c.clone())) {
        Step::Serve(Ok(a)) => assert!(Arc::ptr_eq(&a, &c)),
        _ => panic!("expected the fresh entry"),
    }
    assert!(matches!(next_step(Lookup::Stale(Some(c))), Step::Render(Some(_))));
}

#[test]
fn concurrent_renders_of_one_document_collapse() {
    let cache = DocumentCache::new();
    let path = "articles/hot.md".to_string();
    let granted = (0..10).filter(|_| cache.claim_render(&path)).count();
    assert_eq!(granted, 1);
    assert!(matches!(cache.current_article(&path), Err(ArticleError::NoArticle)));
    let done = cache.finish_article(&path, Ok(article("hot", 5, true)), None).unwrap();
    match cache.current_article(&path) {
        Ok(a) => assert!(Arc::ptr_eq(&a, &done)),
        Err(_) => panic!("expected the finished render"),
    }
    assert!(cache.claim_render(&path));
}

fn parsed(hidden: bool) -> Arc<ParsedDoc> {
    let mut m = ArticleMeta::default();
    m.hidden = hidden;
    let ast = Pandoc { meta: Default::default(), blocks: vec![], pandoc_api_version: vec![1, 23] };
    Arc::new(ParsedDoc { meta: Arc::new(m), ast: Arc::new(ast), parsed_at: 1 })
}

#[test]
fn tree_snapshot_gives_visible_index_under_root() {
    let all = vec![
        ("articles/x/a.md".to_string(), parsed(false)),
        ("articles/x/h.md".to_string(), parsed(true)),
        ("articles/y/b.md".to_string(), parsed(false)),
    ];
    let r = index_of_trees(all, &"articles/x".to_string());
    let p: Vec<String> = r.iter().map(|e| e.0.clone()).collect();
    assert_eq!(p, vec!["articles/x/a.md"]);
    assert!(DocumentCache::new().cached_index(&"articles".to_string()).is_empty());
}
