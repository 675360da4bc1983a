use wolog::date::{Date, DateField};
use wolog::error::ArticleError;
use wolog::search::FieldError;
use wolog::site::{
    index_root, is_document_root, mention_body_too_large, mention_target, mentions_document,
    strip_root, ArticlePath,
};

#[test]
fn request_path_names_a_markdown_file() {
    assert_eq!(ArticlePath::for_request("posts/hello").as_str(), "articles/posts/hello.md");
    assert_eq!(ArticlePath::for_request("index.html").0, "articles/index.md");
}

#[test]
fn search_roots_lie_below_the_document_root() {
    assert_eq!(index_root("posts"), "articles/posts");
    assert!(is_document_root(&index_root("")));
    assert!(is_document_root("articles"));
    assert!(!is_document_root("articles/posts"));
}

#[test]
fn paths_are_written_relative_to_the_root() {
    assert_eq!(strip_root("articles/posts/a.md", "articles"), "posts/a.md");
    assert_eq!(strip_root("articles/posts/a.md", "articles/"), "posts/a.md");
    assert_eq!(strip_root("other/a.md", "articles"), "other/a.md");
    assert_eq!(strip_root("articlesx/a.md", "articles"), "articlesx/a.md");
    assert_eq!(strip_root("articles//x.md", "articles"), "x.md");
}

#[test]
fn mention_targets_on_this_site() {
    assert_eq!(mention_target("https://wolo.dev//posts/a", "https://wolo.dev/"), Some("posts/a".to_string()));
    assert_eq!(mention_target("https://example.com/posts/a", "https://wolo.dev/"), None);
}

#[test]
fn mentioning_page_must_hold_the_address() {
    let body = "see <a href=\"https://wolo.dev/my%20post\">this</a>";
    assert!(mentions_document(body, "https://wolo.dev/", "my post"));
    assert!(!mentions_document(body, "https://wolo.dev/", "other"));
    assert!(mention_body_too_large(0x1000000));
    assert!(!mention_body_too_large(0xFFFFFF));
}

#[test]
fn calendar_dates() {
    assert!(Date::from_ymd(2024, 2, 29).is_some());
    assert!(Date::from_ymd(2023, 2, 29).is_none());
    assert!(Date::from_ymd(1900, 2, 29).is_none());
    assert!(Date::from_ymd(2000, 2, 29).is_some());
    assert!(Date::from_ymd(2020, 13, 1).is_none());
    assert!(Date::from_ymd(2020, 4, 31).is_none());
    assert!(Date { year: 2019, month: 12, day: 31 }.lt(&Date { year: 2020, month: 1, day: 1 }));
    assert!(Date::unset().is_unset());
}

#[test]
fn date_fields_from_queries() {
    assert_eq!(DateField::from_value("2020-01-01"), Ok(DateField(Date { year: 2020, month: 1, day: 1 })));
    assert_eq!(DateField::from_value(""), Err(FieldError::Missing));
    assert_eq!(DateField::from_value("yesterday"), Err(FieldError::Invalid));
    assert_eq!(DateField::from_parsed(None), Err(FieldError::Invalid));
}

#[test]
fn errors_map_to_statuses() {
    assert_eq!(ArticleError::MalformedPath("x".to_string()).status(), 400);
    assert_eq!(ArticleError::NoArticle.status(), 404);
    assert_eq!(ArticleError::NotForPublication.status(), 404);
    assert_eq!(ArticleError::NotMarkdown.status(), 404);
    assert_eq!(ArticleError::PandocFailed("out".to_string()).status(), 500);
    assert_eq!(ArticleError::JsonError("bad".to_string()).message(), "JSON error");
    assert_eq!(ArticleError::NotForPublication.message(), "This article isn't ready to be published yet");
}
