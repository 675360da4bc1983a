use wolog::frontmatter::{block_to_text, blocks_to_text, inlines_to_text, Block, Inline};
use wolog::meta::{ArticleMeta, Toc};
use wolog::text::{contains_str, str_eq, str_le};

#[test]
fn toc_text_entry() {
    assert_eq!(Toc::Text("Intro".to_string()).to_html(), "<li>Intro</li>");
}

#[test]
fn toc_heading_without_children() {
    let t = Toc::Heading { label: "One".to_string(), anchor: "one".to_string(), subheadings: vec![] };
    assert_eq!(t.to_html(), "<li><a href=\"#one\">One</a></li>");
}

#[test]
fn toc_nested_headings() {
    let t = Toc::Heading {
        label: "One".to_string(),
        anchor: "one".to_string(),
        subheadings: vec![
            Toc::Text("a".to_string()),
            Toc::Heading { label: "Two".to_string(), anchor: "two".to_string(), subheadings: vec![] },
        ],
    };
    assert_eq!(
        t.to_html(),
        "<li><a href=\"#one\">One</a><ul><li>a</li><li><a href=\"#two\">Two</a></li></ul></li>"
    );
}

#[test]
fn table_of_contents_of_a_document() {
    let mut m = ArticleMeta::default();
    assert_eq!(m.toc_html(), "");
    m.toc = vec![Toc::Text("a".to_string()), Toc::Text("b".to_string())];
    assert_eq!(m.toc_html(), "<li>a</li><li>b</li>");
}

#[test]
fn default_metadata() {
    let m = ArticleMeta::default();
    assert_eq!(m.title, "Untitled Page");
    assert_eq!(m.template, "article");
    assert!(m.tags.is_empty() && !m.ready && !m.hidden && !m.always_rerender);
    assert!(m.created.is_unset() && m.updated.is_unset());
}

#[test]
fn substring_search() {
    assert!(contains_str("hello world", "o w"));
    assert!(contains_str("hello", ""));
    assert!(contains_str("", ""));
    assert!(!contains_str("hello", "hello!"));
    assert!(!contains_str("hello", "Hello"));
}

#[test]
fn lexicographic_order() {
    assert!(str_le("Al", "Alpha"));
    assert!(!str_le("Alpha", "Al"));
    assert!(str_le("Apple", "apple"));
    assert!(str_le("", ""));
    assert!(str_eq("same", "same"));
    assert!(!str_eq("same", "Same"));
}

#[test]
fn inline_text_of_front_matter() {
    let i = vec![Inline::Str("Hello".to_string()), Inline::Space, Inline::Str("there".to_string()), Inline::SoftBreak, Inline::Other, Inline::LineBreak];
    assert_eq!(inlines_to_text(&i), "Hello there\n\n");
}

#[test]
fn block_text_of_front_matter() {
    let q = Block::BlockQuote(vec![
        Block::Para(vec![Inline::Str("a".to_string())]),
        Block::RawBlock("<b>".to_string()),
    ]);
    assert_eq!(block_to_text(&q), "a\n<b>\n");
    let l = Block::LineBlock(vec![vec![Inline::Str("x".to_string())], vec![Inline::Str("y".to_string())]]);
    assert_eq!(block_to_text(&l), "x\ny\n");
    assert_eq!(blocks_to_text(&vec![Block::Plain(vec![Inline::Str("p".to_string())]), Block::Other, l]), "px\ny\n");
}
