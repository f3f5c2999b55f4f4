//! The content formatter against the real html2text.

use rss_reader::format::format_article;

#[test]
fn format_none_and_empty_yield_sentinel() {
    assert_eq!(format_article(None, 80), "No content.");
    assert_eq!(format_article(Some(""), 80), "No content.");
    assert_eq!(format_article(None, 0), "No content.");
    assert_eq!(format_article(Some(""), 10_000), "No content.");
}

#[test]
fn format_whitespace_only_markup_yields_sentinel() {
    assert_eq!(format_article(Some("<p>   </p>"), 80), "No content.");
}

#[test]
fn show_article_with_html_structure_preserves_structure_in_output() {
    let text = format_article(
        Some("<h2>Title</h2><p>Body</p>"),
        80,
    );
    assert!(text.contains("Title"), "heading text should appear: {}", text);
    assert!(text.contains("Body"), "paragraph text should appear: {}", text);
    let title_line = text.lines().position(|l| l.contains("Title")).unwrap();
    let body_line = text.lines().position(|l| l.contains("Body")).unwrap();
    assert!(title_line != body_line, "heading and paragraph must be separate blocks");
}

#[test]
fn format_keeps_links_identifiable() {
    let text = format_article(
        Some("<p>First paragraph with a <a href=\"https://example.com/link\">link</a>.</p>"),
        80,
    );
    assert!(text.contains("link"));
}

#[test]
fn format_never_exceeds_the_effective_width() {
    let long = "<p>".to_string() + &"word ".repeat(200) + "</p>";
    for &w in &[0usize, 10, 40, 72, 100] {
        let eff = w.max(40);
        let text = format_article(Some(long.as_str()), w);
        for line in text.lines() {
            assert!(
                line.chars().count() <= eff,
                "line wider than {}: {:?}",
                eff,
                line
            );
        }
    }
}

#[test]
fn format_is_deterministic() {
    let html = "<h1>A</h1><ul><li>one</li><li>two</li></ul>";
    assert_eq!(format_article(Some(html), 60), format_article(Some(html), 60));
}
