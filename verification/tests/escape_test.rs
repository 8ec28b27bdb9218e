use dm2xcod::escape::{escape_html_attr, escape_markdown_link_destination, escape_markdown_link_text};

#[test]
fn test_escape_html_attr() {
    assert_eq!(
        escape_html_attr("a\"b<c>d&e'"),
        "a&quot;b&lt;c&gt;d&amp;e&#39;"
    );
}

#[test]
fn test_escape_markdown_link_text() {
    assert_eq!(escape_markdown_link_text("A[B]"), "A\\[B\\]");
}

#[test]
fn test_escape_markdown_link_destination() {
    assert_eq!(
        escape_markdown_link_destination("https://x.y/a b(c)"),
        "https://x.y/a\\ b\\(c\\)"
    );
}
