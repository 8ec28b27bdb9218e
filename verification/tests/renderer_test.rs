use dm2xcod::renderer::{MarkdownRenderer, Renderer};
use dm2xcod::{BlockNode, DocumentAst, ReferenceDefinitions};

#[test]
fn test_renderer_appends_references() {
    let doc = DocumentAst {
        blocks: vec![BlockNode::Paragraph("A".to_string())],
        references: ReferenceDefinitions {
            footnotes: vec!["note".to_string()],
            endnotes: Vec::new(),
            comments: Vec::new(),
        },
    };
    let rendered = MarkdownRenderer.render(&doc).expect("render should work");
    assert!(rendered.contains("A"));
    assert!(rendered.contains("[^1]: note"));
}

#[test]
fn test_renderer_skips_empty_blocks() {
    let doc = DocumentAst {
        blocks: vec![
            BlockNode::Paragraph(String::new()),
            BlockNode::Paragraph("B".to_string()),
        ],
        references: ReferenceDefinitions {
            footnotes: Vec::new(),
            endnotes: Vec::new(),
            comments: Vec::new(),
        },
    };
    let rendered = MarkdownRenderer.render(&doc).expect("render should work");
    assert_eq!(rendered, "B\n\n");
}

#[test]
fn test_renderer_endnote_and_comment_lines() {
    let doc = DocumentAst {
        blocks: Vec::new(),
        references: ReferenceDefinitions {
            footnotes: Vec::new(),
            endnotes: vec!["en body".to_string()],
            comments: vec![("9".to_string(), "c body".to_string())],
        },
    };
    let rendered = MarkdownRenderer.render(&doc).expect("render should work");
    assert_eq!(rendered, "---\n\n[^en1]: en body\n[^c9]: c body\n");
}
