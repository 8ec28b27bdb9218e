use dm2xcod::ast::{BlockNode, DocumentAst};
use dm2xcod::context::ConversionContext;
use dm2xcod::error::Error;
use dm2xcod::extractor::{AstExtractor, DocxExtractor};
use dm2xcod::image::ImageExtractor;
use dm2xcod::model::{
    BodyNode, DocumentTree, NoteInput, ParagraphContentNode, ParagraphNode, RelationshipMap,
    RunContentNode, RunNode, StylesInput, TableCellNode, TableNode, TableRowContentNode,
    TableRowNode, VMergeState,
};
use dm2xcod::numbering::NumberingResolver;
use dm2xcod::renderer::Renderer;
use dm2xcod::styles::StyleResolver;
use dm2xcod::{ConvertOptions, DocxToMarkdown};

fn empty_styles() -> StylesInput {
    StylesInput {
        default_char: None,
        default_para: None,
        styles: Vec::new(),
    }
}

fn minimal_context() -> ConversionContext {
    ConversionContext::new(
        RelationshipMap::new(),
        NumberingResolver::new(None),
        ImageExtractor::new_skip(),
        ConvertOptions::default(),
        None,
        None,
        None,
        StyleResolver::new(empty_styles()),
    )
}

fn empty_tree() -> DocumentTree {
    DocumentTree {
        body: Vec::new(),
        styles: empty_styles(),
        numbering: None,
        footnotes: None,
        endnotes: None,
        comments: None,
        relationships: Vec::new(),
    }
}

fn text_paragraph(text: &str) -> ParagraphNode {
    ParagraphNode {
        property: None,
        content: vec![ParagraphContentNode::Run(RunNode {
            property: None,
            content: vec![RunContentNode::Text(text.to_string())],
        })],
    }
}

#[test]
fn test_convert_content_sdt_with_bookmark() {
    let sdt = BodyNode::Sdt(vec![
        BodyNode::BookmarkStart(Some("TestAnchor".to_string())),
        BodyNode::Paragraph(text_paragraph("Content")),
    ]);
    let mut context = minimal_context();
    let doc = DocxExtractor
        .extract(&vec![sdt], &mut context)
        .expect("extraction should succeed");
    let mut found_anchor = false;
    let mut found_content = false;
    for block in &doc.blocks {
        match block {
            BlockNode::RawHtml(t) => {
                if t.contains("<a id=\"TestAnchor\"></a>") {
                    found_anchor = true;
                }
            }
            BlockNode::Paragraph(t) => {
                if t.contains("Content") {
                    found_content = true;
                }
            }
            _ => {}
        }
    }
    assert!(found_anchor);
    assert!(found_content);
}

#[test]
fn test_reference_registration_deduplicates_ids() {
    let mut context = minimal_context();

    assert_eq!(context.register_footnote_reference(42), "[^1]");
    assert_eq!(context.register_footnote_reference(42), "[^1]");
    assert_eq!(context.footnote_count(), 1);

    assert_eq!(context.register_endnote_reference(7), "[^en1]");
    assert_eq!(context.register_endnote_reference(7), "[^en1]");
    assert_eq!(context.endnote_count(), 1);

    assert_eq!(context.register_comment_reference("3"), "[^c3]");
    assert_eq!(context.register_comment_reference("3"), "[^c3]");
    assert_eq!(context.comment_count(), 1);
}

#[derive(Debug, Default, Clone, Copy)]
struct FakeExtractor;

impl AstExtractor for FakeExtractor {
    fn extract(
        &self,
        _body: &Vec<BodyNode>,
        context: &mut ConversionContext,
    ) -> Result<DocumentAst, Error> {
        let _ = context.register_footnote_reference(1);
        Ok(DocumentAst {
            blocks: vec![BlockNode::Paragraph("custom block".to_string())],
            references: dm2xcod::ReferenceDefinitions {
                footnotes: Vec::new(),
                endnotes: Vec::new(),
                comments: Vec::new(),
            },
        })
    }
}

#[derive(Debug, Default, Clone, Copy)]
struct MissingRefExtractor;

impl AstExtractor for MissingRefExtractor {
    fn extract(
        &self,
        _body: &Vec<BodyNode>,
        context: &mut ConversionContext,
    ) -> Result<DocumentAst, Error> {
        let _ = context.register_footnote_reference(999);
        Ok(DocumentAst {
            blocks: Vec::new(),
            references: dm2xcod::ReferenceDefinitions {
                footnotes: Vec::new(),
                endnotes: Vec::new(),
                comments: Vec::new(),
            },
        })
    }
}

#[derive(Debug, Default, Clone, Copy)]
struct MissingCommentExtractor;

impl AstExtractor for MissingCommentExtractor {
    fn extract(
        &self,
        _body: &Vec<BodyNode>,
        context: &mut ConversionContext,
    ) -> Result<DocumentAst, Error> {
        let _ = context.register_comment_reference("404");
        Ok(DocumentAst {
            blocks: Vec::new(),
            references: dm2xcod::ReferenceDefinitions {
                footnotes: Vec::new(),
                endnotes: Vec::new(),
                comments: Vec::new(),
            },
        })
    }
}

#[derive(Debug, Default, Clone, Copy)]
struct MissingEndnoteExtractor;

impl AstExtractor for MissingEndnoteExtractor {
    fn extract(
        &self,
        _body: &Vec<BodyNode>,
        context: &mut ConversionContext,
    ) -> Result<DocumentAst, Error> {
        let _ = context.register_endnote_reference(404);
        Ok(DocumentAst {
            blocks: Vec::new(),
            references: dm2xcod::ReferenceDefinitions {
                footnotes: Vec::new(),
                endnotes: Vec::new(),
                comments: Vec::new(),
            },
        })
    }
}

#[derive(Debug, Default, Clone, Copy)]
struct FakeRenderer;

impl Renderer for FakeRenderer {
    fn render(&self, document: &DocumentAst) -> Result<String, Error> {
        let first = document
            .references
            .footnotes
            .first()
            .map(String::as_str)
            .unwrap_or("");
        Ok(format!(
            "blocks={};footnotes={};first={}",
            document.blocks.len(),
            document.references.footnotes.len(),
            first
        ))
    }
}

#[test]
fn test_with_components_uses_custom_extractor_and_renderer() {
    let mut tree = empty_tree();
    tree.footnotes = Some(vec![NoteInput {
        id: Some(1),
        texts: vec!["Injected note".to_string()],
    }]);

    let converter =
        DocxToMarkdown::with_components(ConvertOptions::default(), FakeExtractor, FakeRenderer);
    let mut image_extractor = ImageExtractor::new_skip();

    let rendered = converter
        .convert_inner(&tree, &mut image_extractor)
        .expect("conversion should succeed");

    assert_eq!(rendered, "blocks=1;footnotes=1;first=Injected note");
}

#[test]
fn test_with_components_respects_strict_reference_validation() {
    let tree = empty_tree();
    let options = ConvertOptions {
        strict_reference_validation: true,
        ..Default::default()
    };
    let converter = DocxToMarkdown::with_components(options, MissingRefExtractor, FakeRenderer);
    let mut image_extractor = ImageExtractor::new_skip();

    let err = converter
        .convert_inner(&tree, &mut image_extractor)
        .expect_err("strict validation should fail on missing references");

    match err {
        Error::MissingReference(msg) => assert!(msg.contains("footnote:999")),
        other => panic!("unexpected error: {:?}", other),
    }
}

#[test]
fn test_with_components_strict_validation_fails_for_missing_comment() {
    let tree = empty_tree();
    let options = ConvertOptions {
        strict_reference_validation: true,
        ..Default::default()
    };
    let converter = DocxToMarkdown::with_components(options, MissingCommentExtractor, FakeRenderer);
    let mut image_extractor = ImageExtractor::new_skip();

    let err = converter
        .convert_inner(&tree, &mut image_extractor)
        .expect_err("strict validation should fail on missing comment");

    match err {
        Error::MissingReference(msg) => assert!(msg.contains("comment:404")),
        other => panic!("unexpected error: {:?}", other),
    }
}

#[test]
fn test_with_components_strict_validation_fails_for_missing_endnote() {
    let mut tree = empty_tree();
    tree.endnotes = Some(vec![NoteInput {
        id: Some(1),
        texts: vec!["existing endnote".to_string()],
    }]);
    let options = ConvertOptions {
        strict_reference_validation: true,
        ..Default::default()
    };
    let converter = DocxToMarkdown::with_components(options, MissingEndnoteExtractor, FakeRenderer);
    let mut image_extractor = ImageExtractor::new_skip();

    let err = converter
        .convert_inner(&tree, &mut image_extractor)
        .expect_err("strict validation should fail on missing endnote");

    match err {
        Error::MissingReference(msg) => assert!(msg.contains("endnote:404")),
        other => panic!("unexpected error: {:?}", other),
    }
}

#[test]
fn test_relaxed_conversion_succeeds_with_missing_reference() {
    let mut tree = empty_tree();
    tree.body = vec![BodyNode::Paragraph(ParagraphNode {
        property: None,
        content: vec![ParagraphContentNode::Run(RunNode {
            property: None,
            content: vec![RunContentNode::FootnoteReference(Some("999".to_string()))],
        })],
    })];

    let relaxed = DocxToMarkdown::new(ConvertOptions::default());
    let md = relaxed
        .convert_tree(&tree, None)
        .expect("relaxed conversion must not fail");
    assert!(md.contains("[^1]"));
    assert!(md.contains("[^1]: \n"));

    let strict = DocxToMarkdown::new(ConvertOptions {
        strict_reference_validation: true,
        ..Default::default()
    });
    let err = strict
        .convert_tree(&tree, None)
        .expect_err("strict conversion must fail");
    match err {
        Error::MissingReference(msg) => assert!(msg.contains("footnote:999")),
        other => panic!("unexpected error: {:?}", other),
    }
}

#[test]
fn test_error_messages_name_their_case() {
    assert_eq!(
        Error::MissingReference("footnote:999".to_string()).message(),
        "Missing reference: footnote:999"
    );
    assert_eq!(
        Error::DocxParse("bad".to_string()).message(),
        "Failed to parse DOCX file: bad"
    );
    assert_eq!(
        Error::MediaNotFound("word/media/x.png".to_string()).message(),
        "Media not found: word/media/x.png"
    );
    assert_eq!(Error::Io("nope".to_string()).message(), "I/O error: nope");
    assert_eq!(
        Error::Conversion("c".to_string()).message(),
        "Conversion error: c"
    );
    assert_eq!(
        Error::RelationshipNotFound("rId1".to_string()).message(),
        "Relationship not found: rId1"
    );
    assert_eq!(Error::Zip("z".to_string()).message(), "ZIP error: z");
}

#[test]
fn test_hyperlink_resolver_finds_target() {
    let mut rels = RelationshipMap::new();
    rels.insert("rId7".to_string(), "https://example.com/a".to_string());
    assert_eq!(
        dm2xcod::hyperlink::HyperlinkResolver::resolve("rId7", &rels),
        Some("https://example.com/a".to_string())
    );
    assert_eq!(dm2xcod::hyperlink::HyperlinkResolver::resolve("rId8", &rels), None);
}

#[test]
fn test_extractor_keeps_member_order_and_kind() {
    let body = vec![
        BodyNode::BookmarkStart(Some("top".to_string())),
        BodyNode::Paragraph(text_paragraph("first")),
        BodyNode::Table(TableNode {
            rows: vec![TableRowNode {
                cells: vec![TableRowContentNode::Cell(TableCellNode {
                    grid_span: None,
                    v_merge: VMergeState::NoMerge,
                    content: vec![text_paragraph("cell")],
                })],
            }],
        }),
        BodyNode::Paragraph(ParagraphNode {
            property: None,
            content: Vec::new(),
        }),
    ];
    let mut context = minimal_context();
    let doc = DocxExtractor
        .extract(&body, &mut context)
        .expect("extraction should succeed");
    // One block per emitting member, in document order; the empty paragraph
    // emits nothing.
    assert_eq!(doc.blocks.len(), 3);
    match &doc.blocks[0] {
        BlockNode::RawHtml(t) => assert_eq!(t, "<a id=\"top\"></a>"),
        other => panic!("unexpected block: {:?}", other),
    }
    match &doc.blocks[1] {
        BlockNode::Paragraph(t) => assert_eq!(t, "first"),
        other => panic!("unexpected block: {:?}", other),
    }
    assert!(matches!(&doc.blocks[2], BlockNode::TableHtml(_)));
}
