use std::io::Write;

use dm2xcod::context::ConversionContext;
use dm2xcod::image::ImageExtractor;
use dm2xcod::model::{
    BodyNode, DocumentTree, DrawingNode, ParagraphContentNode, ParagraphNode, RelationshipMap,
    RunContentNode, RunNode, StylesInput,
};
use dm2xcod::numbering::NumberingResolver;
use dm2xcod::styles::StyleResolver;
use dm2xcod::{ConvertOptions, DocxToMarkdown, ImageHandling};

fn archive_with_image(name: &str, data: &[u8]) -> Vec<u8> {
    let mut writer = zip::ZipWriter::new(std::io::Cursor::new(Vec::new()));
    let options: zip::write::SimpleFileOptions = Default::default();
    writer.start_file(name, options).expect("start zip entry");
    writer.write_all(data).expect("write zip entry");
    writer.finish().expect("finish zip").into_inner()
}

fn image_tree() -> DocumentTree {
    DocumentTree {
        body: vec![BodyNode::Paragraph(ParagraphNode {
            property: None,
            content: vec![ParagraphContentNode::Run(RunNode {
                property: None,
                content: vec![RunContentNode::Drawing(DrawingNode {
                    inline_embed: Some("rId1".to_string()),
                    anchor_embed: None,
                })],
            })],
        })],
        styles: StylesInput {
            default_char: None,
            default_para: None,
            styles: Vec::new(),
        },
        numbering: None,
        footnotes: None,
        endnotes: None,
        comments: None,
        relationships: vec![("rId1".to_string(), "media/image1.png".to_string())],
    }
}

#[test]
fn test_inline_image_is_base64_encoded_from_archive() {
    let bytes = archive_with_image("word/media/image1.png", b"hello");
    let converter = DocxToMarkdown::new(ConvertOptions {
        image_handling: ImageHandling::Inline,
        ..Default::default()
    });
    let md = converter
        .convert_tree(&image_tree(), Some(&bytes))
        .expect("conversion should succeed");
    // "hello" encodes to aGVsbG8= under the standard alphabet.
    assert!(md.contains("<img src=\"data:image/png;base64,aGVsbG8=\" alt=\"image\" />"));
}

#[test]
fn test_missing_media_is_skipped_in_paragraphs() {
    // An unresolvable media entry degrades to no image in paragraph text;
    // the per-image error is surfaced only where runs propagate failures.
    let bytes = archive_with_image("word/media/other.png", b"hello");
    let converter = DocxToMarkdown::new(ConvertOptions {
        image_handling: ImageHandling::Inline,
        ..Default::default()
    });
    let md = converter
        .convert_tree(&image_tree(), Some(&bytes))
        .expect("conversion should degrade, not fail");
    assert!(!md.contains("<img"));

    // Through the image extractor itself the error names the media path.
    let mut rels = RelationshipMap::new();
    rels.insert("rId1".to_string(), "media/image1.png".to_string());
    let mut ctx = ConversionContext::new(
        rels,
        NumberingResolver::new(None),
        ImageExtractor::new_inline_from_bytes(&bytes).expect("extractor"),
        ConvertOptions::default(),
        None,
        None,
        None,
        StyleResolver::new(StylesInput {
            default_char: None,
            default_para: None,
            styles: Vec::new(),
        }),
    );
    let err = ctx
        .extract_image_from_drawing(&DrawingNode {
            inline_embed: Some("rId1".to_string()),
            anchor_embed: None,
        })
        .expect_err("missing media should fail at the extractor");
    match err {
        dm2xcod::Error::MediaNotFound(p) => assert_eq!(p, "media/image1.png"),
        other => panic!("unexpected error: {:?}", other),
    }
}

#[test]
fn test_skip_mode_ignores_images() {
    let converter = DocxToMarkdown::new(ConvertOptions {
        image_handling: ImageHandling::Skip,
        ..Default::default()
    });
    let md = converter
        .convert_tree(&image_tree(), None)
        .expect("conversion should succeed");
    assert_eq!(md, "");
}
