use dm2xcod::context::ConversionContext;
use dm2xcod::image::ImageExtractor;
use dm2xcod::model::{
    AbstractNumInput, FieldCharKind, HyperlinkNode, LevelInput, NumInstanceInput, NumberingInput,
    NumberingRef, ParaProps, ParagraphContentNode, ParagraphNode, RelationshipMap, RunContentNode,
    RunNode, StylesInput,
};
use dm2xcod::model::{CommentInput, NoteInput};
use dm2xcod::numbering::NumberingResolver;
use dm2xcod::segment::{merge_segments, FormattedSegment};
use dm2xcod::paragraph::ParagraphConverter;
use dm2xcod::styles::StyleResolver;
use dm2xcod::ConvertOptions;

fn empty_styles() -> StylesInput {
    StylesInput {
        default_char: None,
        default_para: None,
        styles: Vec::new(),
    }
}

fn minimal_context() -> ConversionContext {
    ConversionContext::new(
        RelationshipMap::new(),
        NumberingResolver::new(None),
        ImageExtractor::new_skip(),
        ConvertOptions::default(),
        None,
        None,
        None,
        StyleResolver::new(empty_styles()),
    )
}

fn text_run(text: &str) -> RunNode {
    RunNode {
        property: None,
        content: vec![RunContentNode::Text(text.to_string())],
    }
}

#[test]
fn test_toc_anchor_link() {
    let hyperlink = HyperlinkNode {
        anchor: Some("_Toc123456789".to_string()),
        id: None,
        content: vec![text_run("Introduction")],
    };
    let para = ParagraphNode {
        property: None,
        content: vec![ParagraphContentNode::Link(hyperlink)],
    };
    let mut context = minimal_context();
    let md = ParagraphConverter::convert(&para, &mut context).expect("Conversion failed");
    assert_eq!(md, "[Introduction](#_Toc123456789)");
}

#[test]
fn test_toc_anchor_target() {
    let para = ParagraphNode {
        property: None,
        content: vec![
            ParagraphContentNode::BookmarkStart(Some("_Toc123456789".to_string())),
            ParagraphContentNode::Run(text_run("Chapter 1")),
        ],
    };
    let mut context = minimal_context();
    let md = ParagraphConverter::convert(&para, &mut context).expect("Conversion failed");
    assert_eq!(md, "<a id=\"_Toc123456789\"></a>\nChapter 1");
}

#[test]
fn test_anchor_placement_header() {
    let para = ParagraphNode {
        property: Some(ParaProps {
            style_id: Some("Heading1".to_string()),
            numbering: None,
            justification: None,
        }),
        content: vec![
            ParagraphContentNode::BookmarkStart(Some("header_anchor".to_string())),
            ParagraphContentNode::Run(text_run("Header Title")),
        ],
    };
    let mut context = minimal_context();
    let md = ParagraphConverter::convert(&para, &mut context).expect("Conversion failed");
    assert_eq!(md, "<a id=\"header_anchor\"></a>\n# Header Title");
}

#[test]
fn test_adjacent_anchors() {
    let para = ParagraphNode {
        property: None,
        content: vec![
            ParagraphContentNode::BookmarkStart(Some("anchor1".to_string())),
            ParagraphContentNode::BookmarkStart(Some("anchor2".to_string())),
            ParagraphContentNode::Run(text_run("Content")),
        ],
    };
    let mut context = minimal_context();
    let md = ParagraphConverter::convert(&para, &mut context).expect("Conversion failed");
    assert_eq!(md, "<a id=\"anchor1\"></a><a id=\"anchor2\"></a>\nContent");
}

#[test]
fn test_preserve_whitespace_option() {
    let para = ParagraphNode {
        property: None,
        content: vec![ParagraphContentNode::Run(text_run(
            "  Keep Surrounding Spaces  ",
        ))],
    };
    let mut context = ConversionContext::new(
        RelationshipMap::new(),
        NumberingResolver::new(None),
        ImageExtractor::new_skip(),
        ConvertOptions {
            preserve_whitespace: true,
            ..Default::default()
        },
        None,
        None,
        None,
        StyleResolver::new(empty_styles()),
    );
    let md = ParagraphConverter::convert(&para, &mut context).expect("Conversion failed");
    assert_eq!(md, "  Keep Surrounding Spaces  ");
}

fn deep_list_numbering() -> NumberingInput {
    NumberingInput {
        abstract_numberings: vec![AbstractNumInput {
            abstract_num_id: Some(1),
            levels: vec![LevelInput {
                ilvl: Some(3),
                start: Some(1),
                num_fmt: Some("decimal".to_string()),
                lvl_text: Some("%4.".to_string()),
            }],
        }],
        numberings: vec![NumInstanceInput {
            num_id: Some(2),
            abstract_num_id: Some(1),
            level_overrides: Vec::new(),
        }],
    }
}

#[test]
fn test_deep_list_indentation_not_clamped() {
    let para = ParagraphNode {
        property: Some(ParaProps {
            style_id: None,
            numbering: Some(NumberingRef {
                num_id: Some(2),
                level: Some(3),
            }),
            justification: None,
        }),
        content: vec![ParagraphContentNode::Run(text_run("Deep Item"))],
    };
    let mut context = ConversionContext::new(
        RelationshipMap::new(),
        NumberingResolver::new(Some(&deep_list_numbering())),
        ImageExtractor::new_skip(),
        ConvertOptions::default(),
        None,
        None,
        None,
        StyleResolver::new(empty_styles()),
    );
    let md = ParagraphConverter::convert(&para, &mut context).expect("Conversion failed");
    assert_eq!(md, "      1. Deep Item");
}

#[test]
fn test_duplicate_footnote_references_reuse_index() {
    let footnotes = vec![NoteInput {
        id: Some(5),
        texts: vec!["Same footnote text".to_string()],
    }];
    let para = ParagraphNode {
        property: None,
        content: vec![
            ParagraphContentNode::Run(RunNode {
                property: None,
                content: vec![RunContentNode::FootnoteReference(Some("5".to_string()))],
            }),
            ParagraphContentNode::Run(RunNode {
                property: None,
                content: vec![RunContentNode::FootnoteReference(Some("5".to_string()))],
            }),
        ],
    };
    let mut context = ConversionContext::new(
        RelationshipMap::new(),
        NumberingResolver::new(None),
        ImageExtractor::new_skip(),
        ConvertOptions::default(),
        None,
        Some(&footnotes),
        None,
        StyleResolver::new(empty_styles()),
    );
    let md = ParagraphConverter::convert(&para, &mut context).expect("Conversion failed");
    assert_eq!(md, "[^1][^1]");
    assert_eq!(context.footnote_count(), 1);
}

#[test]
fn test_duplicate_comment_references_reuse_definition() {
    let comments = vec![CommentInput {
        id: Some(9),
        text: "Shared comment".to_string(),
    }];
    let para = ParagraphNode {
        property: None,
        content: vec![
            ParagraphContentNode::Run(RunNode {
                property: None,
                content: vec![RunContentNode::CommentReference(Some("9".to_string()))],
            }),
            ParagraphContentNode::Run(RunNode {
                property: None,
                content: vec![RunContentNode::CommentReference(Some("9".to_string()))],
            }),
        ],
    };
    let mut context = ConversionContext::new(
        RelationshipMap::new(),
        NumberingResolver::new(None),
        ImageExtractor::new_skip(),
        ConvertOptions::default(),
        Some(&comments),
        None,
        None,
        StyleResolver::new(empty_styles()),
    );
    let md = ParagraphConverter::convert(&para, &mut context).expect("Conversion failed");
    assert_eq!(md, "[^c9][^c9]");
    assert_eq!(context.comment_count(), 1);
    let at = context.comment_at(0).expect("comment present");
    assert_eq!(at.0, "9");
    assert_eq!(at.1, "Shared comment");
}

#[test]
fn test_field_code_within_single_run_preserves_visible_text() {
    let run = RunNode {
        property: None,
        content: vec![
            RunContentNode::Text("prefix ".to_string()),
            RunContentNode::FieldChar(Some(FieldCharKind::Begin)),
            RunContentNode::InstrText("PAGEREF _Ref".to_string()),
            RunContentNode::Text("hidden ".to_string()),
            RunContentNode::FieldChar(Some(FieldCharKind::Separate)),
            RunContentNode::Text("Visible".to_string()),
            RunContentNode::FieldChar(Some(FieldCharKind::End)),
            RunContentNode::Text(" suffix".to_string()),
        ],
    };
    let para = ParagraphNode {
        property: None,
        content: vec![ParagraphContentNode::Run(run)],
    };
    let mut context = minimal_context();
    let md = ParagraphConverter::convert(&para, &mut context).expect("Conversion failed");
    assert_eq!(md, "prefix Visible suffix");
}

#[test]
fn test_plain_segment_round_trip() {
    let a = FormattedSegment {
        text: "Hello ".to_string(),
        is_bold: true,
        is_italic: false,
        has_underline: false,
        has_strike: false,
        is_insertion: false,
        is_deletion: false,
        anchor: None,
    };
    let b = FormattedSegment {
        text: "World".to_string(),
        is_bold: true,
        is_italic: false,
        has_underline: false,
        has_strike: false,
        is_insertion: false,
        is_deletion: false,
        anchor: None,
    };
    let merged = merge_segments(vec![a, b]);
    assert_eq!(merged.len(), 1);
    assert_eq!(merged[0].text, "Hello World");
    assert!(merged[0].is_bold);

    // A segment with no flags renders as plain text.
    let plain = ParagraphNode {
        property: None,
        content: vec![ParagraphContentNode::Run(text_run("just text"))],
    };
    let mut context = minimal_context();
    let md = ParagraphConverter::convert(&plain, &mut context).expect("Conversion failed");
    assert_eq!(md, "just text");
}
