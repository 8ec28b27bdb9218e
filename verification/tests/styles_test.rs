use dm2xcod::localization::{
    DefaultLocalization, KoreanLocalization, LocalizationStrategy,
};
use dm2xcod::model::{CharProps, ParaProps, StyleDefinition, StylesInput};
use dm2xcod::styles::StyleResolver;

fn char_props(bold: Option<bool>, italics: Option<bool>) -> CharProps {
    CharProps {
        bold,
        italics,
        strike: None,
        underline: None,
    }
}

#[test]
fn test_style_chain_overrides_base_field_by_field() {
    let styles = StylesInput {
        default_char: Some(char_props(None, Some(false))),
        default_para: None,
        styles: vec![
            StyleDefinition {
                style_id: "Base".to_string(),
                base: None,
                character: Some(char_props(Some(true), None)),
                paragraph: None,
            },
            StyleDefinition {
                style_id: "Derived".to_string(),
                base: Some("Base".to_string()),
                character: Some(char_props(None, Some(true))),
                paragraph: None,
            },
        ],
    };
    let resolver = StyleResolver::new(styles);
    let eff = resolver.resolve_run_property(None, Some("Derived"), None);
    // bold comes from the base, italics from the derived style.
    assert_eq!(eff.bold, Some(true));
    assert_eq!(eff.italics, Some(true));

    // Direct formatting has the highest priority.
    let direct = char_props(Some(false), None);
    let eff2 = resolver.resolve_run_property(Some(&direct), Some("Derived"), None);
    assert_eq!(eff2.bold, Some(false));
    assert_eq!(eff2.italics, Some(true));
}

#[test]
fn test_style_cycle_terminates_at_revisit() {
    let styles = StylesInput {
        default_char: None,
        default_para: None,
        styles: vec![
            StyleDefinition {
                style_id: "A".to_string(),
                base: Some("B".to_string()),
                character: Some(char_props(Some(true), None)),
                paragraph: None,
            },
            StyleDefinition {
                style_id: "B".to_string(),
                base: Some("A".to_string()),
                character: Some(char_props(None, Some(true))),
                paragraph: None,
            },
        ],
    };
    let resolver = StyleResolver::new(styles);
    // The chain A -> B -> A stops when A repeats; both contributions apply.
    let eff = resolver.resolve_run_property(None, Some("A"), None);
    assert_eq!(eff.bold, Some(true));
    assert_eq!(eff.italics, Some(true));
}

#[test]
fn test_unknown_style_contributes_nothing() {
    let resolver = StyleResolver::new(StylesInput {
        default_char: None,
        default_para: None,
        styles: Vec::new(),
    });
    let eff = resolver.resolve_run_property(None, Some("Missing"), Some("AlsoMissing"));
    assert_eq!(eff.bold, None);
    assert_eq!(eff.italics, None);
    assert_eq!(eff.strike, None);
    assert_eq!(eff.underline, None);
    let eff_p = resolver.resolve_paragraph_property(None, Some("Missing"));
    assert!(eff_p.style_id.is_none());
}

#[test]
fn test_paragraph_property_merge_keeps_direct_numbering() {
    let styles = StylesInput {
        default_char: None,
        default_para: None,
        styles: vec![StyleDefinition {
            style_id: "ListPara".to_string(),
            base: None,
            character: None,
            paragraph: Some(ParaProps {
                style_id: Some("ListPara".to_string()),
                numbering: None,
                justification: None,
            }),
        }],
    };
    let resolver = StyleResolver::new(styles);
    let direct = ParaProps {
        style_id: None,
        numbering: Some(dm2xcod::model::NumberingRef {
            num_id: Some(3),
            level: Some(0),
        }),
        justification: None,
    };
    let eff = resolver.resolve_paragraph_property(Some(&direct), Some("ListPara"));
    assert_eq!(eff.style_id, Some("ListPara".to_string()));
    let nr = eff.numbering.expect("numbering kept");
    assert_eq!(nr.num_id, Some(3));
}

#[test]
fn test_heading_style_parsing() {
    let d = DefaultLocalization;
    assert_eq!(d.parse_heading_style("Heading1"), Some(1));
    assert_eq!(d.parse_heading_style("heading 3"), Some(3));
    assert_eq!(d.parse_heading_style("Title"), Some(1));
    assert_eq!(d.parse_heading_style("Subtitle"), Some(2));
    assert_eq!(d.parse_heading_style("Body"), None);

    let k = KoreanLocalization;
    assert_eq!(k.parse_heading_style("Heading2"), Some(2));
    assert_eq!(k.parse_heading_style("\u{c81c}\u{baa9} 1"), Some(1));
    assert_eq!(k.handle_numbering("1."), None);
    assert_eq!(
        k.handle_numbering("\u{c81c}1\u{c870}."),
        Some("### \u{c81c}1\u{c870}".to_string())
    );
    assert_eq!(d.handle_numbering("\u{c81c}1\u{c870}."), None);
}
