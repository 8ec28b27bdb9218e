use dm2xcod::context::ConversionContext;
use dm2xcod::image::ImageExtractor;
use dm2xcod::model::{
    ParagraphContentNode, ParagraphNode, RelationshipMap, RunContentNode, RunNode, StylesInput,
    TableCellNode, TableNode, TableRowContentNode, TableRowNode, VMergeState,
};
use dm2xcod::numbering::NumberingResolver;
use dm2xcod::styles::StyleResolver;
use dm2xcod::table::TableConverter;
use dm2xcod::ConvertOptions;

fn minimal_context() -> ConversionContext {
    ConversionContext::new(
        RelationshipMap::new(),
        NumberingResolver::new(None),
        ImageExtractor::new_skip(),
        ConvertOptions::default(),
        None,
        None,
        None,
        StyleResolver::new(StylesInput {
            default_char: None,
            default_para: None,
            styles: Vec::new(),
        }),
    )
}

fn text_cell(text: &str, span: Option<usize>, v_merge: VMergeState) -> TableRowContentNode {
    TableRowContentNode::Cell(TableCellNode {
        grid_span: span,
        v_merge,
        content: vec![ParagraphNode {
            property: None,
            content: vec![ParagraphContentNode::Run(RunNode {
                property: None,
                content: vec![RunContentNode::Text(text.to_string())],
            })],
        }],
    })
}

#[test]
fn test_simple_table_renders_rectangular_grid() {
    let table = TableNode {
        rows: vec![
            TableRowNode {
                cells: vec![
                    text_cell("A", None, VMergeState::NoMerge),
                    text_cell("B", None, VMergeState::NoMerge),
                ],
            },
            TableRowNode {
                cells: vec![
                    text_cell("C", None, VMergeState::NoMerge),
                    text_cell("D", None, VMergeState::NoMerge),
                ],
            },
        ],
    };
    let mut context = minimal_context();
    let html = TableConverter::convert(&table, &mut context).expect("table conversion");
    assert_eq!(
        html,
        "<table>\n  <tr>\n    <td>A</td>\n    <td>B</td>\n  </tr>\n  <tr>\n    <td>C</td>\n    <td>D</td>\n  </tr>\n</table>"
    );
}

#[test]
fn test_rowspan_accumulates_over_three_continuations() {
    // A master cell with three continuation rows below it ends with
    // rowspan = continuation rows + 1.
    let table = TableNode {
        rows: vec![
            TableRowNode {
                cells: vec![
                    text_cell("M", None, VMergeState::Restart),
                    text_cell("r0", None, VMergeState::NoMerge),
                ],
            },
            TableRowNode {
                cells: vec![
                    text_cell("", None, VMergeState::Continue),
                    text_cell("r1", None, VMergeState::NoMerge),
                ],
            },
            TableRowNode {
                cells: vec![
                    text_cell("", None, VMergeState::Continue),
                    text_cell("r2", None, VMergeState::NoMerge),
                ],
            },
            TableRowNode {
                cells: vec![
                    text_cell("", None, VMergeState::Continue),
                    text_cell("r3", None, VMergeState::NoMerge),
                ],
            },
        ],
    };
    let mut context = minimal_context();
    let html = TableConverter::convert(&table, &mut context).expect("table conversion");
    assert!(html.contains("<td rowspan=\"4\">M</td>"));
    assert_eq!(html.matches("rowspan").count(), 1);
}

#[test]
fn test_colspan_attribute_and_merged_columns() {
    let table = TableNode {
        rows: vec![
            TableRowNode {
                cells: vec![text_cell("wide", Some(2), VMergeState::NoMerge)],
            },
            TableRowNode {
                cells: vec![
                    text_cell("x", None, VMergeState::NoMerge),
                    text_cell("y", None, VMergeState::NoMerge),
                ],
            },
        ],
    };
    let mut context = minimal_context();
    let html = TableConverter::convert(&table, &mut context).expect("table conversion");
    assert!(html.contains("<td colspan=\"2\">wide</td>"));
    assert!(html.contains("<td>x</td>"));
    assert!(html.contains("<td>y</td>"));
}

#[test]
fn test_continuation_through_colspan_finds_left_master() {
    // A continuation under the second column of a two-column master must
    // extend that master's rowspan through the merged-left chain.
    let table = TableNode {
        rows: vec![
            TableRowNode {
                cells: vec![text_cell("wide", Some(2), VMergeState::Restart)],
            },
            TableRowNode {
                cells: vec![
                    text_cell("below", None, VMergeState::NoMerge),
                    text_cell("", None, VMergeState::Continue),
                ],
            },
        ],
    };
    let mut context = minimal_context();
    let html = TableConverter::convert(&table, &mut context).expect("table conversion");
    assert!(html.contains("rowspan=\"2\""));
    assert!(html.contains("colspan=\"2\""));
    assert!(html.contains("<td>below</td>"));
}

#[test]
fn test_malformed_continuation_degrades_to_empty_cell() {
    // A continuation in the first row has no master; the slot stays empty
    // and renders as an empty cell instead of failing.
    let table = TableNode {
        rows: vec![TableRowNode {
            cells: vec![
                text_cell("", None, VMergeState::Continue),
                text_cell("ok", None, VMergeState::NoMerge),
            ],
        }],
    };
    let mut context = minimal_context();
    let html = TableConverter::convert(&table, &mut context).expect("table conversion");
    assert!(html.contains("<td>ok</td>"));
    assert!(!html.contains("rowspan"));
}
