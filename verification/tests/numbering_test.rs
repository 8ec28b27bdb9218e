use dm2xcod::model::{AbstractNumInput, LevelInput, NumInstanceInput, NumberingInput};
use dm2xcod::numbering::{
    format_chosung, format_circle_number, format_ganada, format_geonodeo, format_num, to_roman,
    NumberingResolver,
};

fn simple_numbering(fmt: &str, lvl_text: Option<&str>) -> NumberingInput {
    NumberingInput {
        abstract_numberings: vec![AbstractNumInput {
            abstract_num_id: Some(1),
            levels: vec![
                LevelInput {
                    ilvl: Some(0),
                    start: Some(1),
                    num_fmt: Some(fmt.to_string()),
                    lvl_text: lvl_text.map(|t| t.to_string()),
                },
                LevelInput {
                    ilvl: Some(1),
                    start: Some(1),
                    num_fmt: Some(fmt.to_string()),
                    lvl_text: None,
                },
            ],
        }],
        numberings: vec![
            NumInstanceInput {
                num_id: Some(10),
                abstract_num_id: Some(1),
                level_overrides: Vec::new(),
            },
            NumInstanceInput {
                num_id: Some(11),
                abstract_num_id: Some(1),
                level_overrides: Vec::new(),
            },
        ],
    }
}

#[test]
fn test_format_num_table() {
    assert_eq!(format_num("decimal", 42), "42");
    assert_eq!(format_num("bullet", 7), "-");
    assert_eq!(format_num("none", 7), "-");
    assert_eq!(format_num("lowerLetter", 1), "a");
    assert_eq!(format_num("lowerLetter", 26), "z");
    assert_eq!(format_num("lowerLetter", 27), "27");
    assert_eq!(format_num("upperLetter", 2), "B");
    assert_eq!(format_num("lowerRoman", 4), "iv");
    assert_eq!(format_num("upperRoman", 1944), "MCMXLIV");
    assert_eq!(format_num("somethingElse", -3), "-3");
}

#[test]
fn test_to_roman_subtractive_pairs() {
    assert_eq!(to_roman(9), "IX");
    assert_eq!(to_roman(40), "XL");
    assert_eq!(to_roman(90), "XC");
    assert_eq!(to_roman(400), "CD");
    assert_eq!(to_roman(3888), "MMMDCCCLXXXVIII");
    assert_eq!(to_roman(0), "0");
    assert_eq!(to_roman(-5), "-5");
}

#[test]
fn test_regional_counting_tables() {
    assert_eq!(format_ganada(1), "\u{ac00}");
    assert_eq!(format_ganada(14), "\u{d558}");
    assert_eq!(format_ganada(15), "15");
    assert_eq!(format_geonodeo(1), "\u{ac70}");
    assert_eq!(format_chosung(1), "\u{3131}");
    assert_eq!(format_chosung(0), "0");
}

#[test]
fn test_circle_numbers_two_ranges() {
    assert_eq!(format_circle_number(1), "\u{2460}");
    assert_eq!(format_circle_number(20), "\u{2473}");
    assert_eq!(format_circle_number(21), "\u{3251}");
    assert_eq!(format_circle_number(51), "51");
    assert_eq!(format_circle_number(0), "0");
}

#[test]
fn test_counter_continuity_across_instances() {
    // Two instances bound to one abstract list share a counter row.
    let input = simple_numbering("decimal", None);
    let mut resolver = NumberingResolver::new(Some(&input));
    assert_eq!(resolver.next_marker(10, 0), "1.");
    assert_eq!(resolver.next_marker(11, 0), "2.");
    assert_eq!(resolver.next_marker(10, 0), "3.");
}

#[test]
fn test_level_reset_restarts_deeper_level() {
    let input = simple_numbering("decimal", None);
    let mut resolver = NumberingResolver::new(Some(&input));
    assert_eq!(resolver.next_marker(10, 0), "1.");
    assert_eq!(resolver.next_marker(10, 1), "1.");
    assert_eq!(resolver.next_marker(10, 1), "2.");
    // Advancing the shallower level resets the deeper one.
    assert_eq!(resolver.next_marker(10, 0), "2.");
    assert_eq!(resolver.next_marker(10, 1), "1.");
}

#[test]
fn test_template_substitution_uses_deeper_placeholder() {
    // A level-0 template naming the level-2 placeholder shows 1 for a level
    // never visited.
    let input = simple_numbering("decimal", Some("%1-%3"));
    let mut resolver = NumberingResolver::new(Some(&input));
    assert_eq!(resolver.next_marker(10, 0), "1-1");
    assert_eq!(resolver.next_marker(10, 0), "2-1");
}

#[test]
fn test_unknown_list_id_falls_back_to_bullet() {
    let input = simple_numbering("decimal", None);
    let mut resolver = NumberingResolver::new(Some(&input));
    assert_eq!(resolver.next_marker(99, 0), "-");
}

#[test]
fn test_start_override_applies_to_instance() {
    let mut input = simple_numbering("decimal", None);
    input.numberings[1].level_overrides = vec![dm2xcod::model::LevelOverrideInput {
        ilvl: Some(0),
        start_override: Some(5),
    }];
    let mut resolver = NumberingResolver::new(Some(&input));
    // First use through the overridden instance starts at its override.
    assert_eq!(resolver.next_marker(11, 0), "5.");
    // The shared abstract counter continues from there.
    assert_eq!(resolver.next_marker(10, 0), "6.");
}

#[test]
fn test_indent_shift_for_section_pattern() {
    // A section-pattern template at level 2 shifts indentation down.
    let input = NumberingInput {
        abstract_numberings: vec![AbstractNumInput {
            abstract_num_id: Some(1),
            levels: vec![LevelInput {
                ilvl: Some(2),
                start: Some(1),
                num_fmt: Some("decimal".to_string()),
                lvl_text: Some("\u{c81c}%3\u{c870}".to_string()),
            }],
        }],
        numberings: vec![NumInstanceInput {
            num_id: Some(4),
            abstract_num_id: Some(1),
            level_overrides: Vec::new(),
        }],
    };
    let resolver = NumberingResolver::new(Some(&input));
    assert_eq!(resolver.get_indent(4, 2), 0);
    assert_eq!(resolver.get_indent(4, 3), 1);
    // Without a shift the level index is the indent.
    let plain = simple_numbering("decimal", None);
    let plain_resolver = NumberingResolver::new(Some(&plain));
    assert_eq!(plain_resolver.get_indent(10, 3), 3);
}
