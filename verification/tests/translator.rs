use plotter_core::gcode::apply_rules;
use plotter_core::gcode::openbuilds_compat;
use plotter_core::gcode::translate_gcode;
use plotter_core::gcode::translate_line;
use plotter_core::gcode::GCodeLoader;
use plotter_core::text::replace_all;
use plotter_core::text::split_lines;

#[test]
fn translate_lift_line_strips_feed_rate() {
    assert_eq!(translate_line("G0 Z5 F1000"), "M300 S50");
}

#[test]
fn translate_descend_line() {
    assert_eq!(translate_line("G0 Z0"), "M300 S30.00");
}

#[test]
fn translate_unmatched_line_is_identity() {
    assert_eq!(translate_line("G1 X10 Y20"), "G1 X10 Y20");
    assert_eq!(translate_line(""), "");
    assert_eq!(translate_line("; a comment"), "; a comment");
}

#[test]
fn translate_matches_inside_unrelated_tokens() {
    // The rules are literal substring replacements, not word-boundary
    // aware.
    assert_eq!(translate_line("xG0 Z5y"), "xM300 S50y");
}

#[test]
fn rule_table_is_ordered_pattern_first() {
    let rules = openbuilds_compat();
    assert_eq!(rules.len(), 3);
    assert_eq!(rules[0].0, "G0 Z5");
    assert_eq!(rules[0].1, "M300 S50");
    assert_eq!(rules[1].0, " F1000");
    assert_eq!(rules[1].1, "");
    assert_eq!(rules[2].0, "G0 Z0");
    assert_eq!(rules[2].1, "M300 S30.00");
}

#[test]
fn apply_rules_folds_sequentially() {
    // Each rule consumes the previous rule's output.
    let rules = vec![
        ("a".to_string(), "b".to_string()),
        ("b".to_string(), "c".to_string()),
    ];
    assert_eq!(apply_rules("a", &rules), "c");
}

#[test]
fn replace_all_scans_left_to_right_without_overlap() {
    assert_eq!(replace_all("aaa", "aa", "b"), "ba");
}

#[test]
fn replace_all_does_not_rescan_replacements() {
    assert_eq!(replace_all("ab", "ab", "abab"), "abab");
    assert_eq!(replace_all("abab", "ab", "a"), "aa");
}

#[test]
fn replace_all_copies_unmatched_text() {
    assert_eq!(replace_all("xy", "y", "z"), "xz");
    assert_eq!(replace_all("plain", "missing", "got"), "plain");
}

#[test]
fn split_lines_on_newline_boundaries() {
    assert_eq!(split_lines("a\nb"), vec!["a", "b"]);
    assert_eq!(split_lines("a\r\nb\r\n"), vec!["a", "b"]);
    assert_eq!(split_lines(""), Vec::<String>::new());
    assert_eq!(split_lines("\n"), vec![""]);
    // A carriage return not followed by a line feed belongs to the
    // line.
    assert_eq!(split_lines("b\r"), vec!["b\r"]);
    assert_eq!(split_lines("a\n\nb"), vec!["a", "", "b"]);
}

#[test]
fn translate_gcode_is_line_local() {
    let lines = vec!["G0 Z5 F1000".to_string(), "G1 X0".to_string(), "G0 Z0".to_string()];
    assert_eq!(translate_gcode(lines), vec!["M300 S50", "G1 X0", "M300 S30.00"]);
}

#[test]
fn loader_keeps_one_instruction_per_line_in_order() {
    let loader = GCodeLoader::new(
        "plot.gcode".to_string(),
        "G0 Z5 F1000\nG1 X10\nG0 Z0\nG1 X0\n",
    );
    assert_eq!(loader.filepath, "plot.gcode");
    assert_eq!(loader.gcode.len(), 4);
    assert_eq!(loader.gcode, vec!["M300 S50", "G1 X10", "M300 S30.00", "G1 X0"]);
}

#[test]
fn loader_keeps_blank_and_duplicate_lines() {
    let loader = GCodeLoader::new("p".to_string(), "G1 X1\n\nG1 X1");
    assert_eq!(loader.gcode, vec!["G1 X1", "", "G1 X1"]);
}

#[test]
fn loader_default_is_empty() {
    let loader = GCodeLoader::default();
    assert_eq!(loader.filepath, "");
    assert!(loader.gcode.is_empty());
}
