use phpmd_lsp::marker::{
    error_control_operator_range, error_control_operator_start_char, indent_of, line_number_of,
    parse_line_from_description,
};

#[test]
fn parses_line_number_from_description() {
    let description = "Remove error control operator '@' on line 264.";
    assert_eq!(parse_line_from_description(description), Some(264));
}

#[test]
fn returns_none_when_description_has_no_line_marker() {
    let description = "The method openGzipFile() uses an error control operator.";
    assert_eq!(parse_line_from_description(description), None);
}

#[test]
fn collapses_multi_line_method_span_to_description_line() {
    // PHPMD reports beginLine/endLine spanning the whole enclosing method
    // (line 260 through 290), but the description points at the real
    // operator line. These values become the diagnostic's start.line and
    // end.line, so they must be equal and match the parsed line.
    let description = "Remove error control operator '@' on line 264.";
    let begin_line = 260;
    let end_line = 290;
    assert!(end_line - begin_line > 10, "fixture must span a method");

    let (start_line, range_end_line) = error_control_operator_range(description, begin_line);

    assert_eq!(start_line, range_end_line);
    assert_eq!(start_line, 264);
}

#[test]
fn falls_back_to_begin_line_when_description_unparsable() {
    let description = "Some message without a line reference.";
    let begin_line = 260;
    assert_eq!(
        error_control_operator_range(description, begin_line),
        (begin_line, begin_line)
    );
}

#[test]
fn start_char_anchors_at_the_at_operator() {
    let line = "        $handle = @gzopen($path, 'wb9');";
    let at_offset = line.find('@').unwrap();
    assert_eq!(error_control_operator_start_char(line), at_offset);
}

#[test]
fn start_char_falls_back_to_first_non_whitespace_without_at() {
    let line = "        $handle = gzopen($path, 'wb9');";
    // 8 leading spaces, then the first non-whitespace character.
    assert_eq!(error_control_operator_start_char(line), 8);
}

#[test]
fn the_first_marker_with_digits_counts() {
    assert_eq!(parse_line_from_description("on line on line 7 and on line 8"), Some(7));
    assert_eq!(parse_line_from_description("on line x, on line 0012"), Some(12));
    assert_eq!(parse_line_from_description("ON LINE 7"), None);
    assert_eq!(parse_line_from_description("on line7"), None);
    assert_eq!(parse_line_from_description(""), None);
}

#[test]
fn line_numbers_beyond_32_bits_are_refused() {
    assert_eq!(parse_line_from_description("on line 4294967295"), Some(4294967295));
    assert_eq!(parse_line_from_description("on line 4294967296"), None);
    assert_eq!(parse_line_from_description("on line 99999999999999999999999999"), None);
}

#[test]
fn digits_outside_ascii_are_captured_and_refused() {
    assert_eq!(parse_line_from_description("on line \u{661}\u{662}"), None);
    assert_eq!(parse_line_from_description("on line 1\u{662} on line 3"), None);
    assert_eq!(parse_line_from_description("on line 12\u{e9}"), Some(12));
}

#[test]
fn digits_are_read_as_std_reads_them() {
    for digits in ["0", "7", "007", "4294967295", "4294967296", "", "1x", "18446744073709551616"] {
        assert_eq!(line_number_of(digits), digits.parse::<u32>().ok());
    }
}

#[test]
fn columns_are_counted_in_bytes() {
    assert_eq!(error_control_operator_start_char("\u{e9}\u{20ac}@x"), 5);
    assert_eq!(error_control_operator_start_char("\u{2003} x"), 4);
    assert_eq!(error_control_operator_start_char("@a @b"), 0);
    assert_eq!(error_control_operator_start_char("   "), 3);
    assert_eq!(error_control_operator_start_char(""), 0);
    assert_eq!(indent_of("\t \u{a0}$x = 1;"), 4);
}
