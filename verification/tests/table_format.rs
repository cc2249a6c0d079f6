use ion_inspect::table::{output, output_row, render_rows, spaces, write_header};
use ion_inspect::model::Row;
use ion_inspect::textutil::{format_usize, repeat_str, to_hex, join_into, decimals_of};

#[test]
fn format_usize_exact_values() {
    assert_eq!(format_usize(0), "0");
    assert_eq!(format_usize(7), "7");
    assert_eq!(format_usize(10), "10");
    assert_eq!(format_usize(90210), "90210");
    assert_eq!(format_usize(usize::MAX), usize::MAX.to_string());
}

#[test]
fn to_hex_writes_space_separated_pairs() {
    let mut buffer = String::new();
    to_hex(&mut buffer, &[]);
    assert_eq!(buffer, "");
    to_hex(&mut buffer, &[0x00]);
    assert_eq!(buffer, "00");
    let mut buffer = String::new();
    to_hex(&mut buffer, &[0xde, 0xad, 0x0f]);
    assert_eq!(buffer, "de ad 0f");
    // Appends to what is already there.
    to_hex(&mut buffer, &[0x21]);
    assert_eq!(buffer, "de ad 0f21");
}

#[test]
fn join_into_delimits_between_values() {
    let mut buffer = String::new();
    join_into(&mut buffer, ", ", &vec![]);
    assert_eq!(buffer, "");
    join_into(&mut buffer, "', '", &vec!["a".to_string(), "b".to_string(), "c".to_string()]);
    assert_eq!(buffer, "a', 'b', 'c");
}

#[test]
fn decimals_of_formats_each() {
    let out = decimals_of(&vec![10, 0, 312]);
    assert_eq!(out, vec!["10".to_string(), "0".to_string(), "312".to_string()]);
}

#[test]
fn repeat_and_spaces() {
    assert_eq!(repeat_str("ab", 3), "ababab");
    assert_eq!(repeat_str("-", 0), "");
    assert_eq!(spaces(4), "    ");
}

#[test]
fn output_single_line_columns() {
    let line = output(Some(10), Some(2), "  ", "aa bb", "text");
    assert_eq!(line, "       10 |         2 | aa bb                    |    text\n");
}

#[test]
fn output_absent_offset_and_length() {
    let line = output(None, None, "", "...", "// note");
    assert_eq!(line, "          |           | ...                      |  // note\n");
}

#[test]
fn output_wraps_long_hex_into_continuation_rows() {
    let line = output(Some(4), Some(10), "", "aa bb cc dd ee ff 00 11 22 33", "big");
    let expected = format!(
        "{}{}",
        "        4 |        10 | aa bb cc dd ee ff 00 11  |  big\n",
        "          |           | 22 33                    | \n",
    );
    assert_eq!(line, expected);
}

#[test]
fn output_row_appends_comment_after_text() {
    let row = Row {
        offset: Some(4),
        length: Some(2),
        indentation: "  ".to_string(),
        hex: "21 07".to_string(),
        text: "7,".to_string(),
        comment: " // $7".to_string(),
    };
    let line = output_row(&row);
    assert_eq!(line, "        4 |         2 | 21 07                    |    7, // $7\n");
}

#[test]
fn render_rows_concatenates_in_order() {
    let a = Row {
        offset: None,
        length: None,
        indentation: String::new(),
        hex: String::new(),
        text: "[".to_string(),
        comment: String::new(),
    };
    let b = Row {
        offset: None,
        length: None,
        indentation: String::new(),
        hex: String::new(),
        text: "]".to_string(),
        comment: String::new(),
    };
    let body = render_rows(&vec![a.clone(), b.clone()]);
    assert_eq!(body, format!("{}{}", output_row(&a), output_row(&b)));
}

#[test]
fn header_has_rules_and_centered_titles() {
    colored::control::set_override(false);
    let rule = "-".repeat(75);
    let expected = format!(
        "{}\n Offset   |  Length   |        Binary Ion        |         Text Ion        \n{}\n",
        rule, rule,
    );
    assert_eq!(write_header(), expected);
}
