use ion_inspect::engine::inspect;
use ion_inspect::model::{
    AnnotationsInfo, FieldInfo, InspectionWindow, IonKind, Item, StructuralEvent, ValueRecord,
};

fn scalar(
    kind: IonKind,
    header_offset: usize,
    header_bytes: Vec<u8>,
    body_bytes: Vec<u8>,
    text: &str,
) -> ValueRecord {
    ValueRecord {
        kind,
        is_null: false,
        field: None,
        annotations: None,
        header_offset,
        header_length: header_bytes.len(),
        value_length: body_bytes.len(),
        header_bytes,
        body_bytes,
        text: text.to_string(),
        symbol_id: None,
    }
}

fn container(kind: IonKind, header_offset: usize, header_bytes: Vec<u8>, value_length: usize) -> ValueRecord {
    ValueRecord {
        kind,
        is_null: false,
        field: None,
        annotations: None,
        header_offset,
        header_length: header_bytes.len(),
        value_length,
        header_bytes,
        body_bytes: Vec::new(),
        text: String::new(),
        symbol_id: None,
    }
}

#[test]
fn marker_then_single_integer() {
    colored::control::set_override(false);
    // The four-byte version marker followed by the integer 7 in minimal form.
    let items = vec![
        Item::Event(StructuralEvent::VersionMarker),
        Item::Value(scalar(IonKind::Integer, 4, vec![0x21], vec![0x07], "7"), vec![]),
    ];
    let rows = inspect(&items, InspectionWindow::new(0, 0));
    assert_eq!(rows.len(), 2);
    assert_eq!(rows[0].offset, None);
    assert_eq!(rows[0].length, None);
    assert_eq!(rows[0].indentation, "");
    assert_eq!(rows[0].hex, "e0 01 00 ea");
    assert_eq!(rows[0].text, "");
    assert_eq!(rows[0].comment, "// Ion 1.0 Version Marker");
    assert_eq!(rows[1].offset, Some(4));
    assert_eq!(rows[1].length, Some(2));
    assert_eq!(rows[1].indentation, "");
    assert_eq!(rows[1].hex, "21 07");
    // No trailing separator at the top level.
    assert_eq!(rows[1].text, "7");
    assert_eq!(rows[1].comment, "");
}

#[test]
fn two_element_list_rows_and_indentation() {
    colored::control::set_override(false);
    // [1, 2] at the top level: b4 21 01 21 02 at offset 4.
    let one = scalar(IonKind::Integer, 5, vec![0x21], vec![0x01], "1");
    let two = scalar(IonKind::Integer, 7, vec![0x21], vec![0x02], "2");
    let items = vec![Item::Value(
        container(IonKind::List, 4, vec![0xb4], 4),
        vec![Item::Value(one, vec![]), Item::Value(two, vec![])],
    )];
    let rows = inspect(&items, InspectionWindow::new(0, 0));
    assert_eq!(rows.len(), 4);
    assert_eq!(rows[0].text, "[");
    assert_eq!(rows[0].indentation, "");
    assert_eq!(rows[0].hex, "b4");
    assert_eq!(rows[0].offset, Some(4));
    assert_eq!(rows[0].length, Some(5));
    assert_eq!(rows[1].text, "1,");
    assert_eq!(rows[1].indentation, "  ");
    assert_eq!(rows[1].hex, "21 01");
    assert_eq!(rows[2].text, "2,");
    assert_eq!(rows[2].indentation, "  ");
    assert_eq!(rows[3].text, "]");
    assert_eq!(rows[3].indentation, "");
    assert_eq!(rows[3].hex, "");
    assert_eq!(rows[3].offset, None);
}

#[test]
fn nested_container_opening_gets_separator() {
    colored::control::set_override(false);
    // A list nested in a list: the inner opening delimiter carries the
    // trailing separator, like any other value rendered above the top level.
    let inner = container(IonKind::List, 5, vec![0xb2], 2);
    let one = scalar(IonKind::Integer, 6, vec![0x21], vec![0x05], "5");
    let items = vec![Item::Value(
        container(IonKind::List, 4, vec![0xb3], 3),
        vec![Item::Value(inner, vec![Item::Value(one, vec![])])],
    )];
    let rows = inspect(&items, InspectionWindow::new(0, 0));
    assert_eq!(rows.len(), 5);
    assert_eq!(rows[0].text, "[");
    assert_eq!(rows[1].text, "[,");
    assert_eq!(rows[1].indentation, "  ");
    assert_eq!(rows[2].text, "5,");
    assert_eq!(rows[2].indentation, "    ");
    assert_eq!(rows[3].text, "]");
    assert_eq!(rows[3].indentation, "  ");
    assert_eq!(rows[4].text, "]");
    assert_eq!(rows[4].indentation, "");
}

#[test]
fn skip_inside_scalar_shows_it_whole() {
    colored::control::set_override(false);
    // One two-byte value wholly before the skip point, then a three-byte
    // scalar whose range contains it: the scalar is shown in full and the
    // suppressed bytes are reported.
    let before = scalar(IonKind::Integer, 4, vec![0x21], vec![0x05], "5");
    let inside = scalar(IonKind::Integer, 6, vec![0x22], vec![0x01, 0x02], "258");
    let items = vec![Item::Value(before, vec![]), Item::Value(inside, vec![])];
    let rows = inspect(&items, InspectionWindow::new(7, 0));
    assert_eq!(rows.len(), 2);
    assert_eq!(rows[0].offset, None);
    assert_eq!(rows[0].hex, "...");
    assert_eq!(rows[0].comment, "// Skipped 2 bytes of user-level data");
    assert_eq!(rows[1].hex, "22 01 02");
    assert_eq!(rows[1].text, "258");
    assert_eq!(rows[1].offset, Some(6));
    assert_eq!(rows[1].length, Some(3));
}

#[test]
fn limit_at_top_level_says_ending() {
    colored::control::set_override(false);
    let first = scalar(IonKind::Integer, 4, vec![0x21], vec![0x01], "1");
    let second = scalar(IonKind::Integer, 6, vec![0x21], vec![0x02], "2");
    let items = vec![Item::Value(first, vec![]), Item::Value(second, vec![])];
    let rows = inspect(&items, InspectionWindow::new(0, 5));
    assert_eq!(rows.len(), 2);
    assert_eq!(rows[0].text, "1");
    assert_eq!(rows[1].hex, "...");
    assert_eq!(rows[1].comment, "// --limit-bytes reached, ending.");
    assert_eq!(rows[1].offset, None);
}

#[test]
fn limit_inside_container_says_stepping_out_and_closes() {
    colored::control::set_override(false);
    // The list itself starts inside the window, its child past the limit:
    // the child level steps out, and the list still shows its delimiter.
    let child = scalar(IonKind::Integer, 5, vec![0x21], vec![0x09], "9");
    let items = vec![Item::Value(
        container(IonKind::List, 4, vec![0xb2], 2),
        vec![Item::Value(child, vec![])],
    )];
    let rows = inspect(&items, InspectionWindow::new(0, 5));
    assert_eq!(rows.len(), 3);
    assert_eq!(rows[0].text, "[");
    assert_eq!(rows[1].comment, "// --limit-bytes reached, stepping out.");
    assert_eq!(rows[1].indentation, "  ");
    assert_eq!(rows[2].text, "]");
}

#[test]
fn struct_member_field_annotations_value_order() {
    colored::control::set_override(false);
    // struct { name: ann::5 } — the member's field-id row, then its
    // annotations row, then its value row.
    let member = ValueRecord {
        kind: IonKind::Integer,
        is_null: false,
        field: Some(FieldInfo {
            id: 12,
            name: "name".to_string(),
            offset: 5,
            length: 1,
            raw: vec![0x8c],
        }),
        annotations: Some(AnnotationsInfo {
            ids: vec![11],
            texts: vec!["ann".to_string()],
            offset: 6,
            length: 2,
            raw: vec![0xe1, 0x8b],
        }),
        header_offset: 8,
        header_length: 1,
        value_length: 1,
        header_bytes: vec![0x21],
        body_bytes: vec![0x05],
        text: "5".to_string(),
        symbol_id: None,
    };
    let items = vec![Item::Value(
        container(IonKind::Struct, 4, vec![0xd5], 5),
        vec![Item::Value(member, vec![])],
    )];
    let rows = inspect(&items, InspectionWindow::new(0, 0));
    assert_eq!(rows.len(), 5);
    assert_eq!(rows[0].text, "{");
    assert_eq!(rows[1].text, "'name':");
    assert_eq!(rows[1].comment, " // $12:");
    assert_eq!(rows[1].offset, Some(5));
    assert_eq!(rows[1].length, Some(1));
    assert_eq!(rows[1].hex, "8c");
    assert_eq!(rows[2].text, "'ann'::");
    assert_eq!(rows[2].comment, " // $11::");
    assert_eq!(rows[2].hex, "e1 8b");
    assert_eq!(rows[3].text, "5,");
    assert_eq!(rows[3].hex, "21 05");
    assert_eq!(rows[4].text, "}");
}

#[test]
fn symbol_value_carries_id_comment() {
    colored::control::set_override(false);
    let mut sym = scalar(IonKind::Symbol, 5, vec![0x71], vec![0x0a], "'greeting'");
    sym.symbol_id = Some(10);
    let items = vec![Item::Value(
        container(IonKind::List, 4, vec![0xb2], 2),
        vec![Item::Value(sym, vec![])],
    )];
    let rows = inspect(&items, InspectionWindow::new(0, 0));
    assert_eq!(rows[1].text, "'greeting',");
    assert_eq!(rows[1].comment, " // $10");
}

#[test]
fn unbounded_window_emits_no_window_comments() {
    colored::control::set_override(false);
    let one = scalar(IonKind::Integer, 5, vec![0x21], vec![0x01], "1");
    let two = scalar(IonKind::Integer, 7, vec![0x21], vec![0x02], "2");
    let items = vec![
        Item::Event(StructuralEvent::VersionMarker),
        Item::Value(
            container(IonKind::List, 4, vec![0xb4], 4),
            vec![Item::Value(one, vec![]), Item::Value(two, vec![])],
        ),
    ];
    let rows = inspect(&items, InspectionWindow::new(0, 0));
    assert_eq!(rows.len(), 5);
    for row in &rows {
        assert!(!row.comment.contains("Skipped"));
        assert!(!row.comment.contains("limit-bytes"));
    }
}

#[test]
fn annotations_list_is_joined() {
    colored::control::set_override(false);
    let mut val = scalar(IonKind::Integer, 8, vec![0x21], vec![0x07], "7");
    val.annotations = Some(AnnotationsInfo {
        ids: vec![11, 12],
        texts: vec!["a".to_string(), "b".to_string()],
        offset: 5,
        length: 3,
        raw: vec![0xe2, 0x8b, 0x8c],
    });
    let items = vec![Item::Value(val, vec![])];
    let rows = inspect(&items, InspectionWindow::new(0, 0));
    assert_eq!(rows.len(), 2);
    assert_eq!(rows[0].text, "'a'::'b'::");
    assert_eq!(rows[0].comment, " // $11::$12::");
    assert_eq!(rows[1].text, "7");
}

#[test]
fn event_rows_appear_even_while_skipping() {
    colored::control::set_override(false);
    // A structural event between two values, the first suppressed by the
    // skip window: the event is still surfaced, and the suppressed bytes are
    // reported only when the next value is rendered.
    let before = scalar(IonKind::Integer, 4, vec![0x21], vec![0x05], "5");
    let after = scalar(IonKind::Integer, 6, vec![0x21], vec![0x06], "6");
    let items = vec![
        Item::Value(before, vec![]),
        Item::Event(StructuralEvent::VersionMarker),
        Item::Value(after, vec![]),
    ];
    let rows = inspect(&items, InspectionWindow::new(6, 0));
    assert_eq!(rows.len(), 3);
    assert_eq!(rows[0].comment, "// Ion 1.0 Version Marker");
    assert_eq!(rows[1].comment, "// Skipped 2 bytes of user-level data");
    assert_eq!(rows[2].text, "6");
}

#[test]
fn scalar_with_empty_body_keeps_header_hex() {
    colored::control::set_override(false);
    // The integer 0 in minimal form has no body bytes at all.
    let zero = scalar(IonKind::Integer, 4, vec![0x20], vec![], "0");
    let items = vec![Item::Value(zero, vec![])];
    let rows = inspect(&items, InspectionWindow::new(0, 0));
    assert_eq!(rows.len(), 1);
    assert_eq!(rows[0].hex, "20 ");
    assert_eq!(rows[0].length, Some(1));
    assert_eq!(rows[0].text, "0");
}

#[test]
fn whole_table_for_marker_and_integer() {
    colored::control::set_override(false);
    let items = vec![
        Item::Event(StructuralEvent::VersionMarker),
        Item::Value(scalar(IonKind::Integer, 4, vec![0x21], vec![0x07], "7"), vec![]),
    ];
    let rows = inspect(&items, InspectionWindow::new(0, 0));
    let table = format!(
        "{}{}",
        ion_inspect::table::write_header(),
        ion_inspect::table::render_rows(&rows),
    );
    let rule = "-".repeat(75);
    let expected = format!(
        "{}\n{}\n{}\n{}{}",
        rule,
        " Offset   |  Length   |        Binary Ion        |         Text Ion        ",
        rule,
        "          |           | e0 01 00 ea              |  // Ion 1.0 Version Marker\n",
        "        4 |         2 | 21 07                    |  7\n",
    );
    assert_eq!(table, expected);
}
