use ion_inspect::events::SystemLevelEventSummarizer;
use ion_inspect::engine::starts_with_ivm;
use ion_inspect::model::InspectionWindow;

#[test]
fn ivm_event_row() {
    colored::control::set_override(false);
    let mut summarizer = SystemLevelEventSummarizer::new();
    let row = summarizer.on_ivm();
    assert_eq!(row.offset, None);
    assert_eq!(row.length, None);
    assert_eq!(row.indentation, "");
    assert_eq!(row.hex, "e0 01 00 ea");
    assert_eq!(row.text, "");
    assert_eq!(row.comment, "// Ion 1.0 Version Marker");
}

#[test]
fn symbol_table_append_lists_new_tail() {
    colored::control::set_override(false);
    let mut summarizer = SystemLevelEventSummarizer::new();
    let table = vec!["a".to_string(), "b".to_string(), "c".to_string()];
    let row = summarizer.on_symbol_table_append(&table, 1);
    assert_eq!(row.hex, "...");
    assert_eq!(row.comment, "// Local symbol table append: [\"b\", \"c\"]");
}

#[test]
fn symbol_table_append_of_nothing() {
    colored::control::set_override(false);
    let mut summarizer = SystemLevelEventSummarizer::new();
    let table = vec!["a".to_string()];
    let row = summarizer.on_symbol_table_append(&table, 1);
    assert_eq!(row.comment, "// Local symbol table append: [\"\"]");
}

#[test]
fn symbol_table_reset_to_system_table() {
    colored::control::set_override(false);
    let mut summarizer = SystemLevelEventSummarizer::new();
    let table: Vec<String> = (0..10).map(|i| format!("s{}", i)).collect();
    let row = summarizer.on_symbol_table_reset(&table);
    assert_eq!(row.comment, "// Using system symbol table");
}

#[test]
fn symbol_table_reset_with_local_entries() {
    colored::control::set_override(false);
    let mut summarizer = SystemLevelEventSummarizer::new();
    let table: Vec<String> = (0..12).map(|i| format!("s{}", i)).collect();
    let row = summarizer.on_symbol_table_reset(&table);
    assert_eq!(row.comment, "// New local symbol table: [\"s10\", \"s11\"]");
}

#[test]
fn window_normalizes_zero_limit_to_unbounded() {
    let unbounded = InspectionWindow::new(5, 0);
    assert_eq!(unbounded.bytes_to_skip, 5);
    assert_eq!(unbounded.limit_bytes, usize::MAX);
    let bounded = InspectionWindow::new(5, 9);
    assert_eq!(bounded.limit_bytes, 9);
}

#[test]
fn version_marker_prefix_check() {
    assert!(starts_with_ivm(&[0xe0, 0x01, 0x00, 0xea]));
    assert!(starts_with_ivm(&[0xe0, 0x01, 0x00, 0xea, 0x21, 0x07]));
    assert!(!starts_with_ivm(&[0xe0, 0x01, 0x00]));
    assert!(!starts_with_ivm(&[0xe0, 0x01, 0x00, 0xeb]));
    assert!(!starts_with_ivm(&[]));
}
