use ion_inspect::events::SystemLevelEventSummarizer;
use ion_inspect::table::write_header;

#[test]
fn dim_styling_wraps_comments_when_forced_on() {
    colored::control::set_override(true);
    let mut summarizer = SystemLevelEventSummarizer::new();
    let row = summarizer.on_ivm();
    assert_eq!(row.comment, "\u{1b}[2m// Ion 1.0 Version Marker\u{1b}[0m");
    colored::control::unset_override();
}

#[test]
fn heading_styling_wraps_titles_when_forced_on() {
    colored::control::set_override(true);
    let header = write_header();
    assert!(header.contains("\u{1b}[1;97mOffset\u{1b}[0m"));
    assert!(header.contains("\u{1b}[1;97mText Ion\u{1b}[0m"));
    colored::control::unset_override();
}
