use wui::diag::caret_line;
use wui::diag::line_col;
use wui::diag::line_text;
use wui::parser::parse_template;
use wui::reload::ReloadTrigger;

#[test]
fn line_and_column_are_one_based() {
    let src = "ab\ncd\nef";
    assert_eq!(line_col(src, 0), (1, 1));
    assert_eq!(line_col(src, 1), (1, 2));
    assert_eq!(line_col(src, 3), (2, 1));
    assert_eq!(line_col(src, 4), (2, 2));
    assert_eq!(line_col(src, 6), (3, 1));
    assert_eq!(line_col(src, 8), (3, 3));
}

#[test]
fn offset_on_a_newline_belongs_to_its_line() {
    let src = "ab\ncd";
    assert_eq!(line_col(src, 2), (1, 3));
}

#[test]
fn line_text_returns_the_offending_line() {
    let src = "Frame {\n  k = ?\n}";
    assert_eq!(line_text(src, 10), "  k = ?");
    assert_eq!(line_text(src, 0), "Frame {");
}

#[test]
fn caret_marks_the_column() {
    assert_eq!(caret_line(1), "^");
    assert_eq!(caret_line(4), "   ^");
}

#[test]
fn a_parse_error_locates_against_the_source() {
    let src = "Frame {\n  k = \n}";
    let e = parse_template(src, "u").unwrap_err();
    let (line, col) = line_col(src, e.offset);
    assert_eq!(line, 3);
    assert_eq!(col, 1);
    assert_eq!(line_text(src, e.offset), "}");
}

#[test]
fn reload_signals_coalesce_into_one_run() {
    let mut t = ReloadTrigger::new();
    assert!(!t.try_start());
    t.signal();
    t.signal();
    t.signal();
    assert!(t.try_start());
    // one slot: the three signals were one request
    assert!(!t.try_start());
    // a signal during the run does not interrupt it
    t.signal();
    assert!(!t.try_start());
    t.finish();
    assert!(t.try_start());
    t.finish();
    assert!(!t.try_start());
}
