use wui::ast::Statement;
use wui::parser::ParseErrorKind;
use wui::parser::WuiParser;
use wui::parser::parse_template;

fn arg<'a>(args: &'a [(String, String)], key: &str) -> Option<&'a str> {
    args.iter().find(|p| p.0 == key).map(|p| p.1.as_str())
}

#[test]
fn parses_params_and_body() {
    let src = "param title = \"Untitled\"\nparam width\nFrame { Label { text = title } }";
    let t = parse_template(src, "card").unwrap();
    assert_eq!(t.name, "card");
    assert_eq!(t.params.len(), 2);
    assert_eq!(t.params[0].name, "title");
    assert_eq!(t.params[0].default.as_deref(), Some("Untitled"));
    assert_eq!(t.params[1].name, "width");
    assert!(t.params[1].default.is_none());
    assert_eq!(t.body.len(), 1);
    assert_eq!(t.body[0].widget, "Frame");
    assert_eq!(t.body[0].children.len(), 1);
    let label = &t.body[0].children[0];
    assert_eq!(label.widget, "Label");
    assert_eq!(arg(&label.args, "text"), Some("title"));
}

#[test]
fn reparse_of_identical_text_is_stable() {
    let src = "param a = \"1\"\nBox { x = 2, y = 3\n  Leaf { } }";
    let t1 = parse_template(src, "u").unwrap();
    let t2 = parse_template(src, "u").unwrap();
    assert_eq!(t1.name, t2.name);
    assert_eq!(t1.params.len(), t2.params.len());
    for (p, q) in t1.params.iter().zip(t2.params.iter()) {
        assert_eq!(p.name, q.name);
        assert_eq!(p.default, q.default);
    }
    assert_eq!(t1.body.len(), t2.body.len());
    assert_eq!(t1.body[0].widget, t2.body[0].widget);
    assert_eq!(t1.body[0].args, t2.body[0].args);
    assert_eq!(t1.body[0].children.len(), t2.body[0].children.len());
}

#[test]
fn empty_source_is_an_empty_template() {
    let t = parse_template("", "blank").unwrap();
    assert_eq!(t.name, "blank");
    assert!(t.params.is_empty());
    assert!(t.body.is_empty());
}

#[test]
fn quoted_literal_loses_quotes_and_script_block_is_kept_verbatim() {
    let src = "W { a = \"text value\", b = {{ state.count + 1 }} }";
    let t = parse_template(src, "u").unwrap();
    let w = &t.body[0];
    assert_eq!(arg(&w.args, "a"), Some("text value"));
    assert_eq!(arg(&w.args, "b"), Some("{{ state.count + 1 }}"));
}

#[test]
fn commas_and_newlines_separate_arguments() {
    let src = "W { a = 1, b = 2\n c = 3 }";
    let t = parse_template(src, "u").unwrap();
    let w = &t.body[0];
    assert_eq!(arg(&w.args, "a"), Some("1"));
    assert_eq!(arg(&w.args, "b"), Some("2"));
    assert_eq!(arg(&w.args, "c"), Some("3"));
}

#[test]
fn recognized_statements_are_parsed_and_kept_out_of_the_body() {
    let src = "if (x > 1) { Label { } }\nfor (i in xs) { Row { } }\nFrame { }";
    let stmts = WuiParser::parse_source(src).unwrap();
    assert_eq!(stmts.len(), 3);
    assert!(matches!(stmts[0], Statement::Other(_)));
    assert!(matches!(stmts[1], Statement::Other(_)));
    assert!(matches!(stmts[2], Statement::Widget(_)));
    let t = parse_template(src, "u").unwrap();
    assert_eq!(t.body.len(), 1);
    assert_eq!(t.body[0].widget, "Frame");
}

#[test]
fn nested_recognized_statement_is_syntax_checked_and_dropped() {
    let src = "Frame { if (cond) { Label { } } Button { } }";
    let t = parse_template(src, "u").unwrap();
    assert_eq!(t.body[0].children.len(), 1);
    assert_eq!(t.body[0].children[0].widget, "Button");
}

#[test]
fn bare_values_take_signs_and_dots() {
    let src = "W { x = -3.5, y = 0.25 }";
    let t = parse_template(src, "u").unwrap();
    let w = &t.body[0];
    assert_eq!(arg(&w.args, "x"), Some("-3.5"));
    assert_eq!(arg(&w.args, "y"), Some("0.25"));
}

#[test]
fn script_block_closes_at_the_first_double_brace() {
    let src = "W { f = {{ if x { y } else { z } }} }";
    let t = parse_template(src, "u").unwrap();
    let w = &t.body[0];
    assert_eq!(arg(&w.args, "f"), Some("{{ if x { y } else { z } }}"));
}

#[test]
fn all_reserved_statement_keywords_are_recognized() {
    let src = "if { }\nfor { }\non_change { }\neffect { }\nbreakpoints { }";
    let stmts = WuiParser::parse_source(src).unwrap();
    assert_eq!(stmts.len(), 5);
    for s in &stmts {
        assert!(matches!(s, Statement::Other(_)));
    }
    let t = parse_template(src, "u").unwrap();
    assert!(t.body.is_empty());
}

#[test]
fn error_expected_statement() {
    let e = parse_template("{ }", "u").unwrap_err();
    assert_eq!(e.kind, ParseErrorKind::ExpectedStatement);
    assert_eq!(e.offset, 0);
}

#[test]
fn error_expected_parameter_name() {
    let e = parse_template("param = 3", "u").unwrap_err();
    assert_eq!(e.kind, ParseErrorKind::ExpectedParameterName);
}

#[test]
fn error_expected_value() {
    let e = parse_template("A { k = }", "u").unwrap_err();
    assert_eq!(e.kind, ParseErrorKind::ExpectedValue);
}

#[test]
fn error_expected_block() {
    let e = parse_template("A", "u").unwrap_err();
    assert_eq!(e.kind, ParseErrorKind::ExpectedBlock);
}

#[test]
fn error_expected_item() {
    let e = parse_template("A { 1 }", "u").unwrap_err();
    assert_eq!(e.kind, ParseErrorKind::ExpectedItem);
}

#[test]
fn error_unclosed_block() {
    let e = parse_template("A {", "u").unwrap_err();
    assert_eq!(e.kind, ParseErrorKind::UnclosedBlock);
}

#[test]
fn error_unclosed_quote() {
    let e = parse_template("A { k = \"x }", "u").unwrap_err();
    assert_eq!(e.kind, ParseErrorKind::UnclosedQuote);
}

#[test]
fn error_unclosed_script() {
    let e = parse_template("A { k = {{ x }", "u").unwrap_err();
    assert_eq!(e.kind, ParseErrorKind::UnclosedScript);
}

#[test]
fn error_unclosed_header() {
    let e = parse_template("if (x { Label { } }", "u").unwrap_err();
    assert_eq!(e.kind, ParseErrorKind::UnclosedHeader);
}

#[test]
fn error_duplicate_argument() {
    let e = parse_template("A { k = 1, k = 2 }", "u").unwrap_err();
    assert_eq!(e.kind, ParseErrorKind::DuplicateArgument);
}

#[test]
fn error_duplicate_parameter() {
    let e = parse_template("param a\nparam a\nA { }", "u").unwrap_err();
    assert_eq!(e.kind, ParseErrorKind::DuplicateParameter);
}

#[test]
fn error_offset_points_at_the_fault() {
    let src = "Frame {\n  k = \n}";
    let e = parse_template(src, "u").unwrap_err();
    assert!(e.offset <= src.chars().count());
    assert!(!e.message().is_empty());
}
