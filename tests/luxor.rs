use luxor::luxor::Luxor;
use luxor::parser::parse;
use luxor::scanner::scan;

#[test]
fn error_reports_line_and_message() {
    let mut l = Luxor::new();
    assert!(!l.had_error());
    assert_eq!(l.error(3, "Unterminated string"), "[line 3] Error: Unterminated string");
    assert!(l.had_error());
}

#[test]
fn error_line_is_written_in_decimal() {
    let mut l = Luxor::new();
    assert_eq!(l.error(1204, "x"), "[line 1204] Error: x");
    assert_eq!(l.error(0, "y"), "[line 0] Error: y");
    assert_eq!(l.error(u32::MAX, "z"), "[line 4294967295] Error: z");
}

#[test]
fn syntax_error_names_the_token() {
    let mut l = Luxor::new();
    let err = parse(scan("1 + )")).unwrap_err();
    assert_eq!(l.syntax_error(&err), "[line 1] Error at ')': Expect expression.");
    assert!(l.had_error());
}

#[test]
fn syntax_error_at_end() {
    let mut l = Luxor::new();
    let err = parse(scan("(1\n")).unwrap_err();
    assert_eq!(l.syntax_error(&err), "[line 2] Error at end: Expect ')' after expression.");
}

#[test]
fn run_gives_the_tree_of_clean_text() {
    let mut l = Luxor::new();
    let outcome = l.run("(1 + 2) * 3");
    assert!(outcome.diagnostics.is_empty());
    assert_eq!(outcome.tree.unwrap().render(), "(* (group (+ 1 2)) 3)");
    assert!(!l.had_error());
}

#[test]
fn run_reports_every_lexical_error_and_does_not_parse() {
    let mut l = Luxor::new();
    let outcome = l.run("1 # 2\n\"open");
    assert_eq!(
        outcome.diagnostics,
        vec![
            "[line 1] Error: Unrecognized token".to_string(),
            "[line 2] Error: Unterminated string".to_string(),
        ]
    );
    assert!(outcome.tree.is_none());
    assert!(l.had_error());
}

#[test]
fn run_reports_one_syntax_error() {
    let mut l = Luxor::new();
    let outcome = l.run("1 + )");
    assert_eq!(outcome.diagnostics, vec!["[line 1] Error at ')': Expect expression.".to_string()]);
    assert!(outcome.tree.is_none());
    assert!(l.had_error());
}
