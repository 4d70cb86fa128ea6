use luxor::ast::Expr;
use luxor::parser::{parse, ErrorKind, Parser};
use luxor::scanner::scan;
use luxor::token::{Token, TokenType};

fn render(src: &str) -> String {
    parse(scan(src)).unwrap().render()
}

fn failure(src: &str) -> (TokenType, u32, ErrorKind) {
    let err = parse(scan(src)).unwrap_err();
    (err.token.kind, err.token.line, err.kind)
}

#[test]
fn unary_and_factor() {
    assert_eq!(render("-123 * 45.67"), "(* (- 123) 45.67)");
}

#[test]
fn grouping_binds_tighter() {
    assert_eq!(render("(1 + 2) * 3"), "(* (group (+ 1 2)) 3)");
}

#[test]
fn precedence_and_left_association() {
    assert_eq!(render("1 + 2 * 3"), "(+ 1 (* 2 3))");
    assert_eq!(render("1 - 2 - 3"), "(- (- 1 2) 3)");
    assert_eq!(render("8 / 4 / 2"), "(/ (/ 8 4) 2)");
    assert_eq!(render("1 < 2 == true"), "(== (< 1 2) true)");
    assert_eq!(render("a != b >= c <= d > e"), "(!= a (> (<= (>= b c) d) e))");
}

#[test]
fn chained_prefix_operators() {
    assert_eq!(render("!!true"), "(! (! true))");
    assert_eq!(render("--x"), "(- (- x))");
}

#[test]
fn literals_as_leaves() {
    assert_eq!(render("nil"), "nil");
    assert_eq!(render("false"), "false");
    assert_eq!(render("\"a b\""), "a b");
    assert_eq!(render("((x))"), "(group (group x))");
}

#[test]
fn missing_operand_is_a_syntax_error() {
    assert_eq!(failure("1 + )"), (TokenType::RightParen, 1, ErrorKind::ExpectExpression));
}

#[test]
fn syntax_error_names_the_line() {
    assert_eq!(failure("1 +\n\n)"), (TokenType::RightParen, 3, ErrorKind::ExpectExpression));
}

#[test]
fn unclosed_group_is_a_syntax_error() {
    assert_eq!(failure("(1 + 2"), (TokenType::EOF, 1, ErrorKind::ExpectRightParen));
}

#[test]
fn trailing_tokens_are_a_syntax_error() {
    assert_eq!(failure("1 2"), (TokenType::Literal(luxor::token::LiteralKind::Number(luxor::number::Number::parse("2").unwrap())), 1, ErrorKind::ExpectEnd));
}

#[test]
fn empty_input_is_a_syntax_error() {
    assert_eq!(failure(""), (TokenType::EOF, 1, ErrorKind::ExpectExpression));
}

#[test]
fn reserved_words_are_no_operands() {
    assert_eq!(failure("var"), (TokenType::Var, 1, ErrorKind::ExpectExpression));
}

#[test]
fn error_messages() {
    assert_eq!(ErrorKind::ExpectExpression.message(), "Expect expression.");
    assert_eq!(ErrorKind::ExpectRightParen.message(), "Expect ')' after expression.");
    assert_eq!(ErrorKind::ExpectEnd.message(), "Expect end of expression.");
}

#[test]
fn parser_over_given_tokens() {
    let tokens = vec![
        Token::new(TokenType::Minus, 1),
        Token::new(TokenType::True, 1),
        Token::new(TokenType::EOF, 1),
    ];
    let mut parser = Parser::new(tokens);
    let e = parser.parse().unwrap();
    assert!(matches!(e, Expr::Unary { .. }));
    assert_eq!(e.render(), "(- true)");
}

#[test]
fn rendering_of_literal_reads_back() {
    for src in ["123.450", "x_1", "true", "false", "nil", "0.5", "\"abc\""] {
        let once = render(src);
        let twice = render(&once);
        assert_eq!(once, twice, "{:?}", src);
    }
}

#[test]
fn rendering_of_operator_does_not_read_back() {
    let once = render("-1");
    assert_eq!(once, "(- 1)");
    assert_eq!(render(&once), "(group (- 1))");
}
