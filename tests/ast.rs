use luxor::ast::Expr;
use luxor::number::Number;
use luxor::token::{LiteralKind, Token, TokenType};

#[test]
fn test_pretty_print() {
    let x = Expr::Binary {
        left: Box::new(Expr::Unary {
            operator: Token::new(TokenType::Minus, 1),
            right: Box::new(Expr::Lit(Token::new(
                TokenType::Literal(LiteralKind::Number(Number::parse(&format!("{}", 123.0)).unwrap())),
                1,
            ))),
        }),
        operator: Token::new(TokenType::Star, 1),
        right: Box::new(Expr::Grouping {
            expression: Box::new(Expr::Lit(Token::new(
                TokenType::Literal(LiteralKind::Number(Number::parse(&format!("{}", 45.67)).unwrap())),
                1,
            ))),
        }),
    };

    assert_eq!(x.render(), "(* (- 123) (group 45.67))");
}

#[test]
fn render_into_appends() {
    let x = Expr::Lit(Token::new(TokenType::Literal(LiteralKind::Identifier("y".to_string())), 1));
    let mut out = String::from("x = ");
    x.render_into(&mut out);
    assert_eq!(out, "x = y");
}

#[test]
fn token_copies_and_errors() {
    let t = Token::new(TokenType::Literal(LiteralKind::Str("s".to_string())), 4);
    assert_eq!(t.duplicate(), t);
    assert!(!t.is_error());
    let e = Token::new(TokenType::Error("bad".to_string()), 2);
    assert!(e.is_error());
    assert_eq!(e.render(), "bad");
    assert!(TokenType::EOF.is_eof());
    assert!(!TokenType::Dot.is_eof());
}
