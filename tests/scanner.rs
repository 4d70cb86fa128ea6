use luxor::number::Number;
use luxor::scanner::{scan, Scanner};
use luxor::token::{LiteralKind, Token, TokenType};

fn num(x: f64) -> Number {
    Number::parse(&format!("{}", x)).unwrap()
}

fn number(x: f64, line: u32) -> Token {
    Token::new(TokenType::Literal(LiteralKind::Number(num(x))), line)
}

fn ident(s: &str, line: u32) -> Token {
    Token::new(TokenType::Literal(LiteralKind::Identifier(s.to_string())), line)
}

#[test]
fn test_single_decimal() {
    let num = "123.45";
    let mut sc = Scanner::new(num);
    let tokens = sc.scan_tokens();
    let expected = vec![number(123.45, 1), Token::new(TokenType::EOF, 1)];
    assert_eq!(tokens, &expected);
}

#[test]
fn test_multiple_dots() {
    let num = "123.45..5.5 3.1 != 6";
    let mut sc = Scanner::new(num);
    let tokens = sc.scan_tokens();
    let expected = vec![
        number(123.45, 1),
        Token::new(TokenType::Dot, 1),
        Token::new(TokenType::Dot, 1),
        number(5.5, 1),
        number(3.1, 1),
        Token::new(TokenType::BangEqual, 1),
        number(6.0, 1),
        Token::new(TokenType::EOF, 1),
    ];
    assert_eq!(tokens, &expected);
}

#[test]
fn test_quoted_string() {
    let s = "\"howdy\npartner\"";
    let mut sc = Scanner::new(s);
    let tokens = sc.scan_tokens();
    let expected = vec![
        Token::new(TokenType::Literal(LiteralKind::Str("howdy\npartner".to_string())), 2),
        Token::new(TokenType::EOF, 2),
    ];
    assert_eq!(tokens, &expected);
}

#[test]
fn test_equal_tokens() {
    let s = "!= <= !! >= ==";
    let mut sc = Scanner::new(s);
    let tokens = sc.scan_tokens();
    let expected = vec![
        Token::new(TokenType::BangEqual, 1),
        Token::new(TokenType::LessEqual, 1),
        Token::new(TokenType::Bang, 1),
        Token::new(TokenType::Bang, 1),
        Token::new(TokenType::GreaterEqual, 1),
        Token::new(TokenType::EqualEqual, 1),
        Token::new(TokenType::EOF, 1),
    ];
    assert_eq!(tokens, &expected);
}

#[test]
fn test_double_slash_comment() {
    let s = "\"string here\" != 56 // Nothing followed";
    let mut sc = Scanner::new(s);
    let tokens = sc.scan_tokens();
    let expected = vec![
        Token::new(TokenType::Literal(LiteralKind::Str("string here".to_string())), 1),
        Token::new(TokenType::BangEqual, 1),
        number(56.0, 1),
        Token::new(TokenType::EOF, 1),
    ];
    assert_eq!(tokens, &expected);
}

#[test]
fn test_reserved_words() {
    let s = "if 3 and 5 or \"hello\" else nil";
    let mut sc = Scanner::new(s);
    let tokens = sc.scan_tokens();
    let expected = vec![
        Token::new(TokenType::If, 1),
        number(3.0, 1),
        Token::new(TokenType::And, 1),
        number(5.0, 1),
        Token::new(TokenType::Or, 1),
        Token::new(TokenType::Literal(LiteralKind::Str("hello".to_string())), 1),
        Token::new(TokenType::Else, 1),
        Token::new(TokenType::Nil, 1),
        Token::new(TokenType::EOF, 1),
    ];
    assert_eq!(tokens, &expected);
}

#[test]
fn test_statement() {
    let s = "var x = 3.5 + 1;";
    let mut sc = Scanner::new(s);
    let tokens = sc.scan_tokens();
    let expected = vec![
        Token::new(TokenType::Var, 1),
        ident("x", 1),
        Token::new(TokenType::Equal, 1),
        number(3.5, 1),
        Token::new(TokenType::Plus, 1),
        number(1.0, 1),
        Token::new(TokenType::Semicolon, 1),
        Token::new(TokenType::EOF, 1),
    ];
    assert_eq!(tokens, &expected);
}

#[test]
fn test_small_program() {
    let input = "var three = 3;
// this is a comment
var x = 8;

/* and a block
 * multi-line comment
 */
var add = fun(i, j) {
    return i + j;
}

var result = add(three /* inside a statement */, x);

if (3 < 8) {
    return true;
} else {
    return false;
};";
    let mut sc = Scanner::new(input);
    let tokens = sc.scan_tokens();
    let expected = vec![
        Token::new(TokenType::Var, 1),
        ident("three", 1),
        Token::new(TokenType::Equal, 1),
        number(3.0, 1),
        Token::new(TokenType::Semicolon, 1),
        Token::new(TokenType::Var, 3),
        ident("x", 3),
        Token::new(TokenType::Equal, 3),
        number(8.0, 3),
        Token::new(TokenType::Semicolon, 3),
        Token::new(TokenType::Var, 8),
        ident("add", 8),
        Token::new(TokenType::Equal, 8),
        Token::new(TokenType::Fun, 8),
        Token::new(TokenType::LeftParen, 8),
        ident("i", 8),
        Token::new(TokenType::Comma, 8),
        ident("j", 8),
        Token::new(TokenType::RightParen, 8),
        Token::new(TokenType::LeftBrace, 8),
        Token::new(TokenType::Return, 9),
        ident("i", 9),
        Token::new(TokenType::Plus, 9),
        ident("j", 9),
        Token::new(TokenType::Semicolon, 9),
        Token::new(TokenType::RightBrace, 10),
        Token::new(TokenType::Var, 12),
        ident("result", 12),
        Token::new(TokenType::Equal, 12),
        ident("add", 12),
        Token::new(TokenType::LeftParen, 12),
        ident("three", 12),
        Token::new(TokenType::Comma, 12),
        ident("x", 12),
        Token::new(TokenType::RightParen, 12),
        Token::new(TokenType::Semicolon, 12),
        Token::new(TokenType::If, 14),
        Token::new(TokenType::LeftParen, 14),
        number(3.0, 14),
        Token::new(TokenType::Less, 14),
        number(8.0, 14),
        Token::new(TokenType::RightParen, 14),
        Token::new(TokenType::LeftBrace, 14),
        Token::new(TokenType::Return, 15),
        Token::new(TokenType::True, 15),
        Token::new(TokenType::Semicolon, 15),
        Token::new(TokenType::RightBrace, 16),
        Token::new(TokenType::Else, 16),
        Token::new(TokenType::LeftBrace, 16),
        Token::new(TokenType::Return, 17),
        Token::new(TokenType::False, 17),
        Token::new(TokenType::Semicolon, 17),
        Token::new(TokenType::RightBrace, 18),
        Token::new(TokenType::Semicolon, 18),
        Token::new(TokenType::EOF, 18),
    ];
    assert_eq!(tokens, &expected);
}

#[test]
fn empty_input_gives_only_end_of_input() {
    assert_eq!(scan(""), vec![Token::new(TokenType::EOF, 1)]);
}

#[test]
fn every_scan_ends_with_exactly_one_end_of_input() {
    for src in ["", "1 + 2", "\"open", "/* open", "#@$", "a\n\nb", "// only a comment\n"] {
        let tokens = scan(src);
        let eofs = tokens.iter().filter(|t| t.kind == TokenType::EOF).count();
        assert_eq!(eofs, 1, "{:?}", src);
        assert_eq!(tokens.last().unwrap().kind, TokenType::EOF);
    }
}

#[test]
fn clean_input_has_no_error_tokens() {
    let tokens = scan("var a = (1 + 2.5) * \"s\" >= x_1; // c\n /* d */ !b");
    assert!(tokens.iter().all(|t| !t.is_error()));
}

#[test]
fn unrecognized_character_gives_error_and_scanning_goes_on() {
    let tokens = scan("1 # 2");
    assert_eq!(
        tokens,
        vec![
            number(1.0, 1),
            Token::new(TokenType::Error("Unrecognized token".to_string()), 1),
            number(2.0, 1),
            Token::new(TokenType::EOF, 1),
        ]
    );
    assert!(tokens[1].is_error());
}

#[test]
fn unterminated_string_gives_error() {
    let tokens = scan("x \"abc\ndef");
    assert_eq!(
        tokens,
        vec![
            ident("x", 1),
            Token::new(TokenType::Error("Unterminated string".to_string()), 2),
            Token::new(TokenType::EOF, 2),
        ]
    );
}

#[test]
fn string_line_carries_to_later_tokens() {
    let tokens = scan("\"howdy\npartner\" x\ny");
    assert_eq!(
        tokens,
        vec![
            Token::new(TokenType::Literal(LiteralKind::Str("howdy\npartner".to_string())), 2),
            ident("x", 2),
            ident("y", 3),
            Token::new(TokenType::EOF, 3),
        ]
    );
}

#[test]
fn unterminated_block_comment_runs_to_end() {
    let tokens = scan("1 /* never\nclosed *");
    assert_eq!(tokens, vec![number(1.0, 1), Token::new(TokenType::EOF, 2)]);
}

#[test]
fn dot_without_digit_is_left_for_the_next_token() {
    let tokens = scan("1..2 3.");
    assert_eq!(
        tokens,
        vec![
            number(1.0, 1),
            Token::new(TokenType::Dot, 1),
            Token::new(TokenType::Dot, 1),
            number(2.0, 1),
            number(3.0, 1),
            Token::new(TokenType::Dot, 1),
            Token::new(TokenType::EOF, 1),
        ]
    );
}

#[test]
fn numbers_keep_their_exact_value() {
    let tokens = scan("007.250 0.0 12345678901234567890");
    assert_eq!(tokens[0].render(), "7.25");
    assert_eq!(tokens[1].render(), "0");
    assert_eq!(tokens[2].render(), "12345678901234567890");
}

#[test]
fn all_reserved_words_and_identifiers() {
    let tokens = scan("and class else false for fun if nil or print return super this true var while _x andy");
    let kinds: Vec<TokenType> = tokens.into_iter().map(|t| t.kind).collect();
    assert_eq!(
        kinds,
        vec![
            TokenType::And,
            TokenType::Class,
            TokenType::Else,
            TokenType::False,
            TokenType::For,
            TokenType::Fun,
            TokenType::If,
            TokenType::Nil,
            TokenType::Or,
            TokenType::Print,
            TokenType::Return,
            TokenType::Super,
            TokenType::This,
            TokenType::True,
            TokenType::Var,
            TokenType::While,
            TokenType::Literal(LiteralKind::Identifier("_x".to_string())),
            TokenType::Literal(LiteralKind::Identifier("andy".to_string())),
            TokenType::EOF,
        ]
    );
}

#[test]
fn scanning_twice_returns_the_same_tokens() {
    let mut sc = Scanner::new("a + 1");
    let first: Vec<String> = sc.scan_tokens().iter().map(|t| t.render()).collect();
    let second: Vec<String> = sc.scan_tokens().iter().map(|t| t.render()).collect();
    assert_eq!(first, vec!["a", "+", "1", ""]);
    assert_eq!(first, second);
}

#[test]
fn punctuation_renders_as_spelled() {
    let tokens = scan("(){},.-+;/ *");
    let texts: Vec<String> = tokens.iter().map(|t| t.render()).collect();
    assert_eq!(texts, vec!["(", ")", "{", "}", ",", ".", "-", "+", ";", "/", "*", ""]);
}
