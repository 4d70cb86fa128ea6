//! Tokens: the classified lexemes that the scanner produces.
use vstd::prelude::*;
use crate::number::Number;
use crate::text::string_from;

verus! {

/// Punctuation, operators and reserved words: the tokens without a payload.
pub enum Sym {
    LeftParen, RightParen, LeftBrace, RightBrace,
    Comma, Dot, Minus, Plus, Semicolon, Slash, Star,
    Bang, BangEqual,
    Equal, EqualEqual,
    Greater, GreaterEqual,
    Less, LessEqual,
    And, Class, Else, False, Fun, For, If, Nil, Or,
    Print, Return, Super, This, True, Var, While,
}

pub open spec fn spelling(s: Sym) -> Seq<char> {
    match s {
        Sym::LeftParen => seq!['('],
        Sym::RightParen => seq![')'],
        Sym::LeftBrace => seq!['{'],
        Sym::RightBrace => seq!['}'],
        Sym::Comma => seq![','],
        Sym::Dot => seq!['.'],
        Sym::Minus => seq!['-'],
        Sym::Plus => seq!['+'],
        Sym::Semicolon => seq![';'],
        Sym::Slash => seq!['/'],
        Sym::Star => seq!['*'],
        Sym::Bang => seq!['!'],
        Sym::BangEqual => seq!['!', '='],
        Sym::Equal => seq!['='],
        Sym::EqualEqual => seq!['=', '='],
        Sym::Greater => seq!['>'],
        Sym::GreaterEqual => seq!['>', '='],
        Sym::Less => seq!['<'],
        Sym::LessEqual => seq!['<', '='],
        Sym::And => seq!['a', 'n', 'd'],
        Sym::Class => seq!['c', 'l', 'a', 's', 's'],
        Sym::Else => seq!['e', 'l', 's', 'e'],
        Sym::False => seq!['f', 'a', 'l', 's', 'e'],
        Sym::For => seq!['f', 'o', 'r'],
        Sym::Fun => seq!['f', 'u', 'n'],
        Sym::If => seq!['i', 'f'],
        Sym::Nil => seq!['n', 'i', 'l'],
        Sym::Or => seq!['o', 'r'],
        Sym::Print => seq!['p', 'r', 'i', 'n', 't'],
        Sym::Return => seq!['r', 'e', 't', 'u', 'r', 'n'],
        Sym::Super => seq!['s', 'u', 'p', 'e', 'r'],
        Sym::This => seq!['t', 'h', 'i', 's'],
        Sym::True => seq!['t', 'r', 'u', 'e'],
        Sym::Var => seq!['v', 'a', 'r'],
        Sym::While => seq!['w', 'h', 'i', 'l', 'e'],
    }
}

/// What a token is, as a mathematical value.
pub enum Lexeme {
    /// Punctuation, an operator or a reserved word.
    Fixed(Sym),
    /// A string literal: the characters between the quotes.
    Str(Seq<char>),
    /// A number literal: the decimal text of its value.
    Number(Seq<char>),
    Identifier(Seq<char>),
    Eof,
    /// A lexical error with its message.
    Error(Seq<char>),
}

pub struct TokenView {
    pub kind: Lexeme,
    pub line: nat,
}

/// The reserved word spelled `w`, if any.
pub open spec fn keyword(w: Seq<char>) -> Option<Sym> {
    if w == spelling(Sym::And) {
        Some(Sym::And)
    } else if w == spelling(Sym::Class) {
        Some(Sym::Class)
    } else if w == spelling(Sym::Else) {
        Some(Sym::Else)
    } else if w == spelling(Sym::False) {
        Some(Sym::False)
    } else if w == spelling(Sym::For) {
        Some(Sym::For)
    } else if w == spelling(Sym::Fun) {
        Some(Sym::Fun)
    } else if w == spelling(Sym::If) {
        Some(Sym::If)
    } else if w == spelling(Sym::Nil) {
        Some(Sym::Nil)
    } else if w == spelling(Sym::Or) {
        Some(Sym::Or)
    } else if w == spelling(Sym::Print) {
        Some(Sym::Print)
    } else if w == spelling(Sym::Return) {
        Some(Sym::Return)
    } else if w == spelling(Sym::Super) {
        Some(Sym::Super)
    } else if w == spelling(Sym::This) {
        Some(Sym::This)
    } else if w == spelling(Sym::True) {
        Some(Sym::True)
    } else if w == spelling(Sym::Var) {
        Some(Sym::Var)
    } else if w == spelling(Sym::While) {
        Some(Sym::While)
    } else {
        None
    }
}

/// What a scanned word is: a reserved word or an identifier.
pub open spec fn word_kind(w: Seq<char>) -> Lexeme {
    match keyword(w) {
        Some(k) => Lexeme::Fixed(k),
        None => Lexeme::Identifier(w),
    }
}

/// The text of a token: its spelling, or what a literal or an error carries.
pub open spec fn lexeme_text(k: Lexeme) -> Seq<char> {
    match k {
        Lexeme::Fixed(s) => spelling(s),
        Lexeme::Str(s) => s,
        Lexeme::Number(s) => s,
        Lexeme::Identifier(s) => s,
        Lexeme::Eof => Seq::empty(),
        Lexeme::Error(s) => s,
    }
}

#[derive(Debug, PartialEq)]
pub enum TokenType {
    // Single-character punctuation
    LeftParen, RightParen, LeftBrace, RightBrace,
    Comma, Dot, Minus, Plus, Semicolon, Slash, Star,

    // One- or two-character operators
    Bang, BangEqual,
    Equal, EqualEqual,
    Greater, GreaterEqual,
    Less, LessEqual,

    Literal(LiteralKind),

    // Reserved words
    And, Class, Else, False, Fun, For, If, Nil, Or,
    Print, Return, Super, This, True, Var, While,

    EOF,

    /// A lexical error, with its message.
    Error(String),
}

#[derive(Debug, PartialEq)]
pub enum LiteralKind {
    Str(String),
    Number(Number),
    Identifier(String),
}

#[derive(Debug, PartialEq)]
pub struct Token {
    pub kind: TokenType,
    /// The 1-based line on which the token ends.
    pub line: u32,
}

impl View for TokenType {
    type V = Lexeme;

    open spec fn view(&self) -> Lexeme {
        match self {
            TokenType::LeftParen => Lexeme::Fixed(Sym::LeftParen),
            TokenType::RightParen => Lexeme::Fixed(Sym::RightParen),
            TokenType::LeftBrace => Lexeme::Fixed(Sym::LeftBrace),
            TokenType::RightBrace => Lexeme::Fixed(Sym::RightBrace),
            TokenType::Comma => Lexeme::Fixed(Sym::Comma),
            TokenType::Dot => Lexeme::Fixed(Sym::Dot),
            TokenType::Minus => Lexeme::Fixed(Sym::Minus),
            TokenType::Plus => Lexeme::Fixed(Sym::Plus),
            TokenType::Semicolon => Lexeme::Fixed(Sym::Semicolon),
            TokenType::Slash => Lexeme::Fixed(Sym::Slash),
            TokenType::Star => Lexeme::Fixed(Sym::Star),
            TokenType::Bang => Lexeme::Fixed(Sym::Bang),
            TokenType::BangEqual => Lexeme::Fixed(Sym::BangEqual),
            TokenType::Equal => Lexeme::Fixed(Sym::Equal),
            TokenType::EqualEqual => Lexeme::Fixed(Sym::EqualEqual),
            TokenType::Greater => Lexeme::Fixed(Sym::Greater),
            TokenType::GreaterEqual => Lexeme::Fixed(Sym::GreaterEqual),
            TokenType::Less => Lexeme::Fixed(Sym::Less),
            TokenType::LessEqual => Lexeme::Fixed(Sym::LessEqual),
            TokenType::And => Lexeme::Fixed(Sym::And),
            TokenType::Class => Lexeme::Fixed(Sym::Class),
            TokenType::Else => Lexeme::Fixed(Sym::Else),
            TokenType::False => Lexeme::Fixed(Sym::False),
            TokenType::For => Lexeme::Fixed(Sym::For),
            TokenType::Fun => Lexeme::Fixed(Sym::Fun),
            TokenType::If => Lexeme::Fixed(Sym::If),
            TokenType::Nil => Lexeme::Fixed(Sym::Nil),
            TokenType::Or => Lexeme::Fixed(Sym::Or),
            TokenType::Print => Lexeme::Fixed(Sym::Print),
            TokenType::Return => Lexeme::Fixed(Sym::Return),
            TokenType::Super => Lexeme::Fixed(Sym::Super),
            TokenType::This => Lexeme::Fixed(Sym::This),
            TokenType::True => Lexeme::Fixed(Sym::True),
            TokenType::Var => Lexeme::Fixed(Sym::Var),
            TokenType::While => Lexeme::Fixed(Sym::While),
            TokenType::Literal(LiteralKind::Str(s)) => Lexeme::Str(s@),
            TokenType::Literal(LiteralKind::Number(n)) => Lexeme::Number(n@),
            TokenType::Literal(LiteralKind::Identifier(s)) => Lexeme::Identifier(s@),
            TokenType::EOF => Lexeme::Eof,
            TokenType::Error(s) => Lexeme::Error(s@),
        }
    }
}

impl View for Token {
    type V = TokenView;

    open spec fn view(&self) -> TokenView {
        TokenView { kind: self.kind@, line: self.line as nat }
    }
}

impl TokenType {
    pub fn is_eof(&self) -> (r: bool)
        ensures
            r == (self@ is Eof),
    {
        match self {
            TokenType::EOF => true,
            _ => false,
        }
    }

    /// A copy of this kind.
    pub fn duplicate(&self) -> (r: TokenType)
        ensures
            r@ == self@,
    {
        match self {
            TokenType::LeftParen => TokenType::LeftParen,
            TokenType::RightParen => TokenType::RightParen,
            TokenType::LeftBrace => TokenType::LeftBrace,
            TokenType::RightBrace => TokenType::RightBrace,
            TokenType::Comma => TokenType::Comma,
            TokenType::Dot => TokenType::Dot,
            TokenType::Minus => TokenType::Minus,
            TokenType::Plus => TokenType::Plus,
            TokenType::Semicolon => TokenType::Semicolon,
            TokenType::Slash => TokenType::Slash,
            TokenType::Star => TokenType::Star,
            TokenType::Bang => TokenType::Bang,
            TokenType::BangEqual => TokenType::BangEqual,
            TokenType::Equal => TokenType::Equal,
            TokenType::EqualEqual => TokenType::EqualEqual,
            TokenType::Greater => TokenType::Greater,
            TokenType::GreaterEqual => TokenType::GreaterEqual,
            TokenType::Less => TokenType::Less,
            TokenType::LessEqual => TokenType::LessEqual,
            TokenType::And => TokenType::And,
            TokenType::Class => TokenType::Class,
            TokenType::Else => TokenType::Else,
            TokenType::False => TokenType::False,
            TokenType::For => TokenType::For,
            TokenType::Fun => TokenType::Fun,
            TokenType::If => TokenType::If,
            TokenType::Nil => TokenType::Nil,
            TokenType::Or => TokenType::Or,
            TokenType::Print => TokenType::Print,
            TokenType::Return => TokenType::Return,
            TokenType::Super => TokenType::Super,
            TokenType::This => TokenType::This,
            TokenType::True => TokenType::True,
            TokenType::Var => TokenType::Var,
            TokenType::While => TokenType::While,
            TokenType::Literal(LiteralKind::Str(s)) => TokenType::Literal(LiteralKind::Str(s.clone())),
            TokenType::Literal(LiteralKind::Number(n)) => TokenType::Literal(LiteralKind::Number(n.duplicate())),
            TokenType::Literal(LiteralKind::Identifier(s)) => TokenType::Literal(LiteralKind::Identifier(s.clone())),
            TokenType::EOF => TokenType::EOF,
            TokenType::Error(s) => TokenType::Error(s.clone()),
        }
    }

    /// The text of this kind: its spelling, or what a literal or an error carries.
    pub fn render(&self) -> (r: String)
        ensures
            r@ == lexeme_text(self@),
    {
        match self {
            TokenType::LeftParen => string_from(&['(']),
            TokenType::RightParen => string_from(&[')']),
            TokenType::LeftBrace => string_from(&['{']),
            TokenType::RightBrace => string_from(&['}']),
            TokenType::Comma => string_from(&[',']),
            TokenType::Dot => string_from(&['.']),
            TokenType::Minus => string_from(&['-']),
            TokenType::Plus => string_from(&['+']),
            TokenType::Semicolon => string_from(&[';']),
            TokenType::Slash => string_from(&['/']),
            TokenType::Star => string_from(&['*']),
            TokenType::Bang => string_from(&['!']),
            TokenType::BangEqual => string_from(&['!', '=']),
            TokenType::Equal => string_from(&['=']),
            TokenType::EqualEqual => string_from(&['=', '=']),
            TokenType::Greater => string_from(&['>']),
            TokenType::GreaterEqual => string_from(&['>', '=']),
            TokenType::Less => string_from(&['<']),
            TokenType::LessEqual => string_from(&['<', '=']),
            TokenType::And => string_from(&['a', 'n', 'd']),
            TokenType::Class => string_from(&['c', 'l', 'a', 's', 's']),
            TokenType::Else => string_from(&['e', 'l', 's', 'e']),
            TokenType::False => string_from(&['f', 'a', 'l', 's', 'e']),
            TokenType::For => string_from(&['f', 'o', 'r']),
            TokenType::Fun => string_from(&['f', 'u', 'n']),
            TokenType::If => string_from(&['i', 'f']),
            TokenType::Nil => string_from(&['n', 'i', 'l']),
            TokenType::Or => string_from(&['o', 'r']),
            TokenType::Print => string_from(&['p', 'r', 'i', 'n', 't']),
            TokenType::Return => string_from(&['r', 'e', 't', 'u', 'r', 'n']),
            TokenType::Super => string_from(&['s', 'u', 'p', 'e', 'r']),
            TokenType::This => string_from(&['t', 'h', 'i', 's']),
            TokenType::True => string_from(&['t', 'r', 'u', 'e']),
            TokenType::Var => string_from(&['v', 'a', 'r']),
            TokenType::While => string_from(&['w', 'h', 'i', 'l', 'e']),
            TokenType::Literal(LiteralKind::Str(s)) => s.clone(),
            TokenType::Literal(LiteralKind::Number(n)) => n.render(),
            TokenType::Literal(LiteralKind::Identifier(s)) => s.clone(),
            TokenType::EOF => String::new(),
            TokenType::Error(s) => s.clone(),
        }
    }
}

impl Token {
    pub fn new(kind: TokenType, line: u32) -> (r: Token)
        ensures
            r.kind == kind,
            r.line == line,
    {
        Token { kind, line }
    }

    pub fn is_error(&self) -> (r: bool)
        ensures
            r == (self.kind is Error),
    {
        match self.kind {
            TokenType::Error(_) => true,
            _ => false,
        }
    }

    /// A copy of this token.
    pub fn duplicate(&self) -> (r: Token)
        ensures
            r@ == self@,
    {
        Token { kind: self.kind.duplicate(), line: self.line }
    }

    /// The text of the token: its spelling, or what a literal or an error carries.
    pub fn render(&self) -> (r: String)
        ensures
            r@ == lexeme_text(self@.kind),
    {
        self.kind.render()
    }
}

} // verus!
