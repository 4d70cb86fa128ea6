//! The recursive-descent parser for expressions.
//!
//! ```text
//! expression -> equality
//! equality   -> comparison ( ( "!=" | "==" ) comparison )*
//! comparison -> term ( ( ">" | ">=" | "<" | "<=" ) term )*
//! term       -> factor ( ( "-" | "+" ) factor )*
//! factor     -> unary ( ( "/" | "*" ) unary )*
//! unary      -> ( "!" | "-" ) unary | primary
//! primary    -> NUMBER | STRING | IDENTIFIER | "true" | "false" | "nil" | "(" expression ")"
//! ```
//!
//! The whole token sequence must be one expression: tokens left after it are an error.
//! Each rule is a method, so the depth of recursion grows with the nesting of
//! parentheses and prefix operators in the input.
use vstd::prelude::*;
use crate::ast::{Expr, ExprView};
use crate::scanner::token_views;
use crate::token::{Lexeme, Sym, Token, TokenType, TokenView};

verus! {

/// Why a parse failed.
#[derive(Debug, PartialEq, Eq, Clone, Copy)]
pub enum ErrorKind {
    /// The token cannot start an operand.
    ExpectExpression,
    /// A parenthesized expression is not closed.
    ExpectRightParen,
    /// Tokens are left after a complete expression.
    ExpectEnd,
}

/// A failed parse: the offending token's position and the reason.
pub struct Failure {
    pub at: int,
    pub kind: ErrorKind,
}

pub type Parsed = Result<(ExprView, int), Failure>;

/// A token sequence that the parser accepts: closed by an end-of-input token.
pub open spec fn well_formed(toks: Seq<TokenView>) -> bool {
    toks.len() > 0 && toks.last().kind is Eof
}

pub open spec fn kind_at(toks: Seq<TokenView>, pos: int) -> Lexeme {
    if 0 <= pos < toks.len() {
        toks[pos].kind
    } else {
        Lexeme::Eof
    }
}

pub open spec fn is_fixed(k: Lexeme, s: Sym) -> bool {
    k == Lexeme::Fixed(s)
}

/// The operators of the binary levels: 0 equality, 1 comparison, 2 term, 3 factor.
pub open spec fn binary_op(level: int, k: Lexeme) -> bool {
    match k {
        Lexeme::Fixed(s) => match s {
            Sym::BangEqual | Sym::EqualEqual => level == 0,
            Sym::Greater | Sym::GreaterEqual | Sym::Less | Sym::LessEqual => level == 1,
            Sym::Minus | Sym::Plus => level == 2,
            Sym::Slash | Sym::Star => level == 3,
            _ => false,
        },
        _ => false,
    }
}

pub open spec fn unary_op(k: Lexeme) -> bool {
    is_fixed(k, Sym::Bang) || is_fixed(k, Sym::Minus)
}

/// Tokens that stand alone as an operand.
pub open spec fn literal(k: Lexeme) -> bool {
    ||| k is Number
    ||| k is Str
    ||| k is Identifier
    ||| is_fixed(k, Sym::True)
    ||| is_fixed(k, Sym::False)
    ||| is_fixed(k, Sym::Nil)
}

/// Parses one operand of precedence `level` at `pos`: levels 0 to 3 are the binary
/// levels, 4 is `unary` and 5 (or more) is `primary`. The result is the tree and the
/// position after it.
pub open spec fn parse_level(toks: Seq<TokenView>, pos: int, level: int) -> Parsed
    decreases toks.len() - pos, 6 - level,
{
    if level >= 5 {
        let k = kind_at(toks, pos);
        if literal(k) {
            Ok((ExprView::Lit(toks[pos]), pos + 1))
        } else if is_fixed(k, Sym::LeftParen) {
            if pos < toks.len() {
                match parse_level(toks, pos + 1, 0) {
                    Ok((e, p)) => if is_fixed(kind_at(toks, p), Sym::RightParen) {
                        Ok((ExprView::Grouping(Box::new(e)), p + 1))
                    } else {
                        Err(Failure { at: p, kind: ErrorKind::ExpectRightParen })
                    },
                    Err(f) => Err(f),
                }
            } else {
                Err(Failure { at: pos, kind: ErrorKind::ExpectExpression })
            }
        } else {
            Err(Failure { at: pos, kind: ErrorKind::ExpectExpression })
        }
    } else if level == 4 {
        if unary_op(kind_at(toks, pos)) && pos < toks.len() {
            match parse_level(toks, pos + 1, 4) {
                Ok((e, p)) => Ok((ExprView::Unary(toks[pos], Box::new(e)), p)),
                Err(f) => Err(f),
            }
        } else {
            parse_level(toks, pos, 5)
        }
    } else if level < 0 {
        parse_level(toks, pos, 0)
    } else {
        match parse_level(toks, pos, level + 1) {
            // An operand always takes at least one token (`lemma_parse_advances`).
            Ok((left, p)) => if pos < p <= toks.len() {
                parse_rest(toks, left, p, level)
            } else {
                Err(Failure { at: p, kind: ErrorKind::ExpectExpression })
            },
            Err(f) => Err(f),
        }
    }
}

/// Folds the operators of the binary `level` found from `pos` on into `left`, each with
/// the operand of the next level that follows it.
pub open spec fn parse_rest(toks: Seq<TokenView>, left: ExprView, pos: int, level: int) -> Parsed
    decreases toks.len() - pos, 0int,
{
    if binary_op(level, kind_at(toks, pos)) && 0 <= pos < toks.len() {
        match parse_level(toks, pos + 1, level + 1) {
            Ok((right, p)) => if pos < p <= toks.len() {
                parse_rest(toks, ExprView::Binary(Box::new(left), toks[pos], Box::new(right)), p, level)
            } else {
                Err(Failure { at: p, kind: ErrorKind::ExpectExpression })
            },
            Err(f) => Err(f),
        }
    } else {
        Ok((left, pos))
    }
}

/// The tree of the tokens from `pos` on: one expression, then the end of input.
pub open spec fn parse_from(toks: Seq<TokenView>, pos: int) -> Result<ExprView, Failure> {
    match parse_level(toks, pos, 0) {
        Ok((e, p)) => if kind_at(toks, p) is Eof {
            Ok(e)
        } else {
            Err(Failure { at: p, kind: ErrorKind::ExpectEnd })
        },
        Err(f) => Err(f),
    }
}

/// The tree of a whole token sequence.
pub open spec fn parse_tokens(toks: Seq<TokenView>) -> Result<ExprView, Failure> {
    parse_from(toks, 0)
}

/// A successful operand takes at least one token and stops before the end of input is
/// passed; a failure names a token of the sequence.
pub proof fn lemma_parse_advances(toks: Seq<TokenView>, pos: int, level: int)
    requires
        well_formed(toks),
        0 <= pos < toks.len(),
    ensures
        parse_level(toks, pos, level) matches Ok((e, p)) ==> pos < p < toks.len(),
        parse_level(toks, pos, level) matches Err(f) ==> pos <= f.at < toks.len(),
    decreases toks.len() - pos, 6 - level,
{
    if level >= 5 {
        let k = kind_at(toks, pos);
        if is_fixed(k, Sym::LeftParen) {
            lemma_parse_advances(toks, pos + 1, 0);
        }
    } else if level == 4 {
        if unary_op(kind_at(toks, pos)) {
            lemma_parse_advances(toks, pos + 1, 4);
        } else {
            lemma_parse_advances(toks, pos, 5);
        }
    } else if level < 0 {
        lemma_parse_advances(toks, pos, 0);
    } else {
        lemma_parse_advances(toks, pos, level + 1);
        if let Ok((left, p)) = parse_level(toks, pos, level + 1) {
            lemma_parse_rest_advances(toks, left, p, level);
        }
    }
}

/// The fold of a binary level stops before the end of input is passed; a failure names a
/// token of the sequence.
pub proof fn lemma_parse_rest_advances(toks: Seq<TokenView>, left: ExprView, pos: int, level: int)
    requires
        well_formed(toks),
        0 <= pos < toks.len(),
    ensures
        parse_rest(toks, left, pos, level) matches Ok((e, p)) ==> pos <= p < toks.len(),
        parse_rest(toks, left, pos, level) matches Err(f) ==> pos <= f.at < toks.len(),
    decreases toks.len() - pos, 0int,
{
    if binary_op(level, kind_at(toks, pos)) {
        lemma_parse_advances(toks, pos + 1, level + 1);
        if let Ok((right, p)) = parse_level(toks, pos + 1, level + 1) {
            lemma_parse_rest_advances(
                toks,
                ExprView::Binary(Box::new(left), toks[pos], Box::new(right)),
                p,
                level,
            );
        }
    }
}

pub open spec fn message_of(k: ErrorKind) -> Seq<char> {
    match k {
        ErrorKind::ExpectExpression => "Expect expression."@,
        ErrorKind::ExpectRightParen => "Expect ')' after expression."@,
        ErrorKind::ExpectEnd => "Expect end of expression."@,
    }
}

impl ErrorKind {
    /// The message that reports this error.
    pub fn message(&self) -> (r: String)
        ensures
            r@ == message_of(*self),
    {
        match self {
            ErrorKind::ExpectExpression => String::from_str("Expect expression."),
            ErrorKind::ExpectRightParen => String::from_str("Expect ')' after expression."),
            ErrorKind::ExpectEnd => String::from_str("Expect end of expression."),
        }
    }
}

/// A syntax error: the offending token and the reason.
#[derive(Debug)]
pub struct SyntaxError {
    pub token: Token,
    pub kind: ErrorKind,
}

impl SyntaxError {
    pub open spec fn matches(&self, toks: Seq<TokenView>, f: Failure) -> bool {
        0 <= f.at < toks.len() && self.token@ == toks[f.at] && self.kind == f.kind
    }
}

/// `r` is the executable form of the spec result `p`.
pub open spec fn outcome(r: Result<Expr, SyntaxError>, toks: Seq<TokenView>, p: Result<ExprView, Failure>) -> bool {
    match p {
        Ok(e) => r matches Ok(x) && x@ == e,
        Err(f) => r matches Err(err) && err.matches(toks, f),
    }
}

/// `r` is the executable form of the spec result `p`, and the parser stopped at `end`.
pub open spec fn agrees(r: Result<Box<Expr>, SyntaxError>, toks: Seq<TokenView>, p: Parsed, end: int) -> bool {
    match p {
        Ok((e, q)) => r matches Ok(x) && (*x)@ == e && end == q,
        Err(f) => r matches Err(err) && err.matches(toks, f),
    }
}

pub struct Parser {
    tokens: Vec<Token>,
    current: usize,
}

impl Parser {
    pub closed spec fn tokens(&self) -> Seq<TokenView> {
        token_views(self.tokens@)
    }

    /// The position of the next token to be read.
    pub closed spec fn position(&self) -> int {
        self.current as int
    }

    pub closed spec fn wf(&self) -> bool {
        &&& well_formed(self.tokens())
        &&& self.tokens().len() == self.tokens@.len()
        &&& self.current < self.tokens@.len()
    }

    pub fn new(tokens: Vec<Token>) -> (r: Parser)
        requires
            well_formed(token_views(tokens@)),
        ensures
            r.wf(),
            r.tokens() == token_views(tokens@),
            r.position() == 0,
    {
        Parser { tokens, current: 0 }
    }

    /// Parses one expression from the cursor on, which must take the tokens up to the
    /// end of input.
    pub fn parse(&mut self) -> (r: Result<Expr, SyntaxError>)
        requires
            old(self).wf(),
        ensures
            final(self).wf(),
            final(self).tokens() == old(self).tokens(),
            outcome(r, old(self).tokens(), parse_from(old(self).tokens(), old(self).position())),
    {
        let e = match self.expression() {
            Ok(e) => e,
            Err(err) => return Err(err),
        };
        if self.at_end() {
            Ok(*e)
        } else {
            Err(self.error(ErrorKind::ExpectEnd))
        }
    }

    fn peek(&self) -> (r: &Token)
        requires
            self.wf(),
        ensures
            r@ == self.tokens()[self.position()],
            r@.kind == kind_at(self.tokens(), self.position()),
    {
        &self.tokens[self.current]
    }

    fn previous(&self) -> (r: &Token)
        requires
            self.wf(),
            self.current > 0,
        ensures
            r@ == self.tokens()[self.position() - 1],
    {
        &self.tokens[self.current - 1]
    }

    fn at_end(&self) -> (r: bool)
        requires
            self.wf(),
        ensures
            r == (self.tokens()[self.position()].kind is Eof),
    {
        match self.peek().kind {
            TokenType::EOF => true,
            _ => false,
        }
    }

    /// Moves past the token at the cursor, unless it is the end of input.
    fn advance(&mut self)
        requires
            old(self).wf(),
        ensures
            final(self).wf(),
            final(self).tokens == old(self).tokens,
            kind_at(old(self).tokens(), old(self).position()) is Eof ==> final(self).current == old(
                self,
            ).current,
            !(kind_at(old(self).tokens(), old(self).position()) is Eof) ==> final(self).current == old(
                self,
            ).current + 1,
    {
        if !self.at_end() {
            let n = self.tokens.len();
            assert(self.current != n - 1);
            self.current = self.current + 1;
        }
    }
}

fn is_binary_op(kind: &TokenType, level: u8) -> (r: bool)
    ensures
        r == binary_op(level as int, kind@),
{
    match kind {
        TokenType::BangEqual | TokenType::EqualEqual => level == 0,
        TokenType::Greater | TokenType::GreaterEqual | TokenType::Less | TokenType::LessEqual => level == 1,
        TokenType::Minus | TokenType::Plus => level == 2,
        TokenType::Slash | TokenType::Star => level == 3,
        _ => false,
    }
}

fn is_unary_op(kind: &TokenType) -> (r: bool)
    ensures
        r == unary_op(kind@),
{
    match kind {
        TokenType::Bang | TokenType::Minus => true,
        _ => false,
    }
}

fn is_literal(kind: &TokenType) -> (r: bool)
    ensures
        r == literal(kind@),
{
    match kind {
        TokenType::Literal(_) | TokenType::True | TokenType::False | TokenType::Nil => true,
        _ => false,
    }
}

impl Parser {
    /// The token at the cursor is an operator of the binary `level`.
    fn check_binary(&self, level: u8) -> (r: bool)
        requires
            self.wf(),
        ensures
            r == binary_op(level as int, kind_at(self.tokens(), self.position())),
    {
        is_binary_op(&self.peek().kind, level)
    }

    /// A syntax error at the token under the cursor.
    fn error(&self, kind: ErrorKind) -> (r: SyntaxError)
        requires
            self.wf(),
        ensures
            r.matches(self.tokens(), Failure { at: self.position(), kind }),
    {
        SyntaxError { token: self.peek().duplicate(), kind }
    }

    /// expression -> equality
    fn expression(&mut self) -> (r: Result<Box<Expr>, SyntaxError>)
        requires
            old(self).wf(),
        ensures
            final(self).wf(),
            final(self).tokens == old(self).tokens,
            old(self).current <= final(self).current,
            r is Ok ==> old(self).current < final(self).current,
            agrees(r, old(self).tokens(), parse_level(old(self).tokens(), old(self).position(), 0), final(self).position()),
        decreases old(self).tokens@.len() - old(self).current, 7int,
    {
        self.equality()
    }

    /// equality   -> comparison ( ( "!=" | "==" ) comparison )*
    fn equality(&mut self) -> (r: Result<Box<Expr>, SyntaxError>)
        requires
            old(self).wf(),
        ensures
            final(self).wf(),
            final(self).tokens == old(self).tokens,
            old(self).current <= final(self).current,
            r is Ok ==> old(self).current < final(self).current,
            agrees(r, old(self).tokens(), parse_level(old(self).tokens(), old(self).position(), 0), final(self).position()),
        decreases old(self).tokens@.len() - old(self).current, 6int,
    {
        let ghost toks = self.tokens();
        let mut expr = match self.comparison() {
            Ok(e) => e,
            Err(err) => return Err(err),
        };
        let ghost first_end = self.position();
        while self.check_binary(0)
            invariant
                self.wf(),
                self.tokens == old(self).tokens,
                toks == self.tokens(),
                old(self).current < first_end <= self.current,
                parse_rest(toks, (*expr)@, self.position(), 0) == parse_level(
                    toks,
                    old(self).position(),
                    0,
                ),
            decreases self.tokens@.len() - self.current,
        {
            let ghost pos = self.position();
            self.advance();
            let operator = self.previous().duplicate();
            let right = match self.comparison() {
                Ok(e) => e,
                Err(err) => {
                    assert(parse_rest(toks, (*expr)@, pos, 0) == parse_level(toks, pos + 1, 1));
                    return Err(err);
                },
            };
            expr = Box::new(Expr::Binary { left: expr, operator, right });
        }
        Ok(expr)
    }

    /// comparison -> term ( ( ">" | ">=" | "<" | "<=" ) term )*
    fn comparison(&mut self) -> (r: Result<Box<Expr>, SyntaxError>)
        requires
            old(self).wf(),
        ensures
            final(self).wf(),
            final(self).tokens == old(self).tokens,
            old(self).current <= final(self).current,
            r is Ok ==> old(self).current < final(self).current,
            agrees(r, old(self).tokens(), parse_level(old(self).tokens(), old(self).position(), 1), final(self).position()),
        decreases old(self).tokens@.len() - old(self).current, 5int,
    {
        let ghost toks = self.tokens();
        let mut expr = match self.term() {
            Ok(e) => e,
            Err(err) => return Err(err),
        };
        let ghost first_end = self.position();
        while self.check_binary(1)
            invariant
                self.wf(),
                self.tokens == old(self).tokens,
                toks == self.tokens(),
                old(self).current < first_end <= self.current,
                parse_rest(toks, (*expr)@, self.position(), 1) == parse_level(
                    toks,
                    old(self).position(),
                    1,
                ),
            decreases self.tokens@.len() - self.current,
        {
            let ghost pos = self.position();
            self.advance();
            let operator = self.previous().duplicate();
            let right = match self.term() {
                Ok(e) => e,
                Err(err) => {
                    assert(parse_rest(toks, (*expr)@, pos, 1) == parse_level(toks, pos + 1, 2));
                    return Err(err);
                },
            };
            expr = Box::new(Expr::Binary { left: expr, operator, right });
        }
        Ok(expr)
    }

    /// term       -> factor ( ( "-" | "+" ) factor )*
    fn term(&mut self) -> (r: Result<Box<Expr>, SyntaxError>)
        requires
            old(self).wf(),
        ensures
            final(self).wf(),
            final(self).tokens == old(self).tokens,
            old(self).current <= final(self).current,
            r is Ok ==> old(self).current < final(self).current,
            agrees(r, old(self).tokens(), parse_level(old(self).tokens(), old(self).position(), 2), final(self).position()),
        decreases old(self).tokens@.len() - old(self).current, 4int,
    {
        let ghost toks = self.tokens();
        let mut expr = match self.factor() {
            Ok(e) => e,
            Err(err) => return Err(err),
        };
        let ghost first_end = self.position();
        while self.check_binary(2)
            invariant
                self.wf(),
                self.tokens == old(self).tokens,
                toks == self.tokens(),
                old(self).current < first_end <= self.current,
                parse_rest(toks, (*expr)@, self.position(), 2) == parse_level(
                    toks,
                    old(self).position(),
                    2,
                ),
            decreases self.tokens@.len() - self.current,
        {
            let ghost pos = self.position();
            self.advance();
            let operator = self.previous().duplicate();
            let right = match self.factor() {
                Ok(e) => e,
                Err(err) => {
                    assert(parse_rest(toks, (*expr)@, pos, 2) == parse_level(toks, pos + 1, 3));
                    return Err(err);
                },
            };
            expr = Box::new(Expr::Binary { left: expr, operator, right });
        }
        Ok(expr)
    }

    /// factor     -> unary ( ( "/" | "*" ) unary )*
    fn factor(&mut self) -> (r: Result<Box<Expr>, SyntaxError>)
        requires
            old(self).wf(),
        ensures
            final(self).wf(),
            final(self).tokens == old(self).tokens,
            old(self).current <= final(self).current,
            r is Ok ==> old(self).current < final(self).current,
            agrees(r, old(self).tokens(), parse_level(old(self).tokens(), old(self).position(), 3), final(self).position()),
        decreases old(self).tokens@.len() - old(self).current, 3int,
    {
        let ghost toks = self.tokens();
        let mut expr = match self.unary() {
            Ok(e) => e,
            Err(err) => return Err(err),
        };
        let ghost first_end = self.position();
        while self.check_binary(3)
            invariant
                self.wf(),
                self.tokens == old(self).tokens,
                toks == self.tokens(),
                old(self).current < first_end <= self.current,
                parse_rest(toks, (*expr)@, self.position(), 3) == parse_level(
                    toks,
                    old(self).position(),
                    3,
                ),
            decreases self.tokens@.len() - self.current,
        {
            let ghost pos = self.position();
            self.advance();
            let operator = self.previous().duplicate();
            let right = match self.unary() {
                Ok(e) => e,
                Err(err) => {
                    assert(parse_rest(toks, (*expr)@, pos, 3) == parse_level(toks, pos + 1, 4));
                    return Err(err);
                },
            };
            expr = Box::new(Expr::Binary { left: expr, operator, right });
        }
        Ok(expr)
    }

    /// unary -> ( "!" | "-" ) unary | primary
    fn unary(&mut self) -> (r: Result<Box<Expr>, SyntaxError>)
        requires
            old(self).wf(),
        ensures
            final(self).wf(),
            final(self).tokens == old(self).tokens,
            old(self).current <= final(self).current,
            r is Ok ==> old(self).current < final(self).current,
            agrees(r, old(self).tokens(), parse_level(old(self).tokens(), old(self).position(), 4), final(self).position()),
        decreases old(self).tokens@.len() - old(self).current, 2int,
    {
        if is_unary_op(&self.peek().kind) {
            self.advance();
            let operator = self.previous().duplicate();
            let right = match self.unary() {
                Ok(e) => e,
                Err(err) => return Err(err),
            };
            return Ok(Box::new(Expr::Unary { operator, right }));
        }
        self.primary()
    }

    /// primary -> NUMBER | STRING | IDENTIFIER | "true" | "false" | "nil" | "(" expression ")"
    fn primary(&mut self) -> (r: Result<Box<Expr>, SyntaxError>)
        requires
            old(self).wf(),
        ensures
            final(self).wf(),
            final(self).tokens == old(self).tokens,
            old(self).current <= final(self).current,
            r is Ok ==> old(self).current < final(self).current,
            agrees(r, old(self).tokens(), parse_level(old(self).tokens(), old(self).position(), 5), final(self).position()),
        decreases old(self).tokens@.len() - old(self).current, 1int,
    {
        if is_literal(&self.peek().kind) {
            self.advance();
            return Ok(Box::new(Expr::Lit(self.previous().duplicate())));
        }
        if matches!(self.peek().kind, TokenType::LeftParen) {
            self.advance();
            let expression = match self.expression() {
                Ok(e) => e,
                Err(err) => return Err(err),
            };
            if matches!(self.peek().kind, TokenType::RightParen) {
                self.advance();
                return Ok(Box::new(Expr::Grouping { expression }));
            }
            return Err(self.error(ErrorKind::ExpectRightParen));
        }
        Err(self.error(ErrorKind::ExpectExpression))
    }
}

/// The expression tree of a token sequence, or the syntax error that stops it.
pub fn parse(tokens: Vec<Token>) -> (r: Result<Expr, SyntaxError>)
    requires
        well_formed(token_views(tokens@)),
    ensures
        outcome(r, token_views(tokens@), parse_tokens(token_views(tokens@))),
{
    let mut parser = Parser::new(tokens);
    parser.parse()
}

} // verus!
