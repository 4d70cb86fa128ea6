//! The scanner: one left-to-right pass from source text to tokens.
use vstd::prelude::*;
use vstd::slice::slice_subrange;
use crate::number::{Number, decimal_text};
use crate::text::{
    Class, all_digits, chars_of, is_alnum_char, is_alpha, is_alpha_char, is_digit, is_digit_char,
    lemma_line_at_bound, lemma_line_at_monotonic, lemma_line_at_step, lemma_run_end, line_at, run_end, string_of,
};
use crate::token::{Lexeme, LiteralKind, Sym, Token, TokenType, TokenView, word_kind};

verus! {

pub open spec fn followed_by(s: Seq<char>, i: int, d: char) -> bool {
    i + 1 < s.len() && s[i + 1] == d
}

/// Where a block comment whose body starts at `i` ends: just past the first `*/`,
/// or at the end of the text when it is never closed.
pub open spec fn comment_close(s: Seq<char>, i: int) -> int
    decreases s.len() - i,
{
    if 0 <= i && i + 1 < s.len() {
        if s[i] == '*' && s[i + 1] == '/' {
            i + 2
        } else {
            comment_close(s, i + 1)
        }
    } else {
        s.len() as int
    }
}

pub proof fn lemma_comment_close(s: Seq<char>, i: int)
    requires
        0 <= i <= s.len(),
    ensures
        i <= comment_close(s, i) <= s.len(),
    decreases s.len() - i,
{
    if i + 1 < s.len() && !(s[i] == '*' && s[i + 1] == '/') {
        lemma_comment_close(s, i + 1);
    }
}

pub open spec fn fixed(k: Sym) -> Option<Lexeme> {
    Some(Lexeme::Fixed(k))
}

/// The one-character operator `one`, or `two` when `=` follows at `i`.
pub open spec fn with_equal(s: Seq<char>, i: int, one: Sym, two: Sym) -> (Option<Lexeme>, int) {
    if followed_by(s, i, '=') {
        (fixed(two), i + 2)
    } else {
        (fixed(one), i + 1)
    }
}

/// The number literal starting at `i`: a run of digits, and a fractional part only
/// where a digit follows the point.
pub open spec fn number_at(s: Seq<char>, i: int) -> (Option<Lexeme>, int) {
    let w = run_end(s, i, Class::Digit);
    if w + 1 < s.len() && s[w] == '.' && is_digit(s[w + 1]) {
        let f = run_end(s, w + 1, Class::Digit);
        (Some(Lexeme::Number(decimal_text(s.subrange(i, w), s.subrange(w + 1, f)))), f)
    } else {
        (Some(Lexeme::Number(decimal_text(s.subrange(i, w), Seq::empty()))), w)
    }
}

/// The string literal whose opening quote is at `i`.
pub open spec fn string_at(s: Seq<char>, i: int) -> (Option<Lexeme>, int) {
    let e = run_end(s, i + 1, Class::NotQuote);
    if e < s.len() {
        (Some(Lexeme::Str(s.subrange(i + 1, e))), e + 1)
    } else {
        (Some(Lexeme::Error("Unterminated string"@)), e)
    }
}

/// The token that the lexeme starting at `i` gives, if any, and where that lexeme ends.
pub open spec fn lexeme_at(s: Seq<char>, i: int) -> (Option<Lexeme>, int) {
    let c = s[i];
    if c == '(' {
        (fixed(Sym::LeftParen), i + 1)
    } else if c == ')' {
        (fixed(Sym::RightParen), i + 1)
    } else if c == '{' {
        (fixed(Sym::LeftBrace), i + 1)
    } else if c == '}' {
        (fixed(Sym::RightBrace), i + 1)
    } else if c == ',' {
        (fixed(Sym::Comma), i + 1)
    } else if c == '.' {
        (fixed(Sym::Dot), i + 1)
    } else if c == '-' {
        (fixed(Sym::Minus), i + 1)
    } else if c == '+' {
        (fixed(Sym::Plus), i + 1)
    } else if c == ';' {
        (fixed(Sym::Semicolon), i + 1)
    } else if c == '*' {
        (fixed(Sym::Star), i + 1)
    } else if c == '!' {
        with_equal(s, i, Sym::Bang, Sym::BangEqual)
    } else if c == '=' {
        with_equal(s, i, Sym::Equal, Sym::EqualEqual)
    } else if c == '<' {
        with_equal(s, i, Sym::Less, Sym::LessEqual)
    } else if c == '>' {
        with_equal(s, i, Sym::Greater, Sym::GreaterEqual)
    } else if c == '/' {
        if followed_by(s, i, '/') {
            (None, run_end(s, i + 2, Class::NotNewline))
        } else if followed_by(s, i, '*') {
            (None, comment_close(s, i + 2))
        } else {
            (fixed(Sym::Slash), i + 1)
        }
    } else if c == ' ' || c == '\r' || c == '\t' || c == '\n' {
        (None, i + 1)
    } else if c == '"' {
        string_at(s, i)
    } else if is_digit(c) {
        number_at(s, i)
    } else if is_alpha(c) {
        let e = run_end(s, i, Class::Word);
        (Some(word_kind(s.subrange(i, e))), e)
    } else {
        (Some(Lexeme::Error("Unrecognized token"@)), i + 1)
    }
}

pub proof fn lemma_lexeme_at_advances(s: Seq<char>, i: int)
    requires
        0 <= i < s.len(),
    ensures
        i < lexeme_at(s, i).1 <= s.len(),
{
    let c = s[i];
    if c == '/' && followed_by(s, i, '/') {
        lemma_run_end(s, i + 2, Class::NotNewline);
    } else if c == '/' && followed_by(s, i, '*') {
        lemma_comment_close(s, i + 2);
    } else if c == '"' {
        lemma_run_end(s, i + 1, Class::NotQuote);
    } else if is_digit(c) {
        lemma_run_end(s, i, Class::Digit);
        let w = run_end(s, i, Class::Digit);
        if w + 1 < s.len() {
            lemma_run_end(s, w + 1, Class::Digit);
        }
    } else if is_alpha(c) {
        lemma_run_end(s, i, Class::Word);
    }
}

/// The token a lexeme gives, on the line where the lexeme ends.
pub open spec fn emitted(t: Option<Lexeme>, line: nat) -> Seq<TokenView> {
    match t {
        Some(k) => seq![TokenView { kind: k, line }],
        None => Seq::empty(),
    }
}

/// The tokens of `s` from position `i` on, closed by one end-of-input token.
pub open spec fn lex_from(s: Seq<char>, i: int) -> Seq<TokenView>
    decreases s.len() - i,
{
    if 0 <= i < s.len() {
        let (t, e) = lexeme_at(s, i);
        proof {
            lemma_lexeme_at_advances(s, i);
        }
        emitted(t, line_at(s, e)) + lex_from(s, e)
    } else {
        seq![TokenView { kind: Lexeme::Eof, line: line_at(s, s.len() as int) }]
    }
}

/// The tokens of the source text `s`.
pub open spec fn tokens_of(s: Seq<char>) -> Seq<TokenView> {
    lex_from(s, 0)
}

pub open spec fn token_views(v: Seq<Token>) -> Seq<TokenView> {
    v.map_values(|t: Token| t@)
}

pub proof fn lemma_token_views_push(v: Seq<Token>, t: Token)
    ensures
        token_views(v.push(t)) == token_views(v).push(t@),
{
    assert(token_views(v.push(t)) =~= token_views(v).push(t@));
}

/// Characters that can start a lexeme.
pub open spec fn is_recognized(c: char) -> bool {
    c == '(' || c == ')' || c == '{' || c == '}' || c == ',' || c == '.' || c == '-' || c == '+'
        || c == ';' || c == '*' || c == '!' || c == '=' || c == '<' || c == '>' || c == '/' || c
        == ' ' || c == '\r' || c == '\t' || c == '\n' || c == '"' || is_digit(c) || is_alpha(c)
}

/// The lexeme at `i` starts with a recognized character, and is no string left open.
pub open spec fn scannable_at(s: Seq<char>, i: int) -> bool {
    &&& is_recognized(s[i])
    &&& (s[i] == '"' ==> run_end(s, i + 1, Class::NotQuote) < s.len())
}

/// Every lexeme of `s` from `i` on is scannable.
pub open spec fn scannable_from(s: Seq<char>, i: int) -> bool
    decreases s.len() - i,
{
    if 0 <= i < s.len() {
        proof {
            lemma_lexeme_at_advances(s, i);
        }
        scannable_at(s, i) && scannable_from(s, lexeme_at(s, i).1)
    } else {
        true
    }
}

pub open spec fn has_error(toks: Seq<TokenView>) -> bool {
    exists|k: int| 0 <= k < toks.len() && (#[trigger] toks[k]).kind is Error
}

/// Scanning from `i` ends with exactly one end-of-input token, on the last line of `s`.
pub proof fn lemma_lex_from_one_eof(s: Seq<char>, i: int)
    requires
        0 <= i <= s.len(),
    ensures
        lex_from(s, i).len() > 0,
        lex_from(s, i).last() == (TokenView { kind: Lexeme::Eof, line: line_at(s, s.len() as int) }),
        forall|k: int| 0 <= k < lex_from(s, i).len() - 1 ==> !((#[trigger] lex_from(s, i)[k]).kind is Eof),
    decreases s.len() - i,
{
    if i < s.len() {
        lemma_lexeme_at_advances(s, i);
        let (t, e) = lexeme_at(s, i);
        lemma_lex_from_one_eof(s, e);
        let rest = lex_from(s, e);
        assert(lex_from(s, i) == emitted(t, line_at(s, e)) + rest);
        assert forall|k: int| 0 <= k < lex_from(s, i).len() - 1 implies !((#[trigger] lex_from(
            s,
            i,
        )[k]).kind is Eof) by {
            if t is Some && k == 0 {
            } else if t is Some {
                assert(lex_from(s, i)[k] == rest[k - 1]);
            } else {
                assert(lex_from(s, i)[k] == rest[k]);
            }
        }
    }
}

/// Scanning ends with exactly one end-of-input token, whatever the text.
pub proof fn lemma_scan_ends_with_one_eof(s: Seq<char>)
    ensures
        tokens_of(s).len() > 0,
        tokens_of(s).last().kind is Eof,
        forall|k: int| 0 <= k < tokens_of(s).len() - 1 ==> !((#[trigger] tokens_of(s)[k]).kind is Eof),
{
    lemma_lex_from_one_eof(s, 0);
}

/// Scanning from `i` gives an error token exactly when some lexeme from `i` on is not
/// scannable.
pub proof fn lemma_lex_from_errors(s: Seq<char>, i: int)
    requires
        0 <= i <= s.len(),
    ensures
        has_error(lex_from(s, i)) <==> !scannable_from(s, i),
    decreases s.len() - i,
{
    if i < s.len() {
        lemma_lexeme_at_advances(s, i);
        let (t, e) = lexeme_at(s, i);
        lemma_lex_from_errors(s, e);
        let rest = lex_from(s, e);
        let head = emitted(t, line_at(s, e));
        let all = lex_from(s, i);
        assert(all == head + rest);
        assert((t matches Some(k) && k is Error) <==> !scannable_at(s, i));
        if has_error(rest) {
            let k = choose|k: int| 0 <= k < rest.len() && (#[trigger] rest[k]).kind is Error;
            assert(all[head.len() + k] == rest[k]);
        }
        if has_error(all) {
            let k = choose|k: int| 0 <= k < all.len() && (#[trigger] all[k]).kind is Error;
            if k >= head.len() {
                assert(rest[k - head.len()] == all[k]);
            }
        }
        if t matches Some(x) && x is Error {
            assert(all[0].kind is Error);
        }
    } else {
        assert(lex_from(s, i) == seq![TokenView { kind: Lexeme::Eof, line: line_at(s, s.len() as int) }]);
    }
}

/// A text whose lexemes are all scannable scans without error tokens, and only such a text.
pub proof fn lemma_scan_errors(s: Seq<char>)
    ensures
        scannable_from(s, 0) <==> forall|k: int|
            0 <= k < tokens_of(s).len() ==> !((#[trigger] tokens_of(s)[k]).kind is Error),
{
    lemma_lex_from_errors(s, 0);
}

/// The lines of the tokens scanned from `i` on never decrease, and start at the line of `i`.
pub proof fn lemma_lex_from_lines(s: Seq<char>, i: int)
    requires
        0 <= i <= s.len(),
    ensures
        forall|a: int, b: int|
            0 <= a <= b < lex_from(s, i).len() ==> line_at(s, i) <= (#[trigger] lex_from(s, i)[a]).line
                <= (#[trigger] lex_from(s, i)[b]).line,
    decreases s.len() - i,
{
    if i < s.len() {
        lemma_lexeme_at_advances(s, i);
        let (t, e) = lexeme_at(s, i);
        lemma_lex_from_lines(s, e);
        lemma_line_at_monotonic(s, i, e);
        let rest = lex_from(s, e);
        let all = lex_from(s, i);
        assert(all == emitted(t, line_at(s, e)) + rest);
        if t is Some {
            lemma_lex_from_one_eof(s, e);
            assert forall|a: int, b: int| 0 <= a <= b < all.len() implies line_at(s, i) <= (
            #[trigger] all[a]).line <= (#[trigger] all[b]).line by {
                if a > 0 {
                    assert(all[a] == rest[a - 1]);
                }
                if b > 0 {
                    assert(all[b] == rest[b - 1]);
                    assert(rest[0].line <= rest[b - 1].line);
                }
            }
        } else {
            assert(all =~= rest);
        }
    }
}

/// Scanned tokens come in order of non-decreasing line.
pub proof fn lemma_scan_lines_ordered(s: Seq<char>)
    ensures
        forall|a: int, b: int|
            0 <= a <= b < tokens_of(s).len() ==> (#[trigger] tokens_of(s)[a]).line <= (
            #[trigger] tokens_of(s)[b]).line,
{
    lemma_lex_from_lines(s, 0);
}

pub struct Scanner {
    source: Vec<char>,
    tokens: Vec<Token>,
    start: usize,
    current: usize,
    line: u32,
    finished: bool,
}

impl Scanner {
    /// The text being scanned.
    pub closed spec fn text(&self) -> Seq<char> {
        self.source@
    }

    /// The cursor lies within the text and the line counter matches it.
    closed spec fn cursor_ok(&self) -> bool {
        &&& self.source@.len() < u32::MAX
        &&& self.start <= self.current <= self.source@.len()
        &&& self.line == line_at(self.source@, self.current as int)
    }

    /// The tokens scanned so far.
    pub closed spec fn scanned_tokens(&self) -> Seq<TokenView> {
        token_views(self.tokens@)
    }

    pub closed spec fn wf(&self) -> bool {
        &&& self.cursor_ok()
        &&& if self.finished {
            token_views(self.tokens@) == tokens_of(self.source@)
        } else {
            token_views(self.tokens@) + lex_from(self.source@, self.current as int) == tokens_of(
                self.source@,
            )
        }
    }

    pub fn new(source: &str) -> (r: Scanner)
        requires
            source@.len() < u32::MAX,
        ensures
            r.wf(),
            r.text() == source@,
    {
        let r = Scanner {
            source: chars_of(source),
            tokens: Vec::new(),
            start: 0,
            current: 0,
            line: 1,
            finished: false,
        };
        assert(r.source@.take(0) =~= Seq::<char>::empty());
        assert(token_views(r.tokens@) =~= Seq::empty());
        assert(token_views(r.tokens@) + lex_from(r.source@, 0) =~= lex_from(r.source@, 0));
        r
    }

    /// Consumes the character at the cursor.
    fn advance(&mut self) -> (c: char)
        requires
            old(self).cursor_ok(),
            old(self).current < old(self).source@.len(),
        ensures
            final(self).cursor_ok(),
            final(self).current == old(self).current + 1,
            c == old(self).source@[old(self).current as int],
            final(self).source == old(self).source,
            final(self).tokens == old(self).tokens,
            final(self).start == old(self).start,
            final(self).finished == old(self).finished,
    {
        let c = self.source[self.current];
        proof {
            lemma_line_at_step(self.source@, self.current as int);
            lemma_line_at_bound(self.source@, self.current + 1);
        }
        if c == '\n' {
            self.line = self.line + 1;
        }
        self.current = self.current + 1;
        c
    }

    /// Consumes the character at the cursor when it is `expected`.
    fn match_char(&mut self, expected: char) -> (r: bool)
        requires
            old(self).cursor_ok(),
        ensures
            final(self).cursor_ok(),
            r == (old(self).current < old(self).source@.len() && old(self).source@[old(
                self,
            ).current as int] == expected),
            final(self).current == old(self).current + if r {
                1int
            } else {
                0int
            },
            final(self).source == old(self).source,
            final(self).tokens == old(self).tokens,
            final(self).start == old(self).start,
            final(self).finished == old(self).finished,
    {
        if self.current < self.source.len() && self.source[self.current] == expected {
            self.advance();
            true
        } else {
            false
        }
    }

    /// The character after the one at the cursor.
    fn peek_next(&self) -> (r: Option<char>)
        requires
            self.cursor_ok(),
        ensures
            r == (if self.current + 1 < self.source@.len() {
                Some(self.source@[self.current + 1])
            } else {
                None
            }),
    {
        if self.current + 1 < self.source.len() {
            Some(self.source[self.current + 1])
        } else {
            None
        }
    }

    fn add_token(&mut self, kind: TokenType)
        ensures
            final(self).tokens@ == old(self).tokens@.push(Token { kind, line: old(self).line }),
            token_views(final(self).tokens@) == token_views(old(self).tokens@).push(
                TokenView { kind: kind@, line: old(self).line as nat },
            ),
            final(self).source == old(self).source,
            final(self).current == old(self).current,
            final(self).start == old(self).start,
            final(self).line == old(self).line,
            final(self).finished == old(self).finished,
    {
        let t = Token::new(kind, self.line);
        proof {
            lemma_token_views_push(self.tokens@, t);
        }
        self.tokens.push(t);
    }

    /// This scanner is `before` with the lexeme that starts at `before.start` consumed:
    /// the cursor stands at `r.1` and the token `r.0`, if any, has been added.
    closed spec fn scanned(&self, before: &Scanner, r: (Option<Lexeme>, int)) -> bool {
        &&& self.cursor_ok()
        &&& self.source == before.source
        &&& self.start == before.start
        &&& self.finished == before.finished
        &&& self.current == r.1
        &&& token_views(self.tokens@) == token_views(before.tokens@) + emitted(
            r.0,
            line_at(self.source@, r.1),
        )
    }

    /// Reads a string literal whose opening quote has been consumed.
    fn read_string(&mut self)
        requires
            old(self).cursor_ok(),
            old(self).current == old(self).start + 1,
            old(self).source@[old(self).start as int] == '"',
        ensures
            final(self).scanned(old(self), string_at(old(self).source@, old(self).start as int)),
    {
        while self.current < self.source.len() && self.source[self.current] != '"'
            invariant
                self.cursor_ok(),
                self.source == old(self).source,
                self.tokens == old(self).tokens,
                self.start == old(self).start,
                self.finished == old(self).finished,
                self.start + 1 <= self.current,
                run_end(self.source@, self.start + 1, Class::NotQuote) == run_end(
                    self.source@,
                    self.current as int,
                    Class::NotQuote,
                ),
            decreases self.source.len() - self.current,
        {
            self.advance();
        }
        if self.current < self.source.len() {
            let s = string_of(self.source.as_slice(), self.start + 1, self.current);
            self.advance();
            self.add_token(TokenType::Literal(LiteralKind::Str(s)));
        } else {
            self.add_token(TokenType::Error(String::from_str("Unterminated string")));
        }
        assert(token_views(self.tokens@) =~= token_views(old(self).tokens@) + emitted(
            string_at(old(self).source@, old(self).start as int).0,
            line_at(self.source@, self.current as int),
        ));
    }

    /// Consumes the run of digits at the cursor.
    fn skip_digits(&mut self)
        requires
            old(self).cursor_ok(),
        ensures
            final(self).cursor_ok(),
            old(self).current <= final(self).current,
            final(self).current == run_end(old(self).source@, old(self).current as int, Class::Digit),
            all_digits(old(self).source@.subrange(old(self).current as int, final(self).current as int)),
            final(self).source == old(self).source,
            final(self).tokens == old(self).tokens,
            final(self).start == old(self).start,
            final(self).finished == old(self).finished,
    {
        while self.current < self.source.len() && is_digit_char(self.source[self.current])
            invariant
                self.cursor_ok(),
                self.source == old(self).source,
                self.tokens == old(self).tokens,
                self.start == old(self).start,
                self.finished == old(self).finished,
                old(self).current <= self.current,
                run_end(self.source@, old(self).current as int, Class::Digit) == run_end(
                    self.source@,
                    self.current as int,
                    Class::Digit,
                ),
                all_digits(self.source@.subrange(old(self).current as int, self.current as int)),
            decreases self.source.len() - self.current,
        {
            self.advance();
        }
    }

    /// Reads a number literal whose first digit has been consumed.
    fn read_number(&mut self)
        requires
            old(self).cursor_ok(),
            old(self).current == old(self).start + 1,
            is_digit(old(self).source@[old(self).start as int]),
        ensures
            final(self).scanned(old(self), number_at(old(self).source@, old(self).start as int)),
    {
        let ghost src = self.source@;
        let ghost i = self.start as int;
        // The first digit starts the run that the cursor continues.
        assert(run_end(src, i, Class::Digit) == run_end(src, i + 1, Class::Digit));
        self.skip_digits();
        assert(src.subrange(i, self.current as int) =~= seq![src[i]] + src.subrange(
            i + 1,
            self.current as int,
        ));
        let w = self.current;
        let n;
        if self.current + 1 < self.source.len() && self.source[self.current] == '.'
            && is_digit_char(self.source[self.current + 1]) {
            self.advance();
            self.skip_digits();
            n = Number::from_digits(
                slice_subrange(self.source.as_slice(), self.start, w),
                slice_subrange(self.source.as_slice(), w + 1, self.current),
            );
        } else {
            n = Number::from_digits(
                slice_subrange(self.source.as_slice(), self.start, w),
                slice_subrange(self.source.as_slice(), w, w),
            );
            assert(src.subrange(w as int, w as int) =~= Seq::<char>::empty());
        }
        self.add_token(TokenType::Literal(LiteralKind::Number(n)));
        assert(token_views(self.tokens@) =~= token_views(old(self).tokens@) + emitted(
            number_at(src, old(self).start as int).0,
            line_at(src, self.current as int),
        ));
    }

    /// Whether the current lexeme is `word`.
    fn lexeme_is(&self, word: &[char]) -> (r: bool)
        requires
            self.cursor_ok(),
        ensures
            r == (self.source@.subrange(self.start as int, self.current as int) == word@),
    {
        if self.current - self.start != word.len() {
            return false;
        }
        let mut i: usize = 0;
        while i < word.len()
            invariant
                self.cursor_ok(),
                self.current - self.start == word@.len(),
                i <= word@.len(),
                forall|j: int| 0 <= j < i ==> self.source@[self.start + j] == word@[j],
            decreases word.len() - i,
        {
            if self.source[self.start + i] != word[i] {
                return false;
            }
            i = i + 1;
        }
        assert(self.source@.subrange(self.start as int, self.current as int) =~= word@);
        true
    }

    /// The reserved word or identifier that the current lexeme spells.
    fn lookup_ident(&self) -> (r: TokenType)
        requires
            self.cursor_ok(),
        ensures
            r@ == word_kind(self.source@.subrange(self.start as int, self.current as int)),
    {
        if self.lexeme_is(&['a', 'n', 'd']) {
            TokenType::And
        } else if self.lexeme_is(&['c', 'l', 'a', 's', 's']) {
            TokenType::Class
        } else if self.lexeme_is(&['e', 'l', 's', 'e']) {
            TokenType::Else
        } else if self.lexeme_is(&['f', 'a', 'l', 's', 'e']) {
            TokenType::False
        } else if self.lexeme_is(&['f', 'o', 'r']) {
            TokenType::For
        } else if self.lexeme_is(&['f', 'u', 'n']) {
            TokenType::Fun
        } else if self.lexeme_is(&['i', 'f']) {
            TokenType::If
        } else if self.lexeme_is(&['n', 'i', 'l']) {
            TokenType::Nil
        } else if self.lexeme_is(&['o', 'r']) {
            TokenType::Or
        } else if self.lexeme_is(&['p', 'r', 'i', 'n', 't']) {
            TokenType::Print
        } else if self.lexeme_is(&['r', 'e', 't', 'u', 'r', 'n']) {
            TokenType::Return
        } else if self.lexeme_is(&['s', 'u', 'p', 'e', 'r']) {
            TokenType::Super
        } else if self.lexeme_is(&['t', 'h', 'i', 's']) {
            TokenType::This
        } else if self.lexeme_is(&['t', 'r', 'u', 'e']) {
            TokenType::True
        } else if self.lexeme_is(&['v', 'a', 'r']) {
            TokenType::Var
        } else if self.lexeme_is(&['w', 'h', 'i', 'l', 'e']) {
            TokenType::While
        } else {
            TokenType::Literal(
                LiteralKind::Identifier(string_of(self.source.as_slice(), self.start, self.current)),
            )
        }
    }

    /// Reads an identifier or reserved word whose first character has been consumed.
    fn read_identifier(&mut self)
        requires
            old(self).cursor_ok(),
            old(self).current == old(self).start + 1,
            is_alpha(old(self).source@[old(self).start as int]),
        ensures
            final(self).scanned(
                old(self),
                (
                    Some(
                        word_kind(
                            old(self).source@.subrange(
                                old(self).start as int,
                                run_end(old(self).source@, old(self).start as int, Class::Word),
                            ),
                        ),
                    ),
                    run_end(old(self).source@, old(self).start as int, Class::Word),
                ),
            ),
    {
        while self.current < self.source.len() && is_alnum_char(self.source[self.current])
            invariant
                self.cursor_ok(),
                self.source == old(self).source,
                self.tokens == old(self).tokens,
                self.start == old(self).start,
                self.finished == old(self).finished,
                self.start + 1 <= self.current,
                run_end(self.source@, self.start as int, Class::Word) == run_end(
                    self.source@,
                    self.current as int,
                    Class::Word,
                ),
            decreases self.source.len() - self.current,
        {
            self.advance();
        }
        let kind = self.lookup_ident();
        self.add_token(kind);
        assert(token_views(self.tokens@) =~= token_views(old(self).tokens@) + emitted(
            Some(word_kind(self.source@.subrange(self.start as int, self.current as int))),
            line_at(self.source@, self.current as int),
        ));
    }

    /// Skips the rest of a line comment whose `//` has been consumed.
    fn skip_line_comment(&mut self)
        requires
            old(self).cursor_ok(),
        ensures
            final(self).cursor_ok(),
            final(self).current == run_end(old(self).source@, old(self).current as int, Class::NotNewline),
            final(self).source == old(self).source,
            final(self).tokens == old(self).tokens,
            final(self).start == old(self).start,
            final(self).finished == old(self).finished,
    {
        while self.current < self.source.len() && self.source[self.current] != '\n'
            invariant
                self.cursor_ok(),
                self.source == old(self).source,
                self.tokens == old(self).tokens,
                self.start == old(self).start,
                self.finished == old(self).finished,
                old(self).current <= self.current,
                run_end(self.source@, old(self).current as int, Class::NotNewline) == run_end(
                    self.source@,
                    self.current as int,
                    Class::NotNewline,
                ),
            decreases self.source.len() - self.current,
        {
            self.advance();
        }
    }

    /// Skips the rest of a block comment whose `/*` has been consumed; a comment that is
    /// never closed runs to the end of the text.
    fn skip_block_comment(&mut self)
        requires
            old(self).cursor_ok(),
        ensures
            final(self).cursor_ok(),
            final(self).current == comment_close(old(self).source@, old(self).current as int),
            final(self).source == old(self).source,
            final(self).tokens == old(self).tokens,
            final(self).start == old(self).start,
            final(self).finished == old(self).finished,
    {
        let mut closed = false;
        while !closed && self.current < self.source.len()
            invariant
                self.cursor_ok(),
                self.source == old(self).source,
                self.tokens == old(self).tokens,
                self.start == old(self).start,
                self.finished == old(self).finished,
                old(self).current <= self.current,
                closed ==> self.current == comment_close(self.source@, old(self).current as int),
                !closed ==> comment_close(self.source@, old(self).current as int) == comment_close(
                    self.source@,
                    self.current as int,
                ),
            decreases self.source.len() - self.current,
        {
            if self.source[self.current] == '*' && self.peek_next() == Some('/') {
                self.advance();
                self.advance();
                closed = true;
            } else {
                self.advance();
            }
        }
    }

    /// Scans the lexeme that starts at the cursor.
    fn scan_token(&mut self)
        requires
            old(self).cursor_ok(),
            old(self).start == old(self).current,
            old(self).current < old(self).source@.len(),
        ensures
            final(self).scanned(old(self), lexeme_at(old(self).source@, old(self).current as int)),
    {
        let ghost src = self.source@;
        let ghost i = self.current as int;
        let ghost toks = token_views(self.tokens@);
        let c = self.advance();
        if c == '(' {
            self.add_token(TokenType::LeftParen);
        } else if c == ')' {
            self.add_token(TokenType::RightParen);
        } else if c == '{' {
            self.add_token(TokenType::LeftBrace);
        } else if c == '}' {
            self.add_token(TokenType::RightBrace);
        } else if c == ',' {
            self.add_token(TokenType::Comma);
        } else if c == '.' {
            self.add_token(TokenType::Dot);
        } else if c == '-' {
            self.add_token(TokenType::Minus);
        } else if c == '+' {
            self.add_token(TokenType::Plus);
        } else if c == ';' {
            self.add_token(TokenType::Semicolon);
        } else if c == '*' {
            self.add_token(TokenType::Star);
        } else if c == '!' {
            if self.match_char('=') {
                self.add_token(TokenType::BangEqual);
            } else {
                self.add_token(TokenType::Bang);
            }
        } else if c == '=' {
            if self.match_char('=') {
                self.add_token(TokenType::EqualEqual);
            } else {
                self.add_token(TokenType::Equal);
            }
        } else if c == '<' {
            if self.match_char('=') {
                self.add_token(TokenType::LessEqual);
            } else {
                self.add_token(TokenType::Less);
            }
        } else if c == '>' {
            if self.match_char('=') {
                self.add_token(TokenType::GreaterEqual);
            } else {
                self.add_token(TokenType::Greater);
            }
        } else if c == '/' {
            if self.match_char('/') {
                self.skip_line_comment();
            } else if self.match_char('*') {
                self.skip_block_comment();
            } else {
                self.add_token(TokenType::Slash);
            }
        } else if c == ' ' || c == '\r' || c == '\t' || c == '\n' {
        } else if c == '"' {
            self.read_string();
        } else if is_digit_char(c) {
            self.read_number();
        } else if is_alpha_char(c) {
            self.read_identifier();
        } else {
            self.add_token(TokenType::Error(String::from_str("Unrecognized token")));
        }
        proof {
            let r = lexeme_at(src, i);
            let l = line_at(src, r.1);
            match r.0 {
                Some(k) => assert(toks + emitted(r.0, l) =~= toks.push(TokenView { kind: k, line: l })),
                None => assert(toks + emitted(r.0, l) =~= toks),
            }
        }
    }

    /// Scans the whole text and returns its tokens, closed by one end-of-input token.
    /// Scanning again returns the same tokens.
    pub fn scan_tokens(&mut self) -> (r: &Vec<Token>)
        requires
            old(self).wf(),
        ensures
            final(self).wf(),
            final(self).text() == old(self).text(),
            final(self).scanned_tokens() == tokens_of(old(self).text()),
            token_views(r@) == tokens_of(old(self).text()),
    {
        if !self.finished {
            while self.current < self.source.len()
                invariant
                    self.wf(),
                    !self.finished,
                    self.source == old(self).source,
                decreases self.source.len() - self.current,
            {
                let ghost before = self.tokens@;
                let ghost i = self.current as int;
                self.start = self.current;
                proof {
                    lemma_lexeme_at_advances(self.source@, i);
                }
                self.scan_token();
                assert(token_views(before) + lex_from(self.source@, i) =~= token_views(self.tokens@)
                    + lex_from(self.source@, self.current as int));
            }
            let ghost before = self.tokens@;
            let t = Token::new(TokenType::EOF, self.line);
            proof {
                lemma_token_views_push(before, t);
            }
            self.tokens.push(t);
            self.finished = true;
            assert(token_views(self.tokens@) =~= tokens_of(self.source@));
        }
        &self.tokens
    }
}

/// The tokens of `source`, closed by one end-of-input token.
pub fn scan(source: &str) -> (r: Vec<Token>)
    requires
        source@.len() < u32::MAX,
    ensures
        token_views(r@) == tokens_of(source@),
{
    let mut scanner = Scanner::new(source);
    scanner.scan_tokens();
    scanner.tokens
}

} // verus!
