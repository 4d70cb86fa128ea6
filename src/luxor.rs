//! The interpreter session: it keeps whether an error was reported and writes the
//! diagnostics that the host program prints.
use vstd::prelude::*;
use crate::ast::Expr;
use crate::parser::{SyntaxError, message_of, parse, parse_tokens};
use crate::scanner::{lemma_scan_ends_with_one_eof, scan, token_views, tokens_of};
use crate::token::{Lexeme, TokenType, TokenView, lexeme_text};

verus! {

pub open spec fn digit_chars() -> Seq<char> {
    seq!['0', '1', '2', '3', '4', '5', '6', '7', '8', '9']
}

/// The decimal digits of `n`, without leading zeros.
pub open spec fn decimal(n: nat) -> Seq<char>
    decreases n,
{
    if n < 10 {
        seq![digit_chars()[n as int]]
    } else {
        decimal(n / 10).push(digit_chars()[(n % 10) as int])
    }
}

/// `[line <n>] Error<where>: <message>`.
pub open spec fn report_text(line: nat, location: Seq<char>, message: Seq<char>) -> Seq<char> {
    "[line "@ + decimal(line) + "] Error"@ + location + ": "@ + message
}

/// Where a syntax error stands: at the end of input, or at the offending lexeme.
pub open spec fn location_of(k: Lexeme) -> Seq<char> {
    if k is Eof {
        " at end"@
    } else {
        " at '"@ + lexeme_text(k) + "'"@
    }
}

/// The diagnostics of the error tokens among `toks`, in order.
pub open spec fn lexical_reports(toks: Seq<TokenView>) -> Seq<Seq<char>>
    decreases toks.len(),
{
    if toks.len() == 0 {
        Seq::empty()
    } else {
        let rest = lexical_reports(toks.drop_last());
        match toks.last().kind {
            Lexeme::Error(m) => rest.push(report_text(toks.last().line, Seq::empty(), m)),
            _ => rest,
        }
    }
}

pub open spec fn texts(v: Seq<String>) -> Seq<Seq<char>> {
    v.map_values(|s: String| s@)
}

/// What a session makes of one source text.
pub struct Outcome {
    /// The diagnostics, in the order they were found.
    pub diagnostics: Vec<String>,
    /// The expression tree, when the text scanned and parsed without error.
    pub tree: Option<Expr>,
}

/// Appends the decimal digits of `n`.
fn push_decimal(out: &mut String, n: u32)
    ensures
        final(out)@ == old(out)@ + decimal(n as nat),
    decreases n,
{
    let digits = ['0', '1', '2', '3', '4', '5', '6', '7', '8', '9'];
    assert(digits@ == digit_chars());
    if n >= 10 {
        push_decimal(out, n / 10);
    }
    out.push(digits[(n % 10) as usize]);
    assert(out@ =~= old(out)@ + decimal(n as nat));
}

pub struct Luxor {
    had_error: bool,
}

impl Luxor {
    pub fn new() -> (r: Luxor)
        ensures
            !r.had_error(),
    {
        Luxor { had_error: false }
    }

    pub closed spec fn had_error_spec(&self) -> bool {
        self.had_error
    }

    /// Whether an error has been reported in this session.
    #[verifier::when_used_as_spec(had_error_spec)]
    pub fn had_error(&self) -> (r: bool)
        ensures
            r == self.had_error_spec(),
    {
        self.had_error
    }

    /// Records an error on `line` and returns its diagnostic, `[line <n>] Error: <message>`.
    pub fn error(&mut self, line: u32, message: &str) -> (r: String)
        ensures
            final(self).had_error(),
            r@ == report_text(line as nat, Seq::empty(), message@),
    {
        proof {
            reveal_strlit("");
        }
        self.report(line, "", message)
    }

    /// Records an error on `line` at `location` and returns its diagnostic.
    fn report(&mut self, line: u32, location: &str, message: &str) -> (r: String)
        ensures
            final(self).had_error(),
            r@ == report_text(line as nat, location@, message@),
    {
        let mut out = String::from_str("[line ");
        push_decimal(&mut out, line);
        out.append("] Error");
        out.append(location);
        out.append(": ");
        out.append(message);
        self.had_error = true;
        out
    }

    /// Scans and parses `source`. Every error token is reported; only a text without
    /// them is parsed, and a syntax error is reported once.
    pub fn run(&mut self, source: &str) -> (r: Outcome)
        requires
            source@.len() < u32::MAX,
        ensures
            ({
                let toks = tokens_of(source@);
                let lexical = lexical_reports(toks);
                if lexical.len() > 0 {
                    texts(r.diagnostics@) == lexical && r.tree is None
                } else {
                    match parse_tokens(toks) {
                        Ok(e) => r.diagnostics@.len() == 0 && (r.tree matches Some(t) && t@ == e),
                        Err(f) => texts(r.diagnostics@) == seq![
                            report_text(
                                toks[f.at].line,
                                location_of(toks[f.at].kind),
                                message_of(f.kind),
                            ),
                        ] && r.tree is None,
                    }
                }
            }),
            final(self).had_error() == (old(self).had_error() || r.diagnostics@.len() > 0),
    {
        let tokens = scan(source);
        let ghost toks = token_views(tokens@);
        let mut diagnostics: Vec<String> = Vec::new();
        let mut i: usize = 0;
        while i < tokens.len()
            invariant
                toks == token_views(tokens@),
                i <= tokens@.len(),
                texts(diagnostics@) == lexical_reports(toks.take(i as int)),
                self.had_error() == (old(self).had_error() || diagnostics@.len() > 0),
            decreases tokens.len() - i,
        {
            assert(toks.take(i + 1).drop_last() =~= toks.take(i as int));
            if let TokenType::Error(m) = &tokens[i].kind {
                let d = self.error(tokens[i].line, m.as_str());
                diagnostics.push(d);
                assert(texts(diagnostics@) =~= lexical_reports(toks.take(i + 1)));
            }
            i = i + 1;
        }
        assert(toks.take(toks.len() as int) =~= toks);
        if diagnostics.len() > 0 {
            return Outcome { diagnostics, tree: None };
        }
        proof {
            lemma_scan_ends_with_one_eof(source@);
        }
        match parse(tokens) {
            Ok(e) => Outcome { diagnostics, tree: Some(e) },
            Err(err) => {
                let d = self.syntax_error(&err);
                diagnostics.push(d);
                assert(texts(diagnostics@) =~= seq![d@]);
                Outcome { diagnostics, tree: None }
            },
        }
    }

    /// Records a syntax error and returns its diagnostic, which names the offending token.
    pub fn syntax_error(&mut self, err: &SyntaxError) -> (r: String)
        ensures
            final(self).had_error(),
            r@ == report_text(
                err.token@.line,
                location_of(err.token@.kind),
                message_of(err.kind),
            ),
    {
        let mut location = String::new();
        if err.token.kind.is_eof() {
            location.append(" at end");
        } else {
            location.append(" at '");
            location.append(err.token.render().as_str());
            location.append("'");
        }
        let message = err.kind.message();
        let r = self.report(err.token.line, location.as_str(), message.as_str());
        assert(location@ == location_of(err.token@.kind));
        r
    }
}

} // verus!
