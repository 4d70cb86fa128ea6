//! Reading a rendering back: scanning and parsing the prefix form of a literal leaf
//! gives a tree with the same rendering.
use vstd::prelude::*;
use crate::ast::{ExprView, render};
use crate::number::{decimal_text, is_canonical, lemma_canonical_trimmed, lemma_trim_canonical, number_text};
use crate::parser::{
    Failure, binary_op, kind_at, literal, parse_from, parse_level, parse_rest, parse_tokens,
    unary_op,
};
use crate::scanner::{
    emitted, lemma_lexeme_at_advances, lemma_scan_ends_with_one_eof, lex_from, lexeme_at, number_at,
    tokens_of,
};
use crate::text::{
    Class, all_digits, is_alnum, is_alpha, is_digit, lemma_no_newlines, lemma_run_end, lemma_run_end_at,
    lemma_run_end_full, line_at, run_end,
};
use crate::token::{Lexeme, Sym, TokenView, keyword, lexeme_text, spelling, word_kind};

verus! {

/// A letter or `_`, then letters, digits and `_`.
pub open spec fn is_word(w: Seq<char>) -> bool {
    &&& w.len() > 0
    &&& is_alpha(w[0])
    &&& forall|i: int| 0 <= i < w.len() ==> is_alnum(#[trigger] w[i])
}

/// The shortest decimal text of a number.
pub open spec fn is_number_text(n: Seq<char>) -> bool {
    exists|w: Seq<char>, f: Seq<char>| is_canonical(w, f) && n == number_text(w, f)
}

pub open spec fn literal_word(w: Seq<char>) -> bool {
    is_word(w) && (keyword(w) is None || keyword(w) == Some(Sym::True) || keyword(w) == Some(
        Sym::False,
    ) || keyword(w) == Some(Sym::Nil))
}

/// Text that scans to exactly one literal token with that same text.
pub open spec fn literal_text(s: Seq<char>) -> bool {
    is_number_text(s) || literal_word(s)
}

/// The literal token that literal text scans to.
pub open spec fn literal_kind(s: Seq<char>) -> Lexeme {
    if is_number_text(s) {
        Lexeme::Number(s)
    } else {
        word_kind(s)
    }
}

/// Leaves whose text reads back as one literal token: numbers in shortest form and
/// identifiers (as the scanner makes them), `true`, `false` and `nil`, and strings whose
/// text is one of these.
pub open spec fn leaf_reads_back(k: Lexeme) -> bool {
    match k {
        Lexeme::Number(n) => is_number_text(n),
        Lexeme::Identifier(w) => is_word(w) && keyword(w) is None,
        Lexeme::Fixed(s) => s is True || s is False || s is Nil,
        Lexeme::Str(s) => literal_text(s),
        _ => false,
    }
}

/// The number and identifier tokens that the scanner makes read back.
pub open spec fn scanned_literal_ok(k: Lexeme) -> bool {
    &&& (k matches Lexeme::Number(n) ==> is_number_text(n))
    &&& (k matches Lexeme::Identifier(w) ==> is_word(w) && keyword(w) is None)
}

proof fn lemma_decimal_text_reads_back(w: Seq<char>, f: Seq<char>)
    requires
        w.len() > 0,
        all_digits(w),
        all_digits(f),
    ensures
        is_number_text(decimal_text(w, f)),
{
    lemma_trim_canonical(w, f);
}

proof fn lemma_lexeme_at_reads_back(s: Seq<char>, i: int)
    requires
        0 <= i < s.len(),
    ensures
        lexeme_at(s, i).0 matches Some(k) ==> scanned_literal_ok(k),
{
    let c = s[i];
    if is_digit(c) {
        lemma_run_end(s, i, Class::Digit);
        let w = run_end(s, i, Class::Digit);
        assert(all_digits(s.subrange(i, w)));
        if w + 1 < s.len() && s[w] == '.' && is_digit(s[w + 1]) {
            lemma_run_end(s, w + 1, Class::Digit);
            let f = run_end(s, w + 1, Class::Digit);
            assert(all_digits(s.subrange(w + 1, f)));
            lemma_decimal_text_reads_back(s.subrange(i, w), s.subrange(w + 1, f));
        } else {
            lemma_decimal_text_reads_back(s.subrange(i, w), Seq::empty());
        }
    } else if is_alpha(c) {
        lemma_run_end(s, i, Class::Word);
        let e = run_end(s, i, Class::Word);
        let word = s.subrange(i, e);
        assert forall|j: int| 0 <= j < word.len() implies is_alnum(#[trigger] word[j]) by {
            assert(Class::Word.contains(s[i + j]));
        }
    }
}

pub proof fn lemma_lex_from_reads_back(s: Seq<char>, i: int)
    requires
        0 <= i <= s.len(),
    ensures
        forall|k: int| 0 <= k < lex_from(s, i).len() ==> scanned_literal_ok(#[trigger] lex_from(s, i)[k].kind),
    decreases s.len() - i,
{
    if i < s.len() {
        lemma_lexeme_at_advances(s, i);
        lemma_lexeme_at_reads_back(s, i);
        let (t, e) = lexeme_at(s, i);
        lemma_lex_from_reads_back(s, e);
        let head = emitted(t, line_at(s, e));
        let rest = lex_from(s, e);
        assert(lex_from(s, i) == head + rest);
        assert forall|k: int| 0 <= k < lex_from(s, i).len() implies scanned_literal_ok(
            #[trigger] lex_from(s, i)[k].kind,
        ) by {
            if k >= head.len() {
                assert(lex_from(s, i)[k] == rest[k - head.len()]);
            }
        }
    }
}

/// Every number the scanner makes is in shortest form, and every identifier is a word
/// that is no reserved word: such leaves read back.
pub proof fn lemma_scanned_literals_read_back(s: Seq<char>)
    ensures
        forall|k: int|
            0 <= k < tokens_of(s).len() ==> scanned_literal_ok(#[trigger] tokens_of(s)[k].kind),
{
    lemma_lex_from_reads_back(s, 0);
}

proof fn lemma_scan_number_text(s: Seq<char>)
    requires
        is_number_text(s),
    ensures
        lexeme_at(s, 0) == (Some(Lexeme::Number(s)), s.len() as int),
        forall|i: int| 0 <= i < s.len() ==> #[trigger] s[i] != '\n',
{
    let (w, f) = choose|w: Seq<char>, f: Seq<char>| is_canonical(w, f) && s == number_text(w, f);
    lemma_canonical_trimmed(w, f);
    assert(s.subrange(0, w.len() as int) =~= w);
    assert forall|i: int| 0 <= i < w.len() implies Class::Digit.contains(#[trigger] s[i]) by {
        assert(s[i] == w[i]);
    }
    if f.len() == 0 {
        lemma_run_end_full(s, 0, Class::Digit);
        assert(number_at(s, 0) == (Some(Lexeme::Number(s)), s.len() as int));
    } else {
        let wl = w.len() as int;
        lemma_run_end_at(s, 0, wl, Class::Digit);
        assert(s[wl] == '.');
        assert(s[wl + 1] == f[0]);
        assert forall|i: int| wl + 1 <= i < s.len() implies Class::Digit.contains(#[trigger] s[i]) by {
            assert(s[i] == f[i - wl - 1]);
        }
        lemma_run_end_full(s, wl + 1, Class::Digit);
        assert(s.subrange(wl + 1, s.len() as int) =~= f);
        assert(number_at(s, 0) == (Some(Lexeme::Number(s)), s.len() as int));
    }
    assert forall|i: int| 0 <= i < s.len() implies #[trigger] s[i] != '\n' by {
        if i < w.len() {
            assert(s[i] == w[i]);
        } else if i > w.len() {
            assert(s[i] == f[i - w.len() - 1]);
        }
    }
}

proof fn lemma_scan_word(s: Seq<char>)
    requires
        is_word(s),
    ensures
        lexeme_at(s, 0) == (Some(word_kind(s)), s.len() as int),
        forall|i: int| 0 <= i < s.len() ==> #[trigger] s[i] != '\n',
{
    assert forall|i: int| 0 <= i < s.len() implies Class::Word.contains(#[trigger] s[i]) by {
        assert(is_alnum(s[i]));
    }
    lemma_run_end_full(s, 0, Class::Word);
    assert(s.subrange(0, s.len() as int) =~= s);
    assert forall|i: int| 0 <= i < s.len() implies #[trigger] s[i] != '\n' by {
        assert(is_alnum(s[i]));
    }
}

/// Literal text scans to its literal token and the end of input, both on line 1.
pub proof fn lemma_scan_literal_text(s: Seq<char>)
    requires
        literal_text(s),
    ensures
        tokens_of(s) == seq![
            TokenView { kind: literal_kind(s), line: 1 },
            TokenView { kind: Lexeme::Eof, line: 1 },
        ],
        literal(literal_kind(s)),
        lexeme_text(literal_kind(s)) == s,
{
    if is_number_text(s) {
        lemma_scan_number_text(s);
    } else {
        lemma_scan_word(s);
        assert(word_kind(s) == literal_kind(s));
        if let Some(k) = keyword(s) {
            assert(spelling(k) == s);
        }
    }
    assert(s.len() > 0) by {
        if is_number_text(s) {
            let (w, f) = choose|w: Seq<char>, f: Seq<char>| is_canonical(w, f) && s == number_text(w, f);
            assert(s.len() >= w.len());
        }
    }
    lemma_no_newlines(s);
    assert(s.take(s.len() as int) =~= s);
    assert(line_at(s, s.len() as int) == 1);
    assert(lex_from(s, s.len() as int) == seq![TokenView { kind: Lexeme::Eof, line: 1 }]);
    assert(tokens_of(s) =~= seq![
        TokenView { kind: literal_kind(s), line: 1 },
        TokenView { kind: Lexeme::Eof, line: 1 },
    ]);
}

/// A literal followed by the end of input parses as that literal's leaf.
pub proof fn lemma_parse_single_literal(toks: Seq<TokenView>)
    requires
        toks.len() == 2,
        literal(toks[0].kind),
        toks[1].kind is Eof,
    ensures
        parse_tokens(toks) == Ok::<ExprView, Failure>(ExprView::Lit(toks[0])),
{
    let leaf = ExprView::Lit(toks[0]);
    assert(!unary_op(kind_at(toks, 0)));
    assert(parse_level(toks, 0, 5) == Ok::<(ExprView, int), Failure>((leaf, 1)));
    assert(parse_level(toks, 0, 4) == Ok::<(ExprView, int), Failure>((leaf, 1)));
    assert(!binary_op(3, kind_at(toks, 1)));
    assert(parse_rest(toks, leaf, 1, 3) == Ok::<(ExprView, int), Failure>((leaf, 1)));
    assert(parse_level(toks, 0, 3) == Ok::<(ExprView, int), Failure>((leaf, 1)));
    assert(parse_rest(toks, leaf, 1, 2) == Ok::<(ExprView, int), Failure>((leaf, 1)));
    assert(parse_level(toks, 0, 2) == Ok::<(ExprView, int), Failure>((leaf, 1)));
    assert(parse_rest(toks, leaf, 1, 1) == Ok::<(ExprView, int), Failure>((leaf, 1)));
    assert(parse_level(toks, 0, 1) == Ok::<(ExprView, int), Failure>((leaf, 1)));
    assert(parse_rest(toks, leaf, 1, 0) == Ok::<(ExprView, int), Failure>((leaf, 1)));
    assert(parse_level(toks, 0, 0) == Ok::<(ExprView, int), Failure>((leaf, 1)));
}

/// Scanning and parsing the rendering of a literal leaf whose text reads back gives a
/// tree with the same rendering.
pub proof fn lemma_render_round_trip(e: ExprView)
    requires
        e matches ExprView::Lit(t) && leaf_reads_back(t.kind),
    ensures
        parse_tokens(tokens_of(render(e))) matches Ok(e2) && render(e2) == render(e),
{
    let t = e->Lit_0;
    let s = render(e);
    assert(s == lexeme_text(t.kind));
    if let Lexeme::Fixed(k) = t.kind {
        assert(keyword(spelling(k)) == Some(k));
        assert(is_word(spelling(k)));
    }
    assert(literal_text(s));
    lemma_scan_literal_text(s);
    lemma_parse_single_literal(tokens_of(s));
}

/// The fold of a binary level gives back its left operand, or a binary node.
proof fn lemma_parse_rest_shape(toks: Seq<TokenView>, left: ExprView, pos: int, level: int)
    ensures
        parse_rest(toks, left, pos, level) matches Ok((e, p)) ==> (e == left || e is Binary),
    decreases toks.len() - pos,
{
    if binary_op(level, kind_at(toks, pos)) && 0 <= pos < toks.len() {
        if let Ok((right, p)) = parse_level(toks, pos + 1, level + 1) {
            if pos < p <= toks.len() {
                lemma_parse_rest_shape(
                    toks,
                    ExprView::Binary(Box::new(left), toks[pos], Box::new(right)),
                    p,
                    level,
                );
            }
        }
    }
}

/// A leaf that the parser returns is the literal token at the position it started from.
proof fn lemma_parse_leaf(toks: Seq<TokenView>, pos: int, level: int)
    ensures
        parse_level(toks, pos, level) matches Ok((e, p)) ==> (e is Lit ==> e == ExprView::Lit(
            toks[pos],
        ) && literal(toks[pos].kind)),
    decreases 6 - level,
{
    if level >= 5 {
    } else if level == 4 {
        if !(unary_op(kind_at(toks, pos)) && pos < toks.len()) {
            lemma_parse_leaf(toks, pos, 5);
        }
    } else if level < 0 {
        lemma_parse_leaf(toks, pos, 0);
    } else {
        lemma_parse_leaf(toks, pos, level + 1);
        if let Ok((left, p)) = parse_level(toks, pos, level + 1) {
            lemma_parse_rest_shape(toks, left, p, level);
        }
    }
}

/// For every source text whose tree is one number, identifier, `true`, `false` or `nil`,
/// scanning and parsing the rendering of that tree gives a tree with the same rendering.
pub proof fn lemma_source_round_trip(s: Seq<char>)
    requires
        parse_tokens(tokens_of(s)) matches Ok(e) && (e matches ExprView::Lit(t) && !(t.kind is Str)),
    ensures
        parse_tokens(tokens_of(s)) matches Ok(e) && (parse_tokens(tokens_of(render(e))) matches Ok(
            e2,
        ) && render(e2) == render(e)),
{
    let toks = tokens_of(s);
    let e = parse_tokens(toks)->Ok_0;
    lemma_parse_leaf(toks, 0, 0);
    assert(parse_from(toks, 0) == parse_tokens(toks));
    lemma_scan_ends_with_one_eof(s);
    assert(e == ExprView::Lit(toks[0]));
    lemma_scanned_literals_read_back(s);
    assert(scanned_literal_ok(toks[0].kind));
    lemma_render_round_trip(e);
}

} // verus!
