//! Numeric literals, held exactly as decimal text.
use vstd::prelude::*;
use vstd::slice::slice_subrange;
use crate::text::{Class, all_digits, chars_of, is_digit_char, push_all, run_end, string_of};

verus! {

/// The whole-number digits without redundant leading zeros; one digit always stays.
pub open spec fn trim_leading_zeros(w: Seq<char>) -> Seq<char>
    decreases w.len(),
{
    if w.len() > 1 && w[0] == '0' {
        trim_leading_zeros(w.drop_first())
    } else {
        w
    }
}

/// The fractional digits without trailing zeros.
pub open spec fn trim_trailing_zeros(f: Seq<char>) -> Seq<char>
    decreases f.len(),
{
    if f.len() > 0 && f.last() == '0' {
        trim_trailing_zeros(f.drop_last())
    } else {
        f
    }
}

/// `whole`, followed by a point and `frac` when there is a fractional part.
pub open spec fn number_text(whole: Seq<char>, frac: Seq<char>) -> Seq<char> {
    if frac.len() == 0 {
        whole
    } else {
        whole + seq!['.'] + frac
    }
}

/// The shortest decimal text of the value written `whole.frac`.
pub open spec fn decimal_text(whole: Seq<char>, frac: Seq<char>) -> Seq<char> {
    number_text(trim_leading_zeros(whole), trim_trailing_zeros(frac))
}

/// Digits in the shortest form: no leading zero on the whole part (but for `0` itself)
/// and no trailing zero on the fractional part.
pub open spec fn is_canonical(whole: Seq<char>, frac: Seq<char>) -> bool {
    &&& whole.len() > 0
    &&& all_digits(whole)
    &&& (whole.len() == 1 || whole[0] != '0')
    &&& all_digits(frac)
    &&& (frac.len() == 0 || frac.last() != '0')
}

/// Number literal syntax: a run of digits, optionally followed by a point and
/// a second run of digits.
pub open spec fn is_number_lexeme(t: Seq<char>) -> bool {
    let w = run_end(t, 0, Class::Digit);
    &&& w > 0
    &&& (w == t.len() || (t[w] == '.' && w + 1 < t.len() && run_end(t, w + 1, Class::Digit)
        == t.len()))
}

/// The decimal text of the value that a number lexeme denotes.
pub open spec fn lexeme_value(t: Seq<char>) -> Seq<char> {
    let w = run_end(t, 0, Class::Digit);
    if w == t.len() {
        decimal_text(t, Seq::empty())
    } else {
        decimal_text(t.take(w), t.skip(w + 1))
    }
}

pub proof fn lemma_trim_leading_zeros(w: Seq<char>)
    requires
        w.len() > 0,
        all_digits(w),
    ensures
        trim_leading_zeros(w).len() > 0,
        all_digits(trim_leading_zeros(w)),
        trim_leading_zeros(w).len() == 1 || trim_leading_zeros(w)[0] != '0',
    decreases w.len(),
{
    if w.len() > 1 && w[0] == '0' {
        lemma_trim_leading_zeros(w.drop_first());
    }
}

pub proof fn lemma_trim_trailing_zeros(f: Seq<char>)
    requires
        all_digits(f),
    ensures
        all_digits(trim_trailing_zeros(f)),
        trim_trailing_zeros(f).len() == 0 || trim_trailing_zeros(f).last() != '0',
    decreases f.len(),
{
    if f.len() > 0 && f.last() == '0' {
        lemma_trim_trailing_zeros(f.drop_last());
    }
}

/// Trimming digits gives canonical digits.
pub proof fn lemma_trim_canonical(whole: Seq<char>, frac: Seq<char>)
    requires
        whole.len() > 0,
        all_digits(whole),
        all_digits(frac),
    ensures
        is_canonical(trim_leading_zeros(whole), trim_trailing_zeros(frac)),
{
    lemma_trim_leading_zeros(whole);
    lemma_trim_trailing_zeros(frac);
}

/// Canonical digits are left as they are by trimming.
pub proof fn lemma_canonical_trimmed(whole: Seq<char>, frac: Seq<char>)
    requires
        is_canonical(whole, frac),
    ensures
        trim_leading_zeros(whole) == whole,
        trim_trailing_zeros(frac) == frac,
        decimal_text(whole, frac) == number_text(whole, frac),
{
}

/// A number, kept as the shortest decimal text of its value (`6`, `123.45`, `0.5`).
#[derive(Debug, PartialEq)]
pub struct Number {
    text: String,
}

impl View for Number {
    type V = Seq<char>;

    closed spec fn view(&self) -> Seq<char> {
        self.text@
    }
}

impl Number {
    /// The number written with the digits `whole`, a point, and the digits `frac`.
    pub fn from_digits(whole: &[char], frac: &[char]) -> (n: Number)
        requires
            whole@.len() > 0,
            all_digits(whole@),
            all_digits(frac@),
        ensures
            n@ == decimal_text(whole@, frac@),
    {
        let mut a: usize = 0;
        assert(whole@.skip(0) =~= whole@);
        while a < whole.len() - 1 && whole[a] == '0'
            invariant
                a < whole@.len(),
                trim_leading_zeros(whole@) == trim_leading_zeros(whole@.skip(a as int)),
            decreases whole.len() - a,
        {
            assert(whole@.skip(a as int).drop_first() =~= whole@.skip(a + 1));
            a = a + 1;
        }
        let mut b: usize = frac.len();
        assert(frac@.take(b as int) =~= frac@);
        while b > 0 && frac[b - 1] == '0'
            invariant
                b <= frac@.len(),
                trim_trailing_zeros(frac@) == trim_trailing_zeros(frac@.take(b as int)),
            decreases b,
        {
            assert(frac@.take(b as int).drop_last() =~= frac@.take(b - 1));
            b = b - 1;
        }
        let mut text = string_of(whole, a, whole.len());
        if b > 0 {
            text.push('.');
            push_all(&mut text, slice_subrange(frac, 0, b));
        }
        assert(whole@.skip(a as int) =~= whole@.subrange(a as int, whole@.len() as int));
        assert(frac@.take(b as int) =~= frac@.subrange(0, b as int));
        Number { text }
    }

    /// Reads a number literal (`12`, `3.50`); `None` for any other text.
    pub fn parse(s: &str) -> (r: Option<Number>)
        ensures
            r is Some <==> is_number_lexeme(s@),
            r matches Some(n) ==> n@ == lexeme_value(s@),
    {
        let t = chars_of(s);
        let ghost g = t@;
        let mut w: usize = 0;
        while w < t.len() && is_digit_char(t[w])
            invariant
                g == t@,
                w <= t@.len(),
                run_end(g, 0, Class::Digit) == run_end(g, w as int, Class::Digit),
                all_digits(g.take(w as int)),
            decreases t.len() - w,
        {
            assert(g.take(w + 1) =~= g.take(w as int).push(g[w as int]));
            w = w + 1;
        }
        if w == 0 {
            return None;
        }
        if w == t.len() {
            assert(g.take(w as int) =~= g);
            return Some(Number::from_digits(t.as_slice(), slice_subrange(t.as_slice(), 0, 0)));
        }
        if t[w] != '.' || w + 1 == t.len() {
            return None;
        }
        let mut f: usize = w + 1;
        while f < t.len() && is_digit_char(t[f])
            invariant
                g == t@,
                w < t@.len(),
                w + 1 <= f <= t@.len(),
                run_end(g, w + 1, Class::Digit) == run_end(g, f as int, Class::Digit),
                all_digits(g.subrange(w + 1, f as int)),
            decreases t.len() - f,
        {
            assert(g.subrange(w + 1, f + 1) =~= g.subrange(w + 1, f as int).push(g[f as int]));
            f = f + 1;
        }
        if f < t.len() {
            return None;
        }
        assert(g.take(w as int) =~= g.subrange(0, w as int));
        assert(g.skip(w + 1) =~= g.subrange(w + 1, f as int));
        Some(
            Number::from_digits(
                slice_subrange(t.as_slice(), 0, w),
                slice_subrange(t.as_slice(), w + 1, t.len()),
            ),
        )
    }

    /// A copy of this number.
    pub fn duplicate(&self) -> (r: Number)
        ensures
            r@ == self@,
    {
        Number { text: self.text.clone() }
    }

    /// The decimal text of the number.
    pub fn render(&self) -> (r: String)
        ensures
            r@ == self@,
    {
        self.text.clone()
    }
}

} // verus!
