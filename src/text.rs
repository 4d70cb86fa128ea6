//! Character classes and small helpers over character sequences.
use vstd::prelude::*;

verus! {

/// Relies on `String::push`: the character is appended at the end.
pub assume_specification[ String::push ](s: &mut String, ch: char)
    ensures
        final(s)@ == old(s)@.push(ch),
;

pub open spec fn is_digit(c: char) -> bool {
    '0' <= c && c <= '9'
}

/// Letters of the ASCII alphabet and `_` start an identifier.
pub open spec fn is_alpha(c: char) -> bool {
    ('a' <= c && c <= 'z') || ('A' <= c && c <= 'Z') || c == '_'
}

pub open spec fn is_alnum(c: char) -> bool {
    is_alpha(c) || is_digit(c)
}

pub open spec fn all_digits(s: Seq<char>) -> bool {
    forall|i: int| 0 <= i < s.len() ==> is_digit(#[trigger] s[i])
}

/// The classes of characters that the scanner consumes in runs.
pub enum Class {
    /// `0` to `9`.
    Digit,
    /// Characters that may continue an identifier.
    Word,
    /// Anything but a line break.
    NotNewline,
    /// Anything but a double quote.
    NotQuote,
}

impl Class {
    pub open spec fn contains(self, c: char) -> bool {
        match self {
            Class::Digit => is_digit(c),
            Class::Word => is_alnum(c),
            Class::NotNewline => c != '\n',
            Class::NotQuote => c != '"',
        }
    }
}

/// The end of the longest run of characters of class `p` that starts at `i`.
pub open spec fn run_end(s: Seq<char>, i: int, p: Class) -> int
    decreases s.len() - i,
{
    if 0 <= i < s.len() && p.contains(s[i]) {
        run_end(s, i + 1, p)
    } else {
        i
    }
}

pub proof fn lemma_run_end(s: Seq<char>, i: int, p: Class)
    requires
        0 <= i <= s.len(),
    ensures
        i <= run_end(s, i, p) <= s.len(),
        forall|j: int| i <= j < run_end(s, i, p) ==> p.contains(#[trigger] s[j]),
        run_end(s, i, p) == s.len() || !p.contains(s[run_end(s, i, p)]),
    decreases s.len() - i,
{
    if i < s.len() && p.contains(s[i]) {
        lemma_run_end(s, i + 1, p);
    }
}

/// A run that covers everything up to the end of `s`.
pub proof fn lemma_run_end_full(s: Seq<char>, i: int, p: Class)
    requires
        0 <= i <= s.len(),
        forall|j: int| i <= j < s.len() ==> p.contains(#[trigger] s[j]),
    ensures
        run_end(s, i, p) == s.len(),
    decreases s.len() - i,
{
    if i < s.len() {
        lemma_run_end_full(s, i + 1, p);
    }
}

/// A run that stops at a character that fails `p`.
pub proof fn lemma_run_end_at(s: Seq<char>, i: int, k: int, p: Class)
    requires
        0 <= i <= k < s.len(),
        forall|j: int| i <= j < k ==> p.contains(#[trigger] s[j]),
        !p.contains(s[k]),
    ensures
        run_end(s, i, p) == k,
    decreases k - i,
{
    if i < k {
        lemma_run_end_at(s, i + 1, k, p);
    }
}

/// The number of line breaks in `s`.
pub open spec fn count_newlines(s: Seq<char>) -> nat
    decreases s.len(),
{
    if s.len() == 0 {
        0
    } else {
        count_newlines(s.drop_last()) + if s.last() == '\n' {
            1nat
        } else {
            0nat
        }
    }
}

pub proof fn lemma_no_newlines(s: Seq<char>)
    requires
        forall|i: int| 0 <= i < s.len() ==> #[trigger] s[i] != '\n',
    ensures
        count_newlines(s) == 0,
    decreases s.len(),
{
    if s.len() > 0 {
        lemma_no_newlines(s.drop_last());
    }
}

/// The 1-based line on which position `i` of `s` lies.
pub open spec fn line_at(s: Seq<char>, i: int) -> nat {
    1 + count_newlines(s.take(i))
}

pub proof fn lemma_line_at_step(s: Seq<char>, i: int)
    requires
        0 <= i < s.len(),
    ensures
        line_at(s, i + 1) == line_at(s, i) + if s[i] == '\n' {
            1nat
        } else {
            0nat
        },
{
    assert(s.take(i + 1).drop_last() =~= s.take(i));
}

pub proof fn lemma_line_at_bound(s: Seq<char>, i: int)
    requires
        0 <= i <= s.len(),
    ensures
        line_at(s, i) <= i + 1,
    decreases i,
{
    if i > 0 {
        lemma_line_at_bound(s, i - 1);
        lemma_line_at_step(s, i - 1);
    }
}

pub proof fn lemma_line_at_monotonic(s: Seq<char>, i: int, j: int)
    requires
        0 <= i <= j <= s.len(),
    ensures
        line_at(s, i) <= line_at(s, j),
    decreases j - i,
{
    if i < j {
        lemma_line_at_monotonic(s, i, j - 1);
        lemma_line_at_step(s, j - 1);
    }
}

pub fn is_digit_char(c: char) -> (r: bool)
    ensures
        r == is_digit(c),
{
    '0' <= c && c <= '9'
}

pub fn is_alpha_char(c: char) -> (r: bool)
    ensures
        r == is_alpha(c),
{
    ('a' <= c && c <= 'z') || ('A' <= c && c <= 'Z') || c == '_'
}

pub fn is_alnum_char(c: char) -> (r: bool)
    ensures
        r == is_alnum(c),
{
    is_alpha_char(c) || is_digit_char(c)
}

/// A new `String` holding the characters `s[from..to]`.
pub fn string_of(s: &[char], from: usize, to: usize) -> (r: String)
    requires
        from <= to <= s@.len(),
    ensures
        r@ == s@.subrange(from as int, to as int),
{
    let mut r = String::new();
    let mut i = from;
    while i < to
        invariant
            from <= i <= to <= s@.len(),
            r@ == s@.subrange(from as int, i as int),
        decreases to - i,
    {
        r.push(s[i]);
        assert(s@.subrange(from as int, i + 1) =~= s@.subrange(from as int, i as int).push(s@[i as int]));
        i = i + 1;
    }
    r
}

/// A new `String` holding the characters of `s`.
pub fn string_from(s: &[char]) -> (r: String)
    ensures
        r@ == s@,
{
    let r = string_of(s, 0, s.len());
    assert(s@.subrange(0, s@.len() as int) =~= s@);
    r
}

/// Appends the characters of `s` to `r`.
pub fn push_all(r: &mut String, s: &[char])
    ensures
        final(r)@ == old(r)@ + s@,
{
    let mut i: usize = 0;
    while i < s.len()
        invariant
            i <= s@.len(),
            r@ == old(r)@ + s@.take(i as int),
        decreases s.len() - i,
    {
        r.push(s[i]);
        assert(s@.take(i + 1) =~= s@.take(i as int).push(s@[i as int]));
        i = i + 1;
    }
    assert(s@.take(s@.len() as int) =~= s@);
}

/// The characters of `s`, in order.
pub fn chars_of(s: &str) -> (r: Vec<char>)
    ensures
        r@ == s@,
{
    broadcast use vstd::string::group_string_axioms;

    let mut v: Vec<char> = Vec::new();
    for c in it: s.chars()
        invariant
            v@ == it.seq().take(it.index() as int),
    {
        v.push(c);
    }
    assert(v@ =~= s@);
    v
}

} // verus!
