//! The expression tree that the parser builds, and its prefix rendering.
use vstd::prelude::*;
use crate::text::push_all;
use crate::token::{Token, TokenView, lexeme_text};

verus! {

#[derive(Debug)]
pub enum Expr {
    Binary { left: Box<Expr>, operator: Token, right: Box<Expr> },
    Grouping { expression: Box<Expr> },
    Lit(Token),
    Unary { operator: Token, right: Box<Expr> },
}

/// An expression tree as a mathematical value.
pub enum ExprView {
    Binary(Box<ExprView>, TokenView, Box<ExprView>),
    Grouping(Box<ExprView>),
    Lit(TokenView),
    Unary(TokenView, Box<ExprView>),
}

impl View for Expr {
    type V = ExprView;

    open spec fn view(&self) -> ExprView
        decreases self,
    {
        match self {
            Expr::Binary { left, operator, right } => ExprView::Binary(
                Box::new((**left)@),
                operator@,
                Box::new((**right)@),
            ),
            Expr::Grouping { expression } => ExprView::Grouping(Box::new((**expression)@)),
            Expr::Lit(t) => ExprView::Lit(t@),
            Expr::Unary { operator, right } => ExprView::Unary(operator@, Box::new((**right)@)),
        }
    }
}

pub open spec fn group_word() -> Seq<char> {
    seq!['g', 'r', 'o', 'u', 'p']
}

/// The fully parenthesized prefix form of an expression: `(op left right)`, `(op operand)`,
/// `(group inner)`, and a literal's own text.
pub open spec fn render(e: ExprView) -> Seq<char>
    decreases e,
{
    match e {
        ExprView::Binary(l, op, r) => seq!['('] + lexeme_text(op.kind) + seq![' '] + render(*l)
            + seq![' '] + render(*r) + seq![')'],
        ExprView::Grouping(x) => seq!['('] + group_word() + seq![' '] + render(*x) + seq![')'],
        ExprView::Lit(t) => lexeme_text(t.kind),
        ExprView::Unary(op, x) => seq!['('] + lexeme_text(op.kind) + seq![' '] + render(*x)
            + seq![')'],
    }
}

impl Expr {
    /// Appends the prefix form of this expression to `out`.
    pub fn render_into(&self, out: &mut String)
        ensures
            final(out)@ == old(out)@ + render(self@),
        decreases self,
    {
        match self {
            Expr::Binary { left, operator, right } => {
                out.push('(');
                out.append(operator.render().as_str());
                out.push(' ');
                left.render_into(out);
                out.push(' ');
                right.render_into(out);
                out.push(')');
                assert(out@ =~= old(out)@ + render(self@));
            },
            Expr::Grouping { expression } => {
                out.push('(');
                push_all(out, &['g', 'r', 'o', 'u', 'p']);
                out.push(' ');
                expression.render_into(out);
                out.push(')');
                assert(out@ =~= old(out)@ + render(self@));
            },
            Expr::Lit(t) => {
                out.append(t.render().as_str());
            },
            Expr::Unary { operator, right } => {
                out.push('(');
                out.append(operator.render().as_str());
                out.push(' ');
                right.render_into(out);
                out.push(')');
                assert(out@ =~= old(out)@ + render(self@));
            },
        }
    }

    /// The prefix form of this expression, as in `(* (- 123) (group 45.67))`.
    pub fn render(&self) -> (r: String)
        ensures
            r@ == render(self@),
    {
        let mut out = String::new();
        self.render_into(&mut out);
        assert(out@ =~= render(self@));
        out
    }
}

} // verus!
