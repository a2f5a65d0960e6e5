//! Expressions: the recursive tree produced by the parser, the runtime
//! literal values the interpreter computes, and their mathematical views.

use crate::token_type::{Token, TokenView};
use vstd::prelude::*;

verus! {

/// Mathematical view of a runtime value (and of a literal expression):
/// a number, a piece of text, a boolean, or nil.
pub enum ValueView {
    Num(int),
    Str(Seq<char>),
    Bool(bool),
    Nil,
}

/// A literal value: the leaves of the expression tree, and also the type of
/// every value the interpreter produces. Numbers are 64-bit signed integers.
#[derive(Debug)]
pub enum Literal {
    Number(i64),
    String(String),
    Bool(bool),
    Nil,
}

impl View for Literal {
    type V = ValueView;

    open spec fn view(&self) -> ValueView {
        match self {
            Literal::Number(n) => ValueView::Num(*n as int),
            Literal::String(s) => ValueView::Str(s@),
            Literal::Bool(b) => ValueView::Bool(*b),
            Literal::Nil => ValueView::Nil,
        }
    }
}

impl Literal {
    /// An owned copy with the same mathematical value.
    pub fn duplicate(&self) -> (r: Literal)
        ensures
            r@ == self@,
    {
        match self {
            Literal::Number(n) => Literal::Number(*n),
            Literal::String(s) => Literal::String(s.clone()),
            Literal::Bool(b) => Literal::Bool(*b),
            Literal::Nil => Literal::Nil,
        }
    }
}

/// Mathematical view of an expression tree.
pub enum ExprView {
    Literal(ValueView),
    Grouping(Box<ExprView>),
    Unary(TokenView, Box<ExprView>),
    Binary(Box<ExprView>, TokenView, Box<ExprView>),
    Logical(Box<ExprView>, TokenView, Box<ExprView>),
    Variable(TokenView),
    Assign(TokenView, Box<ExprView>),
}

/// An expression: a literal, a parenthesized grouping, a unary or binary
/// operation, a short-circuiting logical operation, a variable read, or an
/// assignment.
#[derive(Debug)]
pub enum Expr {
    Binary(Box<Binary>),
    Grouping(Box<Grouping>),
    Literal(Literal),
    Unary(Box<Unary>),
    Logical(Box<Logical>),
    Variable(Box<Variable>),
    Assign(Box<Assign>),
}

/// A binary operation: left operand, operator token, right operand.
#[derive(Debug)]
pub struct Binary {
    pub left: Expr,
    pub operator: Token,
    pub right: Expr,
}

/// A parenthesized expression.
#[derive(Debug)]
pub struct Grouping {
    pub expression: Expr,
}

/// A prefix operation: operator token and its operand.
#[derive(Debug)]
pub struct Unary {
    pub operator: Token,
    pub right: Expr,
}

/// A short-circuiting `and` / `or` operation.
#[derive(Debug)]
pub struct Logical {
    pub left: Expr,
    pub operator: Token,
    pub right: Expr,
}

/// A variable read, carrying the identifier token.
#[derive(Debug)]
pub struct Variable {
    pub name: Token,
}

/// An assignment to an already declared variable.
#[derive(Debug)]
pub struct Assign {
    pub name: Token,
    pub value: Expr,
}

/// The view of an expression tree, node by node.
pub open spec fn expr_view(e: Expr) -> ExprView
    decreases e,
{
    match e {
        Expr::Binary(b) => ExprView::Binary(
            Box::new(expr_view(b.left)),
            b.operator@,
            Box::new(expr_view(b.right)),
        ),
        Expr::Grouping(g) => ExprView::Grouping(Box::new(expr_view(g.expression))),
        Expr::Literal(l) => ExprView::Literal(l@),
        Expr::Unary(u) => ExprView::Unary(u.operator@, Box::new(expr_view(u.right))),
        Expr::Logical(l) => ExprView::Logical(
            Box::new(expr_view(l.left)),
            l.operator@,
            Box::new(expr_view(l.right)),
        ),
        Expr::Variable(v) => ExprView::Variable(v.name@),
        Expr::Assign(a) => ExprView::Assign(a.name@, Box::new(expr_view(a.value))),
    }
}

impl View for Expr {
    type V = ExprView;

    open spec fn view(&self) -> ExprView {
        expr_view(*self)
    }
}

} // verus!

verus! {

/// The textual rendering of a value as a literal: numbers in decimal, text
/// in quotes, `true` / `false` / `nil` as keywords.
pub open spec fn render_value(v: ValueView) -> Seq<char> {
    match v {
        ValueView::Num(n) => crate::text::dec_int(n),
        ValueView::Str(s) => seq!['"'] + s + seq!['"'],
        ValueView::Bool(b) => if b {
            "true"@
        } else {
            "false"@
        },
        ValueView::Nil => "nil"@,
    }
}

/// The textual rendering of an expression, re-parseable by the grammar:
/// every composite is parenthesized by its own rule, and a grouping adds
/// nothing of its own.
pub open spec fn render_expr(e: ExprView) -> Seq<char>
    decreases e,
{
    match e {
        ExprView::Literal(v) => render_value(v),
        ExprView::Grouping(i) => render_expr(*i),
        ExprView::Unary(op, r) => seq!['('] + op.lexeme + render_expr(*r) + seq![')'],
        ExprView::Binary(l, op, r) => seq!['('] + render_expr(*l) + seq![' '] + op.lexeme + seq![
            ' ',
        ] + render_expr(*r) + seq![')'],
        ExprView::Logical(l, op, r) => seq!['('] + render_expr(*l) + seq![' '] + op.lexeme + seq![
            ' ',
        ] + render_expr(*r) + seq![')'],
        ExprView::Variable(t) => t.lexeme,
        ExprView::Assign(t, v) => seq!['('] + t.lexeme + " = "@ + render_expr(*v) + seq![')'],
    }
}

impl Expr {
    /// Renders this expression as source text the pipeline accepts again:
    /// exactly [`render_expr`].
    pub fn render(&self) -> (s: String)
        ensures
            s@ == render_expr(self@),
        decreases self,
    {
        match self {
            Expr::Literal(l) => {
                match l {
                    Literal::Number(n) => crate::text::render_i64(*n),
                    Literal::String(inner) => {
                        let mut s = String::from_str("\"");
                        s.append(inner.as_str());
                        s.append("\"");
                        proof {
                            reveal_strlit("\"");
                            assert("\""@ =~= seq!['"']);
                        }
                        s
                    },
                    Literal::Bool(b) => if *b {
                        String::from_str("true")
                    } else {
                        String::from_str("false")
                    },
                    Literal::Nil => String::from_str("nil"),
                }
            },
            Expr::Grouping(g) => g.expression.render(),
            Expr::Unary(u) => {
                let mut s = String::from_str("(");
                s.append(u.operator.lexeme.as_str());
                let r = u.right.render();
                s.append(r.as_str());
                s.append(")");
                proof {
                    reveal_strlit("(");
                    reveal_strlit(")");
                    assert("("@ =~= seq!['(']);
                    assert(")"@ =~= seq![')']);
                }
                s
            },
            Expr::Binary(b) => {
                let mut s = String::from_str("(");
                let l = b.left.render();
                s.append(l.as_str());
                s.append(" ");
                s.append(b.operator.lexeme.as_str());
                s.append(" ");
                let r = b.right.render();
                s.append(r.as_str());
                s.append(")");
                proof {
                    reveal_strlit("(");
                    reveal_strlit(")");
                    reveal_strlit(" ");
                    assert("("@ =~= seq!['(']);
                    assert(")"@ =~= seq![')']);
                    assert(" "@ =~= seq![' ']);
                }
                s
            },
            Expr::Logical(b) => {
                let mut s = String::from_str("(");
                let l = b.left.render();
                s.append(l.as_str());
                s.append(" ");
                s.append(b.operator.lexeme.as_str());
                s.append(" ");
                let r = b.right.render();
                s.append(r.as_str());
                s.append(")");
                proof {
                    reveal_strlit("(");
                    reveal_strlit(")");
                    reveal_strlit(" ");
                    assert("("@ =~= seq!['(']);
                    assert(")"@ =~= seq![')']);
                    assert(" "@ =~= seq![' ']);
                }
                s
            },
            Expr::Variable(v) => v.name.lexeme.clone(),
            Expr::Assign(a) => {
                let mut s = String::from_str("(");
                s.append(a.name.lexeme.as_str());
                s.append(" = ");
                let r = a.value.render();
                s.append(r.as_str());
                s.append(")");
                proof {
                    reveal_strlit("(");
                    reveal_strlit(")");
                    assert("("@ =~= seq!['(']);
                    assert(")"@ =~= seq![')']);
                }
                s
            },
        }
    }
}

} // verus!
