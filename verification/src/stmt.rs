//! Statements: the top-level units of a program, and their mathematical
//! views.

use crate::expr::{Expr as Expression, ExprView};
use crate::token_type::{Token, TokenView};
use vstd::prelude::*;

verus! {

/// Mathematical view of a statement.
pub enum StmtView {
    Expr(ExprView),
    Print(ExprView),
    VarDec(TokenView, Option<ExprView>),
    Block(Seq<StmtView>),
    If(ExprView, Box<StmtView>, Option<Box<StmtView>>),
    While(ExprView, Box<StmtView>),
}

/// A statement: an expression evaluated for effect, a `print`, a variable
/// declaration, a braced block, a conditional, or a loop.
#[derive(Debug)]
pub enum Stmt {
    Expr(Expr),
    Print(Print),
    VarDec(VarDec),
    Block(Block),
    If(If),
    While(While),
}

/// An expression statement: evaluated, result discarded.
#[derive(Debug)]
pub struct Expr {
    pub expression: Expression,
}

/// A `print` statement: the display form of the value goes to the output.
#[derive(Debug)]
pub struct Print {
    pub expression: Expression,
}

/// A `var` declaration with an optional initializer.
#[derive(Debug)]
pub struct VarDec {
    pub name: Token,
    pub expression: Option<Expression>,
}

/// A braced block: its statements run in a fresh child scope.
#[derive(Debug)]
pub struct Block {
    pub statements: Vec<Stmt>,
}

/// A conditional with an optional `else` branch.
#[derive(Debug)]
pub struct If {
    pub condition: Expression,
    pub then_branch: Box<Stmt>,
    pub else_branch: Option<Box<Stmt>>,
}

/// A `while` loop.
#[derive(Debug)]
pub struct While {
    pub condition: Expression,
    pub body: Box<Stmt>,
}

/// The view of a statement, node by node.
pub open spec fn stmt_view(s: Stmt) -> StmtView
    decreases s,
{
    match s {
        Stmt::Expr(e) => StmtView::Expr(e.expression@),
        Stmt::Print(p) => StmtView::Print(p.expression@),
        Stmt::VarDec(v) => StmtView::VarDec(
            v.name@,
            match v.expression {
                Option::Some(e) => Option::Some(e@),
                Option::None => Option::None,
            },
        ),
        Stmt::Block(b) => StmtView::Block(stmts_view(b.statements@)),
        Stmt::If(i) => StmtView::If(
            i.condition@,
            Box::new(stmt_view(*i.then_branch)),
            match i.else_branch {
                Option::Some(e) => Option::Some(Box::new(stmt_view(*e))),
                Option::None => Option::None,
            },
        ),
        Stmt::While(w) => StmtView::While(w.condition@, Box::new(stmt_view(*w.body))),
    }
}

impl View for Stmt {
    type V = StmtView;

    open spec fn view(&self) -> StmtView {
        stmt_view(*self)
    }
}

/// The views of a sequence of statements, elementwise.
pub open spec fn stmts_view(ss: Seq<Stmt>) -> Seq<StmtView>
    decreases ss,
{
    if ss.len() == 0 {
        Seq::empty()
    } else {
        stmts_view(ss.drop_last()).push(stmt_view(ss.last()))
    }
}

/// `stmts_view` maps element by element.
pub proof fn lemma_stmts_view(ss: Seq<Stmt>)
    ensures
        stmts_view(ss).len() == ss.len(),
        forall|i: int| 0 <= i < ss.len() ==> stmts_view(ss)[i] == #[trigger] ss[i]@,
    decreases ss,
{
    if ss.len() > 0 {
        lemma_stmts_view(ss.drop_last());
        assert forall|i: int| 0 <= i < ss.len() implies stmts_view(ss)[i] == #[trigger] ss[i]@ by {
            if i < ss.len() - 1 {
                assert(ss.drop_last()[i] == ss[i]);
                assert(stmts_view(ss)[i] == stmts_view(ss.drop_last())[i]);
            }
        }
    }
}

/// Appending a statement appends its view.
pub proof fn lemma_stmts_view_push(ss: Seq<Stmt>, s: Stmt)
    ensures
        stmts_view(ss.push(s)) == stmts_view(ss).push(s@),
{
    assert(ss.push(s).drop_last() =~= ss);
    assert(ss.push(s).last() == s);
}

} // verus!
