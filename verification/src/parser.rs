//! The parser: token sequence to statement list, by recursive descent over
//! a fixed operator-precedence cascade, with one-token lookahead and no
//! recovery — the first syntax error aborts the parse.
//!
//! The grammar is written down once as total specification functions
//! (`p_program` down to `p_primary`), each returning what it parsed and
//! where the next one begins, or the error message; the executable parser
//! is proved to return exactly that.

use crate::expr::{Assign, Binary, Expr, ExprView, Grouping, Literal, Logical, Unary, Variable};
use crate::stmt::{stmts_view, Block, If, Print, Stmt, StmtView, VarDec, While};
use crate::text::dec_int;
use crate::token_type::{tokens_view, LitView, Token, TokenType, TokenView};
use vstd::prelude::*;

verus! {

/// A parse error: the description of the first offending construct.
#[derive(Debug)]
pub struct ParseError {
    pub description: String,
}

/// The name of a token kind, as diagnostics cite it.
pub open spec fn kind_name(k: TokenType) -> Seq<char> {
    match k {
        TokenType::LeftParen => "LeftParen"@,
        TokenType::RightParen => "RightParen"@,
        TokenType::LeftBrace => "LeftBrace"@,
        TokenType::RightBrace => "RightBrace"@,
        TokenType::Comma => "Comma"@,
        TokenType::Dot => "Dot"@,
        TokenType::Minus => "Minus"@,
        TokenType::Plus => "Plus"@,
        TokenType::Semicolon => "Semicolon"@,
        TokenType::Slash => "Slash"@,
        TokenType::Star => "Star"@,
        TokenType::Bang => "Bang"@,
        TokenType::BangEqual => "BangEqual"@,
        TokenType::Equal => "Equal"@,
        TokenType::EqualEqual => "EqualEqual"@,
        TokenType::Greater => "Greater"@,
        TokenType::GreaterEqual => "GreaterEqual"@,
        TokenType::Less => "Less"@,
        TokenType::LessEqual => "LessEqual"@,
        TokenType::Identifier => "Identifier"@,
        TokenType::String => "String"@,
        TokenType::Number => "Number"@,
        TokenType::And => "And"@,
        TokenType::Class => "Class"@,
        TokenType::Else => "Else"@,
        TokenType::False => "False"@,
        TokenType::For => "For"@,
        TokenType::Fun => "Fun"@,
        TokenType::If => "If"@,
        TokenType::Nil => "Nil"@,
        TokenType::Or => "Or"@,
        TokenType::Print => "Print"@,
        TokenType::Return => "Return"@,
        TokenType::Super => "Super"@,
        TokenType::This => "This"@,
        TokenType::True => "True"@,
        TokenType::Var => "Var"@,
        TokenType::While => "While"@,
        TokenType::Eof => "Eof"@,
    }
}

/// How a token shows in a diagnostic: its literal value if it carries one,
/// else its lexeme.
pub open spec fn token_text(t: TokenView) -> Seq<char> {
    match t.literal {
        Option::Some(LitView::Num(n)) => dec_int(n),
        Option::Some(LitView::Str(s)) => s,
        Option::None => t.lexeme,
    }
}

/// Positions only move forward: the continuation of a sub-parse that began
/// at `pos` and reported `p` (sub-parses always consume at least one
/// token, so the clamp is never felt).
pub open spec fn bump(pos: int, p: int) -> int {
    if p > pos {
        p
    } else {
        pos + 1
    }
}

/// Whether `k` is a binary operator of precedence level `lvl`
/// (1 highest: `/` `*`; then `-` `+`; comparisons; `!=` `==` lowest).
pub open spec fn bin_op_of(lvl: int, k: TokenType) -> bool {
    if lvl == 4 {
        k == TokenType::BangEqual || k == TokenType::EqualEqual
    } else if lvl == 3 {
        k == TokenType::Greater || k == TokenType::GreaterEqual || k == TokenType::Less || k
            == TokenType::LessEqual
    } else if lvl == 2 {
        k == TokenType::Minus || k == TokenType::Plus
    } else if lvl == 1 {
        k == TokenType::Slash || k == TokenType::Star
    } else {
        false
    }
}

/// Whether `k` is the logical operator of level `lvl` (2: `or`, 1: `and`).
pub open spec fn logic_op_of(lvl: int, k: TokenType) -> bool {
    if lvl == 2 {
        k == TokenType::Or
    } else if lvl == 1 {
        k == TokenType::And
    } else {
        false
    }
}

/// `primary`: a literal, an identifier, or a parenthesized expression.
pub open spec fn p_primary(t: Seq<TokenView>, pos: int) -> Result<(ExprView, int), Seq<char>>
    decreases vstd::math::max(t.len() - pos, 0), 2int,
{
    if pos < 0 || pos >= t.len() {
        Result::Err("Expected a token"@)
    } else {
        let tok = t[pos];
        if tok.kind == TokenType::False {
            Result::Ok((ExprView::Literal(crate::expr::ValueView::Bool(false)), pos + 1))
        } else if tok.kind == TokenType::True {
            Result::Ok((ExprView::Literal(crate::expr::ValueView::Bool(true)), pos + 1))
        } else if tok.kind == TokenType::Nil {
            Result::Ok((ExprView::Literal(crate::expr::ValueView::Nil), pos + 1))
        } else if tok.kind == TokenType::Number {
            match tok.literal {
                Option::Some(LitView::Num(n)) => Result::Ok(
                    (ExprView::Literal(crate::expr::ValueView::Num(n)), pos + 1),
                ),
                _ => Result::Err("Number token did not contain a Number"@),
            }
        } else if tok.kind == TokenType::String {
            match tok.literal {
                Option::Some(LitView::Str(s)) => Result::Ok(
                    (ExprView::Literal(crate::expr::ValueView::Str(s)), pos + 1),
                ),
                _ => Result::Err("String token did not contain a String"@),
            }
        } else if tok.kind == TokenType::Identifier {
            Result::Ok((ExprView::Variable(tok), pos + 1))
        } else if tok.kind == TokenType::LeftParen {
            match p_expression(t, pos + 1) {
                Result::Ok((e, p)) => {
                    let p2 = bump(pos + 1, p);
                    if p2 < t.len() && t[p2].kind == TokenType::RightParen {
                        Result::Ok((ExprView::Grouping(Box::new(e)), p2 + 1))
                    } else {
                        Result::Err("Grouping did not end in right paren"@)
                    }
                },
                Result::Err(m) => Result::Err(m),
            }
        } else {
            Result::Err(
                "Unexpected token: "@ + token_text(tok) + " ("@ + kind_name(tok.kind) + ")"@,
            )
        }
    }
}

/// `unary`: `!` or `-` applied to a unary, else a primary.
pub open spec fn p_unary(t: Seq<TokenView>, pos: int) -> Result<(ExprView, int), Seq<char>>
    decreases vstd::math::max(t.len() - pos, 0), 4int,
{
    if 0 <= pos < t.len() && (t[pos].kind == TokenType::Bang || t[pos].kind == TokenType::Minus) {
        match p_unary(t, pos + 1) {
            Result::Ok((e, p)) => Result::Ok(
                (ExprView::Unary(t[pos], Box::new(e)), bump(pos + 1, p)),
            ),
            Result::Err(m) => Result::Err(m),
        }
    } else {
        p_primary(t, pos)
    }
}

/// A binary precedence level: its operand level left-folded over its
/// operators.
pub open spec fn p_bin(t: Seq<TokenView>, pos: int, lvl: int) -> Result<
    (ExprView, int),
    Seq<char>,
>
    decreases vstd::math::max(t.len() - pos, 0), 5 + 2 * vstd::math::max(lvl, 0),
{
    if lvl <= 0 {
        p_unary(t, pos)
    } else {
        match p_bin(t, pos, lvl - 1) {
            Result::Ok((e, p)) => p_bin_tail(t, e, bump(pos - 1, p), lvl),
            Result::Err(m) => Result::Err(m),
        }
    }
}

/// The left-fold of one binary level: as long as the next token is one of
/// its operators, parse another operand and fold it in.
pub open spec fn p_bin_tail(t: Seq<TokenView>, acc: ExprView, pos: int, lvl: int) -> Result<
    (ExprView, int),
    Seq<char>,
>
    decreases vstd::math::max(t.len() - pos, 0), 4 + 2 * vstd::math::max(lvl, 0),
{
    if 0 <= pos < t.len() && bin_op_of(lvl, t[pos].kind) {
        match p_bin(t, pos + 1, lvl - 1) {
            Result::Ok((r, p2)) => p_bin_tail(
                t,
                ExprView::Binary(Box::new(acc), t[pos], Box::new(r)),
                bump(pos, p2),
                lvl,
            ),
            Result::Err(m) => Result::Err(m),
        }
    } else {
        Result::Ok((acc, pos))
    }
}

/// A logical precedence level (`and` above `or`), left-folded like the
/// binary levels but building short-circuiting nodes.
pub open spec fn p_logic(t: Seq<TokenView>, pos: int, lvl: int) -> Result<
    (ExprView, int),
    Seq<char>,
>
    decreases vstd::math::max(t.len() - pos, 0), 14 + 2 * vstd::math::max(lvl, 1),
{
    let sub = if lvl <= 1 {
        p_bin(t, pos, 4)
    } else {
        p_logic(t, pos, lvl - 1)
    };
    match sub {
        Result::Ok((e, p)) => p_logic_tail(t, e, bump(pos - 1, p), lvl),
        Result::Err(m) => Result::Err(m),
    }
}

/// The left-fold of one logical level.
pub open spec fn p_logic_tail(t: Seq<TokenView>, acc: ExprView, pos: int, lvl: int) -> Result<
    (ExprView, int),
    Seq<char>,
>
    decreases vstd::math::max(t.len() - pos, 0), 13 + 2 * vstd::math::max(lvl, 1),
{
    if 0 <= pos < t.len() && logic_op_of(lvl, t[pos].kind) {
        let sub = if lvl <= 1 {
            p_bin(t, pos + 1, 4)
        } else {
            p_logic(t, pos + 1, lvl - 1)
        };
        match sub {
            Result::Ok((r, p2)) => p_logic_tail(
                t,
                ExprView::Logical(Box::new(acc), t[pos], Box::new(r)),
                bump(pos, p2),
                lvl,
            ),
            Result::Err(m) => Result::Err(m),
        }
    } else {
        Result::Ok((acc, pos))
    }
}

/// `assignment`: a bare variable followed by `=` assigns; any other left
/// side of `=` is the error `Invalid assignment target`.
pub open spec fn p_assignment(t: Seq<TokenView>, pos: int) -> Result<(ExprView, int), Seq<char>>
    decreases vstd::math::max(t.len() - pos, 0), 19int,
{
    match p_logic(t, pos, 2) {
        Result::Ok((e, p0)) => {
            let p = bump(pos - 1, p0);
            if p < t.len() && t[p].kind == TokenType::Equal {
                match p_assignment(t, p + 1) {
                    Result::Ok((v, p2)) => match e {
                        ExprView::Variable(name) => Result::Ok(
                            (ExprView::Assign(name, Box::new(v)), p2),
                        ),
                        _ => Result::Err("Invalid assignment target"@),
                    },
                    Result::Err(m) => Result::Err(m),
                }
            } else {
                Result::Ok((e, p))
            }
        },
        Result::Err(m) => Result::Err(m),
    }
}

/// `expression`: the whole cascade, from assignment down.
pub open spec fn p_expression(t: Seq<TokenView>, pos: int) -> Result<(ExprView, int), Seq<char>>
    decreases vstd::math::max(t.len() - pos, 0), 20int,
{
    p_assignment(t, pos)
}


/// Past the end of the input, the whole expression cascade reports the
/// missing token.
pub proof fn lemma_p_expression_at_end(t: Seq<TokenView>, pos: int)
    requires
        pos >= t.len(),
    ensures
        p_expression(t, pos) == Result::<(ExprView, int), Seq<char>>::Err("Expected a token"@),
{
    reveal_with_fuel(p_bin, 6);
    reveal_with_fuel(p_logic, 3);
    assert(p_unary(t, pos) == p_primary(t, pos));
    assert(p_bin(t, pos, 4) == p_unary(t, pos));
    assert(p_logic(t, pos, 2) == p_bin(t, pos, 4));
    assert(p_assignment(t, pos) is Err);
}

/// The token expected at `pos`, consumed; else the given message, or a
/// note that the input ended.
pub open spec fn p_expect(t: Seq<TokenView>, pos: int, kind: TokenType, msg: Seq<char>) -> Result<
    (TokenView, int),
    Seq<char>,
> {
    if 0 <= pos < t.len() {
        if t[pos].kind == kind {
            Result::Ok((t[pos], pos + 1))
        } else {
            Result::Err(msg)
        }
    } else {
        Result::Err("Expected "@ + kind_name(kind) + " but found nothing"@)
    }
}

/// `varDecl` after its `var`: a name, an optional `=` initializer, and the
/// closing semicolon.
pub open spec fn p_var_declaration(t: Seq<TokenView>, pos: int) -> Result<
    (StmtView, int),
    Seq<char>,
>
    decreases vstd::math::max(t.len() - pos, 0), 34int,
{
    match p_expect(t, pos + 1, TokenType::Identifier, "Expected variable name"@) {
        Result::Ok((name, p1)) => {
            if p1 < t.len() && t[p1].kind == TokenType::Equal {
                match p_expression(t, p1 + 1) {
                    Result::Ok((e, p2)) => {
                        match p_expect(
                            t,
                            p2,
                            TokenType::Semicolon,
                            "Expected variable declaration to end with a semicolon"@,
                        ) {
                            Result::Ok((_s, p3)) => Result::Ok(
                                (StmtView::VarDec(name, Option::Some(e)), p3),
                            ),
                            Result::Err(m) => Result::Err(m),
                        }
                    },
                    Result::Err(m) => Result::Err(m),
                }
            } else {
                match p_expect(
                    t,
                    p1,
                    TokenType::Semicolon,
                    "Expected variable declaration to end with a semicolon"@,
                ) {
                    Result::Ok((_s, p3)) => Result::Ok(
                        (StmtView::VarDec(name, Option::None), p3),
                    ),
                    Result::Err(m) => Result::Err(m),
                }
            }
        },
        Result::Err(m) => Result::Err(m),
    }
}

/// `exprStmt`: an expression closed by a semicolon.
pub open spec fn p_expression_statement(t: Seq<TokenView>, pos: int) -> Result<
    (StmtView, int),
    Seq<char>,
>
    decreases vstd::math::max(t.len() - pos, 0), 34int,
{
    match p_expression(t, pos) {
        Result::Ok((e, p)) => {
            match p_expect(
                t,
                bump(pos - 1, p),
                TokenType::Semicolon,
                "Expected expression statement to end with a semicolon"@,
            ) {
                Result::Ok((_s, p2)) => Result::Ok((StmtView::Expr(e), p2)),
                Result::Err(m) => Result::Err(m),
            }
        },
        Result::Err(m) => Result::Err(m),
    }
}

/// `printStmt` after its `print`: the expression and the closing
/// semicolon.
pub open spec fn p_print_statement(t: Seq<TokenView>, pos: int) -> Result<
    (StmtView, int),
    Seq<char>,
>
    decreases vstd::math::max(t.len() - pos, 0), 34int,
{
    match p_expression(t, pos + 1) {
        Result::Ok((e, p)) => {
            match p_expect(
                t,
                bump(pos, p),
                TokenType::Semicolon,
                "Expected print statement to end with a semicolon"@,
            ) {
                Result::Ok((_s, p2)) => Result::Ok((StmtView::Print(e), p2)),
                Result::Err(m) => Result::Err(m),
            }
        },
        Result::Err(m) => Result::Err(m),
    }
}

/// The declarations of a block, up to its closing brace.
#[verifier::rlimit(60)]
pub open spec fn p_block_items(t: Seq<TokenView>, pos: int) -> Result<
    (Seq<StmtView>, int),
    Seq<char>,
>
    decreases vstd::math::max(t.len() - pos, 0), 39int,
{
    if pos < 0 || pos >= t.len() {
        Result::Err("Expected '}' after block"@)
    } else if t[pos].kind == TokenType::RightBrace {
        Result::Ok((seq![], pos + 1))
    } else if t[pos].kind == TokenType::Eof {
        Result::Err("Expected '}' after block"@)
    } else {
        match p_declaration(t, pos) {
            Result::Ok((s, p)) => match p_block_items(t, bump(pos, p)) {
                Result::Ok((rest, p2)) => Result::Ok((seq![s] + rest, p2)),
                Result::Err(m) => Result::Err(m),
            },
            Result::Err(m) => Result::Err(m),
        }
    }
}

/// `block` after its `{`: declarations to the matching `}`.
pub open spec fn p_block_statement(t: Seq<TokenView>, pos: int) -> Result<
    (StmtView, int),
    Seq<char>,
>
    decreases vstd::math::max(t.len() - pos, 0), 34int,
{
    if pos + 1 > t.len() {
        Result::Err("Expected '}' after block"@)
    } else {
        match p_block_items(t, pos + 1) {
            Result::Ok((ss, p)) => Result::Ok((StmtView::Block(ss), p)),
            Result::Err(m) => Result::Err(m),
        }
    }
}

/// `ifStmt` after its `if`: parenthesized condition, then branch, and an
/// optional `else` branch.
#[verifier::rlimit(60)]
pub open spec fn p_if_statement(t: Seq<TokenView>, pos: int) -> Result<(StmtView, int), Seq<char>>
    decreases vstd::math::max(t.len() - pos, 0), 34int,
{
    match p_expect(t, pos + 1, TokenType::LeftParen, "Expected '(' after 'if'"@) {
        Result::Ok((_l, p1)) => match p_expression(t, p1) {
            Result::Ok((c, p2x)) => {
                let p2 = bump(p1 - 1, p2x);
                match p_expect(t, p2, TokenType::RightParen, "Expected ')' after if condition"@) {
                    Result::Ok((_r, p3)) => match p_statement(t, p3) {
                        Result::Ok((thn, p4x)) => {
                            let p4 = bump(p3 - 1, p4x);
                            if p4 < t.len() && t[p4].kind == TokenType::Else {
                                match p_statement(t, p4 + 1) {
                                    Result::Ok((els, p5)) => Result::Ok(
                                        (
                                            StmtView::If(
                                                c,
                                                Box::new(thn),
                                                Option::Some(Box::new(els)),
                                            ),
                                            p5,
                                        ),
                                    ),
                                    Result::Err(m) => Result::Err(m),
                                }
                            } else {
                                Result::Ok((StmtView::If(c, Box::new(thn), Option::None), p4))
                            }
                        },
                        Result::Err(m) => Result::Err(m),
                    },
                    Result::Err(m) => Result::Err(m),
                }
            },
            Result::Err(m) => Result::Err(m),
        },
        Result::Err(m) => Result::Err(m),
    }
}

/// `whileStmt` after its `while`: parenthesized condition and body.
pub open spec fn p_while_statement(t: Seq<TokenView>, pos: int) -> Result<
    (StmtView, int),
    Seq<char>,
>
    decreases vstd::math::max(t.len() - pos, 0), 34int,
{
    match p_expect(t, pos + 1, TokenType::LeftParen, "Expected '(' after 'while'"@) {
        Result::Ok((_l, p1)) => match p_expression(t, p1) {
            Result::Ok((c, p2x)) => {
                let p2 = bump(p1 - 1, p2x);
                match p_expect(
                    t,
                    p2,
                    TokenType::RightParen,
                    "Expected ')' after while condition"@,
                ) {
                    Result::Ok((_r, p3)) => match p_statement(t, p3) {
                        Result::Ok((body, p4)) => Result::Ok(
                            (StmtView::While(c, Box::new(body)), p4),
                        ),
                        Result::Err(m) => Result::Err(m),
                    },
                    Result::Err(m) => Result::Err(m),
                }
            },
            Result::Err(m) => Result::Err(m),
        },
        Result::Err(m) => Result::Err(m),
    }
}

/// The initializer head of a `for`: absent, a `var` declaration, or an
/// expression statement.
pub open spec fn p_for_init(t: Seq<TokenView>, pos: int) -> Result<
    (Option<StmtView>, int),
    Seq<char>,
>
    decreases vstd::math::max(t.len() - pos, 0), 35int,
{
    if 0 <= pos < t.len() && t[pos].kind == TokenType::Semicolon {
        Result::Ok((Option::None, pos + 1))
    } else if 0 <= pos < t.len() && t[pos].kind == TokenType::Var {
        match p_var_declaration(t, pos) {
            Result::Ok((s, p)) => Result::Ok((Option::Some(s), bump(pos, p))),
            Result::Err(m) => Result::Err(m),
        }
    } else {
        match p_expression_statement(t, pos) {
            Result::Ok((s, p)) => Result::Ok((Option::Some(s), bump(pos - 1, p))),
            Result::Err(m) => Result::Err(m),
        }
    }
}

/// The condition of a `for`: absent when a semicolon follows at once.
pub open spec fn p_for_cond(t: Seq<TokenView>, pos: int) -> Result<
    (Option<ExprView>, int),
    Seq<char>,
>
    decreases vstd::math::max(t.len() - pos, 0), 21int,
{
    if 0 <= pos < t.len() && t[pos].kind == TokenType::Semicolon {
        Result::Ok((Option::None, pos))
    } else {
        match p_expression(t, pos) {
            Result::Ok((e, p)) => Result::Ok((Option::Some(e), bump(pos - 1, p))),
            Result::Err(m) => Result::Err(m),
        }
    }
}

/// The increment of a `for`: absent when the closing paren follows at once.
pub open spec fn p_for_incr(t: Seq<TokenView>, pos: int) -> Result<
    (Option<ExprView>, int),
    Seq<char>,
>
    decreases vstd::math::max(t.len() - pos, 0), 21int,
{
    if 0 <= pos < t.len() && t[pos].kind == TokenType::RightParen {
        Result::Ok((Option::None, pos))
    } else {
        match p_expression(t, pos) {
            Result::Ok((e, p)) => Result::Ok((Option::Some(e), bump(pos - 1, p))),
            Result::Err(m) => Result::Err(m),
        }
    }
}

/// `forStmt` after its `for`: desugared at parse time into a `While` (see
/// [`for_desugar`]).
pub open spec fn p_for_statement(t: Seq<TokenView>, pos: int) -> Result<(StmtView, int), Seq<char>>
    decreases vstd::math::max(t.len() - pos, 0), 34int,
{
    match p_expect(t, pos + 1, TokenType::LeftParen, "Expected '(' after 'for'"@) {
        Result::Ok((_l, p1)) => match p_for_init(t, p1) {
            Result::Ok((initializer, p2)) => match p_for_cond(t, p2) {
                Result::Ok((condition, p3)) => {
                    match p_expect(
                        t,
                        p3,
                        TokenType::Semicolon,
                        "Expected ';' after for condition"@,
                    ) {
                        Result::Ok((_s, p4)) => match p_for_incr(t, p4) {
                            Result::Ok((increment, p5)) => {
                                match p_expect(
                                    t,
                                    p5,
                                    TokenType::RightParen,
                                    "Expected ')' after for increment expression"@,
                                ) {
                                    Result::Ok((_r, p6)) => match p_statement(t, bump(pos, p6)) {
                                        Result::Ok((body, p7)) => Result::Ok(
                                            (
                                                for_desugar(initializer, condition, increment, body),
                                                p7,
                                            ),
                                        ),
                                        Result::Err(m) => Result::Err(m),
                                    },
                                    Result::Err(m) => Result::Err(m),
                                }
                            },
                            Result::Err(m) => Result::Err(m),
                        },
                        Result::Err(m) => Result::Err(m),
                    }
                },
                Result::Err(m) => Result::Err(m),
            },
            Result::Err(m) => Result::Err(m),
        },
        Result::Err(m) => Result::Err(m),
    }
}

/// How a `for` head and body desugar: the increment (if any) runs after
/// the body inside a block; the loop condition defaults to `true`; the
/// initializer (if any) wraps the loop in a block of its own, so its
/// variable is scoped to the loop.
pub open spec fn for_desugar(
    initializer: Option<StmtView>,
    condition: Option<ExprView>,
    increment: Option<ExprView>,
    body: StmtView,
) -> StmtView {
    let body1 = match increment {
        Option::Some(inc) => StmtView::Block(seq![body, StmtView::Expr(inc)]),
        Option::None => body,
    };
    let cond = match condition {
        Option::Some(c) => c,
        Option::None => ExprView::Literal(crate::expr::ValueView::Bool(true)),
    };
    let lp = StmtView::While(cond, Box::new(body1));
    match initializer {
        Option::Some(ini) => StmtView::Block(seq![ini, lp]),
        Option::None => lp,
    }
}

/// `statement`: dispatch on the leading token.
#[verifier::opaque]
pub open spec fn p_statement(t: Seq<TokenView>, pos: int) -> Result<(StmtView, int), Seq<char>>
    decreases vstd::math::max(t.len() - pos, 0), 36int,
{
    if 0 <= pos < t.len() && t[pos].kind == TokenType::Print {
        p_print_statement(t, pos)
    } else if 0 <= pos < t.len() && t[pos].kind == TokenType::LeftBrace {
        p_block_statement(t, pos)
    } else if 0 <= pos < t.len() && t[pos].kind == TokenType::If {
        p_if_statement(t, pos)
    } else if 0 <= pos < t.len() && t[pos].kind == TokenType::While {
        p_while_statement(t, pos)
    } else if 0 <= pos < t.len() && t[pos].kind == TokenType::For {
        p_for_statement(t, pos)
    } else {
        p_expression_statement(t, pos)
    }
}

/// `declaration`: a `var` declaration or a statement.
#[verifier::opaque]
pub open spec fn p_declaration(t: Seq<TokenView>, pos: int) -> Result<(StmtView, int), Seq<char>>
    decreases vstd::math::max(t.len() - pos, 0), 38int,
{
    if 0 <= pos < t.len() && t[pos].kind == TokenType::Var {
        p_var_declaration(t, pos)
    } else {
        p_statement(t, pos)
    }
}

/// The whole program: declarations until the end-of-input token; a token
/// stream that ends without one is itself an error.
#[verifier::rlimit(60)]
pub open spec fn p_program(t: Seq<TokenView>, pos: int) -> Result<(Seq<StmtView>, int), Seq<char>>
    decreases vstd::math::max(t.len() - pos, 0), 40int,
{
    if pos < 0 || pos >= t.len() {
        Result::Err("No Eof found"@)
    } else if t[pos].kind == TokenType::Eof {
        Result::Ok((seq![], pos))
    } else {
        match p_declaration(t, pos) {
            Result::Ok((s, p)) => match p_program(t, bump(pos, p)) {
                Result::Ok((rest, p2)) => Result::Ok((seq![s] + rest, p2)),
                Result::Err(m) => Result::Err(m),
            },
            Result::Err(m) => Result::Err(m),
        }
    }
}

/// What parsing a token sequence yields: the statement views, or the first
/// error's description.
pub open spec fn parse_spec(t: Seq<TokenView>) -> Result<Seq<StmtView>, Seq<char>> {
    match p_program(t, 0) {
        Result::Ok((ss, _p)) => Result::Ok(ss),
        Result::Err(m) => Result::Err(m),
    }
}

} // verus!

verus! {

/// A forward cursor over a token sequence, with one-token lookahead.
#[derive(Debug)]
pub struct Parser {
    pub tokens: Vec<Token>,
    pub pos: usize,
}

impl Parser {
    /// The views of the tokens ahead of and behind the cursor.
    pub open spec fn tv(&self) -> Seq<TokenView> {
        tokens_view(self.tokens@)
    }

    /// Consumes the expected kind of token, or reports `err_msg` (or the
    /// end of the input): exactly [`p_expect`].
    pub fn expect_token(&mut self, expected: TokenType, err_msg: String) -> (r: Result<
        Token,
        ParseError,
    >)
        ensures
            final(self).tokens == old(self).tokens,
            ({
                let r0 = p_expect(old(self).tv(), old(self).pos as int, expected, err_msg@);
                match r0 {
                    Result::Ok((v, p)) => r is Ok && r->Ok_0@ == v && final(self).pos as int == p
                        && old(self).pos < final(self).pos <= old(self).tokens@.len(),
                    Result::Err(m) => r is Err && r->Err_0.description@ == m && final(self).pos
                        == old(self).pos,
                }
            }),
    {
        proof {
            crate::token_type::lemma_tokens_view(self.tokens@);
        }
        if self.pos < self.tokens.len() {
            let t = &self.tokens[self.pos];
            if t.kind == expected {
                let tok = t.duplicate();
                self.pos = self.pos + 1;
                Result::Ok(tok)
            } else {
                Result::Err(ParseError { description: err_msg })
            }
        } else {
            let mut m = String::from_str("Expected ");
            m.append(Self::kind_name_str(expected));
            m.append(" but found nothing");
            Result::Err(ParseError { description: m })
        }
    }

    /// The name of a token kind, as diagnostics cite it.
    pub fn kind_name_str(k: TokenType) -> (r: &'static str)
        ensures
            r@ == kind_name(k),
    {
        match k {
            TokenType::LeftParen => "LeftParen",
            TokenType::RightParen => "RightParen",
            TokenType::LeftBrace => "LeftBrace",
            TokenType::RightBrace => "RightBrace",
            TokenType::Comma => "Comma",
            TokenType::Dot => "Dot",
            TokenType::Minus => "Minus",
            TokenType::Plus => "Plus",
            TokenType::Semicolon => "Semicolon",
            TokenType::Slash => "Slash",
            TokenType::Star => "Star",
            TokenType::Bang => "Bang",
            TokenType::BangEqual => "BangEqual",
            TokenType::Equal => "Equal",
            TokenType::EqualEqual => "EqualEqual",
            TokenType::Greater => "Greater",
            TokenType::GreaterEqual => "GreaterEqual",
            TokenType::Less => "Less",
            TokenType::LessEqual => "LessEqual",
            TokenType::Identifier => "Identifier",
            TokenType::String => "String",
            TokenType::Number => "Number",
            TokenType::And => "And",
            TokenType::Class => "Class",
            TokenType::Else => "Else",
            TokenType::False => "False",
            TokenType::For => "For",
            TokenType::Fun => "Fun",
            TokenType::If => "If",
            TokenType::Nil => "Nil",
            TokenType::Or => "Or",
            TokenType::Print => "Print",
            TokenType::Return => "Return",
            TokenType::Super => "Super",
            TokenType::This => "This",
            TokenType::True => "True",
            TokenType::Var => "Var",
            TokenType::While => "While",
            TokenType::Eof => "Eof",
        }
    }

    /// `primary`: exactly [`p_primary`] at the cursor.
    fn primary(&mut self) -> (r: Result<Expr, ParseError>)
        ensures
            final(self).tokens == old(self).tokens,
            ({
                let r0 = p_primary(old(self).tv(), old(self).pos as int);
                match r0 {
                    Result::Ok((v, p)) => r is Ok && r->Ok_0@ == v && final(self).pos as int == p
                        && old(self).pos < final(self).pos <= old(self).tokens@.len(),
                    Result::Err(m) => r is Err && r->Err_0.description@ == m,
                }
            }),
        decreases vstd::math::max(self.tokens@.len() - self.pos, 0), 2int,
    {
        proof {
            crate::token_type::lemma_tokens_view(self.tokens@);
        }
        if self.pos >= self.tokens.len() {
            return Result::Err(ParseError { description: String::from_str("Expected a token") });
        }
        let kind = self.tokens[self.pos].kind;
        match kind {
            TokenType::False => {
                self.pos = self.pos + 1;
                Result::Ok(Expr::Literal(Literal::Bool(false)))
            },
            TokenType::True => {
                self.pos = self.pos + 1;
                Result::Ok(Expr::Literal(Literal::Bool(true)))
            },
            TokenType::Nil => {
                self.pos = self.pos + 1;
                Result::Ok(Expr::Literal(Literal::Nil))
            },
            TokenType::Number => {
                match &self.tokens[self.pos].literal {
                    Option::Some(crate::token_type::Literal::Number(x)) => {
                        let v = *x;
                        self.pos = self.pos + 1;
                        Result::Ok(Expr::Literal(Literal::Number(v)))
                    },
                    _ => Result::Err(ParseError {
                        description: String::from_str("Number token did not contain a Number"),
                    }),
                }
            },
            TokenType::String => {
                match &self.tokens[self.pos].literal {
                    Option::Some(crate::token_type::Literal::String(x)) => {
                        let v = x.clone();
                        self.pos = self.pos + 1;
                        Result::Ok(Expr::Literal(Literal::String(v)))
                    },
                    _ => Result::Err(ParseError {
                        description: String::from_str("String token did not contain a String"),
                    }),
                }
            },
            TokenType::Identifier => {
                let tok = self.tokens[self.pos].duplicate();
                self.pos = self.pos + 1;
                Result::Ok(Expr::Variable(Box::new(Variable { name: tok })))
            },
            TokenType::LeftParen => {
                self.pos = self.pos + 1;
                match self.expression() {
                    Result::Ok(e) => {
                        if self.pos < self.tokens.len() && self.tokens[self.pos].kind
                            == TokenType::RightParen {
                            self.pos = self.pos + 1;
                            Result::Ok(Expr::Grouping(Box::new(Grouping { expression: e })))
                        } else {
                            Result::Err(ParseError {
                                description: String::from_str(
                                    "Grouping did not end in right paren",
                                ),
                            })
                        }
                    },
                    Result::Err(e) => Result::Err(e),
                }
            },
            _ => {
                let tok = &self.tokens[self.pos];
                let shown: String = match &tok.literal {
                    Option::Some(crate::token_type::Literal::Number(x)) => crate::text::render_i64(
                        *x,
                    ),
                    Option::Some(crate::token_type::Literal::String(x)) => x.clone(),
                    Option::None => tok.lexeme.clone(),
                };
                let mut m = String::from_str("Unexpected token: ");
                m.append(shown.as_str());
                m.append(" (");
                m.append(Self::kind_name_str(tok.kind));
                m.append(")");
                Result::Err(ParseError { description: m })
            },
        }
    }

    /// `unary`: exactly [`p_unary`] at the cursor.
    fn unary(&mut self) -> (r: Result<Expr, ParseError>)
        ensures
            final(self).tokens == old(self).tokens,
            ({
                let r0 = p_unary(old(self).tv(), old(self).pos as int);
                match r0 {
                    Result::Ok((v, p)) => r is Ok && r->Ok_0@ == v && final(self).pos as int == p
                        && old(self).pos < final(self).pos <= old(self).tokens@.len(),
                    Result::Err(m) => r is Err && r->Err_0.description@ == m,
                }
            }),
        decreases vstd::math::max(self.tokens@.len() - self.pos, 0), 4int,
    {
        proof {
            crate::token_type::lemma_tokens_view(self.tokens@);
        }
        if self.pos < self.tokens.len() && (self.tokens[self.pos].kind == TokenType::Bang
            || self.tokens[self.pos].kind == TokenType::Minus) {
            let op = self.tokens[self.pos].duplicate();
            self.pos = self.pos + 1;
            match self.unary() {
                Result::Ok(e) => Result::Ok(
                    Expr::Unary(Box::new(Unary { operator: op, right: e })),
                ),
                Result::Err(e) => Result::Err(e),
            }
        } else {
            self.primary()
        }
    }
}

} // verus!


verus! {

impl Parser {

    /// `factor`: exactly [`p_bin`] at level 1 — left-fold of `/` and `*` over unaries.
    fn factor(&mut self) -> (r: Result<Expr, ParseError>)
        ensures
            final(self).tokens == old(self).tokens,
            ({
                let r0 = p_bin(old(self).tv(), old(self).pos as int, 1);
                match r0 {
                    Result::Ok((v, p)) => r is Ok && r->Ok_0@ == v && final(self).pos as int == p
                        && old(self).pos < final(self).pos <= old(self).tokens@.len(),
                    Result::Err(m) => r is Err && r->Err_0.description@ == m,
                }
            }),
        decreases vstd::math::max(self.tokens@.len() - self.pos, 0), 7int,
    {
        let ghost t = self.tv();
        let ghost pos0 = self.pos as int;
        let mut e: Expr = match self.unary() {
            Result::Ok(v) => v,
            Result::Err(er) => {
                return Result::Err(er);
            },
        };
        proof {
            assert(p_bin(t, pos0, 0) == p_unary(t, pos0));
            assert(p_bin(t, pos0, 1) == p_bin_tail(t, e@, self.pos as int, 1));
        }
        loop
            invariant
                self.tokens == old(self).tokens,
                t == self.tv(),
                pos0 == old(self).pos as int,
                pos0 < self.pos <= self.tokens@.len(),
                p_bin(t, pos0, 1) == p_bin_tail(t, e@, self.pos as int, 1),
            decreases self.tokens@.len() - self.pos,
        {
            proof {
                crate::token_type::lemma_tokens_view(self.tokens@);
            }
            if self.pos < self.tokens.len() && (self.tokens[self.pos].kind == TokenType::Slash || self.tokens[self.pos].kind == TokenType::Star) {
                let ghost op_pos = self.pos as int;
                let ghost preve = e@;
                let op = self.tokens[self.pos].duplicate();
                self.pos = self.pos + 1;
                let right = match self.unary() {
                    Result::Ok(v) => v,
                    Result::Err(er) => {
                        return Result::Err(er);
                    },
                };
                e = Expr::Binary(Box::new(Binary { left: e, operator: op, right }));
                proof {
                    assert(p_bin(t, op_pos + 1, 0) == p_unary(t, op_pos + 1));
                    assert(p_bin_tail(t, preve, op_pos, 1) == p_bin_tail(t, e@, self.pos as int, 1));
                }
            } else {
                return Result::Ok(e);
            }
        }
    }

    /// `term`: exactly [`p_bin`] at level 2 — left-fold of `-` and `+` over factors.
    fn term(&mut self) -> (r: Result<Expr, ParseError>)
        ensures
            final(self).tokens == old(self).tokens,
            ({
                let r0 = p_bin(old(self).tv(), old(self).pos as int, 2);
                match r0 {
                    Result::Ok((v, p)) => r is Ok && r->Ok_0@ == v && final(self).pos as int == p
                        && old(self).pos < final(self).pos <= old(self).tokens@.len(),
                    Result::Err(m) => r is Err && r->Err_0.description@ == m,
                }
            }),
        decreases vstd::math::max(self.tokens@.len() - self.pos, 0), 9int,
    {
        let ghost t = self.tv();
        let ghost pos0 = self.pos as int;
        let mut e: Expr = match self.factor() {
            Result::Ok(v) => v,
            Result::Err(er) => {
                return Result::Err(er);
            },
        };
        proof {
            assert(p_bin(t, pos0, 2) == p_bin_tail(t, e@, self.pos as int, 2));
        }
        loop
            invariant
                self.tokens == old(self).tokens,
                t == self.tv(),
                pos0 == old(self).pos as int,
                pos0 < self.pos <= self.tokens@.len(),
                p_bin(t, pos0, 2) == p_bin_tail(t, e@, self.pos as int, 2),
            decreases self.tokens@.len() - self.pos,
        {
            proof {
                crate::token_type::lemma_tokens_view(self.tokens@);
            }
            if self.pos < self.tokens.len() && (self.tokens[self.pos].kind == TokenType::Minus || self.tokens[self.pos].kind == TokenType::Plus) {
                let ghost op_pos = self.pos as int;
                let ghost preve = e@;
                let op = self.tokens[self.pos].duplicate();
                self.pos = self.pos + 1;
                let right = match self.factor() {
                    Result::Ok(v) => v,
                    Result::Err(er) => {
                        return Result::Err(er);
                    },
                };
                e = Expr::Binary(Box::new(Binary { left: e, operator: op, right }));
                proof {
                    assert(p_bin_tail(t, preve, op_pos, 2) == p_bin_tail(t, e@, self.pos as int, 2));
                }
            } else {
                return Result::Ok(e);
            }
        }
    }

    /// `comparison`: exactly [`p_bin`] at level 3 — left-fold of the orderings over terms.
    fn comparison(&mut self) -> (r: Result<Expr, ParseError>)
        ensures
            final(self).tokens == old(self).tokens,
            ({
                let r0 = p_bin(old(self).tv(), old(self).pos as int, 3);
                match r0 {
                    Result::Ok((v, p)) => r is Ok && r->Ok_0@ == v && final(self).pos as int == p
                        && old(self).pos < final(self).pos <= old(self).tokens@.len(),
                    Result::Err(m) => r is Err && r->Err_0.description@ == m,
                }
            }),
        decreases vstd::math::max(self.tokens@.len() - self.pos, 0), 11int,
    {
        let ghost t = self.tv();
        let ghost pos0 = self.pos as int;
        let mut e: Expr = match self.term() {
            Result::Ok(v) => v,
            Result::Err(er) => {
                return Result::Err(er);
            },
        };
        proof {
            assert(p_bin(t, pos0, 3) == p_bin_tail(t, e@, self.pos as int, 3));
        }
        loop
            invariant
                self.tokens == old(self).tokens,
                t == self.tv(),
                pos0 == old(self).pos as int,
                pos0 < self.pos <= self.tokens@.len(),
                p_bin(t, pos0, 3) == p_bin_tail(t, e@, self.pos as int, 3),
            decreases self.tokens@.len() - self.pos,
        {
            proof {
                crate::token_type::lemma_tokens_view(self.tokens@);
            }
            if self.pos < self.tokens.len() && (self.tokens[self.pos].kind == TokenType::Greater || self.tokens[self.pos].kind == TokenType::GreaterEqual || self.tokens[self.pos].kind == TokenType::Less || self.tokens[self.pos].kind == TokenType::LessEqual) {
                let ghost op_pos = self.pos as int;
                let ghost preve = e@;
                let op = self.tokens[self.pos].duplicate();
                self.pos = self.pos + 1;
                let right = match self.term() {
                    Result::Ok(v) => v,
                    Result::Err(er) => {
                        return Result::Err(er);
                    },
                };
                e = Expr::Binary(Box::new(Binary { left: e, operator: op, right }));
                proof {
                    assert(p_bin_tail(t, preve, op_pos, 3) == p_bin_tail(t, e@, self.pos as int, 3));
                }
            } else {
                return Result::Ok(e);
            }
        }
    }

    /// `equality`: exactly [`p_bin`] at level 4 — left-fold of `!=` and `==` over comparisons.
    fn equality(&mut self) -> (r: Result<Expr, ParseError>)
        ensures
            final(self).tokens == old(self).tokens,
            ({
                let r0 = p_bin(old(self).tv(), old(self).pos as int, 4);
                match r0 {
                    Result::Ok((v, p)) => r is Ok && r->Ok_0@ == v && final(self).pos as int == p
                        && old(self).pos < final(self).pos <= old(self).tokens@.len(),
                    Result::Err(m) => r is Err && r->Err_0.description@ == m,
                }
            }),
        decreases vstd::math::max(self.tokens@.len() - self.pos, 0), 13int,
    {
        let ghost t = self.tv();
        let ghost pos0 = self.pos as int;
        let mut e: Expr = match self.comparison() {
            Result::Ok(v) => v,
            Result::Err(er) => {
                return Result::Err(er);
            },
        };
        proof {
            assert(p_bin(t, pos0, 4) == p_bin_tail(t, e@, self.pos as int, 4));
        }
        loop
            invariant
                self.tokens == old(self).tokens,
                t == self.tv(),
                pos0 == old(self).pos as int,
                pos0 < self.pos <= self.tokens@.len(),
                p_bin(t, pos0, 4) == p_bin_tail(t, e@, self.pos as int, 4),
            decreases self.tokens@.len() - self.pos,
        {
            proof {
                crate::token_type::lemma_tokens_view(self.tokens@);
            }
            if self.pos < self.tokens.len() && (self.tokens[self.pos].kind == TokenType::BangEqual || self.tokens[self.pos].kind == TokenType::EqualEqual) {
                let ghost op_pos = self.pos as int;
                let ghost preve = e@;
                let op = self.tokens[self.pos].duplicate();
                self.pos = self.pos + 1;
                let right = match self.comparison() {
                    Result::Ok(v) => v,
                    Result::Err(er) => {
                        return Result::Err(er);
                    },
                };
                e = Expr::Binary(Box::new(Binary { left: e, operator: op, right }));
                proof {
                    assert(p_bin_tail(t, preve, op_pos, 4) == p_bin_tail(t, e@, self.pos as int, 4));
                }
            } else {
                return Result::Ok(e);
            }
        }
    }

    /// `and`: exactly [`p_logic`] at level 1 — left-fold of `and` over equalities.
    fn and(&mut self) -> (r: Result<Expr, ParseError>)
        ensures
            final(self).tokens == old(self).tokens,
            ({
                let r0 = p_logic(old(self).tv(), old(self).pos as int, 1);
                match r0 {
                    Result::Ok((v, p)) => r is Ok && r->Ok_0@ == v && final(self).pos as int == p
                        && old(self).pos < final(self).pos <= old(self).tokens@.len(),
                    Result::Err(m) => r is Err && r->Err_0.description@ == m,
                }
            }),
        decreases vstd::math::max(self.tokens@.len() - self.pos, 0), 16int,
    {
        let ghost t = self.tv();
        let ghost pos0 = self.pos as int;
        let mut e: Expr = match self.equality() {
            Result::Ok(v) => v,
            Result::Err(er) => {
                return Result::Err(er);
            },
        };
        proof {
            assert(p_logic(t, pos0, 1) == p_logic_tail(t, e@, self.pos as int, 1));
        }
        loop
            invariant
                self.tokens == old(self).tokens,
                t == self.tv(),
                pos0 == old(self).pos as int,
                pos0 < self.pos <= self.tokens@.len(),
                p_logic(t, pos0, 1) == p_logic_tail(t, e@, self.pos as int, 1),
            decreases self.tokens@.len() - self.pos,
        {
            proof {
                crate::token_type::lemma_tokens_view(self.tokens@);
            }
            if self.pos < self.tokens.len() && (self.tokens[self.pos].kind == TokenType::And) {
                let ghost op_pos = self.pos as int;
                let ghost preve = e@;
                let op = self.tokens[self.pos].duplicate();
                self.pos = self.pos + 1;
                let right = match self.equality() {
                    Result::Ok(v) => v,
                    Result::Err(er) => {
                        return Result::Err(er);
                    },
                };
                e = Expr::Logical(Box::new(Logical { left: e, operator: op, right }));
                proof {
                    assert(p_logic_tail(t, preve, op_pos, 1) == p_logic_tail(t, e@, self.pos as int, 1));
                }
            } else {
                return Result::Ok(e);
            }
        }
    }

    /// `or`: exactly [`p_logic`] at level 2 — left-fold of `or` over `and`s.
    fn or(&mut self) -> (r: Result<Expr, ParseError>)
        ensures
            final(self).tokens == old(self).tokens,
            ({
                let r0 = p_logic(old(self).tv(), old(self).pos as int, 2);
                match r0 {
                    Result::Ok((v, p)) => r is Ok && r->Ok_0@ == v && final(self).pos as int == p
                        && old(self).pos < final(self).pos <= old(self).tokens@.len(),
                    Result::Err(m) => r is Err && r->Err_0.description@ == m,
                }
            }),
        decreases vstd::math::max(self.tokens@.len() - self.pos, 0), 18int,
    {
        let ghost t = self.tv();
        let ghost pos0 = self.pos as int;
        let mut e: Expr = match self.and() {
            Result::Ok(v) => v,
            Result::Err(er) => {
                return Result::Err(er);
            },
        };
        proof {
            assert(p_logic(t, pos0, 2) == p_logic_tail(t, e@, self.pos as int, 2));
        }
        loop
            invariant
                self.tokens == old(self).tokens,
                t == self.tv(),
                pos0 == old(self).pos as int,
                pos0 < self.pos <= self.tokens@.len(),
                p_logic(t, pos0, 2) == p_logic_tail(t, e@, self.pos as int, 2),
            decreases self.tokens@.len() - self.pos,
        {
            proof {
                crate::token_type::lemma_tokens_view(self.tokens@);
            }
            if self.pos < self.tokens.len() && (self.tokens[self.pos].kind == TokenType::Or) {
                let ghost op_pos = self.pos as int;
                let ghost preve = e@;
                let op = self.tokens[self.pos].duplicate();
                self.pos = self.pos + 1;
                let right = match self.and() {
                    Result::Ok(v) => v,
                    Result::Err(er) => {
                        return Result::Err(er);
                    },
                };
                e = Expr::Logical(Box::new(Logical { left: e, operator: op, right }));
                proof {
                    assert(p_logic_tail(t, preve, op_pos, 2) == p_logic_tail(t, e@, self.pos as int, 2));
                }
            } else {
                return Result::Ok(e);
            }
        }
    }

    /// `assignment`: exactly [`p_assignment`] at the cursor.
    fn assignment(&mut self) -> (r: Result<Expr, ParseError>)
        ensures
            final(self).tokens == old(self).tokens,
            ({
                let r0 = p_assignment(old(self).tv(), old(self).pos as int);
                match r0 {
                    Result::Ok((v, p)) => r is Ok && r->Ok_0@ == v && final(self).pos as int == p
                        && old(self).pos < final(self).pos <= old(self).tokens@.len(),
                    Result::Err(m) => r is Err && r->Err_0.description@ == m,
                }
            }),
        decreases vstd::math::max(self.tokens@.len() - self.pos, 0), 19int,
    {
        proof {
            crate::token_type::lemma_tokens_view(self.tokens@);
        }
        let ghost t = self.tv();
        let ghost pos0 = self.pos as int;
        let e = match self.or() {
            Result::Ok(v) => v,
            Result::Err(er) => {
                return Result::Err(er);
            },
        };
        if self.pos < self.tokens.len() && self.tokens[self.pos].kind == TokenType::Equal {
            self.pos = self.pos + 1;
            let value = match self.assignment() {
                Result::Ok(v) => v,
                Result::Err(er) => {
                    return Result::Err(er);
                },
            };
            match e {
                Expr::Variable(variable) => Result::Ok(
                    Expr::Assign(Box::new(Assign { name: variable.name, value })),
                ),
                _ => Result::Err(ParseError {
                    description: String::from_str("Invalid assignment target"),
                }),
            }
        } else {
            Result::Ok(e)
        }
    }

    /// `expression`: the whole cascade — exactly [`p_expression`].
    fn expression(&mut self) -> (r: Result<Expr, ParseError>)
        ensures
            final(self).tokens == old(self).tokens,
            ({
                let r0 = p_expression(old(self).tv(), old(self).pos as int);
                match r0 {
                    Result::Ok((v, p)) => r is Ok && r->Ok_0@ == v && final(self).pos as int == p
                        && old(self).pos < final(self).pos <= old(self).tokens@.len(),
                    Result::Err(m) => r is Err && r->Err_0.description@ == m,
                }
            }),
        decreases vstd::math::max(self.tokens@.len() - self.pos, 0), 20int,
    {
        self.assignment()
    }
}

} // verus!

verus! {

impl Parser {
    /// `varDecl` (cursor on `var`): exactly [`p_var_declaration`].
    #[verifier::rlimit(100)]
    #[verifier::spinoff_prover]
    fn var_declaration(&mut self) -> (r: Result<Stmt, ParseError>)
        ensures
            final(self).tokens == old(self).tokens,
            ({
                let r0 = p_var_declaration(old(self).tv(), old(self).pos as int);
                match r0 {
                    Result::Ok((v, p)) => r is Ok && r->Ok_0@ == v && final(self).pos as int == p
                        && old(self).pos < final(self).pos <= old(self).tokens@.len(),
                    Result::Err(m) => r is Err && r->Err_0.description@ == m,
                }
            }),
        decreases vstd::math::max(self.tokens@.len() - self.pos, 0), 34int,
    {
        proof {
            crate::token_type::lemma_tokens_view(self.tokens@);
        }
        if self.pos >= self.tokens.len() {
            let mut m = String::from_str("Expected ");
            m.append(Self::kind_name_str(TokenType::Identifier));
            m.append(" but found nothing");
            return Result::Err(ParseError { description: m });
        }
        self.pos = self.pos + 1;  // consume 'var'
        let name = match self.expect_token(
            TokenType::Identifier,
            String::from_str("Expected variable name"),
        ) {
            Result::Ok(t) => t,
            Result::Err(er) => {
                return Result::Err(er);
            },
        };
        let expression: Option<Expr> = if self.pos < self.tokens.len()
            && self.tokens[self.pos].kind == TokenType::Equal {
            self.pos = self.pos + 1;  // consume '='
            match self.expression() {
                Result::Ok(e) => Option::Some(e),
                Result::Err(er) => {
                    return Result::Err(er);
                },
            }
        } else {
            Option::None
        };
        match self.expect_token(
            TokenType::Semicolon,
            String::from_str("Expected variable declaration to end with a semicolon"),
        ) {
            Result::Ok(_t) => Result::Ok(Stmt::VarDec(VarDec { name, expression })),
            Result::Err(er) => Result::Err(er),
        }
    }

    /// `printStmt` (cursor on `print`): exactly [`p_print_statement`].
    #[verifier::rlimit(100)]
    #[verifier::spinoff_prover]
    fn print_statement(&mut self) -> (r: Result<Stmt, ParseError>)
        ensures
            final(self).tokens == old(self).tokens,
            ({
                let r0 = p_print_statement(old(self).tv(), old(self).pos as int);
                match r0 {
                    Result::Ok((v, p)) => r is Ok && r->Ok_0@ == v && final(self).pos as int == p
                        && old(self).pos < final(self).pos <= old(self).tokens@.len(),
                    Result::Err(m) => r is Err && r->Err_0.description@ == m,
                }
            }),
        decreases vstd::math::max(self.tokens@.len() - self.pos, 0), 34int,
    {
        if self.pos >= self.tokens.len() {
            proof {
                crate::token_type::lemma_tokens_view(self.tokens@);
                lemma_p_expression_at_end(self.tv(), self.pos + 1);
            }
            return Result::Err(ParseError { description: String::from_str("Expected a token") });
        }
        self.pos = self.pos + 1;  // consume 'print'
        let value = match self.expression() {
            Result::Ok(e) => e,
            Result::Err(er) => {
                return Result::Err(er);
            },
        };
        match self.expect_token(
            TokenType::Semicolon,
            String::from_str("Expected print statement to end with a semicolon"),
        ) {
            Result::Ok(_t) => Result::Ok(Stmt::Print(Print { expression: value })),
            Result::Err(er) => Result::Err(er),
        }
    }

    /// `exprStmt`: exactly [`p_expression_statement`].
    #[verifier::rlimit(100)]
    #[verifier::spinoff_prover]
    fn expression_statement(&mut self) -> (r: Result<Stmt, ParseError>)
        ensures
            final(self).tokens == old(self).tokens,
            ({
                let r0 = p_expression_statement(old(self).tv(), old(self).pos as int);
                match r0 {
                    Result::Ok((v, p)) => r is Ok && r->Ok_0@ == v && final(self).pos as int == p
                        && old(self).pos < final(self).pos <= old(self).tokens@.len(),
                    Result::Err(m) => r is Err && r->Err_0.description@ == m,
                }
            }),
        decreases vstd::math::max(self.tokens@.len() - self.pos, 0), 34int,
    {
        let value = match self.expression() {
            Result::Ok(e) => e,
            Result::Err(er) => {
                return Result::Err(er);
            },
        };
        match self.expect_token(
            TokenType::Semicolon,
            String::from_str("Expected expression statement to end with a semicolon"),
        ) {
            Result::Ok(_t) => Result::Ok(Stmt::Expr(crate::stmt::Expr { expression: value })),
            Result::Err(er) => Result::Err(er),
        }
    }

    /// `block` (cursor on `{`): exactly [`p_block_statement`].
    #[verifier::rlimit(100)]
    #[verifier::spinoff_prover]
    fn block_statement(&mut self) -> (r: Result<Stmt, ParseError>)
        ensures
            final(self).tokens == old(self).tokens,
            ({
                let r0 = p_block_statement(old(self).tv(), old(self).pos as int);
                match r0 {
                    Result::Ok((v, p)) => r is Ok && r->Ok_0@ == v && final(self).pos as int == p
                        && old(self).pos < final(self).pos <= old(self).tokens@.len(),
                    Result::Err(m) => r is Err && r->Err_0.description@ == m,
                }
            }),
        decreases vstd::math::max(self.tokens@.len() - self.pos, 0), 34int,
    {
        proof {
            crate::token_type::lemma_tokens_view(self.tokens@);
        }
        let ghost t = self.tv();
        let ghost pos0 = self.pos as int;
        if self.pos >= self.tokens.len() {
            return Result::Err(ParseError {
                description: String::from_str("Expected '}' after block"),
            });
        }
        self.pos = self.pos + 1;  // consume '{'
        let mut statements: Vec<Stmt> = Vec::new();
        proof {
            crate::stmt::lemma_stmts_view(statements@);
            assert(stmts_view(statements@) =~= Seq::<StmtView>::empty());
        }
        while self.pos < self.tokens.len()
            invariant
                self.tokens == old(self).tokens,
                t == self.tv(),
                pos0 == old(self).pos as int,
                pos0 < self.pos <= self.tokens@.len(),
                p_block_items(t, pos0 + 1) == (match p_block_items(t, self.pos as int) {
                    Result::Ok((rest, pf)) => Result::<(Seq<StmtView>, int), Seq<char>>::Ok(
                        (stmts_view(statements@) + rest, pf),
                    ),
                    Result::Err(m) => Result::<(Seq<StmtView>, int), Seq<char>>::Err(m),
                }),
            decreases self.tokens@.len() - self.pos,
        {
            proof {
                crate::token_type::lemma_tokens_view(self.tokens@);
            }
            let kind = self.tokens[self.pos].kind;
            if kind == TokenType::RightBrace {
                self.pos = self.pos + 1;  // consume '}'
                proof {
                    assert(stmts_view(statements@) + Seq::<StmtView>::empty() =~= stmts_view(
                        statements@,
                    ));
                }
                return Result::Ok(Stmt::Block(Block { statements }));
            }
            if kind == TokenType::Eof {
                return Result::Err(ParseError {
                    description: String::from_str("Expected '}' after block"),
                });
            }
            let ghost p_head = self.pos as int;
            let ghost done = stmts_view(statements@);
            let s = match self.declaration() {
                Result::Ok(s) => s,
                Result::Err(er) => {
                    return Result::Err(er);
                },
            };
            proof {
                crate::stmt::lemma_stmts_view_push(statements@, s);
            }
            statements.push(s);
            proof {
                let r1 = p_declaration(t, p_head);
                assert(r1 is Ok);
                assert(p_block_items(t, p_head) == (match p_block_items(t, self.pos as int) {
                    Result::Ok((rest, pf)) => Result::<(Seq<StmtView>, int), Seq<char>>::Ok(
                        (seq![r1->Ok_0.0] + rest, pf),
                    ),
                    Result::Err(m) => Result::<(Seq<StmtView>, int), Seq<char>>::Err(m),
                }));
                assert(stmts_view(statements@) =~= done.push(r1->Ok_0.0));
                let rnext = p_block_items(t, self.pos as int);
                if rnext is Ok {
                    let rest = rnext->Ok_0.0;
                    assert(done.push(r1->Ok_0.0) + rest =~= done + (seq![r1->Ok_0.0] + rest));
                }
            }
        }
        Result::Err(ParseError { description: String::from_str("Expected '}' after block") })
    }

    /// `ifStmt` (cursor on `if`): exactly [`p_if_statement`].
    #[verifier::rlimit(100)]
    #[verifier::spinoff_prover]
    fn if_statement(&mut self) -> (r: Result<Stmt, ParseError>)
        ensures
            final(self).tokens == old(self).tokens,
            ({
                let r0 = p_if_statement(old(self).tv(), old(self).pos as int);
                match r0 {
                    Result::Ok((v, p)) => r is Ok && r->Ok_0@ == v && final(self).pos as int == p
                        && old(self).pos < final(self).pos <= old(self).tokens@.len(),
                    Result::Err(m) => r is Err && r->Err_0.description@ == m,
                }
            }),
        decreases vstd::math::max(self.tokens@.len() - self.pos, 0), 34int,
    {
        proof {
            crate::token_type::lemma_tokens_view(self.tokens@);
        }
        if self.pos >= self.tokens.len() {
            let mut m = String::from_str("Expected ");
            m.append(Self::kind_name_str(TokenType::LeftParen));
            m.append(" but found nothing");
            return Result::Err(ParseError { description: m });
        }
        self.pos = self.pos + 1;  // consume 'if'
        match self.expect_token(TokenType::LeftParen, String::from_str("Expected '(' after 'if'"))
        {
            Result::Ok(_t) => {},
            Result::Err(er) => {
                return Result::Err(er);
            },
        }
        let condition = match self.expression() {
            Result::Ok(e) => e,
            Result::Err(er) => {
                return Result::Err(er);
            },
        };
        match self.expect_token(
            TokenType::RightParen,
            String::from_str("Expected ')' after if condition"),
        ) {
            Result::Ok(_t) => {},
            Result::Err(er) => {
                return Result::Err(er);
            },
        }
        let then_branch = match self.statement() {
            Result::Ok(s) => Box::new(s),
            Result::Err(er) => {
                return Result::Err(er);
            },
        };
        let mut else_branch: Option<Box<Stmt>> = Option::None;
        if self.pos < self.tokens.len() && self.tokens[self.pos].kind == TokenType::Else {
            self.pos = self.pos + 1;  // consume 'else'
            match self.statement() {
                Result::Ok(s) => {
                    else_branch = Option::Some(Box::new(s));
                },
                Result::Err(er) => {
                    return Result::Err(er);
                },
            }
        }
        Result::Ok(Stmt::If(If { condition, then_branch, else_branch }))
    }

    /// `whileStmt` (cursor on `while`): exactly [`p_while_statement`].
    #[verifier::rlimit(100)]
    #[verifier::spinoff_prover]
    fn while_statement(&mut self) -> (r: Result<Stmt, ParseError>)
        ensures
            final(self).tokens == old(self).tokens,
            ({
                let r0 = p_while_statement(old(self).tv(), old(self).pos as int);
                match r0 {
                    Result::Ok((v, p)) => r is Ok && r->Ok_0@ == v && final(self).pos as int == p
                        && old(self).pos < final(self).pos <= old(self).tokens@.len(),
                    Result::Err(m) => r is Err && r->Err_0.description@ == m,
                }
            }),
        decreases vstd::math::max(self.tokens@.len() - self.pos, 0), 34int,
    {
        proof {
            crate::token_type::lemma_tokens_view(self.tokens@);
        }
        if self.pos >= self.tokens.len() {
            let mut m = String::from_str("Expected ");
            m.append(Self::kind_name_str(TokenType::LeftParen));
            m.append(" but found nothing");
            return Result::Err(ParseError { description: m });
        }
        self.pos = self.pos + 1;  // consume 'while'
        match self.expect_token(
            TokenType::LeftParen,
            String::from_str("Expected '(' after 'while'"),
        ) {
            Result::Ok(_t) => {},
            Result::Err(er) => {
                return Result::Err(er);
            },
        }
        let condition = match self.expression() {
            Result::Ok(e) => e,
            Result::Err(er) => {
                return Result::Err(er);
            },
        };
        match self.expect_token(
            TokenType::RightParen,
            String::from_str("Expected ')' after while condition"),
        ) {
            Result::Ok(_t) => {},
            Result::Err(er) => {
                return Result::Err(er);
            },
        }
        let body = match self.statement() {
            Result::Ok(s) => Box::new(s),
            Result::Err(er) => {
                return Result::Err(er);
            },
        };
        Result::Ok(Stmt::While(While { condition, body }))
    }
}

} // verus!

verus! {


/// View of an optional statement.
pub open spec fn opt_stmt_view(o: &Option<Stmt>) -> Option<StmtView> {
    match o {
        Option::Some(s) => Option::Some(s@),
        Option::None => Option::None,
    }
}

/// View of an optional expression.
pub open spec fn opt_expr_view(o: &Option<Expr>) -> Option<ExprView> {
    match o {
        Option::Some(e) => Option::Some(e@),
        Option::None => Option::None,
    }
}

/// Builds the desugared loop for a parsed `for` head and body: exactly
/// [`for_desugar`] of their views.
fn desugar_for(
    initializer: Option<Stmt>,
    condition: Option<Expr>,
    increment: Option<Expr>,
    body: Stmt,
) -> (r: Stmt)
    ensures
        r@ == for_desugar(
            opt_stmt_view(&initializer),
            opt_expr_view(&condition),
            opt_expr_view(&increment),
            body@,
        ),
{
    let ghost iv = opt_stmt_view(&initializer);
    let ghost cv = opt_expr_view(&condition);
    let ghost nv = opt_expr_view(&increment);
    let ghost bv = body@;
    let mut body = body;
    if let Option::Some(increment) = increment {
        let ghost pre = body@;
        let mut statements: Vec<Stmt> = Vec::new();
        statements.push(body);
        statements.push(Stmt::Expr(crate::stmt::Expr { expression: increment }));
        proof {
            crate::stmt::lemma_stmts_view(statements@);
            assert(statements@.len() == 2);
            assert(statements@[0]@ == pre);
            assert(statements@[1]@ == StmtView::Expr(nv->Some_0));
            assert(stmts_view(statements@) =~= seq![pre, StmtView::Expr(nv->Some_0)]);
        }
        body = Stmt::Block(Block { statements });
    }
    let ghost b1 = body@;
    proof {
        assert(b1 == (match nv {
            Option::Some(i) => StmtView::Block(seq![bv, StmtView::Expr(i)]),
            Option::None => bv,
        }));
    }
    let condition: Expr = match condition {
        Option::Some(condition) => condition,
        Option::None => Expr::Literal(Literal::Bool(true)),
    };
    body = Stmt::While(While { condition, body: Box::new(body) });
    let ghost b2 = body@;
    proof {
        assert(b2 == StmtView::While(
            match cv {
                Option::Some(c) => c,
                Option::None => ExprView::Literal(crate::expr::ValueView::Bool(true)),
            },
            Box::new(b1),
        ));
    }
    if let Option::Some(initializer) = initializer {
        let ghost lp = body@;
        let mut statements: Vec<Stmt> = Vec::new();
        statements.push(initializer);
        statements.push(body);
        proof {
            crate::stmt::lemma_stmts_view(statements@);
            assert(statements@.len() == 2);
            assert(statements@[0]@ == iv->Some_0);
            assert(statements@[1]@ == lp);
            assert(stmts_view(statements@) =~= seq![iv->Some_0, lp]);
        }
        body = Stmt::Block(Block { statements });
    }
    proof {
        assert(body@ == (match iv {
            Option::Some(ini) => StmtView::Block(seq![ini, b2]),
            Option::None => b2,
        }));
        assert(body@ == for_desugar(iv, cv, nv, bv));
    }
    body
}

impl Parser {
    /// `forStmt` (cursor on `for`): parsed and desugared into a `While` —
    /// exactly [`p_for_statement`].
    #[verifier::rlimit(100)]
    #[verifier::spinoff_prover]
    fn for_statement(&mut self) -> (r: Result<Stmt, ParseError>)
        ensures
            final(self).tokens == old(self).tokens,
            ({
                let r0 = p_for_statement(old(self).tv(), old(self).pos as int);
                match r0 {
                    Result::Ok((v, p)) => r is Ok && r->Ok_0@ == v && final(self).pos as int == p
                        && old(self).pos < final(self).pos <= old(self).tokens@.len(),
                    Result::Err(m) => r is Err && r->Err_0.description@ == m,
                }
            }),
        decreases vstd::math::max(self.tokens@.len() - self.pos, 0), 34int,
    {
        proof {
            crate::token_type::lemma_tokens_view(self.tokens@);
        }
        let ghost t = self.tv();
        let ghost pos0 = self.pos as int;
        if self.pos >= self.tokens.len() {
            let mut m = String::from_str("Expected ");
            m.append(Self::kind_name_str(TokenType::LeftParen));
            m.append(" but found nothing");
            return Result::Err(ParseError { description: m });
        }
        self.pos = self.pos + 1;  // consume 'for'
        match self.expect_token(TokenType::LeftParen, String::from_str("Expected '(' after 'for'"))
        {
            Result::Ok(_t) => {},
            Result::Err(er) => {
                return Result::Err(er);
            },
        }
        let ghost p1v = self.pos as int;
        let initializer: Option<Stmt> = if self.pos < self.tokens.len()
            && self.tokens[self.pos].kind == TokenType::Semicolon {
            self.pos = self.pos + 1;  // consume ';'
            Option::None
        } else if self.pos < self.tokens.len() && self.tokens[self.pos].kind == TokenType::Var {
            match self.var_declaration() {
                Result::Ok(s) => Option::Some(s),
                Result::Err(er) => {
                    proof {
                        assert(p_for_init(t, p1v) is Err);
                    }
                    return Result::Err(er);
                },
            }
        } else {
            match self.expression_statement() {
                Result::Ok(s) => Option::Some(s),
                Result::Err(er) => {
                    proof {
                        assert(p_for_init(t, p1v) is Err);
                    }
                    return Result::Err(er);
                },
            }
        };
        proof {
            assert(p_for_init(t, p1v) == Result::<(Option<StmtView>, int), Seq<char>>::Ok(
                (
                    match &initializer {
                        Option::Some(s) => Option::Some(s@),
                        Option::None => Option::<StmtView>::None,
                    },
                    self.pos as int,
                ),
            ));
        }
        let ghost p2v = self.pos as int;
        let condition: Option<Expr> = if self.pos < self.tokens.len()
            && self.tokens[self.pos].kind == TokenType::Semicolon {
            Option::None
        } else {
            match self.expression() {
                Result::Ok(e) => Option::Some(e),
                Result::Err(er) => {
                    proof {
                        assert(p_for_cond(t, p2v) is Err);
                    }
                    return Result::Err(er);
                },
            }
        };
        proof {
            assert(p_for_cond(t, p2v) == Result::<(Option<ExprView>, int), Seq<char>>::Ok(
                (
                    match &condition {
                        Option::Some(e) => Option::Some(e@),
                        Option::None => Option::<ExprView>::None,
                    },
                    self.pos as int,
                ),
            ));
        }
        match self.expect_token(
            TokenType::Semicolon,
            String::from_str("Expected ';' after for condition"),
        ) {
            Result::Ok(_t) => {},
            Result::Err(er) => {
                return Result::Err(er);
            },
        }
        let ghost p4v = self.pos as int;
        let increment: Option<Expr> = if self.pos < self.tokens.len()
            && self.tokens[self.pos].kind == TokenType::RightParen {
            Option::None
        } else {
            match self.expression() {
                Result::Ok(e) => Option::Some(e),
                Result::Err(er) => {
                    proof {
                        assert(p_for_incr(t, p4v) is Err);
                    }
                    return Result::Err(er);
                },
            }
        };
        proof {
            assert(p_for_incr(t, p4v) == Result::<(Option<ExprView>, int), Seq<char>>::Ok(
                (
                    match &increment {
                        Option::Some(e) => Option::Some(e@),
                        Option::None => Option::<ExprView>::None,
                    },
                    self.pos as int,
                ),
            ));
        }
        match self.expect_token(
            TokenType::RightParen,
            String::from_str("Expected ')' after for increment expression"),
        ) {
            Result::Ok(_t) => {},
            Result::Err(er) => {
                return Result::Err(er);
            },
        }
        let mut body = match self.statement() {
            Result::Ok(s) => s,
            Result::Err(er) => {
                return Result::Err(er);
            },
        };
        let r = desugar_for(initializer, condition, increment, body);
        Result::Ok(r)
    }

    /// `statement`: dispatch on the leading token — exactly
    /// [`p_statement`].
    #[verifier::rlimit(100)]
    #[verifier::spinoff_prover]
    fn statement(&mut self) -> (r: Result<Stmt, ParseError>)
        ensures
            final(self).tokens == old(self).tokens,
            ({
                let r0 = p_statement(old(self).tv(), old(self).pos as int);
                match r0 {
                    Result::Ok((v, p)) => r is Ok && r->Ok_0@ == v && final(self).pos as int == p
                        && old(self).pos < final(self).pos <= old(self).tokens@.len(),
                    Result::Err(m) => r is Err && r->Err_0.description@ == m,
                }
            }),
        decreases vstd::math::max(self.tokens@.len() - self.pos, 0), 36int,
    {
        proof {
            reveal(p_statement);
            crate::token_type::lemma_tokens_view(self.tokens@);
        }
        if self.pos < self.tokens.len() {
            let kind = self.tokens[self.pos].kind;
            match kind {
                TokenType::Print => self.print_statement(),
                TokenType::LeftBrace => self.block_statement(),
                TokenType::If => self.if_statement(),
                TokenType::While => self.while_statement(),
                TokenType::For => self.for_statement(),
                _ => self.expression_statement(),
            }
        } else {
            self.expression_statement()
        }
    }

    /// `declaration`: a `var` declaration or a statement — exactly
    /// [`p_declaration`].
    #[verifier::rlimit(100)]
    #[verifier::spinoff_prover]
    fn declaration(&mut self) -> (r: Result<Stmt, ParseError>)
        ensures
            final(self).tokens == old(self).tokens,
            ({
                let r0 = p_declaration(old(self).tv(), old(self).pos as int);
                match r0 {
                    Result::Ok((v, p)) => r is Ok && r->Ok_0@ == v && final(self).pos as int == p
                        && old(self).pos < final(self).pos <= old(self).tokens@.len(),
                    Result::Err(m) => r is Err && r->Err_0.description@ == m,
                }
            }),
        decreases vstd::math::max(self.tokens@.len() - self.pos, 0), 38int,
    {
        proof {
            reveal(p_declaration);
            crate::token_type::lemma_tokens_view(self.tokens@);
        }
        if self.pos < self.tokens.len() && self.tokens[self.pos].kind == TokenType::Var {
            self.var_declaration()
        } else {
            self.statement()
        }
    }

    /// Parses a whole token sequence into its statement list, or the first
    /// error: exactly [`parse_spec`].
    #[verifier::rlimit(100)]
    #[verifier::spinoff_prover]
    pub fn parse(tokens: Vec<Token>) -> (r: Result<Vec<Stmt>, ParseError>)
        ensures
            ({
                let r0 = parse_spec(tokens_view(tokens@));
                match r0 {
                    Result::Ok(ss) => r is Ok && stmts_view(r->Ok_0@) == ss,
                    Result::Err(m) => r is Err && r->Err_0.description@ == m,
                }
            }),
    {
        let ghost t = tokens_view(tokens@);
        let mut parser = Parser { tokens, pos: 0 };
        let mut stmts: Vec<Stmt> = Vec::new();
        proof {
            assert(stmts_view(stmts@) =~= Seq::<StmtView>::empty());
        }
        while parser.pos < parser.tokens.len()
            invariant
                t == tokens_view(tokens@),
                t == parser.tv(),
                parser.pos <= parser.tokens@.len(),
                p_program(t, 0) == (match p_program(t, parser.pos as int) {
                    Result::Ok((rest, pf)) => Result::<(Seq<StmtView>, int), Seq<char>>::Ok(
                        (stmts_view(stmts@) + rest, pf),
                    ),
                    Result::Err(m) => Result::<(Seq<StmtView>, int), Seq<char>>::Err(m),
                }),
            decreases parser.tokens@.len() - parser.pos,
        {
            proof {
                crate::token_type::lemma_tokens_view(parser.tokens@);
            }
            let kind = parser.tokens[parser.pos].kind;
            if kind == TokenType::Eof {
                proof {
                    assert(stmts_view(stmts@) + Seq::<StmtView>::empty() =~= stmts_view(stmts@));
                }
                return Result::Ok(stmts);
            }
            let ghost p_head = parser.pos as int;
            let ghost done = stmts_view(stmts@);
            let s = match parser.declaration() {
                Result::Ok(s) => s,
                Result::Err(er) => {
                    return Result::Err(er);
                },
            };
            proof {
                crate::stmt::lemma_stmts_view_push(stmts@, s);
            }
            stmts.push(s);
            proof {
                let r1 = p_declaration(t, p_head);
                assert(r1 is Ok);
                assert(p_program(t, p_head) == (match p_program(t, parser.pos as int) {
                    Result::Ok((rest, pf)) => Result::<(Seq<StmtView>, int), Seq<char>>::Ok(
                        (seq![r1->Ok_0.0] + rest, pf),
                    ),
                    Result::Err(m) => Result::<(Seq<StmtView>, int), Seq<char>>::Err(m),
                }));
                assert(stmts_view(stmts@) =~= done.push(r1->Ok_0.0));
                let rnext = p_program(t, parser.pos as int);
                if rnext is Ok {
                    let rest = rnext->Ok_0.0;
                    assert(done.push(r1->Ok_0.0) + rest =~= done + (seq![r1->Ok_0.0] + rest));
                }
            }
        }
        proof {
            crate::token_type::lemma_tokens_view(parser.tokens@);
        }
        Result::Err(ParseError { description: String::from_str("No Eof found") })
    }
}

} // verus!
