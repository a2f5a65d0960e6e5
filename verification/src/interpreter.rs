//! The tree-walking evaluator. Expressions evaluate strictly, with no
//! implicit coercion; `and` / `or` short-circuit and return the deciding
//! operand itself. Statements execute against the scope chain, appending
//! printed lines to an output buffer.
//!
//! Numbers are 64-bit signed integers: overflow, and division by zero, raise
//! runtime errors. Statement execution charges one unit of a caller-supplied
//! step budget per loop iteration, so that execution always ends; an
//! exhausted budget surfaces as a runtime error of its own, and a caller
//! that wants an effectively unbounded run passes `u64::MAX`.
//!
//! The whole of execution is specified by total functions (`eval_expr`,
//! `run_stmt`, and companions) over mathematical views of the machine state;
//! every executable method is proved to return exactly what they say.

use crate::environment::{
    env_assign_chain, env_define_chain, env_lookup, undefined_var_msg, Environment, RuntimeError,
};
use crate::expr::{Expr, ExprView, Literal, ValueView};
use crate::stmt::{stmts_view, Stmt, StmtView, VarDec, While, If};
use crate::text::{dec_int, render_i64, str_lt};
use crate::token_type::{TokenType, TokenView};
use vstd::prelude::*;

verus! {

/// The machine state a statement acts on: the scope chain and the lines
/// printed so far.
pub struct StateView {
    pub env: Seq<Map<Seq<char>, ValueView>>,
    pub out: Seq<Seq<char>>,
}

/// What evaluating an expression leaves behind: the scope chain afterward
/// (assignments mutate it) and the value or the error description.
pub struct EvalOut {
    pub env: Seq<Map<Seq<char>, ValueView>>,
    pub res: Result<ValueView, Seq<char>>,
}

/// What executing a statement leaves behind: the state afterward, the step
/// budget that remains, and the error description if one arose.
pub struct StepOut {
    pub st: StateView,
    pub fuel: nat,
    pub err: Option<Seq<char>>,
}

/// Truthiness: `Nil` and `Bool(false)` are falsy; every other value,
/// including zero and the empty string, is truthy.
pub open spec fn truthy(v: ValueView) -> bool {
    match v {
        ValueView::Nil => false,
        ValueView::Bool(b) => b,
        _ => true,
    }
}

/// Whether a mathematical integer is representable as a 64-bit number.
pub open spec fn fits_i64(n: int) -> bool {
    i64::MIN <= n <= i64::MAX
}

/// Magnitude of an integer.
pub open spec fn iabs(n: int) -> int {
    if n < 0 {
        -n
    } else {
        n
    }
}

/// Division truncated toward zero, as the runtime divides numbers.
pub open spec fn tdiv(x: int, y: int) -> int {
    if (x < 0) == (y < 0) {
        iabs(x) / iabs(y)
    } else {
        -(iabs(x) / iabs(y))
    }
}

/// The display form of a value: numbers in decimal, text verbatim,
/// booleans as `true` / `false`, and nil as `Nil`.
pub open spec fn display_val(v: ValueView) -> Seq<char> {
    match v {
        ValueView::Num(n) => dec_int(n),
        ValueView::Str(s) => s,
        ValueView::Bool(b) => if b {
            "true"@
        } else {
            "false"@
        },
        ValueView::Nil => "Nil"@,
    }
}

/// The diagnostic for an exhausted step budget.
pub open spec fn budget_msg() -> Seq<char> {
    "Execution budget exhausted"@
}

/// What a binary operator yields on two evaluated operands: arithmetic and
/// ordering on two numbers, concatenation and lexicographic ordering on two
/// pieces of text, equality on two values of the same kind; anything else
/// is a runtime error naming the operator's requirement.
pub open spec fn apply_binary(op: TokenType, l: ValueView, r: ValueView) -> Result<
    ValueView,
    Seq<char>,
> {
    match op {
        TokenType::Minus => match (l, r) {
            (ValueView::Num(x), ValueView::Num(y)) => if fits_i64(x - y) {
                Result::Ok(ValueView::Num(x - y))
            } else {
                Result::Err("Numeric overflow"@)
            },
            _ => Result::Err("Can only subtract two Numbers"@),
        },
        TokenType::Slash => match (l, r) {
            (ValueView::Num(x), ValueView::Num(y)) => if y == 0 {
                Result::Err("Division by zero"@)
            } else if fits_i64(tdiv(x, y)) {
                Result::Ok(ValueView::Num(tdiv(x, y)))
            } else {
                Result::Err("Numeric overflow"@)
            },
            _ => Result::Err("Can only divide two Numbers"@),
        },
        TokenType::Star => match (l, r) {
            (ValueView::Num(x), ValueView::Num(y)) => if fits_i64(x * y) {
                Result::Ok(ValueView::Num(x * y))
            } else {
                Result::Err("Numeric overflow"@)
            },
            _ => Result::Err("Can only multiply two Numbers"@),
        },
        TokenType::Plus => match (l, r) {
            (ValueView::Num(x), ValueView::Num(y)) => if fits_i64(x + y) {
                Result::Ok(ValueView::Num(x + y))
            } else {
                Result::Err("Numeric overflow"@)
            },
            (ValueView::Str(x), ValueView::Str(y)) => Result::Ok(ValueView::Str(x + y)),
            _ => Result::Err("Can only add two Numbers or two Strings"@),
        },
        TokenType::Greater => match (l, r) {
            (ValueView::Num(x), ValueView::Num(y)) => Result::Ok(ValueView::Bool(x > y)),
            (ValueView::Str(x), ValueView::Str(y)) => Result::Ok(ValueView::Bool(str_lt(y, x))),
            _ => Result::Err("Can only use greater than operator on two Numbers or two Strings"@),
        },
        TokenType::Less => match (l, r) {
            (ValueView::Num(x), ValueView::Num(y)) => Result::Ok(ValueView::Bool(x < y)),
            (ValueView::Str(x), ValueView::Str(y)) => Result::Ok(ValueView::Bool(str_lt(x, y))),
            _ => Result::Err("Can only use less than operator on two Numbers or two Strings"@),
        },
        TokenType::GreaterEqual => match (l, r) {
            (ValueView::Num(x), ValueView::Num(y)) => Result::Ok(ValueView::Bool(x >= y)),
            (ValueView::Str(x), ValueView::Str(y)) => Result::Ok(ValueView::Bool(!str_lt(x, y))),
            _ => Result::Err(
                "Can only use greater than or equal operator on two Numbers or two Strings"@,
            ),
        },
        TokenType::LessEqual => match (l, r) {
            (ValueView::Num(x), ValueView::Num(y)) => Result::Ok(ValueView::Bool(x <= y)),
            (ValueView::Str(x), ValueView::Str(y)) => Result::Ok(ValueView::Bool(!str_lt(y, x))),
            _ => Result::Err(
                "Can only use less than or equal operator on two Numbers or two Strings"@,
            ),
        },
        TokenType::BangEqual => match (l, r) {
            (ValueView::Num(x), ValueView::Num(y)) => Result::Ok(ValueView::Bool(x != y)),
            (ValueView::Str(x), ValueView::Str(y)) => Result::Ok(ValueView::Bool(x != y)),
            _ => Result::Err("Can only use bang equal operator on two Numbers or two Strings"@),
        },
        TokenType::EqualEqual => match (l, r) {
            (ValueView::Num(x), ValueView::Num(y)) => Result::Ok(ValueView::Bool(x == y)),
            (ValueView::Str(x), ValueView::Str(y)) => Result::Ok(ValueView::Bool(x == y)),
            _ => Result::Err("Can only use equal equal operator on two Numbers or two Strings"@),
        },
        _ => Result::Err("Unrecognized binary operator"@),
    }
}

/// The diagnostic for a `Logical` node whose operator is neither `and` nor
/// `or`.
pub open spec fn bad_logical_msg(lexeme: Seq<char>) -> Seq<char> {
    "Logical expression created with an unsupported operator: "@ + lexeme
}

/// Evaluates an expression against a scope chain: the value produced, or
/// the first error raised, together with the chain as assignments left it.
/// Operands evaluate left to right; `and` / `or` evaluate their right
/// operand only when the left does not decide.
pub open spec fn eval_expr(
    env: Seq<Map<Seq<char>, ValueView>>,
    e: ExprView,
) -> EvalOut
    decreases e,
{
    match e {
        ExprView::Literal(v) => EvalOut { env, res: Result::Ok(v) },
        ExprView::Grouping(inner) => eval_expr(env, *inner),
        ExprView::Unary(op, right) => {
            let r = eval_expr(env, *right);
            match r.res {
                Result::Err(m) => r,
                Result::Ok(v) => match op.kind {
                    TokenType::Minus => match v {
                        ValueView::Num(x) => if fits_i64(-x) {
                            EvalOut { env: r.env, res: Result::Ok(ValueView::Num(-x)) }
                        } else {
                            EvalOut { env: r.env, res: Result::Err("Numeric overflow"@) }
                        },
                        _ => EvalOut { env: r.env, res: Result::Err("Can only negate a Number"@) },
                    },
                    TokenType::Bang => EvalOut {
                        env: r.env,
                        res: Result::Ok(ValueView::Bool(!truthy(v))),
                    },
                    _ => EvalOut { env: r.env, res: Result::Err("Unrecognized unary operator"@) },
                },
            }
        },
        ExprView::Binary(left, op, right) => {
            let lo = eval_expr(env, *left);
            match lo.res {
                Result::Err(m) => lo,
                Result::Ok(lv) => {
                    let ro = eval_expr(lo.env, *right);
                    match ro.res {
                        Result::Err(m) => ro,
                        Result::Ok(rv) => EvalOut {
                            env: ro.env,
                            res: apply_binary(op.kind, lv, rv),
                        },
                    }
                },
            }
        },
        ExprView::Logical(left, op, right) => {
            let lo = eval_expr(env, *left);
            match lo.res {
                Result::Err(m) => lo,
                Result::Ok(lv) => match op.kind {
                    TokenType::And => if !truthy(lv) {
                        lo
                    } else {
                        eval_expr(lo.env, *right)
                    },
                    TokenType::Or => if truthy(lv) {
                        lo
                    } else {
                        eval_expr(lo.env, *right)
                    },
                    _ => EvalOut { env: lo.env, res: Result::Err(bad_logical_msg(op.lexeme)) },
                },
            }
        },
        ExprView::Variable(tok) => match env_lookup(env, tok.lexeme) {
            Option::Some(v) => EvalOut { env, res: Result::Ok(v) },
            Option::None => EvalOut { env, res: Result::Err(undefined_var_msg(tok.lexeme)) },
        },
        ExprView::Assign(tok, value) => {
            let r = eval_expr(env, *value);
            match r.res {
                Result::Err(m) => r,
                Result::Ok(v) => match env_assign_chain(r.env, tok.lexeme, v) {
                    Option::Some(e2) => EvalOut { env: e2, res: Result::Ok(v) },
                    Option::None => EvalOut {
                        env: r.env,
                        res: Result::Err(undefined_var_msg(tok.lexeme)),
                    },
                },
            }
        },
    }
}

/// Structural size of a statement, used to order the mutually recursive
/// execution functions.
pub open spec fn sv_size(s: StmtView) -> nat
    decreases s,
{
    match s {
        StmtView::Expr(_) => 1,
        StmtView::Print(_) => 1,
        StmtView::VarDec(_, _) => 1,
        StmtView::Block(ss) => 2 + svs_size(ss, 0),
        StmtView::If(_, t, e) => 1 + sv_size(*t) + (match e {
            Option::Some(x) => sv_size(*x),
            Option::None => 0,
        }),
        StmtView::While(_, b) => 2 + sv_size(*b),
    }
}

/// Combined size of the statements of `ss` from position `i` on.
pub open spec fn svs_size(ss: Seq<StmtView>, i: int) -> nat
    decreases ss, ss.len() - i,
{
    if i < 0 || i >= ss.len() {
        0
    } else {
        1 + sv_size(ss[i]) + svs_size(ss, i + 1)
    }
}

/// The smaller of two budgets.
pub open spec fn fmin(a: nat, b: nat) -> nat {
    if a <= b {
        a
    } else {
        b
    }
}

/// Executes one statement: the state and remaining budget afterward, and
/// the error if one arose. Total: an exhausted budget is itself an error.
pub open spec fn run_stmt(st: StateView, s: StmtView, fuel: nat) -> StepOut
    decreases fuel, sv_size(s),
{
    match s {
        StmtView::Expr(e) => {
            let r = eval_expr(st.env, e);
            StepOut {
                st: StateView { env: r.env, out: st.out },
                fuel,
                err: match r.res {
                    Result::Ok(_) => Option::None,
                    Result::Err(m) => Option::Some(m),
                },
            }
        },
        StmtView::Print(e) => {
            let r = eval_expr(st.env, e);
            match r.res {
                Result::Ok(v) => StepOut {
                    st: StateView { env: r.env, out: st.out.push(display_val(v)) },
                    fuel,
                    err: Option::None,
                },
                Result::Err(m) => StepOut {
                    st: StateView { env: r.env, out: st.out },
                    fuel,
                    err: Option::Some(m),
                },
            }
        },
        StmtView::VarDec(name, init) => match init {
            Option::Some(e) => {
                let r = eval_expr(st.env, e);
                match r.res {
                    Result::Ok(v) => StepOut {
                        st: StateView {
                            env: env_define_chain(r.env, name.lexeme, v),
                            out: st.out,
                        },
                        fuel,
                        err: Option::None,
                    },
                    Result::Err(m) => StepOut {
                        st: StateView { env: r.env, out: st.out },
                        fuel,
                        err: Option::Some(m),
                    },
                }
            },
            Option::None => StepOut {
                st: StateView {
                    env: env_define_chain(st.env, name.lexeme, ValueView::Nil),
                    out: st.out,
                },
                fuel,
                err: Option::None,
            },
        },
        StmtView::Block(ss) => run_block(st, ss, fuel),
        StmtView::If(c, t, e) => {
            let r = eval_expr(st.env, c);
            let st1 = StateView { env: r.env, out: st.out };
            match r.res {
                Result::Err(m) => StepOut { st: st1, fuel, err: Option::Some(m) },
                Result::Ok(v) => if truthy(v) {
                    run_stmt(st1, *t, fuel)
                } else {
                    match e {
                        Option::Some(x) => run_stmt(st1, *x, fuel),
                        Option::None => StepOut { st: st1, fuel, err: Option::None },
                    }
                },
            }
        },
        StmtView::While(c, b) => run_while(st, c, b, fuel),
    }
}

/// Executes a block: a fresh child frame is pushed, the statements run, and
/// the child frame is dropped again on every way out, error included.
pub open spec fn run_block(st: StateView, ss: Seq<StmtView>, fuel: nat) -> StepOut
    decreases fuel, 1 + svs_size(ss, 0),
{
    let st1 = StateView { env: st.env.push(Map::empty()), out: st.out };
    let r = run_stmts(st1, ss, 0, fuel);
    StepOut {
        st: StateView { env: r.st.env.drop_last(), out: r.st.out },
        fuel: r.fuel,
        err: r.err,
    }
}

/// Executes the statements of `ss` from position `i` on, stopping at the
/// first error.
pub open spec fn run_stmts(st: StateView, ss: Seq<StmtView>, i: int, fuel: nat) -> StepOut
    decreases fuel, svs_size(ss, i),
{
    if i < 0 || i >= ss.len() {
        StepOut { st, fuel, err: Option::None }
    } else {
        let r = run_stmt(st, ss[i], fuel);
        match r.err {
            Option::Some(m) => r,
            Option::None => run_stmts(r.st, ss, i + 1, fmin(r.fuel, fuel)),
        }
    }
}

/// Executes a `while` loop: each iteration charges one unit of budget,
/// evaluates the condition, and runs the body while the condition is
/// truthy. Ends when the condition is falsy, an error arises, or the
/// budget is exhausted.
pub open spec fn run_while(st: StateView, c: ExprView, b: Box<StmtView>, fuel: nat) -> StepOut
    decreases fuel, 1 + sv_size(*b),
{
    if fuel == 0 {
        StepOut { st, fuel: 0, err: Option::Some(budget_msg()) }
    } else {
        let f1 = (fuel - 1) as nat;
        let r = eval_expr(st.env, c);
        let st1 = StateView { env: r.env, out: st.out };
        match r.res {
            Result::Err(m) => StepOut { st: st1, fuel: f1, err: Option::Some(m) },
            Result::Ok(v) => if !truthy(v) {
                StepOut { st: st1, fuel: f1, err: Option::None }
            } else {
                let rb = run_stmt(st1, *b, f1);
                match rb.err {
                    Option::Some(m) => rb,
                    Option::None => run_while(rb.st, c, b, fmin(rb.fuel, f1)),
                }
            },
        }
    }
}

/// Execution never creates budget: what remains is at most what was given.
pub proof fn lemma_run_stmt_fuel(st: StateView, s: StmtView, fuel: nat)
    ensures
        run_stmt(st, s, fuel).fuel <= fuel,
    decreases fuel, sv_size(s),
{
    match s {
        StmtView::Block(ss) => {
            let st1 = StateView { env: st.env.push(Map::empty()), out: st.out };
            lemma_run_stmts_fuel(st1, ss, 0, fuel);
            assert(run_stmt(st, s, fuel) == run_block(st, ss, fuel));
            assert(run_block(st, ss, fuel).fuel == run_stmts(st1, ss, 0, fuel).fuel);
        },
        StmtView::If(c, t, e) => {
            let r = eval_expr(st.env, c);
            let st1 = StateView { env: r.env, out: st.out };
            if r.res is Ok {
                if truthy(r.res->Ok_0) {
                    lemma_run_stmt_fuel(st1, *t, fuel);
                } else {
                    match e {
                        Option::Some(x) => lemma_run_stmt_fuel(st1, *x, fuel),
                        Option::None => {},
                    }
                }
            }
        },
        StmtView::While(c, b) => {
            lemma_run_while_fuel(st, c, b, fuel);
        },
        _ => {},
    }
}

/// Companion of [`lemma_run_stmt_fuel`] for statement sequences.
pub proof fn lemma_run_stmts_fuel(st: StateView, ss: Seq<StmtView>, i: int, fuel: nat)
    ensures
        run_stmts(st, ss, i, fuel).fuel <= fuel,
    decreases fuel, svs_size(ss, i),
{
    if 0 <= i < ss.len() {
        lemma_run_stmt_fuel(st, ss[i], fuel);
        let r = run_stmt(st, ss[i], fuel);
        if r.err is None {
            lemma_run_stmts_fuel(r.st, ss, i + 1, fmin(r.fuel, fuel));
        }
    }
}

/// Companion of [`lemma_run_stmt_fuel`] for loops.
pub proof fn lemma_run_while_fuel(st: StateView, c: ExprView, b: Box<StmtView>, fuel: nat)
    ensures
        run_while(st, c, b, fuel).fuel <= fuel,
    decreases fuel, 1 + sv_size(*b),
{
    if fuel > 0 {
        let f1 = (fuel - 1) as nat;
        let r = eval_expr(st.env, c);
        let st1 = StateView { env: r.env, out: st.out };
        if r.res is Ok && truthy(r.res->Ok_0) {
            lemma_run_stmt_fuel(st1, *b, f1);
            let rb = run_stmt(st1, *b, f1);
            if rb.err is None {
                lemma_run_while_fuel(rb.st, c, b, fmin(rb.fuel, f1));
            }
        }
    }
}

/// Assigning to a name never changes how many frames the chain holds.
pub proof fn lemma_assign_chain_len(
    env: Seq<Map<Seq<char>, ValueView>>,
    name: Seq<char>,
    value: ValueView,
)
    ensures
        env_assign_chain(env, name, value) is Some ==> env_assign_chain(
            env,
            name,
            value,
        )->Some_0.len() == env.len(),
    decreases env.len(),
{
    if env.len() > 0 && !env.last().contains_key(name) {
        lemma_assign_chain_len(env.drop_last(), name, value);
    }
}

/// Evaluating an expression never changes how many frames the chain holds:
/// assignments replace bindings, they never enter or leave a scope.
pub proof fn lemma_eval_expr_env_len(env: Seq<Map<Seq<char>, ValueView>>, e: ExprView)
    ensures
        eval_expr(env, e).env.len() == env.len(),
    decreases e,
{
    match e {
        ExprView::Grouping(inner) => {
            lemma_eval_expr_env_len(env, *inner);
        },
        ExprView::Unary(op, right) => {
            lemma_eval_expr_env_len(env, *right);
        },
        ExprView::Binary(left, op, right) => {
            lemma_eval_expr_env_len(env, *left);
            let lo = eval_expr(env, *left);
            if lo.res is Ok {
                lemma_eval_expr_env_len(lo.env, *right);
            }
        },
        ExprView::Logical(left, op, right) => {
            lemma_eval_expr_env_len(env, *left);
            let lo = eval_expr(env, *left);
            if lo.res is Ok {
                lemma_eval_expr_env_len(lo.env, *right);
            }
        },
        ExprView::Assign(tok, value) => {
            lemma_eval_expr_env_len(env, *value);
            let r = eval_expr(env, *value);
            if r.res is Ok {
                lemma_assign_chain_len(r.env, tok.lexeme, r.res->Ok_0);
            }
        },
        _ => {},
    }
}

/// Scope discipline: executing a statement leaves the chain exactly as deep
/// as it found it — a block's child frame never leaks out, on any path.
pub proof fn lemma_run_stmt_depth(st: StateView, s: StmtView, fuel: nat)
    requires
        st.env.len() > 0,
    ensures
        run_stmt(st, s, fuel).st.env.len() == st.env.len(),
    decreases fuel, sv_size(s),
{
    match s {
        StmtView::Expr(e) => {
            lemma_eval_expr_env_len(st.env, e);
        },
        StmtView::Print(e) => {
            lemma_eval_expr_env_len(st.env, e);
        },
        StmtView::VarDec(name, init) => {
            match init {
                Option::Some(e) => {
                    lemma_eval_expr_env_len(st.env, e);
                },
                Option::None => {},
            }
        },
        StmtView::Block(ss) => {
            let st1 = StateView { env: st.env.push(Map::empty()), out: st.out };
            lemma_run_stmts_depth(st1, ss, 0, fuel);
            assert(run_stmt(st, s, fuel) == run_block(st, ss, fuel));
            assert(run_block(st, ss, fuel).st.env == run_stmts(st1, ss, 0, fuel).st.env.drop_last());
        },
        StmtView::If(c, t, e) => {
            lemma_eval_expr_env_len(st.env, c);
            let r = eval_expr(st.env, c);
            let st1 = StateView { env: r.env, out: st.out };
            if r.res is Ok {
                if truthy(r.res->Ok_0) {
                    lemma_run_stmt_depth(st1, *t, fuel);
                } else {
                    match e {
                        Option::Some(x) => lemma_run_stmt_depth(st1, *x, fuel),
                        Option::None => {},
                    }
                }
            }
        },
        StmtView::While(c, b) => {
            lemma_run_while_depth(st, c, b, fuel);
        },
    }
}

/// Companion of [`lemma_run_stmt_depth`] for statement sequences.
pub proof fn lemma_run_stmts_depth(st: StateView, ss: Seq<StmtView>, i: int, fuel: nat)
    requires
        st.env.len() > 0,
    ensures
        run_stmts(st, ss, i, fuel).st.env.len() == st.env.len(),
    decreases fuel, svs_size(ss, i),
{
    if 0 <= i < ss.len() {
        lemma_run_stmt_depth(st, ss[i], fuel);
        let r = run_stmt(st, ss[i], fuel);
        if r.err is None {
            lemma_run_stmts_depth(r.st, ss, i + 1, fmin(r.fuel, fuel));
        }
    }
}

/// Companion of [`lemma_run_stmt_depth`] for loops.
pub proof fn lemma_run_while_depth(st: StateView, c: ExprView, b: Box<StmtView>, fuel: nat)
    requires
        st.env.len() > 0,
    ensures
        run_while(st, c, b, fuel).st.env.len() == st.env.len(),
    decreases fuel, 1 + sv_size(*b),
{
    if fuel > 0 {
        let f1 = (fuel - 1) as nat;
        lemma_eval_expr_env_len(st.env, c);
        let r = eval_expr(st.env, c);
        let st1 = StateView { env: r.env, out: st.out };
        if r.res is Ok && truthy(r.res->Ok_0) {
            lemma_run_stmt_depth(st1, *b, f1);
            let rb = run_stmt(st1, *b, f1);
            if rb.err is None {
                lemma_run_while_depth(rb.st, c, b, fmin(rb.fuel, f1));
            }
        }
    }
}

} // verus!

verus! {

/// An error raised while interpreting, carrying a description of the fault.
#[derive(Debug)]
pub struct InterpreterError {
    pub description: String,
}

/// The views of the printed lines.
pub open spec fn out_view(v: Seq<String>) -> Seq<Seq<char>> {
    v.map_values(|s: String| s@)
}

/// View of a `VarDec` statement.
pub open spec fn vardec_view(s: &VarDec) -> StmtView {
    StmtView::VarDec(
        s.name@,
        match &s.expression {
            Option::Some(e) => Option::Some(e@),
            Option::None => Option::None,
        },
    )
}

/// View of an `If` statement.
pub open spec fn if_view(s: &If) -> StmtView {
    StmtView::If(
        s.condition@,
        Box::new(s.then_branch@),
        match &s.else_branch {
            Option::Some(e) => Option::Some(Box::new((**e)@)),
            Option::None => Option::None,
        },
    )
}

/// View of a `While` statement.
pub open spec fn while_view(s: &While) -> StmtView {
    StmtView::While(s.condition@, Box::new(s.body@))
}

/// Every statement weighs at least its own unit within a sequence's size.
proof fn lemma_svs_size_bound(ss: Seq<StmtView>, j: int, i: int)
    requires
        0 <= j <= i < ss.len(),
    ensures
        sv_size(ss[i]) < svs_size(ss, j),
    decreases i - j,
{
    if j < i {
        lemma_svs_size_bound(ss, j + 1, i);
    }
}

/// The display form of a value, as a string.
pub fn display_literal(l: &Literal) -> (s: String)
    ensures
        s@ == display_val(l@),
{
    match l {
        Literal::Number(n) => render_i64(*n),
        Literal::String(s) => s.clone(),
        Literal::Bool(b) => if *b {
            String::from_str("true")
        } else {
            String::from_str("false")
        },
        Literal::Nil => String::from_str("Nil"),
    }
}

/// What a binary operator yields on two evaluated operands.
fn eval_binary(op: TokenType, left: Literal, right: Literal) -> (r: Result<
    Literal,
    InterpreterError,
>)
    ensures
        match apply_binary(op, left@, right@) {
            Result::Ok(v) => r is Ok && r->Ok_0@ == v,
            Result::Err(m) => r is Err && r->Err_0.description@ == m,
        },
{
    let types = (left, right);
    match op {
        TokenType::Minus => match types {
            (Literal::Number(x), Literal::Number(y)) => {
                let d: i128 = (x as i128) - (y as i128);
                if d < i64::MIN as i128 || d > i64::MAX as i128 {
                    Result::Err(InterpreterError {
                        description: String::from_str("Numeric overflow"),
                    })
                } else {
                    Result::Ok(Literal::Number(d as i64))
                }
            },
            _ => Result::Err(InterpreterError {
                description: String::from_str("Can only subtract two Numbers"),
            }),
        },
        TokenType::Slash => match types {
            (Literal::Number(x), Literal::Number(y)) => {
                if y == 0 {
                    Result::Err(InterpreterError {
                        description: String::from_str("Division by zero"),
                    })
                } else {
                    let neg: bool = (x < 0) != (y < 0);
                    let xm: u64 = if x == i64::MIN {
                        9223372036854775808u64
                    } else if x < 0 {
                        (-x) as u64
                    } else {
                        x as u64
                    };
                    let ym: u64 = if y == i64::MIN {
                        9223372036854775808u64
                    } else if y < 0 {
                        (-y) as u64
                    } else {
                        y as u64
                    };
                    let qm: u64 = xm / ym;
                    proof {
                        assert(xm as int == iabs(x as int));
                        assert(ym as int == iabs(y as int));
                        assert(qm as int == iabs(x as int) / iabs(y as int));
                    }
                    if neg {
                        if qm == 9223372036854775808u64 {
                            Result::Ok(Literal::Number(i64::MIN))
                        } else {
                            Result::Ok(Literal::Number(-(qm as i64)))
                        }
                    } else {
                        if qm > 9223372036854775807u64 {
                            Result::Err(InterpreterError {
                                description: String::from_str("Numeric overflow"),
                            })
                        } else {
                            Result::Ok(Literal::Number(qm as i64))
                        }
                    }
                }
            },
            _ => Result::Err(InterpreterError {
                description: String::from_str("Can only divide two Numbers"),
            }),
        },
        TokenType::Star => match types {
            (Literal::Number(x), Literal::Number(y)) => {
                proof {
                    assert(i128::MIN <= (x as int) * (y as int) <= i128::MAX) by (nonlinear_arith)
                        requires
                            i64::MIN <= x <= i64::MAX,
                            i64::MIN <= y <= i64::MAX,
                    ;
                }
                let p: i128 = (x as i128) * (y as i128);
                if p < i64::MIN as i128 || p > i64::MAX as i128 {
                    Result::Err(InterpreterError {
                        description: String::from_str("Numeric overflow"),
                    })
                } else {
                    Result::Ok(Literal::Number(p as i64))
                }
            },
            _ => Result::Err(InterpreterError {
                description: String::from_str("Can only multiply two Numbers"),
            }),
        },
        TokenType::Plus => match types {
            (Literal::Number(x), Literal::Number(y)) => {
                let s: i128 = (x as i128) + (y as i128);
                if s < i64::MIN as i128 || s > i64::MAX as i128 {
                    Result::Err(InterpreterError {
                        description: String::from_str("Numeric overflow"),
                    })
                } else {
                    Result::Ok(Literal::Number(s as i64))
                }
            },
            (Literal::String(x), Literal::String(y)) => {
                Result::Ok(Literal::String(x.concat(y.as_str())))
            },
            _ => Result::Err(InterpreterError {
                description: String::from_str("Can only add two Numbers or two Strings"),
            }),
        },
        TokenType::Greater => match types {
            (Literal::Number(x), Literal::Number(y)) => Result::Ok(Literal::Bool(x > y)),
            (Literal::String(x), Literal::String(y)) => Result::Ok(
                Literal::Bool(crate::text::str_less(y.as_str(), x.as_str())),
            ),
            _ => Result::Err(InterpreterError {
                description: String::from_str(
                    "Can only use greater than operator on two Numbers or two Strings",
                ),
            }),
        },
        TokenType::Less => match types {
            (Literal::Number(x), Literal::Number(y)) => Result::Ok(Literal::Bool(x < y)),
            (Literal::String(x), Literal::String(y)) => Result::Ok(
                Literal::Bool(crate::text::str_less(x.as_str(), y.as_str())),
            ),
            _ => Result::Err(InterpreterError {
                description: String::from_str(
                    "Can only use less than operator on two Numbers or two Strings",
                ),
            }),
        },
        TokenType::GreaterEqual => match types {
            (Literal::Number(x), Literal::Number(y)) => Result::Ok(Literal::Bool(x >= y)),
            (Literal::String(x), Literal::String(y)) => Result::Ok(
                Literal::Bool(!crate::text::str_less(x.as_str(), y.as_str())),
            ),
            _ => Result::Err(InterpreterError {
                description: String::from_str(
                    "Can only use greater than or equal operator on two Numbers or two Strings",
                ),
            }),
        },
        TokenType::LessEqual => match types {
            (Literal::Number(x), Literal::Number(y)) => Result::Ok(Literal::Bool(x <= y)),
            (Literal::String(x), Literal::String(y)) => Result::Ok(
                Literal::Bool(!crate::text::str_less(y.as_str(), x.as_str())),
            ),
            _ => Result::Err(InterpreterError {
                description: String::from_str(
                    "Can only use less than or equal operator on two Numbers or two Strings",
                ),
            }),
        },
        TokenType::BangEqual => match types {
            (Literal::Number(x), Literal::Number(y)) => Result::Ok(Literal::Bool(x != y)),
            (Literal::String(x), Literal::String(y)) => Result::Ok(Literal::Bool(!(x == y))),
            _ => Result::Err(InterpreterError {
                description: String::from_str(
                    "Can only use bang equal operator on two Numbers or two Strings",
                ),
            }),
        },
        TokenType::EqualEqual => match types {
            (Literal::Number(x), Literal::Number(y)) => Result::Ok(Literal::Bool(x == y)),
            (Literal::String(x), Literal::String(y)) => Result::Ok(Literal::Bool(x == y)),
            _ => Result::Err(InterpreterError {
                description: String::from_str(
                    "Can only use equal equal operator on two Numbers or two Strings",
                ),
            }),
        },
        _ => Result::Err(InterpreterError {
            description: String::from_str("Unrecognized binary operator"),
        }),
    }
}

/// Walks the tree: holds the scope chain, the printed lines, and the step
/// budget that bounds loop iterations.
#[derive(Debug)]
pub struct Interpreter {
    pub environment: Environment,
    pub output: Vec<String>,
    pub budget: u64,
}

impl Interpreter {
    /// The machine state this interpreter holds, as a mathematical value.
    pub open spec fn state(&self) -> StateView {
        StateView { env: self.environment@, out: out_view(self.output@) }
    }

    /// A fresh interpreter: one empty root scope, no output, the given
    /// step budget.
    pub fn new(budget: u64) -> (r: Interpreter)
        ensures
            r.state().env =~= seq![Map::<Seq<char>, ValueView>::empty()],
            r.state().out =~= Seq::<Seq<char>>::empty(),
            r.budget == budget,
    {
        let r = Interpreter { environment: Environment::new(), output: Vec::new(), budget };
        proof {
            assert(out_view(r.output@) =~= Seq::<Seq<char>>::empty());
        }
        r
    }

    /// Truthiness of a value: only `Nil` and `false` are falsy.
    pub fn is_truthy(literal: &Literal) -> (r: bool)
        ensures
            r == truthy(literal@),
    {
        match literal {
            Literal::Nil => false,
            Literal::Bool(b) => *b,
            _ => true,
        }
    }

    /// Evaluates an expression: returns exactly the value (or error) of
    /// [`eval_expr`], leaves the scope chain as it says, and touches
    /// neither the output nor the budget.
    pub fn expr(&mut self, e: &Expr) -> (r: Result<Literal, InterpreterError>)
        ensures
            ({
                let r0 = eval_expr(old(self).environment@, e@);
                &&& final(self).environment@ == r0.env
                &&& final(self).output@ == old(self).output@
                &&& final(self).budget == old(self).budget
                &&& (match r0.res {
                    Result::Ok(v) => r is Ok && r->Ok_0@ == v,
                    Result::Err(m) => r is Err && r->Err_0.description@ == m,
                })
            }),
        decreases *e,
    {
        match e {
            Expr::Literal(literal) => Result::Ok(literal.duplicate()),
            Expr::Grouping(grouping) => self.expr(&grouping.expression),
            Expr::Unary(unary) => {
                let right = match self.expr(&unary.right) {
                    Result::Ok(v) => v,
                    Result::Err(er) => {
                        return Result::Err(er);
                    },
                };
                match unary.operator.kind {
                    TokenType::Minus => match right {
                        Literal::Number(x) => {
                            if x == i64::MIN {
                                Result::Err(InterpreterError {
                                    description: String::from_str("Numeric overflow"),
                                })
                            } else {
                                Result::Ok(Literal::Number(-x))
                            }
                        },
                        _ => Result::Err(InterpreterError {
                            description: String::from_str("Can only negate a Number"),
                        }),
                    },
                    TokenType::Bang => Result::Ok(Literal::Bool(!Self::is_truthy(&right))),
                    _ => Result::Err(InterpreterError {
                        description: String::from_str("Unrecognized unary operator"),
                    }),
                }
            },
            Expr::Binary(binary) => {
                let left = match self.expr(&binary.left) {
                    Result::Ok(v) => v,
                    Result::Err(er) => {
                        return Result::Err(er);
                    },
                };
                let right = match self.expr(&binary.right) {
                    Result::Ok(v) => v,
                    Result::Err(er) => {
                        return Result::Err(er);
                    },
                };
                eval_binary(binary.operator.kind, left, right)
            },
            Expr::Logical(logical) => {
                let left = match self.expr(&logical.left) {
                    Result::Ok(v) => v,
                    Result::Err(er) => {
                        return Result::Err(er);
                    },
                };
                match logical.operator.kind {
                    TokenType::And => {
                        if !Self::is_truthy(&left) {
                            return Result::Ok(left);
                        }
                    },
                    TokenType::Or => {
                        if Self::is_truthy(&left) {
                            return Result::Ok(left);
                        }
                    },
                    _ => {
                        let mut m = String::from_str(
                            "Logical expression created with an unsupported operator: ",
                        );
                        m.append(logical.operator.lexeme.as_str());
                        return Result::Err(InterpreterError { description: m });
                    },
                }
                self.expr(&logical.right)
            },
            Expr::Variable(variable) => {
                match self.environment.get(variable.name.duplicate()) {
                    Result::Ok(literal) => Result::Ok(literal),
                    Result::Err(er) => Result::Err(InterpreterError {
                        description: er.description,
                    }),
                }
            },
            Expr::Assign(assign) => {
                let value = match self.expr(&assign.value) {
                    Result::Ok(v) => v,
                    Result::Err(er) => {
                        return Result::Err(er);
                    },
                };
                match self.environment.assign(assign.name.duplicate(), value.duplicate()) {
                    Result::Ok(_) => Result::Ok(value),
                    Result::Err(er) => Result::Err(InterpreterError {
                        description: er.description,
                    }),
                }
            },
        }
    }
}

} // verus!

verus! {

impl Interpreter {
    /// Runs the statements of a list in order, stopping at the first
    /// error: exactly [`run_stmts`] on the state and budget held.
    pub fn interpret_stmts(&mut self, stmts: &Vec<Stmt>) -> (r: Result<(), InterpreterError>)
        requires
            old(self).environment@.len() > 0,
        ensures
            ({
                let r0 = run_stmts(
                    old(self).state(),
                    stmts_view(stmts@),
                    0,
                    old(self).budget as nat,
                );
                &&& final(self).state() == r0.st
                &&& final(self).budget as nat == r0.fuel
                &&& (match r0.err {
                    Option::None => r is Ok,
                    Option::Some(m) => r is Err && r->Err_0.description@ == m,
                })
            }),
        decreases self.budget, svs_size(stmts_view(stmts@), 0), 0int,
    {
        let ghost st0 = self.state();
        let ghost f0 = self.budget as nat;
        let ghost views = stmts_view(stmts@);
        proof {
            crate::stmt::lemma_stmts_view(stmts@);
        }
        let mut i: usize = 0;
        while i < stmts.len()
            invariant
                0 <= i <= stmts.len(),
                views == stmts_view(stmts@),
                views.len() == stmts@.len(),
                forall|k: int| 0 <= k < stmts@.len() ==> views[k] == #[trigger] stmts@[k]@,
                st0 == old(self).state(),
                f0 == old(self).budget as nat,
                self.budget as nat <= f0,
                self.environment@.len() == st0.env.len(),
                st0.env.len() > 0,
                run_stmts(st0, views, 0, f0) == run_stmts(
                    self.state(),
                    views,
                    i as int,
                    self.budget as nat,
                ),
            decreases stmts.len() - i,
        {
            let ghost st_head = self.state();
            let ghost f_head = self.budget as nat;
            proof {
                lemma_svs_size_bound(views, i as int, i as int);
                if self.budget as nat == f0 {
                    lemma_svs_size_bound(views, 0, i as int);
                }
            }
            let r = self.stmt(&stmts[i]);
            proof {
                lemma_run_stmt_fuel(st_head, views[i as int], f_head);
                lemma_run_stmt_depth(st_head, views[i as int], f_head);
            }
            match r {
                Result::Err(er) => {
                    return Result::Err(er);
                },
                Result::Ok(_) => {},
            }
            i = i + 1;
        }
        Result::Ok(())
    }

    /// Runs one statement: exactly [`run_stmt`] on the state and budget
    /// held.
    pub fn stmt(&mut self, s: &Stmt) -> (r: Result<(), InterpreterError>)
        requires
            old(self).environment@.len() > 0,
        ensures
            ({
                let r0 = run_stmt(old(self).state(), s@, old(self).budget as nat);
                &&& final(self).state() == r0.st
                &&& final(self).budget as nat == r0.fuel
                &&& (match r0.err {
                    Option::None => r is Ok,
                    Option::Some(m) => r is Err && r->Err_0.description@ == m,
                })
            }),
        decreases self.budget, sv_size(s@), 1int,
    {
        match s {
            Stmt::Expr(expr_stmt) => {
                match self.expr(&expr_stmt.expression) {
                    Result::Ok(_) => Result::Ok(()),
                    Result::Err(er) => Result::Err(er),
                }
            },
            Stmt::Print(print_stmt) => self.print_stmt(&print_stmt.expression),
            Stmt::VarDec(var_stmt) => self.var_stmt(var_stmt),
            Stmt::Block(block_stmt) => self.block_stmt(&block_stmt.statements),
            Stmt::If(if_stmt) => self.if_stmt(if_stmt),
            Stmt::While(while_stmt) => self.while_stmt(while_stmt),
        }
    }

    /// Runs a loop: repeatedly evaluates the condition and runs the body
    /// while the condition is truthy, charging one unit of budget per
    /// iteration: exactly [`run_while`].
    pub fn while_stmt(&mut self, stmt: &While) -> (r: Result<(), InterpreterError>)
        requires
            old(self).environment@.len() > 0,
        ensures
            ({
                let r0 = run_while(
                    old(self).state(),
                    stmt.condition@,
                    Box::new(stmt.body@),
                    old(self).budget as nat,
                );
                &&& final(self).state() == r0.st
                &&& final(self).budget as nat == r0.fuel
                &&& (match r0.err {
                    Option::None => r is Ok,
                    Option::Some(m) => r is Err && r->Err_0.description@ == m,
                })
            }),
        decreases self.budget, sv_size(while_view(stmt)), 0int,
    {
        let ghost st0 = self.state();
        let ghost f0 = self.budget as nat;
        let ghost c = stmt.condition@;
        let ghost b: Box<StmtView> = Box::new(stmt.body@);
        loop
            invariant
                st0 == old(self).state(),
                f0 == old(self).budget as nat,
                self.budget as nat <= f0,
                self.environment@.len() == st0.env.len(),
                st0.env.len() > 0,
                run_while(st0, c, b, f0) == run_while(self.state(), c, b, self.budget as nat),
                c == stmt.condition@,
                b == Box::new(stmt.body@),
            decreases self.budget,
        {
            let ghost st_head = self.state();
            let ghost f_head = self.budget as nat;
            if self.budget == 0 {
                return Result::Err(InterpreterError {
                    description: String::from_str("Execution budget exhausted"),
                });
            }
            self.budget = self.budget - 1;
            let ghost env_head = self.environment@;
            let cond = self.expr(&stmt.condition);
            proof {
                lemma_eval_expr_env_len(env_head, stmt.condition@);
            }
            match cond {
                Result::Err(er) => {
                    return Result::Err(er);
                },
                Result::Ok(v) => {
                    if !Self::is_truthy(&v) {
                        return Result::Ok(());
                    }
                    let ghost st1 = self.state();
                    let ghost f1 = self.budget as nat;
                    let rb = self.stmt(&stmt.body);
                    proof {
                        lemma_run_stmt_fuel(st1, stmt.body@, f1);
                        lemma_run_stmt_depth(st1, stmt.body@, f1);
                    }
                    match rb {
                        Result::Err(er) => {
                            return Result::Err(er);
                        },
                        Result::Ok(_) => {},
                    }
                },
            }
        }
    }

    /// Runs a conditional: evaluates the condition's truthiness and runs
    /// exactly the branch it selects, if any.
    pub fn if_stmt(&mut self, stmt: &If) -> (r: Result<(), InterpreterError>)
        requires
            old(self).environment@.len() > 0,
        ensures
            ({
                let r0 = run_stmt(old(self).state(), if_view(stmt), old(self).budget as nat);
                &&& final(self).state() == r0.st
                &&& final(self).budget as nat == r0.fuel
                &&& (match r0.err {
                    Option::None => r is Ok,
                    Option::Some(m) => r is Err && r->Err_0.description@ == m,
                })
            }),
        decreases self.budget, sv_size(if_view(stmt)), 0int,
    {
        let ghost env0 = self.environment@;
        let cond = self.expr(&stmt.condition);
        proof {
            lemma_eval_expr_env_len(env0, stmt.condition@);
        }
        match cond {
            Result::Err(er) => Result::Err(er),
            Result::Ok(v) => {
                if Self::is_truthy(&v) {
                    self.stmt(&stmt.then_branch)
                } else {
                    match &stmt.else_branch {
                        Option::Some(eb) => self.stmt(eb),
                        Option::None => Result::Ok(()),
                    }
                }
            },
        }
    }

    /// Runs a block: pushes a fresh child scope, runs the statements, and
    /// restores the enclosing scope on every way out, error included.
    pub fn block_stmt(&mut self, stmts: &Vec<Stmt>) -> (r: Result<(), InterpreterError>)
        ensures
            ({
                let r0 = run_block(old(self).state(), stmts_view(stmts@), old(self).budget as nat);
                &&& final(self).state() == r0.st
                &&& final(self).budget as nat == r0.fuel
                &&& (match r0.err {
                    Option::None => r is Ok,
                    Option::Some(m) => r is Err && r->Err_0.description@ == m,
                })
            }),
        decreases self.budget, 1 + svs_size(stmts_view(stmts@), 0), 0int,
    {
        let ghost st0 = self.state();
        let ghost f0 = self.budget as nat;
        self.environment.push_frame();
        let ghost st1 = self.state();
        proof {
            assert(st1.env =~= st0.env.push(Map::empty()));
            assert(st1 == StateView { env: st0.env.push(Map::empty()), out: st0.out });
        }
        let r = self.interpret_stmts(stmts);
        proof {
            lemma_run_stmts_depth(st1, stmts_view(stmts@), 0, f0);
        }
        self.environment.pop_frame();
        r
    }

    /// Runs a declaration: evaluates the initializer (absence binds `Nil`)
    /// and binds the name in the current scope.
    pub fn var_stmt(&mut self, stmt: &VarDec) -> (r: Result<(), InterpreterError>)
        requires
            old(self).environment@.len() > 0,
        ensures
            ({
                let r0 = run_stmt(old(self).state(), vardec_view(stmt), old(self).budget as nat);
                &&& final(self).state() == r0.st
                &&& final(self).budget as nat == r0.fuel
                &&& (match r0.err {
                    Option::None => r is Ok,
                    Option::Some(m) => r is Err && r->Err_0.description@ == m,
                })
            }),
    {
        let ghost env0 = self.environment@;
        let value = match &stmt.expression {
            Option::Some(e) => {
                match self.expr(e) {
                    Result::Ok(v) => Option::Some(v),
                    Result::Err(er) => {
                        return Result::Err(er);
                    },
                }
            },
            Option::None => Option::None,
        };
        proof {
            match &stmt.expression {
                Option::Some(e) => lemma_eval_expr_env_len(env0, e@),
                Option::None => (),
            }
        }
        self.environment.define(stmt.name.lexeme.clone(), value);
        Result::Ok(())
    }

    /// Runs a `print`: evaluates the expression and appends the display
    /// form of its value to the output buffer.
    pub fn print_stmt(&mut self, expr: &Expr) -> (r: Result<(), InterpreterError>)
        ensures
            ({
                let r0 = run_stmt(
                    old(self).state(),
                    StmtView::Print(expr@),
                    old(self).budget as nat,
                );
                &&& final(self).state() == r0.st
                &&& final(self).budget as nat == r0.fuel
                &&& (match r0.err {
                    Option::None => r is Ok,
                    Option::Some(m) => r is Err && r->Err_0.description@ == m,
                })
            }),
    {
        let value = match self.expr(expr) {
            Result::Ok(v) => v,
            Result::Err(er) => {
                return Result::Err(er);
            },
        };
        let line = display_literal(&value);
        let ghost before = self.output@;
        self.output.push(line);
        proof {
            assert(out_view(self.output@) =~= out_view(before).push(display_val(value@)));
        }
        Result::Ok(())
    }
}

} // verus!


verus! {

/// The truthiness table: `Nil` and `false` are falsy; zero, the empty
/// string, and `true` are truthy.
pub proof fn lemma_truthiness()
    ensures
        !truthy(ValueView::Nil),
        !truthy(ValueView::Bool(false)),
        truthy(ValueView::Num(0)),
        truthy(ValueView::Str(Seq::empty())),
        truthy(ValueView::Bool(true)),
{
}

/// Short circuit for `and`: a falsy left operand is the whole answer, and
/// the right operand is never evaluated — whatever it is, even one that
/// would fail.
pub proof fn lemma_and_short_circuit(
    env: Seq<Map<Seq<char>, ValueView>>,
    l: ExprView,
    op: TokenView,
    r: ExprView,
)
    requires
        op.kind == TokenType::And,
        eval_expr(env, l).res is Ok,
        !truthy(eval_expr(env, l).res->Ok_0),
    ensures
        eval_expr(env, ExprView::Logical(Box::new(l), op, Box::new(r))) == eval_expr(env, l),
{
}

/// Short circuit for `or`: a truthy left operand is the whole answer, and
/// the right operand is never evaluated.
pub proof fn lemma_or_short_circuit(
    env: Seq<Map<Seq<char>, ValueView>>,
    l: ExprView,
    op: TokenView,
    r: ExprView,
)
    requires
        op.kind == TokenType::Or,
        eval_expr(env, l).res is Ok,
        truthy(eval_expr(env, l).res->Ok_0),
    ensures
        eval_expr(env, ExprView::Logical(Box::new(l), op, Box::new(r))) == eval_expr(env, l),
{
}

/// Arithmetic is exact: on two numbers the operators yield the
/// mathematical sum, difference, product, or truncated quotient whenever
/// that value is representable, and division by zero is the one divisor
/// error.
pub proof fn lemma_arithmetic_exact(x: int, y: int)
    ensures
        fits_i64(x + y) ==> apply_binary(TokenType::Plus, ValueView::Num(x), ValueView::Num(y))
            == Result::<ValueView, Seq<char>>::Ok(ValueView::Num(x + y)),
        fits_i64(x - y) ==> apply_binary(TokenType::Minus, ValueView::Num(x), ValueView::Num(y))
            == Result::<ValueView, Seq<char>>::Ok(ValueView::Num(x - y)),
        fits_i64(x * y) ==> apply_binary(TokenType::Star, ValueView::Num(x), ValueView::Num(y))
            == Result::<ValueView, Seq<char>>::Ok(ValueView::Num(x * y)),
        y != 0 && fits_i64(tdiv(x, y)) ==> apply_binary(
            TokenType::Slash,
            ValueView::Num(x),
            ValueView::Num(y),
        ) == Result::<ValueView, Seq<char>>::Ok(ValueView::Num(tdiv(x, y))),
        y == 0 ==> apply_binary(TokenType::Slash, ValueView::Num(x), ValueView::Num(y))
            == Result::<ValueView, Seq<char>>::Err("Division by zero"@),
{
}

/// Assignment resolves exactly where lookup does: a name can be assigned
/// if and only if some frame of the chain binds it.
pub proof fn lemma_assign_iff_bound(
    env: Seq<Map<Seq<char>, ValueView>>,
    name: Seq<char>,
    value: ValueView,
)
    ensures
        env_assign_chain(env, name, value) is Some <==> env_lookup(env, name) is Some,
    decreases env.len(),
{
    if env.len() > 0 && !env.last().contains_key(name) {
        lemma_assign_iff_bound(env.drop_last(), name, value);
    }
}

} // verus!
