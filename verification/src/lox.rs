//! The driver-facing surface: the diagnostic type, its report format, and
//! the run of a whole source text through scanner, parser and interpreter.

use crate::text::{dec_digits, render_u64};
use vstd::prelude::*;

verus! {

/// Mathematical view of a diagnostic: the line it cites and its message.
pub struct ErrorView {
    pub line: nat,
    pub message: Seq<char>,
}

/// A diagnostic produced while scanning (or reported to the driver), citing
/// a source line.
#[derive(Debug)]
pub struct Error {
    pub line: usize,
    pub message: String,
}

impl View for Error {
    type V = ErrorView;

    open spec fn view(&self) -> ErrorView {
        ErrorView { line: self.line as nat, message: self.message@ }
    }
}

/// The diagnostic line shown for an error: `[line N] Error{where}: {message}`.
pub open spec fn report_line(e: ErrorView, wher: Seq<char>) -> Seq<char> {
    "[line "@ + dec_digits(e.line as int) + "] Error"@ + wher + ": "@ + e.message
}

impl Error {
    /// Formats this diagnostic as the driver shows it, with `wher` naming
    /// the place at fault (empty for top-level errors).
    pub fn report(&self, wher: &str) -> (s: String)
        ensures
            s@ == report_line(self@, wher@),
    {
        let mut s = String::from_str("[line ");
        let num = render_u64(self.line as u64);
        s.append(num.as_str());
        s.append("] Error");
        s.append(wher);
        s.append(": ");
        s.append(self.message.as_str());
        s
    }
}

} // verus!

verus! {

/// The views of a sequence of diagnostics, elementwise.
pub open spec fn errors_view(es: Seq<Error>) -> Seq<ErrorView>
    decreases es.len(),
{
    if es.len() == 0 {
        Seq::empty()
    } else {
        errors_view(es.drop_last()).push(es.last()@)
    }
}

/// `errors_view` maps element by element.
pub proof fn lemma_errors_view(es: Seq<Error>)
    ensures
        errors_view(es).len() == es.len(),
        forall|i: int| 0 <= i < es.len() ==> errors_view(es)[i] == #[trigger] es[i]@,
        forall|i: int| 0 <= i < es.len() ==> #[trigger] errors_view(es)[i] == es[i]@,
    decreases es.len(),
{
    if es.len() > 0 {
        lemma_errors_view(es.drop_last());
        assert forall|i: int| 0 <= i < es.len() implies errors_view(es)[i] == #[trigger] es[i]@ by {
            if i < es.len() - 1 {
                assert(es.drop_last()[i] == es[i]);
                assert(errors_view(es)[i] == errors_view(es.drop_last())[i]);
            }
        }
    }
}

/// Appending a diagnostic appends its view.
pub proof fn lemma_errors_view_push(es: Seq<Error>, e: Error)
    ensures
        errors_view(es.push(e)) == errors_view(es).push(e@),
{
    assert(es.push(e).drop_last() =~= es);
    assert(es.push(e).last() == e);
}

} // verus!

verus! {

/// The report lines for a batch of diagnostics, in order, with an empty
/// `where` part.
pub open spec fn error_reports(es: Seq<ErrorView>) -> Seq<Seq<char>>
    decreases es.len(),
{
    if es.len() == 0 {
        Seq::empty()
    } else {
        error_reports(es.drop_last()).push(report_line(es.last(), Seq::empty()))
    }
}

/// What one run of a source text yields: the lines to show, in order, and
/// whether a scan or parse error stopped it before execution.
///
/// Scan errors are batched and each reported; a parse error aborts with a
/// single line; otherwise the program executes against a fresh root scope
/// with the given step budget, its printed lines followed by at most one
/// runtime error line.
pub open spec fn run_spec(source: Seq<char>, budget: nat) -> (Seq<Seq<char>>, bool) {
    let (toks, errs) = crate::scanner::scan_spec(source);
    if errs.len() != 0 {
        (error_reports(errs), true)
    } else {
        match crate::parser::parse_spec(toks) {
            Result::Err(m) => (seq!["ParseError: "@ + m], true),
            Result::Ok(ss) => {
                let r = crate::interpreter::run_stmts(
                    crate::interpreter::StateView {
                        env: seq![Map::empty()],
                        out: Seq::empty(),
                    },
                    ss,
                    0,
                    budget,
                );
                match r.err {
                    Option::None => (r.st.out, false),
                    Option::Some(m) => (r.st.out.push("InterpreterError: "@ + m), false),
                }
            },
        }
    }
}

/// The driver-facing state: whether an error has been seen in this run.
#[derive(Debug)]
pub struct Lox {
    pub had_error: bool,
}

impl Lox {
    /// Runs a whole source text through scanner, parser and interpreter:
    /// returns exactly the lines of [`run_spec`], and raises `had_error`
    /// exactly when scanning or parsing failed.
    pub fn run(&mut self, source: String, budget: u64) -> (out: Vec<String>)
        requires
            source@.len() < usize::MAX,
        ensures
            ({
                let (lines, he) = run_spec(source@, budget as nat);
                &&& crate::interpreter::out_view(out@) == lines
                &&& final(self).had_error == (old(self).had_error || he)
            }),
    {
        let ghost src = source@;
        match crate::scanner::Scanner::scan_tokens(source) {
            Result::Err(errors) => {
                self.had_error = true;
                let mut out: Vec<String> = Vec::new();
                let mut i: usize = 0;
                proof {
                    lemma_errors_view(errors@);
                    assert(errors@.take(0) =~= Seq::<Error>::empty());
                    assert(crate::interpreter::out_view(out@) =~= error_reports(
                        errors_view(errors@.take(0)),
                    ));
                }
                while i < errors.len()
                    invariant
                        0 <= i <= errors@.len(),
                        crate::interpreter::out_view(out@) =~= error_reports(
                            errors_view(errors@.take(i as int)),
                        ),
                        errors_view(errors@) == crate::scanner::scan_spec(src).1,
                    decreases errors@.len() - i,
                {
                    let line = errors[i].report("");
                    let ghost out0 = out@;
                    out.push(line);
                    proof {
                        lemma_errors_view(errors@);
                        let pre = errors@.take(i as int);
                        let pre1 = errors@.take(i + 1);
                        lemma_errors_view(pre1);
                        lemma_errors_view(pre);
                        assert(pre1.drop_last() =~= pre);
                        assert(errors_view(pre1).drop_last() =~= errors_view(pre));
                        assert(errors_view(pre1).last() == errors@[i as int]@);
                        assert(errors_view(pre1).len() > 0);
                        assert(error_reports(errors_view(pre1)) == error_reports(
                            errors_view(pre1).drop_last(),
                        ).push(report_line(errors_view(pre1).last(), Seq::empty())));
                        assert(error_reports(errors_view(pre1)) == error_reports(
                            errors_view(pre),
                        ).push(report_line(errors@[i as int]@, Seq::empty())));
                        reveal_strlit("");
                        assert(""@ =~= Seq::<char>::empty());
                        assert(crate::interpreter::out_view(out@) =~= crate::interpreter::out_view(
                            out0,
                        ).push(line@));
                    }
                    i = i + 1;
                }
                proof {
                    assert(errors@.take(errors@.len() as int) =~= errors@);
                }
                out
            },
            Result::Ok(tokens) => {
                match crate::parser::Parser::parse(tokens) {
                    Result::Err(e) => {
                        self.had_error = true;
                        let mut line = String::from_str("ParseError: ");
                        line.append(e.description.as_str());
                        let mut out: Vec<String> = Vec::new();
                        out.push(line);
                        proof {
                            assert(crate::interpreter::out_view(out@) =~= seq![
                                "ParseError: "@ + e.description@,
                            ]);
                        }
                        out
                    },
                    Result::Ok(stmts) => {
                        let mut interpreter = crate::interpreter::Interpreter::new(budget);
                        proof {
                            assert(interpreter.state() == crate::interpreter::StateView {
                                env: seq![Map::<Seq<char>, crate::expr::ValueView>::empty()],
                                out: Seq::<Seq<char>>::empty(),
                            });
                        }
                        match interpreter.interpret_stmts(&stmts) {
                            Result::Ok(_u) => interpreter.output,
                            Result::Err(e) => {
                                let mut line = String::from_str("InterpreterError: ");
                                line.append(e.description.as_str());
                                let mut out = interpreter.output;
                                let ghost out0 = out@;
                                out.push(line);
                                proof {
                                    assert(crate::interpreter::out_view(out@)
                                        =~= crate::interpreter::out_view(out0).push(
                                        "InterpreterError: "@ + e.description@,
                                    ));
                                }
                                out
                            },
                        }
                    },
                }
            },
        }
    }
}

} // verus!
