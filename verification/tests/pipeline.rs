//! End-to-end runs of whole programs through `Lox::run`.

use rlox::lox::Lox;

fn run(source: &str) -> (Vec<String>, bool) {
    let mut lox = Lox { had_error: false };
    let out = lox.run(String::from(source), u64::MAX);
    (out, lox.had_error)
}

#[test]
fn scoping_shadowed_block_variable() {
    let (out, had_error) = run("var a = 1; { var a = 2; } print a;");
    assert_eq!(out, vec![String::from("1")]);
    assert!(!had_error);
}

#[test]
fn unresolved_assignment_names_the_variable() {
    let (out, had_error) = run("a = 1;");
    assert_eq!(out, vec![String::from("InterpreterError: Undefined variable a")]);
    assert!(!had_error);
}

#[test]
fn short_circuit_and_skips_division() {
    let (out, _) = run("print false and (1/0);");
    assert_eq!(out, vec![String::from("false")]);
}

#[test]
fn short_circuit_or_skips_division() {
    let (out, _) = run("print true or (1/0);");
    assert_eq!(out, vec![String::from("true")]);
}

#[test]
fn division_by_zero_is_a_runtime_error() {
    let (out, had_error) = run("print 1/0;");
    assert_eq!(out, vec![String::from("InterpreterError: Division by zero")]);
    assert!(!had_error);
}

#[test]
fn for_loop_prints_each_index() {
    let (out, _) = run("for (var i = 0; i < 3; i = i + 1) print i;");
    assert_eq!(out, vec![String::from("0"), String::from("1"), String::from("2")]);
}

#[test]
fn for_loop_initializer_is_scoped_to_the_loop() {
    let (out, _) = run("for (var i = 0; i < 1; i = i + 1) print i; print i;");
    assert_eq!(out.len(), 2);
    assert_eq!(out[0], String::from("0"));
    assert_eq!(out[1], String::from("InterpreterError: Undefined variable i"));
}

#[test]
fn two_unsupported_characters_give_two_reports() {
    let (out, had_error) = run("@#");
    assert_eq!(
        out,
        vec![
            String::from("[line 1] Error: Unexpected character: @"),
            String::from("[line 1] Error: Unexpected character: #"),
        ]
    );
    assert!(had_error);
}

#[test]
fn truthiness_of_nil_zero_and_empty_string() {
    let (out, _) = run("print !nil; print !0; print !\"\"; print !false;");
    assert_eq!(
        out,
        vec![
            String::from("true"),
            String::from("false"),
            String::from("false"),
            String::from("true"),
        ]
    );
}

#[test]
fn arithmetic_precedence_and_grouping() {
    let (out, _) = run("print 2 + 3 * 4; print (2 + 3) * 4; print 1 - 2;");
    assert_eq!(out, vec![String::from("14"), String::from("20"), String::from("-1")]);
}

#[test]
fn division_truncates_toward_zero() {
    let (out, _) = run("print 10 / 3; print -5 / 2; print 5 / -2;");
    assert_eq!(out, vec![String::from("3"), String::from("-2"), String::from("-2")]);
}

#[test]
fn string_concatenation_and_ordering() {
    let (out, _) = run("print \"a\" + \"b\"; print \"abc\" < \"abd\"; print \"b\" > \"a\";");
    assert_eq!(out, vec![String::from("ab"), String::from("true"), String::from("true")]);
}

#[test]
fn equality_is_per_kind() {
    let (out, _) = run("print 1 == 1; print \"a\" != \"b\";");
    assert_eq!(out, vec![String::from("true"), String::from("true")]);
}

#[test]
fn mixed_kind_addition_is_a_runtime_error() {
    let (out, _) = run("print 1 + \"a\";");
    assert_eq!(
        out,
        vec![String::from("InterpreterError: Can only add two Numbers or two Strings")]
    );
}

#[test]
fn mixed_kind_equality_is_a_runtime_error() {
    let (out, _) = run("print 1 == \"1\";");
    assert_eq!(
        out,
        vec![
            String::from(
                "InterpreterError: Can only use equal equal operator on two Numbers or two Strings"
            ),
        ]
    );
}

#[test]
fn addition_overflow_is_a_runtime_error() {
    let (out, _) = run("print 9223372036854775807 + 1;");
    assert_eq!(out, vec![String::from("InterpreterError: Numeric overflow")]);
}

#[test]
fn negating_a_string_is_a_runtime_error() {
    let (out, _) = run("print -\"a\";");
    assert_eq!(out, vec![String::from("InterpreterError: Can only negate a Number")]);
}

#[test]
fn whole_valued_fraction_is_accepted() {
    let (out, had_error) = run("print 2.0;");
    assert_eq!(out, vec![String::from("2")]);
    assert!(!had_error);
}

#[test]
fn fractional_literal_is_a_lex_error() {
    let (out, had_error) = run("print 1.5;");
    assert_eq!(out, vec![String::from("[line 1] Error: Failed to parse number: 1.5")]);
    assert!(had_error);
}

#[test]
fn while_loop_runs_until_condition_fails() {
    let (out, _) = run("var i = 0; while (i < 2) { print i; i = i + 1; }");
    assert_eq!(out, vec![String::from("0"), String::from("1")]);
}

#[test]
fn if_else_takes_exactly_one_branch() {
    let (out, _) = run("if (1 > 2) print 1; else print 2; if (2 > 1) print 3;");
    assert_eq!(out, vec![String::from("2"), String::from("3")]);
}

#[test]
fn logical_operators_return_the_deciding_operand() {
    let (out, _) = run("print 1 and 2; print nil or 3; print 0 or 4;");
    assert_eq!(out, vec![String::from("2"), String::from("3"), String::from("0")]);
}

#[test]
fn assignment_returns_the_assigned_value() {
    let (out, _) = run("var a = 1; print a = 3; print a;");
    assert_eq!(out, vec![String::from("3"), String::from("3")]);
}

#[test]
fn assignment_reaches_the_enclosing_scope() {
    let (out, _) = run("var a = 1; { a = 2; } print a;");
    assert_eq!(out, vec![String::from("2")]);
}

#[test]
fn redeclaration_in_the_same_scope_shadows() {
    let (out, _) = run("var a = 1; var a = 2; print a;");
    assert_eq!(out, vec![String::from("2")]);
}

#[test]
fn nil_and_booleans_display_forms() {
    let (out, _) = run("print nil; print true; print false; var u; print u;");
    assert_eq!(
        out,
        vec![
            String::from("Nil"),
            String::from("true"),
            String::from("false"),
            String::from("Nil"),
        ]
    );
}

#[test]
fn runtime_error_aborts_remaining_statements() {
    let (out, _) = run("print 1; print -nil; print 2;");
    assert_eq!(
        out,
        vec![String::from("1"), String::from("InterpreterError: Can only negate a Number")]
    );
}

#[test]
fn parse_error_aborts_the_whole_run() {
    let (out, had_error) = run("print 1; print 2");
    assert_eq!(
        out,
        vec![String::from("ParseError: Expected print statement to end with a semicolon")]
    );
    assert!(had_error);
}

#[test]
fn comments_are_ignored_to_end_of_line() {
    let (out, _) = run("// nothing here\nprint 1; // trailing\nprint 2;");
    assert_eq!(out, vec![String::from("1"), String::from("2")]);
}

#[test]
fn strings_span_lines_and_errors_cite_later_lines() {
    let (out, _) = run("print \"a\nb\";\nprint @;");
    assert_eq!(out.len(), 1);
    assert_eq!(out[0], String::from("[line 3] Error: Unexpected character: @"));
}
