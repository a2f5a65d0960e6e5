//! Unit-level checks of the scanner, parser, environment, interpreter, and
//! text helpers.

use rlox::environment::Environment;
use rlox::expr::{Expr, Literal};
use rlox::interpreter::{display_literal, Interpreter};
use rlox::lox::Error;
use rlox::parser::Parser;
use rlox::scanner::Scanner;
use rlox::stmt::Stmt;
use rlox::text::{render_i64, render_u64, str_less};
use rlox::token_type::{Literal as TokenLiteral, Token, TokenType};

fn ident(name: &str) -> Token {
    Token {
        kind: TokenType::Identifier,
        lexeme: String::from(name),
        literal: None,
        line: 1,
    }
}

#[test]
fn scanner_classifies_punctuation_and_operators() {
    let tokens = Scanner::scan_tokens(String::from("(){},.-+;*/ ! != = == < <= > >=")).unwrap();
    let kinds: Vec<TokenType> = tokens.iter().map(|t| t.kind).collect();
    assert_eq!(
        kinds,
        vec![
            TokenType::LeftParen,
            TokenType::RightParen,
            TokenType::LeftBrace,
            TokenType::RightBrace,
            TokenType::Comma,
            TokenType::Dot,
            TokenType::Minus,
            TokenType::Plus,
            TokenType::Semicolon,
            TokenType::Star,
            TokenType::Slash,
            TokenType::Bang,
            TokenType::BangEqual,
            TokenType::Equal,
            TokenType::EqualEqual,
            TokenType::Less,
            TokenType::LessEqual,
            TokenType::Greater,
            TokenType::GreaterEqual,
            TokenType::Eof,
        ]
    );
}

#[test]
fn scanner_recognizes_every_keyword() {
    let src = "and class else false fun for if nil or print return super this true var while andx";
    let tokens = Scanner::scan_tokens(String::from(src)).unwrap();
    let kinds: Vec<TokenType> = tokens.iter().map(|t| t.kind).collect();
    assert_eq!(
        kinds,
        vec![
            TokenType::And,
            TokenType::Class,
            TokenType::Else,
            TokenType::False,
            TokenType::Fun,
            TokenType::For,
            TokenType::If,
            TokenType::Nil,
            TokenType::Or,
            TokenType::Print,
            TokenType::Return,
            TokenType::Super,
            TokenType::This,
            TokenType::True,
            TokenType::Var,
            TokenType::While,
            TokenType::Identifier,
            TokenType::Eof,
        ]
    );
}

#[test]
fn scanner_number_token_carries_its_value() {
    let tokens = Scanner::scan_tokens(String::from("123")).unwrap();
    assert_eq!(tokens.len(), 2);
    assert_eq!(tokens[0].kind, TokenType::Number);
    assert_eq!(tokens[0].lexeme, String::from("123"));
    assert!(matches!(tokens[0].literal, Some(TokenLiteral::Number(123))));
}

#[test]
fn scanner_string_token_strips_quotes() {
    let tokens = Scanner::scan_tokens(String::from("\"hi\"")).unwrap();
    assert_eq!(tokens[0].kind, TokenType::String);
    assert_eq!(tokens[0].lexeme, String::from("\"hi\""));
    match &tokens[0].literal {
        Some(TokenLiteral::String(s)) => assert_eq!(*s, String::from("hi")),
        _ => panic!("expected a string literal"),
    }
}

#[test]
fn scanner_unterminated_string_is_one_error_at_the_start_line() {
    let errs = Scanner::scan_tokens(String::from("\"abc")).unwrap_err();
    assert_eq!(errs.len(), 1);
    assert_eq!(errs[0].line, 1);
    assert_eq!(errs[0].message, String::from("Unterminated string"));
}

#[test]
fn scanner_batches_errors_on_one_line() {
    let errs = Scanner::scan_tokens(String::from("@#")).unwrap_err();
    assert_eq!(errs.len(), 2);
    assert_eq!(errs[0].line, 1);
    assert_eq!(errs[1].line, 1);
    assert_eq!(errs[0].message, String::from("Unexpected character: @"));
    assert_eq!(errs[1].message, String::from("Unexpected character: #"));
}

#[test]
fn scanner_too_large_number_is_a_lex_error() {
    let errs = Scanner::scan_tokens(String::from("9223372036854775808")).unwrap_err();
    assert_eq!(errs.len(), 1);
    assert_eq!(
        errs[0].message,
        String::from("Failed to parse number: 9223372036854775808")
    );
}

#[test]
fn scanner_counts_lines() {
    let tokens = Scanner::scan_tokens(String::from("1\n2\n3")).unwrap();
    assert_eq!(tokens[0].line, 1);
    assert_eq!(tokens[1].line, 2);
    assert_eq!(tokens[2].line, 3);
}

#[test]
fn parser_builds_a_binary_expression_statement() {
    let tokens = Scanner::scan_tokens(String::from("1 + 2;")).unwrap();
    let stmts = Parser::parse(tokens).unwrap();
    assert_eq!(stmts.len(), 1);
    match &stmts[0] {
        Stmt::Expr(e) => match &e.expression {
            Expr::Binary(b) => {
                assert_eq!(b.operator.kind, TokenType::Plus);
                assert!(matches!(b.left, Expr::Literal(Literal::Number(1))));
                assert!(matches!(b.right, Expr::Literal(Literal::Number(2))));
            },
            _ => panic!("expected a binary expression"),
        },
        _ => panic!("expected an expression statement"),
    }
}

#[test]
fn parser_desugars_for_into_while_in_a_block() {
    let tokens =
        Scanner::scan_tokens(String::from("for (var i = 0; i < 3; i = i + 1) print i;")).unwrap();
    let stmts = Parser::parse(tokens).unwrap();
    assert_eq!(stmts.len(), 1);
    match &stmts[0] {
        Stmt::Block(outer) => {
            assert_eq!(outer.statements.len(), 2);
            assert!(matches!(outer.statements[0], Stmt::VarDec(_)));
            match &outer.statements[1] {
                Stmt::While(w) => match &*w.body {
                    Stmt::Block(inner) => {
                        assert_eq!(inner.statements.len(), 2);
                        assert!(matches!(inner.statements[0], Stmt::Print(_)));
                        assert!(matches!(inner.statements[1], Stmt::Expr(_)));
                    },
                    _ => panic!("expected the loop body to be a block"),
                },
                _ => panic!("expected a while loop"),
            }
        },
        _ => panic!("expected an enclosing block"),
    }
}

#[test]
fn parser_rejects_invalid_assignment_target() {
    let tokens = Scanner::scan_tokens(String::from("1 = 2;")).unwrap();
    let err = Parser::parse(tokens).unwrap_err();
    assert_eq!(err.description, String::from("Invalid assignment target"));
}

#[test]
fn parser_rejects_unclosed_grouping() {
    let tokens = Scanner::scan_tokens(String::from("(1;")).unwrap();
    let err = Parser::parse(tokens).unwrap_err();
    assert_eq!(err.description, String::from("Grouping did not end in right paren"));
}

#[test]
fn parser_rejects_unclosed_block() {
    let tokens = Scanner::scan_tokens(String::from("{ print 1;")).unwrap();
    let err = Parser::parse(tokens).unwrap_err();
    assert_eq!(err.description, String::from("Expected '}' after block"));
}

#[test]
fn parser_names_an_unexpected_token() {
    let tokens = Scanner::scan_tokens(String::from(")")).unwrap();
    let err = Parser::parse(tokens).unwrap_err();
    assert_eq!(err.description, String::from("Unexpected token: ) (RightParen)"));
}

#[test]
fn parser_requires_a_variable_name() {
    let tokens = Scanner::scan_tokens(String::from("var 5 = 1;")).unwrap();
    let err = Parser::parse(tokens).unwrap_err();
    assert_eq!(err.description, String::from("Expected variable name"));
}

#[test]
fn environment_define_then_get() {
    let mut env = Environment::new();
    env.define(String::from("x"), Some(Literal::Number(5)));
    match env.get(ident("x")) {
        Ok(Literal::Number(n)) => assert_eq!(n, 5),
        _ => panic!("expected the bound number"),
    }
}

#[test]
fn environment_define_without_value_binds_nil() {
    let mut env = Environment::new();
    env.define(String::from("x"), None);
    assert!(matches!(env.get(ident("x")), Ok(Literal::Nil)));
}

#[test]
fn environment_get_of_unbound_name_errors() {
    let env = Environment::new();
    let err = env.get(ident("missing")).unwrap_err();
    assert_eq!(err.description, String::from("Undefined variable missing"));
}

#[test]
fn environment_assign_never_creates_a_binding() {
    let mut env = Environment::new();
    let err = env.assign(ident("y"), Literal::Number(1)).unwrap_err();
    assert_eq!(err.description, String::from("Undefined variable y"));
    assert!(env.get(ident("y")).is_err());
}

#[test]
fn environment_assign_mutates_the_outer_frame() {
    let mut env = Environment::new();
    env.define(String::from("x"), Some(Literal::Number(1)));
    env.push_frame();
    env.assign(ident("x"), Literal::Number(2)).unwrap();
    env.pop_frame();
    assert!(matches!(env.get(ident("x")), Ok(Literal::Number(2))));
}

#[test]
fn interpreter_budget_exhaustion_is_reported() {
    let tokens = Scanner::scan_tokens(String::from("while (true) {}")).unwrap();
    let stmts = Parser::parse(tokens).unwrap();
    let mut interpreter = Interpreter::new(5);
    let err = interpreter.interpret_stmts(&stmts).unwrap_err();
    assert_eq!(err.description, String::from("Execution budget exhausted"));
}

#[test]
fn interpreter_is_truthy_table() {
    assert!(!Interpreter::is_truthy(&Literal::Nil));
    assert!(!Interpreter::is_truthy(&Literal::Bool(false)));
    assert!(Interpreter::is_truthy(&Literal::Bool(true)));
    assert!(Interpreter::is_truthy(&Literal::Number(0)));
    assert!(Interpreter::is_truthy(&Literal::String(String::new())));
}

#[test]
fn display_forms_of_values() {
    assert_eq!(display_literal(&Literal::Number(-42)), String::from("-42"));
    assert_eq!(display_literal(&Literal::String(String::from("hi"))), String::from("hi"));
    assert_eq!(display_literal(&Literal::Bool(true)), String::from("true"));
    assert_eq!(display_literal(&Literal::Nil), String::from("Nil"));
}

#[test]
fn numerals_render_exactly() {
    assert_eq!(render_u64(0), String::from("0"));
    assert_eq!(render_u64(907), String::from("907"));
    assert_eq!(render_i64(i64::MIN), String::from("-9223372036854775808"));
    assert_eq!(render_i64(i64::MAX), String::from("9223372036854775807"));
}

#[test]
fn lexicographic_order_on_text() {
    assert!(str_less("a", "b"));
    assert!(str_less("a", "ab"));
    assert!(!str_less("b", "a"));
    assert!(!str_less("a", "a"));
}

#[test]
fn report_format_cites_the_line() {
    let e = Error { line: 3, message: String::from("boom") };
    assert_eq!(e.report(""), String::from("[line 3] Error: boom"));
    assert_eq!(e.report(" at end"), String::from("[line 3] Error at end: boom"));
}

fn parse_single_expression(source: &str) -> Expr {
    let tokens = Scanner::scan_tokens(String::from(source)).unwrap();
    let stmts = Parser::parse(tokens).unwrap();
    assert_eq!(stmts.len(), 1);
    match stmts.into_iter().next().unwrap() {
        Stmt::Expr(e) => e.expression,
        _ => panic!("expected an expression statement"),
    }
}

#[test]
fn rendering_makes_precedence_explicit() {
    let e = parse_single_expression("1 + 2 * 3;");
    assert_eq!(e.render(), String::from("(1 + (2 * 3))"));
}

#[test]
fn rendered_expressions_reparse_to_the_same_rendering() {
    let sources = [
        "1 + 2 * 3;",
        "-(1 + 2) / 4;",
        "!true == false;",
        "a = 1 and true or nil;",
        "\"x\" + \"y\" < \"z\";",
        "((1));",
        "1 < 2 == 3 >= 4;",
    ];
    for source in sources {
        let first = parse_single_expression(source).render();
        let mut stmt_text = first.clone();
        stmt_text.push(';');
        let second = parse_single_expression(&stmt_text).render();
        assert_eq!(first, second);
    }
}
