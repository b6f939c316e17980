use haskell_lib::lexer::token::Tokens;
use haskell_lib::lexer::Lexer;
use haskell_lib::parser::ast::{Expr, Infix, Literal, Prefix, Program, Stmt};
use haskell_lib::parser::Parser;

fn assert_input_with_program(input: &str, expected_results: Program) {
    let (_, r) = Lexer::lex_tokens(input).unwrap();
    let tokens = Tokens::new(&r);
    let (_, result) = Parser::parse_tokens(tokens).unwrap();
    assert_eq!(result, expected_results);
}

fn compare_inputs(input: &str, input2: &str) {
    let (_, r) = Lexer::lex_tokens(input).unwrap();
    let tokens = Tokens::new(&r);
    let (_, result) = Parser::parse_tokens(tokens).unwrap();

    let (_, r) = Lexer::lex_tokens(input2).unwrap();
    let tokens = Tokens::new(&r);
    let (_, expected_results) = Parser::parse_tokens(tokens).unwrap();

    assert_eq!(result, expected_results);
}

#[test]
fn empty() {
    assert_input_with_program("", vec![]);
}

#[test]
fn operator_precedence() {
    let input = "3 - 1 + 4 - 5";
    let input2 = "(((3 - 1) + 4) - 5)";
    compare_inputs(input, input2);
}

#[test]
fn minus_and_unary_operators() {
    let input = "3--1";
    assert_input_with_program(
        input,
        vec![Stmt::ExprStmt(Expr::Infix(
            Box::new(Expr::Literal(Literal::Int(3))),
            Infix::Minus,
            Box::new(Expr::Prefix(
                Prefix::Negative,
                Box::new(Expr::Literal(Literal::Int(1))),
            )),
        ))],
    );
}

#[test]
fn minus_and_unary_operators2() {
    let input = "3+-5";
    let input2 = "(3 + (- 5))";
    compare_inputs(input, input2);
}

#[test]
fn too_many_operators() {
    let input = "3+++5";
    let input2 = "(3 + (+ (+ 5)))";
    compare_inputs(input, input2);
}
