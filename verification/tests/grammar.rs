use haskell_lib::lexer::token::{Token, Tokens};
use haskell_lib::lexer::Lexer;
use haskell_lib::parser::ast::{Expr, Infix, Literal, Precedence, Prefix, Stmt};
use haskell_lib::parser::{
    eof_tag, go_parse_pratt_expr, infix_op, left_paren_tag, parse_atom_expr, parse_expr,
    parse_expr_stmt, parse_infix_expr, parse_lit_expr, parse_literal, parse_paren_expr,
    parse_pratt_expr, parse_prefix_expr, parse_program, right_paren_tag, ParseError,
    ParseErrorKind, Parser, MAX_NESTING_DEPTH,
};

fn num(value: i64) -> Expr {
    Expr::Literal(Literal::Int(value))
}

fn binary(left: Expr, op: Infix, right: Expr) -> Expr {
    Expr::Infix(Box::new(left), op, Box::new(right))
}

fn unary(op: Prefix, operand: Expr) -> Expr {
    Expr::Prefix(op, Box::new(operand))
}

fn tokens_of(input: &str) -> Vec<Token> {
    Lexer::lex_tokens(input).unwrap().1
}

fn parse(input: &str) -> Result<Vec<Stmt>, ParseError> {
    let buffer = tokens_of(input);
    Parser::parse_tokens(Tokens::new(&buffer)).map(|(_, program)| program)
}

fn expression(input: &str) -> Expr {
    let mut program = parse(input).unwrap();
    assert_eq!(program.len(), 1);
    match program.remove(0) {
        Stmt::ExprStmt(expr) => expr,
    }
}

fn failure(input: &str) -> ParseError {
    parse(input).unwrap_err()
}

fn error(kind: ParseErrorKind, position: usize) -> ParseError {
    ParseError { kind, position }
}

#[test]
fn empty_program_has_no_statement() {
    let buffer = tokens_of("");
    let (rest, program) = Parser::parse_tokens(Tokens::new(&buffer)).unwrap();
    assert_eq!(program, vec![]);
    assert_eq!(rest.input_len(), 0);
    assert_eq!(rest, Tokens::new(&buffer).take_split(1).1);
}

#[test]
fn single_literal() {
    assert_eq!(expression("42"), num(42));
}

#[test]
fn equal_precedence_associates_to_the_left() {
    assert_eq!(
        expression("3 - 1 + 4 - 5"),
        binary(
            binary(binary(num(3), Infix::Minus, num(1)), Infix::Plus, num(4)),
            Infix::Minus,
            num(5)
        )
    );
    assert_eq!(
        expression("8 / 4 * 2 / 1"),
        binary(
            binary(binary(num(8), Infix::Divide, num(4)), Infix::Multiply, num(2)),
            Infix::Divide,
            num(1)
        )
    );
}

#[test]
fn product_binds_tighter_than_sum() {
    assert_eq!(
        expression("1 + 2 * 3"),
        binary(num(1), Infix::Plus, binary(num(2), Infix::Multiply, num(3)))
    );
    assert_eq!(
        expression("1 * 2 + 3"),
        binary(binary(num(1), Infix::Multiply, num(2)), Infix::Plus, num(3))
    );
    assert_eq!(
        expression("1 + 2 * 3 - 4 / 5"),
        binary(
            binary(num(1), Infix::Plus, binary(num(2), Infix::Multiply, num(3))),
            Infix::Minus,
            binary(num(4), Infix::Divide, num(5))
        )
    );
}

#[test]
fn parentheses_group() {
    assert_eq!(
        expression("(1 + 2) * 3"),
        binary(binary(num(1), Infix::Plus, num(2)), Infix::Multiply, num(3))
    );
    assert_eq!(
        expression("1 - (2 - 3)"),
        binary(num(1), Infix::Minus, binary(num(2), Infix::Minus, num(3)))
    );
    assert_eq!(expression("((7))"), num(7));
}

#[test]
fn prefix_binds_tightest() {
    assert_eq!(
        expression("-1 * 2"),
        binary(unary(Prefix::Negative, num(1)), Infix::Multiply, num(2))
    );
    assert_eq!(
        expression("-(1 * 2)"),
        unary(Prefix::Negative, binary(num(1), Infix::Multiply, num(2)))
    );
    assert_eq!(
        expression("3--1"),
        binary(num(3), Infix::Minus, unary(Prefix::Negative, num(1)))
    );
    assert_eq!(
        expression("3+++5"),
        binary(
            num(3),
            Infix::Plus,
            unary(Prefix::Positive, unary(Prefix::Positive, num(5)))
        )
    );
}

#[test]
fn statements_follow_one_another() {
    assert_eq!(
        parse("1 2 (3)"),
        Ok(vec![Stmt::ExprStmt(num(1)), Stmt::ExprStmt(num(2)), Stmt::ExprStmt(num(3))])
    );
    assert_eq!(
        parse("1 + 2 3"),
        Ok(vec![
            Stmt::ExprStmt(binary(num(1), Infix::Plus, num(2))),
            Stmt::ExprStmt(num(3))
        ])
    );
}

#[test]
fn illegal_token_is_a_syntax_failure() {
    assert_eq!(tokens_of("`"), vec![Token::Illegal, Token::EOF]);
    assert_eq!(failure("`"), error(ParseErrorKind::ExpectedExpression, 0));
    assert_eq!(failure("1 + `"), error(ParseErrorKind::ExpectedExpression, 2));
    assert_eq!(failure("1 ` 2"), error(ParseErrorKind::ExpectedExpression, 1));
}

#[test]
fn tokens_that_are_no_expression_are_a_syntax_failure() {
    assert_eq!(failure("let x = 1;"), error(ParseErrorKind::ExpectedExpression, 0));
    assert_eq!(failure("1;"), error(ParseErrorKind::ExpectedExpression, 1));
    assert_eq!(failure("1 == 1"), error(ParseErrorKind::ExpectedExpression, 1));
    assert_eq!(failure("!1"), error(ParseErrorKind::ExpectedExpression, 0));
    assert_eq!(failure("\"s\""), error(ParseErrorKind::ExpectedExpression, 0));
    assert_eq!(failure("x"), error(ParseErrorKind::ExpectedExpression, 0));
}

#[test]
fn operator_without_an_operand_is_a_syntax_failure() {
    assert_eq!(failure("1 +"), error(ParseErrorKind::ExpectedExpression, 2));
    assert_eq!(failure("* 1"), error(ParseErrorKind::ExpectedExpression, 0));
    assert_eq!(failure("1 + * 2"), error(ParseErrorKind::ExpectedExpression, 2));
    assert_eq!(failure("-"), error(ParseErrorKind::ExpectedExpression, 1));
}

#[test]
fn unbalanced_parentheses_are_a_syntax_failure() {
    assert_eq!(failure("(1 + 2"), error(ParseErrorKind::ExpectedRightParen, 4));
    assert_eq!(failure("(1 2)"), error(ParseErrorKind::ExpectedRightParen, 2));
    assert_eq!(failure("1)"), error(ParseErrorKind::ExpectedExpression, 1));
    assert_eq!(failure("()"), error(ParseErrorKind::ExpectedExpression, 1));
    assert_eq!(failure("("), error(ParseErrorKind::ExpectedExpression, 1));
}

#[test]
fn stream_without_end_marker_is_a_syntax_failure() {
    let buffer = vec![Token::IntLiteral(1)];
    assert_eq!(
        Parser::parse_tokens(Tokens::new(&buffer)),
        Err(error(ParseErrorKind::ExpectedEndOfInput, 1))
    );
    let buffer: Vec<Token> = Vec::new();
    assert_eq!(
        Parser::parse_tokens(Tokens::new(&buffer)),
        Err(error(ParseErrorKind::ExpectedEndOfInput, 0))
    );
    let buffer = vec![Token::IntLiteral(1), Token::Plus];
    assert_eq!(
        Parser::parse_tokens(Tokens::new(&buffer)),
        Err(error(ParseErrorKind::ExpectedExpression, 2))
    );
    let buffer = vec![Token::LParen, Token::IntLiteral(1)];
    assert_eq!(
        Parser::parse_tokens(Tokens::new(&buffer)),
        Err(error(ParseErrorKind::ExpectedRightParen, 2))
    );
}

#[test]
fn what_follows_the_end_marker_is_left_unread() {
    let buffer = vec![Token::IntLiteral(1), Token::EOF, Token::Plus, Token::EOF];
    let (rest, program) = Parser::parse_tokens(Tokens::new(&buffer)).unwrap();
    assert_eq!(program, vec![Stmt::ExprStmt(num(1))]);
    assert_eq!(rest, Tokens::new(&buffer).take_split(2).1);
    assert_eq!(rest.input_len(), 2);
    assert_eq!(rest.peek(0), Some(&Token::Plus));
}

#[test]
fn positions_count_from_the_start_of_the_stream() {
    let buffer = vec![
        Token::Illegal,
        Token::Illegal,
        Token::IntLiteral(1),
        Token::RParen,
        Token::EOF,
    ];
    let (_, stream) = Tokens::new(&buffer).take_split(2);
    assert_eq!(
        Parser::parse_tokens(stream),
        Err(error(ParseErrorKind::ExpectedExpression, 1))
    );
    let (_, stream) = Tokens::new(&buffer).take_split(4);
    let (rest, program) = Parser::parse_tokens(stream).unwrap();
    assert_eq!(program, vec![]);
    assert_eq!(rest.input_len(), 0);
    assert_eq!(rest, Tokens::new(&buffer).take_split(5).1);
}

#[test]
fn nesting_is_bounded() {
    let buffer = tokens_of("((1))");
    assert_eq!(
        Parser::parse_tokens_within(Tokens::new(&buffer), 2).map(|(_, program)| program),
        Ok(vec![Stmt::ExprStmt(num(1))])
    );
    assert_eq!(
        Parser::parse_tokens_within(Tokens::new(&buffer), 1),
        Err(error(ParseErrorKind::NestingTooDeep, 1))
    );
    assert_eq!(
        Parser::parse_tokens_within(Tokens::new(&buffer), 0),
        Err(error(ParseErrorKind::NestingTooDeep, 0))
    );
    let buffer = tokens_of("1 + -+2");
    assert_eq!(
        Parser::parse_tokens_within(Tokens::new(&buffer), 1),
        Err(error(ParseErrorKind::NestingTooDeep, 3))
    );
    let buffer = tokens_of("1 + 2 * 3 - 4");
    assert!(Parser::parse_tokens_within(Tokens::new(&buffer), 0).is_ok());
}

#[test]
fn default_nesting_bound() {
    let deep = MAX_NESTING_DEPTH;
    let just_allowed = format!("{}1{}", "(".repeat(deep), ")".repeat(deep));
    assert_eq!(expression(&just_allowed), num(1));
    let too_deep = format!("{}1{}", "(".repeat(deep + 1), ")".repeat(deep + 1));
    assert_eq!(failure(&too_deep), error(ParseErrorKind::NestingTooDeep, deep));
    let prefixes = format!("{}1", "-".repeat(deep + 1));
    assert_eq!(failure(&prefixes), error(ParseErrorKind::NestingTooDeep, deep));
}

#[test]
fn long_chains_need_no_nesting() {
    let mut input = String::from("1");
    for _ in 0..2000 {
        input.push_str(" + 1");
    }
    let buffer = tokens_of(&input);
    let (_, program) = Parser::parse_tokens_within(Tokens::new(&buffer), 0).unwrap();
    assert_eq!(program.len(), 1);
}

#[test]
fn infix_table() {
    assert_eq!(infix_op(&Token::Plus), (Precedence::PSum, Some(Infix::Plus)));
    assert_eq!(infix_op(&Token::Minus), (Precedence::PSum, Some(Infix::Minus)));
    assert_eq!(infix_op(&Token::Multiply), (Precedence::PProduct, Some(Infix::Multiply)));
    assert_eq!(infix_op(&Token::Divide), (Precedence::PProduct, Some(Infix::Divide)));
    for token in [
        Token::EOF,
        Token::RParen,
        Token::LParen,
        Token::IntLiteral(1),
        Token::Equal,
        Token::LessThan,
        Token::Not,
        Token::Assign,
        Token::Illegal,
    ] {
        assert_eq!(infix_op(&token), (Precedence::PLowest, None));
    }
}

#[test]
fn precedence_scale() {
    assert!(Precedence::PLowest < Precedence::PSum);
    assert!(Precedence::PSum < Precedence::PProduct);
    assert!(Precedence::PProduct < Precedence::PPower);
    assert!(!(Precedence::PSum < Precedence::PSum));
    assert!(Precedence::PPower > Precedence::PLowest);
    assert!(Precedence::PSum <= Precedence::PSum);
    assert_eq!(Precedence::PLowest.level(), 0);
    assert_eq!(Precedence::PSum.level(), 1);
    assert_eq!(Precedence::PProduct.level(), 2);
    assert_eq!(Precedence::PPower.level(), 3);
}

#[test]
fn tags_read_one_token() {
    let buffer = vec![Token::LParen, Token::RParen, Token::EOF];
    let stream = Tokens::new(&buffer);
    assert_eq!(left_paren_tag(&stream, 0), Ok(1));
    assert_eq!(right_paren_tag(&stream, 1), Ok(2));
    assert_eq!(eof_tag(&stream, 2), Ok(3));
    assert_eq!(left_paren_tag(&stream, 1), Err(error(ParseErrorKind::ExpectedLeftParen, 1)));
    assert_eq!(right_paren_tag(&stream, 0), Err(error(ParseErrorKind::ExpectedRightParen, 0)));
    assert_eq!(eof_tag(&stream, 0), Err(error(ParseErrorKind::ExpectedEndOfInput, 0)));
    assert_eq!(left_paren_tag(&stream, 3), Err(error(ParseErrorKind::ExpectedLeftParen, 3)));
    assert_eq!(right_paren_tag(&stream, 3), Err(error(ParseErrorKind::ExpectedRightParen, 3)));
    assert_eq!(eof_tag(&stream, 9), Err(error(ParseErrorKind::ExpectedEndOfInput, 9)));
}

#[test]
fn parsing_functions_give_the_position_after_the_node() {
    let buffer = tokens_of("7 - (1 + 2) * 3");
    let stream = Tokens::new(&buffer);
    assert_eq!(parse_literal(&stream, 0), Ok((1, Literal::Int(7))));
    assert_eq!(parse_lit_expr(&stream, 0), Ok((1, num(7))));
    assert_eq!(parse_atom_expr(&stream, 0, 8), Ok((1, num(7))));
    assert_eq!(
        parse_paren_expr(&stream, 2, 8),
        Ok((7, binary(num(1), Infix::Plus, num(2))))
    );
    assert_eq!(
        parse_atom_expr(&stream, 2, 8),
        Ok((7, binary(num(1), Infix::Plus, num(2))))
    );
    assert_eq!(parse_prefix_expr(&stream, 1, 8), Ok((7, unary(
        Prefix::Negative,
        binary(num(1), Infix::Plus, num(2))
    ))));
    assert_eq!(
        parse_infix_expr(&stream, 4, num(1), 8),
        Ok((6, binary(num(1), Infix::Plus, num(2))))
    );
    assert_eq!(
        parse_infix_expr(&stream, 1, num(7), 8),
        Ok((
            9,
            binary(
                num(7),
                Infix::Minus,
                binary(binary(num(1), Infix::Plus, num(2)), Infix::Multiply, num(3))
            )
        ))
    );
    assert_eq!(
        go_parse_pratt_expr(&stream, 7, Precedence::PSum, num(0), 8),
        Ok((9, binary(num(0), Infix::Multiply, num(3))))
    );
    assert_eq!(go_parse_pratt_expr(&stream, 7, Precedence::PProduct, num(0), 8), Ok((7, num(0))));
    assert_eq!(go_parse_pratt_expr(&stream, 1, Precedence::PSum, num(0), 8), Ok((1, num(0))));
    assert_eq!(parse_pratt_expr(&stream, 3, Precedence::PSum, 8), Ok((4, num(1))));
    assert_eq!(
        parse_pratt_expr(&stream, 3, Precedence::PLowest, 8),
        Ok((6, binary(num(1), Infix::Plus, num(2))))
    );
    assert_eq!(parse_expr(&stream, 8, 8), Ok((9, num(3))));
    assert_eq!(parse_expr_stmt(&stream, 8, 8), Ok((9, Stmt::ExprStmt(num(3)))));
    assert_eq!(parse_program(&stream, 8, 8), Ok((10, vec![Stmt::ExprStmt(num(3))])));
    assert_eq!(parse_program(&stream, 9, 8), Ok((10, vec![])));
}

#[test]
fn parsing_functions_fail_where_their_node_is_not() {
    let buffer = tokens_of("7 - (1 + 2)");
    let stream = Tokens::new(&buffer);
    assert_eq!(parse_literal(&stream, 1), Err(error(ParseErrorKind::ExpectedLiteral, 1)));
    assert_eq!(parse_lit_expr(&stream, 2), Err(error(ParseErrorKind::ExpectedLiteral, 2)));
    assert_eq!(parse_literal(&stream, 50), Err(error(ParseErrorKind::ExpectedLiteral, 50)));
    assert_eq!(
        parse_prefix_expr(&stream, 0, 8),
        Err(error(ParseErrorKind::ExpectedPrefixOperator, 0))
    );
    assert_eq!(
        parse_prefix_expr(&stream, 8, 8),
        Err(error(ParseErrorKind::ExpectedPrefixOperator, 8))
    );
    assert_eq!(parse_prefix_expr(&stream, 1, 0), Err(error(ParseErrorKind::NestingTooDeep, 1)));
    assert_eq!(parse_paren_expr(&stream, 0, 8), Err(error(ParseErrorKind::ExpectedLeftParen, 0)));
    assert_eq!(parse_paren_expr(&stream, 2, 0), Err(error(ParseErrorKind::NestingTooDeep, 2)));
    assert_eq!(
        parse_infix_expr(&stream, 0, num(0), 8),
        Err(error(ParseErrorKind::ExpectedInfixOperator, 0))
    );
    assert_eq!(
        parse_infix_expr(&stream, 6, num(0), 8),
        Err(error(ParseErrorKind::ExpectedInfixOperator, 6))
    );
    assert_eq!(
        parse_infix_expr(&stream, 60, num(0), 8),
        Err(error(ParseErrorKind::ExpectedInfixOperator, 60))
    );
    assert_eq!(parse_atom_expr(&stream, 6, 8), Err(error(ParseErrorKind::ExpectedExpression, 6)));
    assert_eq!(parse_atom_expr(&stream, 8, 8), Err(error(ParseErrorKind::ExpectedExpression, 8)));
    assert_eq!(parse_expr(&stream, 7, 8), Err(error(ParseErrorKind::ExpectedExpression, 7)));
    assert_eq!(parse_program(&stream, 8, 8), Err(error(ParseErrorKind::ExpectedEndOfInput, 8)));
    assert_eq!(parse_program(&stream, 6, 8), Err(error(ParseErrorKind::ExpectedExpression, 6)));
}

fn written(expr: &Expr, out: &mut Vec<Token>) {
    match expr {
        Expr::Literal(Literal::Int(value)) => out.push(Token::IntLiteral(*value)),
        Expr::Prefix(op, operand) => {
            out.push(match op {
                Prefix::Positive => Token::Plus,
                Prefix::Negative => Token::Minus,
            });
            written(operand, out);
        }
        Expr::Infix(left, op, right) => {
            out.push(Token::LParen);
            written(left, out);
            out.push(match op {
                Infix::Plus => Token::Plus,
                Infix::Minus => Token::Minus,
                Infix::Multiply => Token::Multiply,
                Infix::Divide => Token::Divide,
                Infix::Power => panic!("no token spells this operator"),
            });
            written(right, out);
            out.push(Token::RParen);
        }
    }
}

#[test]
fn a_written_tree_parses_to_itself() {
    let trees = vec![
        num(0),
        num(-7),
        unary(Prefix::Negative, unary(Prefix::Positive, num(1))),
        binary(num(1), Infix::Plus, binary(num(2), Infix::Plus, num(3))),
        binary(binary(num(1), Infix::Plus, num(2)), Infix::Multiply, num(3)),
        binary(
            unary(Prefix::Negative, binary(num(1), Infix::Divide, num(2))),
            Infix::Minus,
            binary(num(3), Infix::Multiply, unary(Prefix::Positive, num(4))),
        ),
    ];
    for tree in trees {
        let mut buffer = Vec::new();
        written(&tree, &mut buffer);
        buffer.push(Token::EOF);
        let (rest, program) = Parser::parse_tokens(Tokens::new(&buffer)).unwrap();
        assert_eq!(rest.input_len(), 0);
        assert_eq!(program, vec![Stmt::ExprStmt(tree)]);
    }
}

#[test]
fn a_sum_is_a_chain_of_products() {
    assert_eq!(
        expression("1 * 2 * 3 + 4 * 5 - 6 / 7 / 8"),
        binary(
            binary(
                binary(binary(num(1), Infix::Multiply, num(2)), Infix::Multiply, num(3)),
                Infix::Plus,
                binary(num(4), Infix::Multiply, num(5))
            ),
            Infix::Minus,
            binary(binary(num(6), Infix::Divide, num(7)), Infix::Divide, num(8))
        )
    );
    assert_eq!(expression("1 * 2 * 3 + 4 * 5 - 6 / 7 / 8"), expression(
        "(((1 * 2) * 3) + (4 * 5)) - ((6 / 7) / 8)"
    ));
}

#[test]
fn a_deeper_bound_only_accepts_more() {
    let buffer = tokens_of("1 + (2 * -(3 - 4))");
    let mut last = None;
    for depth in 0..6 {
        match Parser::parse_tokens_within(Tokens::new(&buffer), depth) {
            Ok((_, program)) => {
                if let Some(previous) = &last {
                    assert_eq!(previous, &program);
                }
                last = Some(program);
            }
            Err(failure) => {
                assert_eq!(failure.kind, ParseErrorKind::NestingTooDeep);
                assert!(last.is_none());
            }
        }
    }
    assert!(last.is_some());
}
