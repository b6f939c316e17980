//! The expression parser: from tokens to a syntax tree, by precedence
//! climbing.
//!
//! A parsing function reads the stream from one position. Where it finds what
//! it parses it gives the position after it and the node. Its model, the spec
//! function of the same name with `spec_` before it, gives the number of
//! tokens read and the node. Positions count tokens from the start of the
//! stream. Where a function takes `depth`, that is how many prefix operators
//! and parentheses may enclose one another in what it reads; one that
//! encloses more is a failure, so that the depth of the recursion is bounded
//! whatever the stream holds.
//!
//! A failure is that of the innermost function that found something else
//! than it looked for. It is handed up unchanged: nothing is skipped, nothing
//! is tried again, and no part of a tree is given.

pub mod ast;
pub mod laws;
pub mod layered;

use crate::lexer::token::{SpecToken, Token, Tokens};
use crate::parser::ast::{Expr, Infix, Literal, Precedence, Prefix, Program, Stmt};
use vstd::prelude::*;

verus! {

/// How many prefix operators and parentheses may enclose one another in an
/// expression that [`Parser::parse_tokens`] accepts.
pub const MAX_NESTING_DEPTH: usize = 128;

/// Why a token stream is not a program.
#[derive(Clone, Copy, Debug, PartialEq, Eq)]
pub enum ParseErrorKind {
    /// An integer literal was looked for.
    ExpectedLiteral,
    /// A prefix operator, `+` or `-`, was looked for.
    ExpectedPrefixOperator,
    /// An infix operator was looked for.
    ExpectedInfixOperator,
    /// An opening parenthesis was looked for.
    ExpectedLeftParen,
    /// A closing parenthesis was looked for.
    ExpectedRightParen,
    /// The beginning of an expression was looked for: a literal, a prefix
    /// operator or an opening parenthesis.
    ExpectedExpression,
    /// The end marker was looked for.
    ExpectedEndOfInput,
    /// Prefix operators and parentheses enclose one another more deeply than
    /// allowed.
    NestingTooDeep,
}

/// A syntax failure: its kind, and the position of the token that is not what
/// was looked for. The position is the length of the stream where the stream
/// ends too early.
#[derive(Clone, Copy, Debug, PartialEq, Eq)]
pub struct ParseError {
    pub kind: ParseErrorKind,
    pub position: usize,
}

/// The mathematical value of a [`ParseError`].
pub struct SpecParseError {
    pub kind: ParseErrorKind,
    pub position: int,
}

impl View for ParseError {
    type V = SpecParseError;

    open spec fn view(&self) -> SpecParseError {
        SpecParseError { kind: self.kind, position: self.position as int }
    }
}

/// What the model of a parsing function gives: the number of tokens read and
/// the node, or the failure.
pub type Parsed<T> = Result<(nat, T), SpecParseError>;

/// `node`, read from `len` tokens.
pub open spec fn success<T>(len: nat, node: T) -> Parsed<T> {
    Ok((len, node))
}

/// A failure of kind `kind` at `pos`.
pub open spec fn failure<T>(kind: ParseErrorKind, pos: int) -> Parsed<T> {
    Err(SpecParseError { kind, position: pos })
}

/// The result `found` of a parsing function that read from `pos` says what
/// `model` says.
pub open spec fn parsed<T>(
    found: Result<(usize, T), ParseError>,
    pos: usize,
    model: Parsed<T>,
) -> bool {
    match model {
        Ok((len, node)) => found matches Ok((next, value)) && next == pos + len && value == node,
        Err(error) => found matches Err(e) && e@ == error,
    }
}

/// The number of tokens from `pos` to the end of the stream.
pub open spec fn remaining(s: Seq<SpecToken>, pos: int) -> nat {
    if pos <= s.len() {
        (s.len() - pos) as nat
    } else {
        0
    }
}

/// One token: `Ok(1)` where the token at `pos` is `token`, else a failure of
/// kind `kind` at `pos`.
pub open spec fn spec_tag(
    s: Seq<SpecToken>,
    pos: int,
    token: SpecToken,
    kind: ParseErrorKind,
) -> Result<nat, SpecParseError> {
    if 0 <= pos < s.len() && s[pos] == token {
        Ok(1)
    } else {
        Err(SpecParseError { kind, position: pos })
    }
}

/// The result `found` of reading one token at `pos` says what `model` says.
pub open spec fn tagged(
    found: Result<usize, ParseError>,
    pos: usize,
    model: Result<nat, SpecParseError>,
) -> bool {
    match model {
        Ok(len) => found matches Ok(next) && next == pos + len,
        Err(error) => found matches Err(e) && e@ == error,
    }
}

/// Reads the end marker at `pos`.
pub fn eof_tag(tokens: &Tokens, pos: usize) -> (found: Result<usize, ParseError>)
    ensures
        tagged(
            found,
            pos,
            spec_tag(tokens@, pos as int, SpecToken::EOF, ParseErrorKind::ExpectedEndOfInput),
        ),
{
    match tokens.peek(pos) {
        Some(Token::EOF) => Ok(pos + 1),
        _ => Err(ParseError { kind: ParseErrorKind::ExpectedEndOfInput, position: pos }),
    }
}

/// Reads an opening parenthesis at `pos`.
pub fn left_paren_tag(tokens: &Tokens, pos: usize) -> (found: Result<usize, ParseError>)
    ensures
        tagged(
            found,
            pos,
            spec_tag(tokens@, pos as int, SpecToken::LParen, ParseErrorKind::ExpectedLeftParen),
        ),
{
    match tokens.peek(pos) {
        Some(Token::LParen) => Ok(pos + 1),
        _ => Err(ParseError { kind: ParseErrorKind::ExpectedLeftParen, position: pos }),
    }
}

/// Reads a closing parenthesis at `pos`.
pub fn right_paren_tag(tokens: &Tokens, pos: usize) -> (found: Result<usize, ParseError>)
    ensures
        tagged(
            found,
            pos,
            spec_tag(tokens@, pos as int, SpecToken::RParen, ParseErrorKind::ExpectedRightParen),
        ),
{
    match tokens.peek(pos) {
        Some(Token::RParen) => Ok(pos + 1),
        _ => Err(ParseError { kind: ParseErrorKind::ExpectedRightParen, position: pos }),
    }
}

/// The literal at `pos`: one integer token.
pub open spec fn spec_parse_literal(s: Seq<SpecToken>, pos: int) -> Parsed<Literal> {
    if 0 <= pos < s.len() && s[pos] is IntLiteral {
        Ok((1, Literal::Int(s[pos]->IntLiteral_0)))
    } else {
        failure(ParseErrorKind::ExpectedLiteral, pos)
    }
}

/// Parses a literal at `pos`.
pub fn parse_literal(tokens: &Tokens, pos: usize) -> (found: Result<(usize, Literal), ParseError>)
    ensures
        parsed(found, pos, spec_parse_literal(tokens@, pos as int)),
{
    match tokens.peek(pos) {
        Some(Token::IntLiteral(value)) => Ok((pos + 1, Literal::Int(*value))),
        _ => Err(ParseError { kind: ParseErrorKind::ExpectedLiteral, position: pos }),
    }
}

/// The literal at `pos`, as an expression.
pub open spec fn spec_parse_lit_expr(s: Seq<SpecToken>, pos: int) -> Parsed<Expr> {
    match spec_parse_literal(s, pos) {
        Ok((len, literal)) => Ok((len, Expr::Literal(literal))),
        Err(error) => Err(error),
    }
}

/// Parses a literal at `pos` as an expression.
pub fn parse_lit_expr(tokens: &Tokens, pos: usize) -> (found: Result<(usize, Expr), ParseError>)
    ensures
        parsed(found, pos, spec_parse_lit_expr(tokens@, pos as int)),
{
    match parse_literal(tokens, pos) {
        Ok((next, literal)) => Ok((next, Expr::Literal(literal))),
        Err(error) => Err(error),
    }
}

/// The prefix operator that a token spells.
pub open spec fn spec_prefix_op(token: SpecToken) -> Option<Prefix> {
    match token {
        SpecToken::Plus => Some(Prefix::Positive),
        SpecToken::Minus => Some(Prefix::Negative),
        _ => None,
    }
}

/// How tightly a token binds as an infix operator, and the operator that it
/// spells. A token that is no infix operator binds loosest and spells none.
pub open spec fn spec_infix_op(token: SpecToken) -> (Precedence, Option<Infix>) {
    match token {
        SpecToken::Plus => (Precedence::PSum, Some(Infix::Plus)),
        SpecToken::Minus => (Precedence::PSum, Some(Infix::Minus)),
        SpecToken::Multiply => (Precedence::PProduct, Some(Infix::Multiply)),
        SpecToken::Divide => (Precedence::PProduct, Some(Infix::Divide)),
        _ => (Precedence::PLowest, None),
    }
}

/// How tightly `t` binds as an infix operator, and the operator that it
/// spells.
pub fn infix_op(t: &Token) -> (binding: (Precedence, Option<Infix>))
    ensures
        binding == spec_infix_op(t@),
{
    match t {
        Token::Plus => (Precedence::PSum, Some(Infix::Plus)),
        Token::Minus => (Precedence::PSum, Some(Infix::Minus)),
        Token::Multiply => (Precedence::PProduct, Some(Infix::Multiply)),
        Token::Divide => (Precedence::PProduct, Some(Infix::Divide)),
        _ => (Precedence::PLowest, None),
    }
}

/// The atom at `pos`: a literal, a prefix expression or an expression in
/// parentheses, told apart by their first token. `depth` is the number of
/// prefix operators and parentheses that may still enclose one another.
pub open spec fn spec_parse_atom_expr(s: Seq<SpecToken>, pos: int, depth: nat) -> Parsed<Expr>
    decreases remaining(s, pos), 1nat,
{
    if 0 <= pos < s.len() && s[pos] is IntLiteral {
        spec_parse_lit_expr(s, pos)
    } else if 0 <= pos < s.len() && spec_prefix_op(s[pos]).is_some() {
        spec_parse_prefix_expr(s, pos, depth)
    } else if 0 <= pos < s.len() && s[pos] == SpecToken::LParen {
        spec_parse_paren_expr(s, pos, depth)
    } else {
        failure(ParseErrorKind::ExpectedExpression, pos)
    }
}

/// The prefix expression at `pos`: a prefix operator, then the atom that it
/// applies to.
pub open spec fn spec_parse_prefix_expr(s: Seq<SpecToken>, pos: int, depth: nat) -> Parsed<Expr>
    decreases remaining(s, pos), 0nat,
{
    if 0 <= pos < s.len() && spec_prefix_op(s[pos]).is_some() {
        if depth == 0 {
            failure(ParseErrorKind::NestingTooDeep, pos)
        } else {
            match spec_parse_atom_expr(s, pos + 1, (depth - 1) as nat) {
                Ok((len, operand)) => Ok(
                    (len + 1, Expr::Prefix(spec_prefix_op(s[pos]).unwrap(), Box::new(operand))),
                ),
                Err(error) => Err(error),
            }
        }
    } else {
        failure(ParseErrorKind::ExpectedPrefixOperator, pos)
    }
}

/// The expression in parentheses at `pos`: an opening parenthesis, an
/// expression in which every infix operator may stand, a closing
/// parenthesis. The node is that of the expression.
pub open spec fn spec_parse_paren_expr(s: Seq<SpecToken>, pos: int, depth: nat) -> Parsed<Expr>
    decreases remaining(s, pos), 0nat,
{
    if 0 <= pos < s.len() && s[pos] == SpecToken::LParen {
        if depth == 0 {
            failure(ParseErrorKind::NestingTooDeep, pos)
        } else {
            match spec_parse_pratt_expr(s, pos + 1, Precedence::PLowest, (depth - 1) as nat) {
                Ok((len, inner)) => match spec_tag(
                    s,
                    pos + 1 + len,
                    SpecToken::RParen,
                    ParseErrorKind::ExpectedRightParen,
                ) {
                    Ok(_) => Ok((len + 2, inner)),
                    Err(error) => Err(error),
                },
                Err(error) => Err(error),
            }
        }
    } else {
        failure(ParseErrorKind::ExpectedLeftParen, pos)
    }
}

/// Whether the token at `pos` is an infix operator that binds more tightly
/// than `precedence`.
pub open spec fn binds_tighter(s: Seq<SpecToken>, pos: int, precedence: Precedence) -> bool {
    0 <= pos < s.len() && precedence.spec_level() < spec_infix_op(s[pos]).0.spec_level()
}

/// The expression that begins with the operand `left`, already read, where
/// `pos` is the position after it: as long as the next token is an infix
/// operator that binds more tightly than `precedence`, the operator and its
/// right operand are read, the right operand with the operator's own
/// precedence, and both operands are joined into the new left operand.
pub open spec fn spec_go_parse_pratt_expr(
    s: Seq<SpecToken>,
    pos: int,
    precedence: Precedence,
    left: Expr,
    depth: nat,
) -> Parsed<Expr>
    decreases remaining(s, pos), 2nat,
{
    if binds_tighter(s, pos, precedence) {
        match spec_parse_pratt_expr(s, pos + 1, spec_infix_op(s[pos]).0, depth) {
            Ok((len, right)) => match spec_go_parse_pratt_expr(
                s,
                pos + 1 + len,
                precedence,
                Expr::Infix(Box::new(left), spec_infix_op(s[pos]).1.unwrap(), Box::new(right)),
                depth,
            ) {
                Ok((more, whole)) => Ok((1 + len + more, whole)),
                Err(error) => Err(error),
            },
            Err(error) => Err(error),
        }
    } else {
        Ok((0, left))
    }
}

/// The expression at `pos` whose infix operators all bind more tightly than
/// `precedence`: an atom, then what [`spec_go_parse_pratt_expr`] joins to it.
pub open spec fn spec_parse_pratt_expr(
    s: Seq<SpecToken>,
    pos: int,
    precedence: Precedence,
    depth: nat,
) -> Parsed<Expr>
    decreases remaining(s, pos), 3nat,
{
    match spec_parse_atom_expr(s, pos, depth) {
        Ok((len, left)) => match spec_go_parse_pratt_expr(s, pos + len, precedence, left, depth) {
            Ok((more, whole)) => Ok((len + more, whole)),
            Err(error) => Err(error),
        },
        Err(error) => Err(error),
    }
}

/// The expression at `pos`: one in which every infix operator may stand.
pub open spec fn spec_parse_expr(s: Seq<SpecToken>, pos: int, depth: nat) -> Parsed<Expr> {
    spec_parse_pratt_expr(s, pos, Precedence::PLowest, depth)
}

/// The infix expression whose left operand `left` is already read, where
/// `pos` is the position of the operator: the operator, then its right
/// operand, read with the operator's own precedence.
pub open spec fn spec_parse_infix_expr(
    s: Seq<SpecToken>,
    pos: int,
    left: Expr,
    depth: nat,
) -> Parsed<Expr> {
    if 0 <= pos < s.len() && spec_infix_op(s[pos]).1.is_some() {
        match spec_parse_pratt_expr(s, pos + 1, spec_infix_op(s[pos]).0, depth) {
            Ok((len, right)) => Ok(
                (
                    len + 1,
                    Expr::Infix(Box::new(left), spec_infix_op(s[pos]).1.unwrap(), Box::new(right)),
                ),
            ),
            Err(error) => Err(error),
        }
    } else {
        failure(ParseErrorKind::ExpectedInfixOperator, pos)
    }
}

/// Parses an atom at `pos`.
pub fn parse_atom_expr(
    tokens: &Tokens,
    pos: usize,
    depth: usize,
) -> (found: Result<(usize, Expr), ParseError>)
    ensures
        parsed(found, pos, spec_parse_atom_expr(tokens@, pos as int, depth as nat)),
    decreases remaining(tokens@, pos as int), 1nat,
{
    match tokens.peek(pos) {
        Some(Token::IntLiteral(_)) => parse_lit_expr(tokens, pos),
        Some(Token::Plus) | Some(Token::Minus) => parse_prefix_expr(tokens, pos, depth),
        Some(Token::LParen) => parse_paren_expr(tokens, pos, depth),
        _ => Err(ParseError { kind: ParseErrorKind::ExpectedExpression, position: pos }),
    }
}

/// Parses a prefix expression at `pos`.
pub fn parse_prefix_expr(
    tokens: &Tokens,
    pos: usize,
    depth: usize,
) -> (found: Result<(usize, Expr), ParseError>)
    ensures
        parsed(found, pos, spec_parse_prefix_expr(tokens@, pos as int, depth as nat)),
    decreases remaining(tokens@, pos as int), 0nat,
{
    let prefix = match tokens.peek(pos) {
        Some(Token::Plus) => Prefix::Positive,
        Some(Token::Minus) => Prefix::Negative,
        _ => {
            return Err(
                ParseError { kind: ParseErrorKind::ExpectedPrefixOperator, position: pos },
            );
        },
    };
    if depth == 0 {
        return Err(ParseError { kind: ParseErrorKind::NestingTooDeep, position: pos });
    }
    let (next, operand) = parse_atom_expr(tokens, pos + 1, depth - 1)?;
    Ok((next, Expr::Prefix(prefix, Box::new(operand))))
}

/// Parses an expression in parentheses at `pos`.
pub fn parse_paren_expr(
    tokens: &Tokens,
    pos: usize,
    depth: usize,
) -> (found: Result<(usize, Expr), ParseError>)
    ensures
        parsed(found, pos, spec_parse_paren_expr(tokens@, pos as int, depth as nat)),
    decreases remaining(tokens@, pos as int), 0nat,
{
    let after_open = left_paren_tag(tokens, pos)?;
    if depth == 0 {
        return Err(ParseError { kind: ParseErrorKind::NestingTooDeep, position: pos });
    }
    let (after_inner, inner) = parse_expr(tokens, after_open, depth - 1)?;
    let after_close = right_paren_tag(tokens, after_inner)?;
    Ok((after_close, inner))
}

/// Parses an infix expression whose left operand `left` is already read,
/// where `pos` is the position of the operator.
pub fn parse_infix_expr(
    tokens: &Tokens,
    pos: usize,
    left: Expr,
    depth: usize,
) -> (found: Result<(usize, Expr), ParseError>)
    ensures
        parsed(found, pos, spec_parse_infix_expr(tokens@, pos as int, left, depth as nat)),
    decreases remaining(tokens@, pos as int), 1nat,
{
    match tokens.peek(pos) {
        Some(token) => {
            let (precedence, maybe_op) = infix_op(token);
            match maybe_op {
                Some(op) => {
                    let (next, right) = parse_pratt_expr(tokens, pos + 1, precedence, depth)?;
                    Ok((next, Expr::Infix(Box::new(left), op, Box::new(right))))
                },
                None => Err(
                    ParseError { kind: ParseErrorKind::ExpectedInfixOperator, position: pos },
                ),
            }
        },
        None => Err(ParseError { kind: ParseErrorKind::ExpectedInfixOperator, position: pos }),
    }
}

/// Joins to the operand `left`, already read, the infix operators that bind
/// more tightly than `precedence` and their right operands, from `pos` on.
pub fn go_parse_pratt_expr(
    tokens: &Tokens,
    pos: usize,
    precedence: Precedence,
    left: Expr,
    depth: usize,
) -> (found: Result<(usize, Expr), ParseError>)
    ensures
        parsed(
            found,
            pos,
            spec_go_parse_pratt_expr(tokens@, pos as int, precedence, left, depth as nat),
        ),
    decreases remaining(tokens@, pos as int), 2nat,
{
    let ghost first = left;
    let mut joined = left;
    let mut at: usize = pos;
    loop
        invariant
            pos <= at,
            first == left,
            spec_go_parse_pratt_expr(tokens@, pos as int, precedence, first, depth as nat) == (
            match spec_go_parse_pratt_expr(tokens@, at as int, precedence, joined, depth as nat) {
                Ok((len, whole)) => Ok(((at - pos + len) as nat, whole)),
                Err(error) => Err(error),
            }),
        decreases remaining(tokens@, at as int),
    {
        let binds = match tokens.peek(at) {
            Some(token) => precedence < infix_op(token).0,
            None => false,
        };
        if !binds {
            return Ok((at, joined));
        }
        let (next, whole) = parse_infix_expr(tokens, at, joined, depth)?;
        joined = whole;
        at = next;
    }
}

/// Parses at `pos` an expression whose infix operators all bind more tightly
/// than `precedence`.
pub fn parse_pratt_expr(
    tokens: &Tokens,
    pos: usize,
    precedence: Precedence,
    depth: usize,
) -> (found: Result<(usize, Expr), ParseError>)
    ensures
        parsed(found, pos, spec_parse_pratt_expr(tokens@, pos as int, precedence, depth as nat)),
    decreases remaining(tokens@, pos as int), 3nat,
{
    let (next, left) = parse_atom_expr(tokens, pos, depth)?;
    go_parse_pratt_expr(tokens, next, precedence, left, depth)
}

/// Parses an expression at `pos`.
pub fn parse_expr(
    tokens: &Tokens,
    pos: usize,
    depth: usize,
) -> (found: Result<(usize, Expr), ParseError>)
    ensures
        parsed(found, pos, spec_parse_expr(tokens@, pos as int, depth as nat)),
    decreases remaining(tokens@, pos as int), 4nat,
{
    parse_pratt_expr(tokens, pos, Precedence::PLowest, depth)
}

/// An atom holds at least one token and lies inside the stream.
pub proof fn lemma_parse_atom_expr_advances(s: Seq<SpecToken>, pos: int, depth: nat)
    ensures
        spec_parse_atom_expr(s, pos, depth) matches Ok((len, _)) ==> 0 <= pos && 1 <= len && pos
            + len <= s.len(),
    decreases remaining(s, pos), 1nat,
{
    if 0 <= pos < s.len() {
        if s[pos] is IntLiteral {
        } else if spec_prefix_op(s[pos]).is_some() {
            if depth > 0 {
                lemma_parse_atom_expr_advances(s, pos + 1, (depth - 1) as nat);
            }
        } else if s[pos] == SpecToken::LParen {
            if depth > 0 {
                lemma_parse_pratt_expr_advances(
                    s,
                    pos + 1,
                    Precedence::PLowest,
                    (depth - 1) as nat,
                );
            }
        }
    }
}

/// What is joined to a left operand lies inside the stream.
pub proof fn lemma_go_parse_pratt_expr_in_bounds(
    s: Seq<SpecToken>,
    pos: int,
    precedence: Precedence,
    left: Expr,
    depth: nat,
)
    requires
        0 <= pos <= s.len(),
    ensures
        spec_go_parse_pratt_expr(s, pos, precedence, left, depth) matches Ok((len, _)) ==> pos
            + len <= s.len(),
    decreases remaining(s, pos), 2nat,
{
    if binds_tighter(s, pos, precedence) {
        let binding = spec_infix_op(s[pos]);
        lemma_parse_pratt_expr_advances(s, pos + 1, binding.0, depth);
        if let Ok((len, right)) = spec_parse_pratt_expr(s, pos + 1, binding.0, depth) {
            lemma_go_parse_pratt_expr_in_bounds(
                s,
                pos + 1 + len,
                precedence,
                Expr::Infix(Box::new(left), binding.1.unwrap(), Box::new(right)),
                depth,
            );
        }
    }
}

/// An expression holds at least one token and lies inside the stream.
pub proof fn lemma_parse_pratt_expr_advances(
    s: Seq<SpecToken>,
    pos: int,
    precedence: Precedence,
    depth: nat,
)
    ensures
        spec_parse_pratt_expr(s, pos, precedence, depth) matches Ok((len, _)) ==> 0 <= pos && 1
            <= len && pos + len <= s.len(),
    decreases remaining(s, pos), 3nat,
{
    lemma_parse_atom_expr_advances(s, pos, depth);
    if let Ok((len, left)) = spec_parse_atom_expr(s, pos, depth) {
        lemma_go_parse_pratt_expr_in_bounds(s, pos + len, precedence, left, depth);
    }
}

/// The statement at `pos`: an expression.
pub open spec fn spec_parse_expr_stmt(s: Seq<SpecToken>, pos: int, depth: nat) -> Parsed<Stmt> {
    match spec_parse_expr(s, pos, depth) {
        Ok((len, expr)) => Ok((len, Stmt::ExprStmt(expr))),
        Err(error) => Err(error),
    }
}

/// Parses a statement at `pos`.
pub fn parse_expr_stmt(
    tokens: &Tokens,
    pos: usize,
    depth: usize,
) -> (found: Result<(usize, Stmt), ParseError>)
    ensures
        parsed(found, pos, spec_parse_expr_stmt(tokens@, pos as int, depth as nat)),
{
    match parse_expr(tokens, pos, depth) {
        Ok((next, expr)) => Ok((next, Stmt::ExprStmt(expr))),
        Err(error) => Err(error),
    }
}

/// The program at `pos`: statements up to the end marker, which is read too.
/// Whatever stands before the end marker and is no statement is a failure.
pub open spec fn spec_parse_program(s: Seq<SpecToken>, pos: int, depth: nat) -> Parsed<Seq<Stmt>>
    decreases remaining(s, pos),
{
    if !(0 <= pos < s.len()) {
        failure(ParseErrorKind::ExpectedEndOfInput, pos)
    } else if s[pos] == SpecToken::EOF {
        Ok((1, Seq::empty()))
    } else {
        match spec_parse_expr_stmt(s, pos, depth) {
            Ok((len, stmt)) => {
                proof {
                    lemma_parse_pratt_expr_advances(s, pos, Precedence::PLowest, depth);
                }
                match spec_parse_program(s, pos + len, depth) {
                    Ok((more, rest)) => Ok((len + more, seq![stmt] + rest)),
                    Err(error) => Err(error),
                }
            },
            Err(error) => Err(error),
        }
    }
}

/// Parses a program at `pos`.
pub fn parse_program(
    tokens: &Tokens,
    pos: usize,
    depth: usize,
) -> (found: Result<(usize, Program), ParseError>)
    ensures
        match spec_parse_program(tokens@, pos as int, depth as nat) {
            Ok((len, stmts)) => found matches Ok((next, program)) && next == pos + len
                && program@ == stmts,
            Err(error) => found matches Err(e) && e@ == error,
        },
{
    let mut program: Program = Vec::new();
    let mut at: usize = pos;
    loop
        invariant
            pos <= at,
            spec_parse_program(tokens@, pos as int, depth as nat) == (match spec_parse_program(
                tokens@,
                at as int,
                depth as nat,
            ) {
                Ok((len, rest)) => Ok(((at - pos + len) as nat, program@ + rest)),
                Err(error) => Err(error),
            }),
        decreases remaining(tokens@, at as int),
    {
        match eof_tag(tokens, at) {
            Ok(next) => {
                assert(program@ + Seq::<Stmt>::empty() =~= program@);
                return Ok((next, program));
            },
            Err(error) => {
                if at >= tokens.input_len() {
                    return Err(error);
                }
            },
        }
        proof {
            lemma_parse_pratt_expr_advances(tokens@, at as int, Precedence::PLowest, depth as nat);
        }
        let (next, stmt) = parse_expr_stmt(tokens, at, depth)?;
        let ghost before = program@;
        program.push(stmt);
        at = next;
        assert forall|rest: Seq<Stmt>| before + (seq![stmt] + rest) == program@ + rest by {
            assert(before + (seq![stmt] + rest) =~= program@ + rest);
        }
    }
}

/// The parser.
pub struct Parser;

impl Parser {
    /// Turns a token stream into a program. With the program comes the
    /// stream that follows the end marker. Prefix operators and parentheses
    /// may enclose one another [`MAX_NESTING_DEPTH`] deep.
    pub fn parse_tokens<'a>(tokens: Tokens<'a>) -> (found: Result<
        (Tokens<'a>, Program),
        ParseError,
    >)
        ensures
            Self::parses(tokens, MAX_NESTING_DEPTH, found),
    {
        Self::parse_tokens_within(tokens, MAX_NESTING_DEPTH)
    }

    /// Turns a token stream into a program, in which prefix operators and
    /// parentheses may enclose one another `max_depth` deep.
    pub fn parse_tokens_within<'a>(tokens: Tokens<'a>, max_depth: usize) -> (found: Result<
        (Tokens<'a>, Program),
        ParseError,
    >)
        ensures
            Self::parses(tokens, max_depth, found),
    {
        proof {
            lemma_parse_program_in_bounds(tokens@, 0, max_depth as nat);
        }
        match parse_program(&tokens, 0, max_depth) {
            Ok((next, program)) => Ok((tokens.take_split(next).1, program)),
            Err(error) => Err(error),
        }
    }

    /// `found` is what parsing `tokens` gives: the program that
    /// [`spec_parse_program`] reads from the start of the stream, with the
    /// stream after it, or its failure.
    pub open spec fn parses<'a>(
        tokens: Tokens<'a>,
        max_depth: usize,
        found: Result<(Tokens<'a>, Program), ParseError>,
    ) -> bool {
        match spec_parse_program(tokens@, 0, max_depth as nat) {
            Ok((len, stmts)) => {
                &&& found matches Ok((rest, program))
                &&& program@ == stmts
                &&& rest@ == tokens@.skip(len as int)
            },
            Err(error) => found matches Err(e) && e@ == error,
        }
    }
}

/// A program lies inside the stream.
pub proof fn lemma_parse_program_in_bounds(s: Seq<SpecToken>, pos: int, depth: nat)
    ensures
        spec_parse_program(s, pos, depth) matches Ok((len, _)) ==> 0 <= pos && 1 <= len && pos
            + len <= s.len(),
    decreases remaining(s, pos),
{
    if 0 <= pos < s.len() && s[pos] != SpecToken::EOF {
        lemma_parse_pratt_expr_advances(s, pos, Precedence::PLowest, depth);
        if let Ok((len, _)) = spec_parse_expr_stmt(s, pos, depth) {
            lemma_parse_program_in_bounds(s, pos + len, depth);
        }
    }
}

} // verus!
