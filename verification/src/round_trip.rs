//! The tokenizer and the parser together: a tree is read back from the text
//! that spells it.

use crate::lexer::spelling::{all_spelled, lemma_tokenize_reads_written, spelling, written};
use crate::lexer::token::SpecToken;
use crate::lexer::{spec_tokenize, SpecLexError};
use crate::parser::ast::{Expr, Literal, Stmt};
use crate::parser::laws::{
    infix_token, lemma_program_reads_rendered, nesting, prefix_token, render, writable,
};
use crate::parser::{spec_parse_program, success};
use vstd::prelude::*;

verus! {

/// Whether no literal of a tree is negative. The text of a negative number
/// is a prefix operator and a literal, and is read as such.
pub open spec fn has_no_negative_literal(e: Expr) -> bool
    decreases e,
{
    match e {
        Expr::Literal(Literal::Int(value)) => value >= 0,
        Expr::Prefix(_, operand) => has_no_negative_literal(*operand),
        Expr::Infix(left, _, right) => has_no_negative_literal(*left) && has_no_negative_literal(
            *right,
        ),
    }
}

/// Two sequences of tokens that are spelled make one that is spelled.
pub proof fn lemma_all_spelled_joins(first: Seq<SpecToken>, second: Seq<SpecToken>)
    requires
        all_spelled(first),
        all_spelled(second),
    ensures
        all_spelled(first + second),
{
    assert forall|i: int| 0 <= i < (first + second).len() implies spelling(
        #[trigger] (first + second)[i],
    ).is_some() by {
        if i < first.len() {
            assert((first + second)[i] == first[i]);
        } else {
            assert((first + second)[i] == second[i - first.len()]);
        }
    }
}

/// The tokens that a tree is written in are all spelled by a text, if the
/// tree can be written and holds no negative literal.
pub proof fn lemma_rendered_is_spelled(e: Expr)
    requires
        writable(e),
        has_no_negative_literal(e),
    ensures
        all_spelled(render(e)),
    decreases e,
{
    match e {
        Expr::Literal(Literal::Int(value)) => {},
        Expr::Prefix(op, operand) => {
            lemma_rendered_is_spelled(*operand);
            lemma_all_spelled_joins(seq![prefix_token(op)], render(*operand));
        },
        Expr::Infix(left, op, right) => {
            lemma_rendered_is_spelled(*left);
            lemma_rendered_is_spelled(*right);
            let open = seq![SpecToken::LParen];
            let sign = seq![infix_token(op).unwrap()];
            let close = seq![SpecToken::RParen];
            lemma_all_spelled_joins(open, render(*left));
            lemma_all_spelled_joins(open + render(*left), sign);
            lemma_all_spelled_joins(open + render(*left) + sign, render(*right));
            lemma_all_spelled_joins(open + render(*left) + sign + render(*right), close);
        },
    }
}

/// The front end reads a tree back from its text: for a tree that can be
/// written, holds no negative literal and is nested no deeper than allowed,
/// the text that spells its tokens is tokenized to those tokens and the end
/// marker, and they are parsed to the program of that one tree.
pub proof fn lemma_front_end_reads_written_tree(e: Expr, depth: nat)
    requires
        writable(e),
        has_no_negative_literal(e),
        nesting(e) <= depth,
    ensures
        spec_tokenize(written(render(e))) == Ok::<Seq<SpecToken>, SpecLexError>(
            render(e).push(SpecToken::EOF),
        ),
        spec_parse_program(render(e).push(SpecToken::EOF), 0, depth) == success(
            render(e).len() + 1,
            seq![Stmt::ExprStmt(e)],
        ),
{
    lemma_rendered_is_spelled(e);
    lemma_tokenize_reads_written(render(e));
    lemma_program_reads_rendered(e, depth);
}

} // verus!
