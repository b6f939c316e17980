//! The grammar of sums of products, and the proof that the parser reads it.
//!
//! ```text
//! sum     := product (('+' | '-') product)*
//! product := atom (('*' | '/') atom)*
//! atom    := integer | ('+' | '-') atom | '(' sum ')'
//! ```
//!
//! Each chain is joined from the left. The functions here read this grammar
//! level by level, with one function for each chain, and share nothing with
//! the precedence-climbing functions but the failures and the tree.

use crate::lexer::token::SpecToken;
use crate::parser::ast::{Expr, Infix, Literal, Precedence};
use crate::parser::{
    binds_tighter, failure, remaining, spec_go_parse_pratt_expr, spec_infix_op,
    spec_parse_atom_expr, spec_parse_expr, spec_parse_pratt_expr, spec_prefix_op, success,
    ParseErrorKind, Parsed,
};
use vstd::prelude::*;

verus! {

/// The operator of a sum that a token spells.
pub open spec fn sum_op(token: SpecToken) -> Option<Infix> {
    match token {
        SpecToken::Plus => Some(Infix::Plus),
        SpecToken::Minus => Some(Infix::Minus),
        _ => None,
    }
}

/// The operator of a product that a token spells.
pub open spec fn product_op(token: SpecToken) -> Option<Infix> {
    match token {
        SpecToken::Multiply => Some(Infix::Multiply),
        SpecToken::Divide => Some(Infix::Divide),
        _ => None,
    }
}

/// `read`, with `len` more tokens counted as read before it.
pub open spec fn after<T>(len: nat, read: Parsed<T>) -> Parsed<T> {
    match read {
        Ok((more, node)) => Ok((len + more, node)),
        Err(error) => Err(error),
    }
}

/// An atom of the grammar at `pos`.
pub open spec fn layered_atom(s: Seq<SpecToken>, pos: int, depth: nat) -> Parsed<Expr>
    decreases remaining(s, pos), 0nat,
{
    if !(0 <= pos < s.len()) {
        failure(ParseErrorKind::ExpectedExpression, pos)
    } else if s[pos] is IntLiteral {
        Ok((1, Expr::Literal(Literal::Int(s[pos]->IntLiteral_0))))
    } else if spec_prefix_op(s[pos]).is_some() {
        if depth == 0 {
            failure(ParseErrorKind::NestingTooDeep, pos)
        } else {
            match layered_atom(s, pos + 1, (depth - 1) as nat) {
                Ok((len, operand)) => Ok(
                    (len + 1, Expr::Prefix(spec_prefix_op(s[pos]).unwrap(), Box::new(operand))),
                ),
                Err(error) => Err(error),
            }
        }
    } else if s[pos] == SpecToken::LParen {
        if depth == 0 {
            failure(ParseErrorKind::NestingTooDeep, pos)
        } else {
            match layered_sum(s, pos + 1, (depth - 1) as nat) {
                Ok((len, inner)) => if 0 <= pos + 1 + len < s.len() && s[pos + 1 + len]
                    == SpecToken::RParen {
                    Ok((len + 2, inner))
                } else {
                    failure(ParseErrorKind::ExpectedRightParen, pos + 1 + len)
                },
                Err(error) => Err(error),
            }
        }
    } else {
        failure(ParseErrorKind::ExpectedExpression, pos)
    }
}

/// The rest of a product whose factors read so far are joined in `left`:
/// as long as an operator of products follows, it and the next atom are read
/// and joined to `left`.
pub open spec fn layered_product_rest(
    s: Seq<SpecToken>,
    pos: int,
    left: Expr,
    depth: nat,
) -> Parsed<Expr>
    decreases remaining(s, pos), 1nat,
{
    if 0 <= pos < s.len() && product_op(s[pos]).is_some() {
        match layered_atom(s, pos + 1, depth) {
            Ok((len, right)) => after(
                1 + len,
                layered_product_rest(
                    s,
                    pos + 1 + len,
                    Expr::Infix(Box::new(left), product_op(s[pos]).unwrap(), Box::new(right)),
                    depth,
                ),
            ),
            Err(error) => Err(error),
        }
    } else {
        Ok((0, left))
    }
}

/// A product at `pos`: atoms with operators of products between them.
pub open spec fn layered_product(s: Seq<SpecToken>, pos: int, depth: nat) -> Parsed<Expr>
    decreases remaining(s, pos), 2nat,
{
    match layered_atom(s, pos, depth) {
        Ok((len, first)) => after(len, layered_product_rest(s, pos + len, first, depth)),
        Err(error) => Err(error),
    }
}

/// The rest of a sum whose terms read so far are joined in `left`: as long
/// as an operator of sums follows, it and the next product are read and
/// joined to `left`.
pub open spec fn layered_sum_rest(
    s: Seq<SpecToken>,
    pos: int,
    left: Expr,
    depth: nat,
) -> Parsed<Expr>
    decreases remaining(s, pos), 3nat,
{
    if 0 <= pos < s.len() && sum_op(s[pos]).is_some() {
        match layered_product(s, pos + 1, depth) {
            Ok((len, right)) => after(
                1 + len,
                layered_sum_rest(
                    s,
                    pos + 1 + len,
                    Expr::Infix(Box::new(left), sum_op(s[pos]).unwrap(), Box::new(right)),
                    depth,
                ),
            ),
            Err(error) => Err(error),
        }
    } else {
        Ok((0, left))
    }
}

/// A sum at `pos`: products with operators of sums between them.
pub open spec fn layered_sum(s: Seq<SpecToken>, pos: int, depth: nat) -> Parsed<Expr>
    decreases remaining(s, pos), 4nat,
{
    match layered_product(s, pos, depth) {
        Ok((len, first)) => after(len, layered_sum_rest(s, pos + len, first, depth)),
        Err(error) => Err(error),
    }
}

/// No token binds more tightly than a product: nothing is joined to a left
/// operand that is read with the precedence of products.
pub proof fn lemma_nothing_binds_tighter_than_product(
    s: Seq<SpecToken>,
    pos: int,
    left: Expr,
    depth: nat,
)
    ensures
        spec_go_parse_pratt_expr(s, pos, Precedence::PProduct, left, depth) == success(0, left),
        spec_parse_pratt_expr(s, pos, Precedence::PProduct, depth) == spec_parse_atom_expr(
            s,
            pos,
            depth,
        ),
{
    assert(!binds_tighter(s, pos, Precedence::PProduct));
    if let Ok((len, first)) = spec_parse_atom_expr(s, pos, depth) {
        assert(!binds_tighter(s, pos + len, Precedence::PProduct));
    }
}

/// The rest of a product ends before a token that is no operator of products.
pub proof fn lemma_product_rest_ends(s: Seq<SpecToken>, pos: int, left: Expr, depth: nat)
    ensures
        layered_product_rest(s, pos, left, depth) matches Ok((len, _)) ==> !(0 <= pos + len
            < s.len() && product_op(s[pos + len]).is_some()),
    decreases remaining(s, pos),
{
    if 0 <= pos < s.len() && product_op(s[pos]).is_some() {
        if let Ok((len, right)) = layered_atom(s, pos + 1, depth) {
            lemma_product_rest_ends(
                s,
                pos + 1 + len,
                Expr::Infix(Box::new(left), product_op(s[pos]).unwrap(), Box::new(right)),
                depth,
            );
        }
    }
}

/// A product ends before a token that is no operator of products.
pub proof fn lemma_product_ends(s: Seq<SpecToken>, pos: int, depth: nat)
    ensures
        layered_product(s, pos, depth) matches Ok((len, _)) ==> !(0 <= pos + len < s.len()
            && product_op(s[pos + len]).is_some()),
{
    if let Ok((len, first)) = layered_atom(s, pos, depth) {
        lemma_product_rest_ends(s, pos + len, first, depth);
    }
}

/// The parser's atom is the atom of the grammar.
pub proof fn lemma_atom_is_layered(s: Seq<SpecToken>, pos: int, depth: nat)
    ensures
        spec_parse_atom_expr(s, pos, depth) == layered_atom(s, pos, depth),
    decreases remaining(s, pos), 0nat,
{
    if 0 <= pos < s.len() {
        if s[pos] is IntLiteral {
        } else if spec_prefix_op(s[pos]).is_some() {
            if depth > 0 {
                lemma_atom_is_layered(s, pos + 1, (depth - 1) as nat);
            }
        } else if s[pos] == SpecToken::LParen {
            if depth > 0 {
                lemma_lowest_is_layered_sum(s, pos + 1, (depth - 1) as nat);
            }
        }
    }
}

/// What the parser joins to a left operand with the precedence of sums is
/// the rest of a product.
pub proof fn lemma_go_sum_is_layered_product_rest(
    s: Seq<SpecToken>,
    pos: int,
    left: Expr,
    depth: nat,
)
    ensures
        spec_go_parse_pratt_expr(s, pos, Precedence::PSum, left, depth) == layered_product_rest(
            s,
            pos,
            left,
            depth,
        ),
    decreases remaining(s, pos), 1nat,
{
    if 0 <= pos < s.len() && product_op(s[pos]).is_some() {
        assert(binds_tighter(s, pos, Precedence::PSum));
        let binding = spec_infix_op(s[pos]);
        assert(binding.0 == Precedence::PProduct && binding.1 == product_op(s[pos]));
        lemma_nothing_binds_tighter_than_product(s, pos + 1, left, depth);
        lemma_atom_is_layered(s, pos + 1, depth);
        if let Ok((len, right)) = layered_atom(s, pos + 1, depth) {
            lemma_go_sum_is_layered_product_rest(
                s,
                pos + 1 + len,
                Expr::Infix(Box::new(left), binding.1.unwrap(), Box::new(right)),
                depth,
            );
        }
    } else {
        assert(!binds_tighter(s, pos, Precedence::PSum));
    }
}

/// What the parser reads with the precedence of sums is a product.
pub proof fn lemma_sum_is_layered_product(s: Seq<SpecToken>, pos: int, depth: nat)
    ensures
        spec_parse_pratt_expr(s, pos, Precedence::PSum, depth) == layered_product(s, pos, depth),
    decreases remaining(s, pos), 2nat,
{
    lemma_atom_is_layered(s, pos, depth);
    if let Ok((len, first)) = layered_atom(s, pos, depth) {
        lemma_go_sum_is_layered_product_rest(s, pos + len, first, depth);
    }
}

/// What the parser joins to a left operand with the lowest precedence is the
/// rest of a product, and then the rest of a sum.
pub proof fn lemma_go_lowest_is_layered_rest(s: Seq<SpecToken>, pos: int, left: Expr, depth: nat)
    ensures
        spec_go_parse_pratt_expr(s, pos, Precedence::PLowest, left, depth) == (
        match layered_product_rest(s, pos, left, depth) {
            Ok((len, product)) => after(len, layered_sum_rest(s, pos + len, product, depth)),
            Err(error) => Err(error),
        }),
    decreases remaining(s, pos), 3nat,
{
    if 0 <= pos < s.len() && product_op(s[pos]).is_some() {
        assert(binds_tighter(s, pos, Precedence::PLowest));
        let binding = spec_infix_op(s[pos]);
        assert(binding.0 == Precedence::PProduct && binding.1 == product_op(s[pos]));
        lemma_nothing_binds_tighter_than_product(s, pos + 1, left, depth);
        lemma_atom_is_layered(s, pos + 1, depth);
        if let Ok((len, right)) = layered_atom(s, pos + 1, depth) {
            let joined = Expr::Infix(Box::new(left), binding.1.unwrap(), Box::new(right));
            lemma_go_lowest_is_layered_rest(s, pos + 1 + len, joined, depth);
        }
    } else if 0 <= pos < s.len() && sum_op(s[pos]).is_some() {
        assert(binds_tighter(s, pos, Precedence::PLowest));
        let binding = spec_infix_op(s[pos]);
        assert(binding.0 == Precedence::PSum && binding.1 == sum_op(s[pos]));
        assert(layered_product_rest(s, pos, left, depth) == success(0, left));
        lemma_sum_is_layered_product(s, pos + 1, depth);
        lemma_product_ends(s, pos + 1, depth);
        if let Ok((len, right)) = layered_product(s, pos + 1, depth) {
            let joined = Expr::Infix(Box::new(left), binding.1.unwrap(), Box::new(right));
            lemma_go_lowest_is_layered_rest(s, pos + 1 + len, joined, depth);
            assert(layered_product_rest(s, pos + 1 + len, joined, depth) == success(0, joined));
        }
    } else {
        assert(!binds_tighter(s, pos, Precedence::PLowest));
    }
}

/// What the parser reads with the lowest precedence is a sum.
pub proof fn lemma_lowest_is_layered_sum(s: Seq<SpecToken>, pos: int, depth: nat)
    ensures
        spec_parse_pratt_expr(s, pos, Precedence::PLowest, depth) == layered_sum(s, pos, depth),
    decreases remaining(s, pos), 4nat,
{
    lemma_atom_is_layered(s, pos, depth);
    if let Ok((len, first)) = layered_atom(s, pos, depth) {
        lemma_go_lowest_is_layered_rest(s, pos + len, first, depth);
    }
}

/// The parser reads the grammar of sums of products: on every stream, from
/// every position, an expression is the sum that the grammar reads there, or
/// the same failure. So operators of one level join from the left, and a
/// product is an operand of a sum, never a sum an operand of a product
/// unless it stands in parentheses.
pub proof fn lemma_parser_reads_layered_grammar(s: Seq<SpecToken>, pos: int, depth: nat)
    ensures
        spec_parse_expr(s, pos, depth) == layered_sum(s, pos, depth),
{
    lemma_lowest_is_layered_sum(s, pos, depth);
}

} // verus!
