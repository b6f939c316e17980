//! Laws of the parser: what holds of every token stream and every tree.

use crate::lexer::token::SpecToken;
use crate::parser::ast::{Expr, Infix, Literal, Precedence, Prefix, Stmt};
use crate::parser::{
    binds_tighter, failure, lemma_parse_pratt_expr_advances, remaining,
    spec_go_parse_pratt_expr, spec_infix_op, spec_parse_atom_expr, spec_parse_expr_stmt,
    spec_parse_pratt_expr, spec_parse_program, spec_prefix_op, success, ParseErrorKind, Parsed,
};
use vstd::prelude::*;

verus! {

/// Whether a token is one that expressions are written with: an integer
/// literal, `+`, `-`, `*`, `/` or a parenthesis.
pub open spec fn is_expression_token(token: SpecToken) -> bool {
    ||| token is IntLiteral
    ||| token == SpecToken::Plus
    ||| token == SpecToken::Minus
    ||| token == SpecToken::Multiply
    ||| token == SpecToken::Divide
    ||| token == SpecToken::LParen
    ||| token == SpecToken::RParen
}

/// The tokens from `from` up to `to` are all tokens of expressions.
pub open spec fn expression_tokens(s: Seq<SpecToken>, from: int, to: int) -> bool {
    forall|i: int| from <= i < to ==> is_expression_token(#[trigger] s[i])
}

/// An atom is read from tokens of expressions only.
pub proof fn lemma_atom_reads_expression_tokens(s: Seq<SpecToken>, pos: int, depth: nat)
    ensures
        spec_parse_atom_expr(s, pos, depth) matches Ok((len, _)) ==> expression_tokens(
            s,
            pos,
            pos + len,
        ),
    decreases remaining(s, pos), 1nat,
{
    if 0 <= pos < s.len() {
        if s[pos] is IntLiteral {
        } else if spec_prefix_op(s[pos]).is_some() {
            if depth > 0 {
                lemma_atom_reads_expression_tokens(s, pos + 1, (depth - 1) as nat);
            }
        } else if s[pos] == SpecToken::LParen {
            if depth > 0 {
                lemma_pratt_reads_expression_tokens(
                    s,
                    pos + 1,
                    Precedence::PLowest,
                    (depth - 1) as nat,
                );
            }
        }
    }
}

/// What is joined to a left operand is read from tokens of expressions only.
pub proof fn lemma_go_reads_expression_tokens(
    s: Seq<SpecToken>,
    pos: int,
    precedence: Precedence,
    left: Expr,
    depth: nat,
)
    ensures
        spec_go_parse_pratt_expr(s, pos, precedence, left, depth) matches Ok((len, _))
            ==> expression_tokens(s, pos, pos + len),
    decreases remaining(s, pos), 2nat,
{
    if binds_tighter(s, pos, precedence) {
        let binding = spec_infix_op(s[pos]);
        lemma_pratt_reads_expression_tokens(s, pos + 1, binding.0, depth);
        if let Ok((len, right)) = spec_parse_pratt_expr(s, pos + 1, binding.0, depth) {
            lemma_go_reads_expression_tokens(
                s,
                pos + 1 + len,
                precedence,
                Expr::Infix(Box::new(left), binding.1.unwrap(), Box::new(right)),
                depth,
            );
        }
    }
}

/// An expression is read from tokens of expressions only.
pub proof fn lemma_pratt_reads_expression_tokens(
    s: Seq<SpecToken>,
    pos: int,
    precedence: Precedence,
    depth: nat,
)
    ensures
        spec_parse_pratt_expr(s, pos, precedence, depth) matches Ok((len, _))
            ==> expression_tokens(s, pos, pos + len),
    decreases remaining(s, pos), 3nat,
{
    lemma_atom_reads_expression_tokens(s, pos, depth);
    if let Ok((len, left)) = spec_parse_atom_expr(s, pos, depth) {
        lemma_go_reads_expression_tokens(s, pos + len, precedence, left, depth);
    }
}

/// A program is read from tokens of expressions up to the first end marker,
/// which is the last token read.
pub proof fn lemma_program_reads_expression_tokens(s: Seq<SpecToken>, pos: int, depth: nat)
    ensures
        spec_parse_program(s, pos, depth) matches Ok((len, _)) ==> {
            &&& 0 <= pos && 1 <= len && pos + len <= s.len()
            &&& s[pos + len - 1] == SpecToken::EOF
            &&& expression_tokens(s, pos, pos + len - 1)
        },
    decreases remaining(s, pos),
{
    if 0 <= pos < s.len() && s[pos] != SpecToken::EOF {
        lemma_pratt_reads_expression_tokens(s, pos, Precedence::PLowest, depth);
        lemma_parse_pratt_expr_advances(s, pos, Precedence::PLowest, depth);
        if let Ok((len, _)) = spec_parse_expr_stmt(s, pos, depth) {
            lemma_program_reads_expression_tokens(s, pos + len, depth);
        }
    }
}

/// A token that expressions are not written with, standing before the first
/// end marker, makes the stream fail to parse: no token is skipped, and
/// nothing but an expression is a statement.
pub proof fn lemma_foreign_token_fails(s: Seq<SpecToken>, at: int, depth: nat)
    requires
        0 <= at < s.len(),
        !is_expression_token(s[at]),
        forall|i: int| 0 <= i <= at ==> s[i] != SpecToken::EOF,
    ensures
        spec_parse_program(s, 0, depth).is_err(),
{
    lemma_program_reads_expression_tokens(s, 0, depth);
    if let Ok((len, _)) = spec_parse_program(s, 0, depth) {
        assert(is_expression_token(s[at]));
    }
}

/// A stream that begins with an illegal token fails to parse.
pub proof fn lemma_illegal_token_fails(s: Seq<SpecToken>, depth: nat)
    requires
        s.len() >= 1,
        s[0] == SpecToken::Illegal,
    ensures
        spec_parse_program(s, 0, depth) == failure::<Seq<Stmt>>(
            ParseErrorKind::ExpectedExpression,
            0,
        ),
{
}

/// `shallow` is `deep`, or it is the failure that nesting is too deep.
pub open spec fn same_unless_too_deep<T>(shallow: Parsed<T>, deep: Parsed<T>) -> bool {
    shallow == deep || (shallow matches Err(error) && error.kind
        == ParseErrorKind::NestingTooDeep)
}

/// Allowing deeper nesting changes nothing of an atom but the failure that
/// nesting is too deep.
pub proof fn lemma_atom_allows_deeper(s: Seq<SpecToken>, pos: int, depth: nat, deeper: nat)
    requires
        depth <= deeper,
    ensures
        same_unless_too_deep(
            spec_parse_atom_expr(s, pos, depth),
            spec_parse_atom_expr(s, pos, deeper),
        ),
    decreases remaining(s, pos), 1nat,
{
    if 0 <= pos < s.len() {
        if s[pos] is IntLiteral {
        } else if spec_prefix_op(s[pos]).is_some() {
            if depth > 0 {
                lemma_atom_allows_deeper(s, pos + 1, (depth - 1) as nat, (deeper - 1) as nat);
            }
        } else if s[pos] == SpecToken::LParen {
            if depth > 0 {
                lemma_pratt_allows_deeper(
                    s,
                    pos + 1,
                    Precedence::PLowest,
                    (depth - 1) as nat,
                    (deeper - 1) as nat,
                );
            }
        }
    }
}

/// Allowing deeper nesting changes nothing of what is joined to a left
/// operand but the failure that nesting is too deep.
pub proof fn lemma_go_allows_deeper(
    s: Seq<SpecToken>,
    pos: int,
    precedence: Precedence,
    left: Expr,
    depth: nat,
    deeper: nat,
)
    requires
        depth <= deeper,
    ensures
        same_unless_too_deep(
            spec_go_parse_pratt_expr(s, pos, precedence, left, depth),
            spec_go_parse_pratt_expr(s, pos, precedence, left, deeper),
        ),
    decreases remaining(s, pos), 2nat,
{
    if binds_tighter(s, pos, precedence) {
        let binding = spec_infix_op(s[pos]);
        lemma_pratt_allows_deeper(s, pos + 1, binding.0, depth, deeper);
        if let Ok((len, right)) = spec_parse_pratt_expr(s, pos + 1, binding.0, depth) {
            lemma_go_allows_deeper(
                s,
                pos + 1 + len,
                precedence,
                Expr::Infix(Box::new(left), binding.1.unwrap(), Box::new(right)),
                depth,
                deeper,
            );
        }
    }
}

/// Allowing deeper nesting changes nothing of an expression but the failure
/// that nesting is too deep.
pub proof fn lemma_pratt_allows_deeper(
    s: Seq<SpecToken>,
    pos: int,
    precedence: Precedence,
    depth: nat,
    deeper: nat,
)
    requires
        depth <= deeper,
    ensures
        same_unless_too_deep(
            spec_parse_pratt_expr(s, pos, precedence, depth),
            spec_parse_pratt_expr(s, pos, precedence, deeper),
        ),
    decreases remaining(s, pos), 3nat,
{
    lemma_atom_allows_deeper(s, pos, depth, deeper);
    if let Ok((len, left)) = spec_parse_atom_expr(s, pos, depth) {
        lemma_go_allows_deeper(s, pos + len, precedence, left, depth, deeper);
    }
}

/// Allowing deeper nesting changes nothing of a program but the failure that
/// nesting is too deep: the bound rejects streams, and never alters a tree.
pub proof fn lemma_program_allows_deeper(s: Seq<SpecToken>, pos: int, depth: nat, deeper: nat)
    requires
        depth <= deeper,
    ensures
        same_unless_too_deep(
            spec_parse_program(s, pos, depth),
            spec_parse_program(s, pos, deeper),
        ),
    decreases remaining(s, pos),
{
    if 0 <= pos < s.len() && s[pos] != SpecToken::EOF {
        lemma_pratt_allows_deeper(s, pos, Precedence::PLowest, depth, deeper);
        lemma_parse_pratt_expr_advances(s, pos, Precedence::PLowest, depth);
        if let Ok((len, _)) = spec_parse_expr_stmt(s, pos, depth) {
            lemma_program_allows_deeper(s, pos + len, depth, deeper);
        }
    }
}

/// The token that spells a prefix operator.
pub open spec fn prefix_token(op: Prefix) -> SpecToken {
    match op {
        Prefix::Positive => SpecToken::Plus,
        Prefix::Negative => SpecToken::Minus,
    }
}

/// The token that spells an infix operator. No token spells `Power`.
pub open spec fn infix_token(op: Infix) -> Option<SpecToken> {
    match op {
        Infix::Plus => Some(SpecToken::Plus),
        Infix::Minus => Some(SpecToken::Minus),
        Infix::Multiply => Some(SpecToken::Multiply),
        Infix::Divide => Some(SpecToken::Divide),
        Infix::Power => None,
    }
}

/// Whether a tree can be written in tokens: it holds no operator that no
/// token spells.
pub open spec fn writable(e: Expr) -> bool
    decreases e,
{
    match e {
        Expr::Literal(_) => true,
        Expr::Prefix(_, operand) => writable(*operand),
        Expr::Infix(left, op, right) => infix_token(op).is_some() && writable(*left) && writable(
            *right,
        ),
    }
}

/// A tree written in tokens, with parentheses round every infix expression:
/// a literal is its token, a prefix expression is the operator and then the
/// operand, an infix expression is both operands with the operator between
/// them, in parentheses.
pub open spec fn render(e: Expr) -> Seq<SpecToken>
    decreases e,
{
    match e {
        Expr::Literal(Literal::Int(value)) => seq![SpecToken::IntLiteral(value)],
        Expr::Prefix(op, operand) => seq![prefix_token(op)] + render(*operand),
        Expr::Infix(left, op, right) => seq![SpecToken::LParen] + render(*left) + seq![
            infix_token(op).unwrap(),
        ] + render(*right) + seq![SpecToken::RParen],
    }
}

/// How deep prefix operators and parentheses enclose one another in
/// [`render`]`(e)`.
pub open spec fn nesting(e: Expr) -> nat
    decreases e,
{
    match e {
        Expr::Literal(_) => 0,
        Expr::Prefix(_, operand) => 1 + nesting(*operand),
        Expr::Infix(left, _, right) => 1 + if nesting(*left) >= nesting(*right) {
            nesting(*left)
        } else {
            nesting(*right)
        },
    }
}

/// The tokens `window` stand in `s` from `pos` on.
pub open spec fn stands_at(s: Seq<SpecToken>, pos: int, window: Seq<SpecToken>) -> bool {
    &&& 0 <= pos
    &&& pos + window.len() <= s.len()
    &&& forall|i: int| 0 <= i < window.len() ==> s[pos + i] == #[trigger] window[i]
}

/// A written tree is at least one token long.
pub proof fn lemma_render_is_not_empty(e: Expr)
    ensures
        render(e).len() >= 1,
{
}

/// Reading a written tree as an atom gives the tree back, wherever it
/// stands and whatever follows it.
pub proof fn lemma_atom_reads_rendered(s: Seq<SpecToken>, pos: int, e: Expr, depth: nat)
    requires
        writable(e),
        nesting(e) <= depth,
        stands_at(s, pos, render(e)),
    ensures
        spec_parse_atom_expr(s, pos, depth) == success(render(e).len(), e),
    decreases e,
{
    match e {
        Expr::Literal(Literal::Int(value)) => {
            assert(s[pos + 0] == render(e)[0]);
        },
        Expr::Prefix(op, operand) => {
            let written = render(*operand);
            assert(s[pos + 0] == render(e)[0]);
            assert forall|i: int| 0 <= i < written.len() implies s[pos + 1 + i]
                == #[trigger] written[i] by {
                assert(s[pos + (1 + i)] == render(e)[1 + i]);
            }
            lemma_atom_reads_rendered(s, pos + 1, *operand, (depth - 1) as nat);
        },
        Expr::Infix(left, op, right) => {
            let first = render(*left);
            let second = render(*right);
            let inner = (depth - 1) as nat;
            let at_op = pos + 1 + first.len();
            let at_close = at_op + 1 + second.len();
            assert(s[pos + 0] == render(e)[0]);
            assert forall|i: int| 0 <= i < first.len() implies s[pos + 1 + i]
                == #[trigger] first[i] by {
                assert(s[pos + (1 + i)] == render(e)[1 + i]);
            }
            assert(s[at_op] == infix_token(op).unwrap()) by {
                assert(s[pos + (at_op - pos)] == render(e)[at_op - pos]);
            }
            assert forall|i: int| 0 <= i < second.len() implies s[at_op + 1 + i]
                == #[trigger] second[i] by {
                assert(s[pos + (at_op + 1 + i - pos)] == render(e)[at_op + 1 + i - pos]);
            }
            assert(s[at_close] == SpecToken::RParen) by {
                assert(s[pos + (at_close - pos)] == render(e)[at_close - pos]);
            }
            lemma_atom_reads_rendered(s, pos + 1, *left, inner);
            lemma_atom_reads_rendered(s, at_op + 1, *right, inner);
            let binding = spec_infix_op(s[at_op]);
            assert(binding.1 == Some(op));
            assert(!binds_tighter(s, at_close, binding.0));
            assert(!binds_tighter(s, at_close, Precedence::PLowest));
            assert(spec_parse_pratt_expr(s, at_op + 1, binding.0, inner) == success(
                second.len(),
                *right,
            ));
            assert(spec_go_parse_pratt_expr(s, at_close, Precedence::PLowest, e, inner)
                == success(0, e));
            assert(spec_go_parse_pratt_expr(s, at_op, Precedence::PLowest, *left, inner)
                == success(1 + second.len(), e));
            assert(spec_parse_pratt_expr(s, pos + 1, Precedence::PLowest, inner) == success(
                first.len() + 1 + second.len(),
                e,
            ));
        },
    }
}

/// Every tree that can be written is the parse of what is written: the
/// tokens of [`render`]`(e)`, closed by the end marker, are the program of
/// the one statement `e`.
pub proof fn lemma_program_reads_rendered(e: Expr, depth: nat)
    requires
        writable(e),
        nesting(e) <= depth,
    ensures
        spec_parse_program(render(e).push(SpecToken::EOF), 0, depth) == success(
            render(e).len() + 1,
            seq![Stmt::ExprStmt(e)],
        ),
{
    let s = render(e).push(SpecToken::EOF);
    let end = render(e).len() as int;
    lemma_render_is_not_empty(e);
    lemma_atom_reads_rendered(s, 0, e, depth);
    lemma_atom_reads_expression_tokens(s, 0, depth);
    assert(is_expression_token(s[0]));
    assert(!binds_tighter(s, end, Precedence::PLowest));
    assert(spec_parse_pratt_expr(s, 0, Precedence::PLowest, depth) == success(
        render(e).len(),
        e,
    ));
    assert(spec_parse_program(s, end, depth) == success(1, Seq::<Stmt>::empty()));
    assert(seq![Stmt::ExprStmt(e)] + Seq::<Stmt>::empty() =~= seq![Stmt::ExprStmt(e)]);
}

/// The tokens of a tree in the order in which they are written, without
/// parentheses.
pub open spec fn flat(e: Expr) -> Seq<SpecToken>
    decreases e,
{
    match e {
        Expr::Literal(Literal::Int(value)) => seq![SpecToken::IntLiteral(value)],
        Expr::Prefix(op, operand) => seq![prefix_token(op)] + flat(*operand),
        Expr::Infix(left, op, right) => flat(*left) + seq![infix_token(op).unwrap()] + flat(
            *right,
        ),
    }
}

/// The tokens of `s` from `from` up to `to` that are no parentheses, in
/// order.
pub open spec fn bare(s: Seq<SpecToken>, from: int, to: int) -> Seq<SpecToken>
    decreases to - from,
{
    if from >= to {
        Seq::empty()
    } else if s[from] == SpecToken::LParen || s[from] == SpecToken::RParen {
        bare(s, from + 1, to)
    } else {
        seq![s[from]] + bare(s, from + 1, to)
    }
}

/// The bare tokens of a range are those of its first part, then those of its
/// second part.
pub proof fn lemma_bare_splits(s: Seq<SpecToken>, from: int, mid: int, to: int)
    requires
        from <= mid <= to,
    ensures
        bare(s, from, to) == bare(s, from, mid) + bare(s, mid, to),
    decreases mid - from,
{
    if from < mid {
        lemma_bare_splits(s, from + 1, mid, to);
        assert(bare(s, from, to) =~= bare(s, from, mid) + bare(s, mid, to));
    } else {
        assert(bare(s, from, to) =~= bare(s, from, mid) + bare(s, mid, to));
    }
}

/// The tree of an atom says what its tokens say, in their order: it is
/// written with the tokens that were read, less the parentheses.
pub proof fn lemma_atom_keeps_tokens(s: Seq<SpecToken>, pos: int, depth: nat)
    ensures
        spec_parse_atom_expr(s, pos, depth) matches Ok((len, e)) ==> writable(e) && flat(e)
            == bare(s, pos, pos + len),
    decreases remaining(s, pos), 1nat,
{
    if 0 <= pos < s.len() {
        if s[pos] is IntLiteral {
            assert(seq![s[pos]] + Seq::<SpecToken>::empty() =~= seq![s[pos]]);
            assert(bare(s, pos + 1, pos + 1) == Seq::<SpecToken>::empty());
        } else if spec_prefix_op(s[pos]).is_some() {
            if depth > 0 {
                lemma_atom_keeps_tokens(s, pos + 1, (depth - 1) as nat);
            }
        } else if s[pos] == SpecToken::LParen {
            if depth > 0 {
                let inner = (depth - 1) as nat;
                lemma_pratt_keeps_tokens(s, pos + 1, Precedence::PLowest, inner);
                let read = spec_parse_pratt_expr(s, pos + 1, Precedence::PLowest, inner);
                if let Ok((len, e)) = read {
                    if 0 <= pos + 1 + len < s.len() && s[pos + 1 + len] == SpecToken::RParen {
                        lemma_bare_splits(s, pos + 1, pos + 1 + len, pos + len + 2);
                        assert(bare(s, pos + 1 + len, pos + len + 2) == Seq::<SpecToken>::empty())
                            by {
                            assert(bare(s, pos + len + 2, pos + len + 2) == Seq::<
                                SpecToken,
                            >::empty());
                        }
                        assert(flat(e) + Seq::<SpecToken>::empty() =~= flat(e));
                    }
                }
            }
        }
    }
}

/// Joining four runs of tokens from the left or from the right gives the
/// same run.
proof fn lemma_concat_regroups(
    a: Seq<SpecToken>,
    x: SpecToken,
    b: Seq<SpecToken>,
    c: Seq<SpecToken>,
)
    ensures
        (a + seq![x] + b) + c == a + (seq![x] + (b + c)),
{
    assert((a + seq![x] + b) + c =~= a + (seq![x] + (b + c)));
}

/// What is joined to a left operand is written with the tokens of the left
/// operand, then the tokens that were read, less the parentheses.
pub proof fn lemma_go_keeps_tokens(
    s: Seq<SpecToken>,
    pos: int,
    precedence: Precedence,
    left: Expr,
    depth: nat,
)
    requires
        writable(left),
    ensures
        spec_go_parse_pratt_expr(s, pos, precedence, left, depth) matches Ok((len, e))
            ==> writable(e) && flat(e) == flat(left) + bare(s, pos, pos + len),
    decreases remaining(s, pos), 2nat,
{
    if binds_tighter(s, pos, precedence) {
        let binding = spec_infix_op(s[pos]);
        lemma_pratt_keeps_tokens(s, pos + 1, binding.0, depth);
        if let Ok((len, right)) = spec_parse_pratt_expr(s, pos + 1, binding.0, depth) {
            let joined = Expr::Infix(Box::new(left), binding.1.unwrap(), Box::new(right));
            let next = pos + 1 + len;
            assert(infix_token(binding.1.unwrap()) == Some(s[pos]));
            assert(flat(joined) == flat(left) + seq![s[pos]] + flat(right));
            lemma_go_keeps_tokens(s, next, precedence, joined, depth);
            if let Ok((more, e)) = spec_go_parse_pratt_expr(s, next, precedence, joined, depth) {
                let end = next + more;
                lemma_bare_splits(s, pos + 1, next, end);
                assert(bare(s, pos, end) == seq![s[pos]] + bare(s, pos + 1, end));
                lemma_concat_regroups(
                    flat(left),
                    s[pos],
                    bare(s, pos + 1, next),
                    bare(s, next, end),
                );
            }
        }
    } else {
        assert(bare(s, pos, pos) == Seq::<SpecToken>::empty());
        assert(flat(left) + Seq::<SpecToken>::empty() =~= flat(left));
    }
}

/// The tree of an expression is written with the tokens that were read, less
/// the parentheses: the parser adds no token, drops none and moves none.
pub proof fn lemma_pratt_keeps_tokens(
    s: Seq<SpecToken>,
    pos: int,
    precedence: Precedence,
    depth: nat,
)
    ensures
        spec_parse_pratt_expr(s, pos, precedence, depth) matches Ok((len, e)) ==> writable(e)
            && flat(e) == bare(s, pos, pos + len),
    decreases remaining(s, pos), 3nat,
{
    lemma_atom_keeps_tokens(s, pos, depth);
    if let Ok((len, left)) = spec_parse_atom_expr(s, pos, depth) {
        lemma_go_keeps_tokens(s, pos + len, precedence, left, depth);
        if let Ok((more, e)) = spec_go_parse_pratt_expr(s, pos + len, precedence, left, depth) {
            lemma_bare_splits(s, pos, pos + len, pos + len + more);
        }
    }
}

/// The tokens of the statements of a program, one statement after another.
pub open spec fn flat_program(stmts: Seq<Stmt>) -> Seq<SpecToken>
    decreases stmts.len(),
{
    if stmts.len() == 0 {
        Seq::empty()
    } else {
        flat(stmts.first()->ExprStmt_0) + flat_program(stmts.drop_first())
    }
}

/// The statements of a program are written with the tokens that stand before
/// the end marker, less the parentheses.
pub proof fn lemma_program_keeps_tokens(s: Seq<SpecToken>, pos: int, depth: nat)
    ensures
        spec_parse_program(s, pos, depth) matches Ok((len, stmts)) ==> flat_program(stmts)
            == bare(s, pos, pos + len - 1),
    decreases remaining(s, pos),
{
    if 0 <= pos < s.len() {
        if s[pos] == SpecToken::EOF {
            assert(bare(s, pos, pos) == Seq::<SpecToken>::empty());
        } else {
            lemma_pratt_keeps_tokens(s, pos, Precedence::PLowest, depth);
            lemma_parse_pratt_expr_advances(s, pos, Precedence::PLowest, depth);
            if let Ok((len, stmt)) = spec_parse_expr_stmt(s, pos, depth) {
                lemma_program_keeps_tokens(s, pos + len, depth);
                if let Ok((more, rest)) = spec_parse_program(s, pos + len, depth) {
                    let stmts = seq![stmt] + rest;
                    crate::parser::lemma_parse_program_in_bounds(s, pos + len, depth);
                    assert(stmts.first() == stmt);
                    assert(stmts.drop_first() =~= rest);
                    lemma_bare_splits(s, pos, pos + len, pos + len + more - 1);
                }
            }
        }
    }
}

} // verus!
