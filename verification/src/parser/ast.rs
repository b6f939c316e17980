//! The syntax tree.

use core::cmp::Ordering;
use vstd::prelude::*;
use vstd::std_specs::cmp::PartialOrdSpecImpl;

verus! {

/// A program: its statements in source order.
pub type Program = Vec<Stmt>;

#[derive(PartialEq, Debug)]
pub enum Stmt {
    ExprStmt(Expr),
}

/// An expression. A node owns its operands.
#[derive(PartialEq, Debug)]
pub enum Expr {
    Literal(Literal),
    Prefix(Prefix, Box<Expr>),
    Infix(Box<Expr>, Infix, Box<Expr>),
}

#[derive(Clone, Copy, PartialEq, Eq, Debug)]
pub enum Literal {
    Int(i64),
}

/// A unary operator, written before its operand.
#[derive(Clone, Copy, PartialEq, Eq, Debug)]
pub enum Prefix {
    Positive,
    Negative,
}

/// A binary operator, written between its operands.
#[derive(Clone, Copy, PartialEq, Eq, Debug)]
pub enum Infix {
    Plus,
    Minus,
    Multiply,
    Divide,
    Power,
}

/// How tightly an operator binds, from loosest to tightest.
#[derive(Clone, Copy, PartialEq, Eq, Debug)]
pub enum Precedence {
    PLowest,
    PSum,
    PProduct,
    PPower,
}

impl Precedence {
    /// The place of a precedence on the scale, counted from the loosest.
    pub open spec fn spec_level(&self) -> nat {
        match self {
            Precedence::PLowest => 0,
            Precedence::PSum => 1,
            Precedence::PProduct => 2,
            Precedence::PPower => 3,
        }
    }

    /// The place of a precedence on the scale, counted from the loosest.
    pub fn level(&self) -> (level: u8)
        ensures
            level == self.spec_level(),
    {
        match self {
            Precedence::PLowest => 0,
            Precedence::PSum => 1,
            Precedence::PProduct => 2,
            Precedence::PPower => 3,
        }
    }
}

impl PartialOrd for Precedence {
    fn partial_cmp(&self, other: &Precedence) -> (order: Option<Ordering>) {
        let left: u8 = self.level();
        let right: u8 = other.level();
        if left < right {
            Some(Ordering::Less)
        } else if left == right {
            Some(Ordering::Equal)
        } else {
            Some(Ordering::Greater)
        }
    }
}

impl PartialOrdSpecImpl for Precedence {
    open spec fn obeys_partial_cmp_spec() -> bool {
        true
    }

    open spec fn partial_cmp_spec(&self, other: &Precedence) -> Option<Ordering> {
        if self.spec_level() < other.spec_level() {
            Some(Ordering::Less)
        } else if self.spec_level() == other.spec_level() {
            Some(Ordering::Equal)
        } else {
            Some(Ordering::Greater)
        }
    }
}

} // verus!
