//! The syntax tree.

use vstd::prelude::*;
use crate::types::VMInt;

verus! {

/// A place in the source text.
#[derive(Debug, Clone, Copy, PartialEq, Eq, Structural)]
pub struct Location {
    pub row: u32,
    pub column: u32,
}

/// An expression.
#[derive(Debug, PartialEq, Eq)]
pub enum Expr {
    Identifier(String),
    Int(VMInt),
    String(String),
    /// A function and the arguments it is applied to.
    Call(Box<LExpr>, Vec<LExpr>),
    /// The names of the parameters and the body.
    Lambda(Vec<String>, Box<LExpr>),
    /// A name, the expression it is bound to and the expression in which the
    /// binding holds.
    Let(String, Box<LExpr>, Box<LExpr>),
    /// An operator between its operands.
    BinOp(Box<LExpr>, String, Box<LExpr>),
    Tuple(Vec<LExpr>),
}

/// An expression with its place in the source text.
#[derive(Debug, PartialEq, Eq)]
pub struct LExpr {
    pub location: Location,
    pub value: Expr,
}

impl LExpr {
    /// Whether this is the unit expression: the empty tuple.
    pub open spec fn is_unit(&self) -> bool {
        self.value matches Expr::Tuple(items) && items@.len() == 0
    }

    /// The name, where this is an identifier.
    pub open spec fn identifier(&self) -> Option<String> {
        match self.value {
            Expr::Identifier(name) => Some(name),
            _ => None,
        }
    }
}

/// The expression `value` at `location`.
pub fn located(location: Location, value: Expr) -> (r: LExpr)
    ensures
        r == (LExpr { location, value }),
{
    LExpr { location, value }
}

/// The unit expression at `location`.
pub fn unit(location: Location) -> (r: LExpr)
    ensures
        r.is_unit(),
        r.location == location,
{
    located(location, Expr::Tuple(Vec::new()))
}

} // verus!
