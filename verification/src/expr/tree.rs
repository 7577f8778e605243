//! A small expression tree: operators, groupings and literals only.
use crate::expr::{ExprKindV, ExprV};
use crate::token::{Literal, Token};
use vstd::prelude::*;

verus! {

/// An expression built of operators, groupings and literals.
#[derive(Debug)]
pub enum Expr {
    Binary(Box<Expr>, Token, Box<Expr>),
    Grouping(Box<Expr>),
    Literal(Literal),
    Unary(Token, Box<Expr>),
    Comma(Box<Expr>, Box<Expr>),
    Ternary(Box<Expr>, Box<Expr>, Box<Expr>),
}

/// The model of a small tree: the same shape as a parsed expression, with
/// every identity 0.
pub open spec fn tree_view(e: Expr) -> ExprV
    decreases e,
{
    ExprV {
        id: 0,
        kind: match e {
            Expr::Binary(l, op, r) => ExprKindV::Binary(
                Box::new(tree_view(*l)),
                op@,
                Box::new(tree_view(*r)),
            ),
            Expr::Grouping(x) => ExprKindV::Grouping(Box::new(tree_view(*x))),
            Expr::Literal(l) => ExprKindV::Literal(l@),
            Expr::Unary(op, r) => ExprKindV::Unary(op@, Box::new(tree_view(*r))),
            Expr::Comma(l, r) => ExprKindV::Comma(Box::new(tree_view(*l)), Box::new(tree_view(*r))),
            Expr::Ternary(c, l, r) => ExprKindV::Ternary(
                Box::new(tree_view(*c)),
                Box::new(tree_view(*l)),
                Box::new(tree_view(*r)),
            ),
        },
    }
}

impl View for Expr {
    type V = ExprV;

    open spec fn view(&self) -> ExprV {
        tree_view(*self)
    }
}

impl Expr {
    pub fn binary(left: Expr, operator: Token, right: Expr) -> (r: Expr)
        ensures
            r == Expr::Binary(Box::new(left), operator, Box::new(right)),
    {
        Expr::Binary(Box::new(left), operator, Box::new(right))
    }

    pub fn unary(operator: Token, right: Expr) -> (r: Expr)
        ensures
            r == Expr::Unary(operator, Box::new(right)),
    {
        Expr::Unary(operator, Box::new(right))
    }

    pub fn literal(literal: Literal) -> (r: Expr)
        ensures
            r == Expr::Literal(literal),
    {
        Expr::Literal(literal)
    }

    pub fn grouping(expr: Expr) -> (r: Expr)
        ensures
            r == Expr::Grouping(Box::new(expr)),
    {
        Expr::Grouping(Box::new(expr))
    }

    pub fn comma(left: Expr, right: Expr) -> (r: Expr)
        ensures
            r == Expr::Comma(Box::new(left), Box::new(right)),
    {
        Expr::Comma(Box::new(left), Box::new(right))
    }
}

} // verus!
