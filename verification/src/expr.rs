use crate::stmt::{stmt_view, Stmt, StmtV};
use crate::token::{Literal, LiteralV, Token, TokenV};
use vstd::prelude::*;

pub mod ast_printer;
pub mod rpn_printer;
pub mod tree;

verus! {

/// Identifies an expression within one parse: every expression the parser
/// builds gets the next number.
pub type ExprId = u32;

/// An expression together with its identity.
#[derive(Debug)]
pub struct Expr {
    pub id: ExprId,
    pub kind: ExprKind,
}

/// How a function literal is introduced.
#[derive(Clone, Copy, Debug, PartialEq, Eq, Structural)]
pub enum LambdaType {
    ClassStatic,
    Function,
    Getter,
}

/// The shapes an expression can take.
#[derive(Debug)]
pub enum ExprKind {
    Binary(Box<Expr>, Token, Box<Expr>),
    Grouping(Box<Expr>),
    Literal(Literal),
    Unary(Token, Box<Expr>),
    Comma(Box<Expr>, Box<Expr>),
    Ternary(Box<Expr>, Box<Expr>, Box<Expr>),
    Variable(Token),
    Assign(Token, Box<Expr>),
    Logical(Box<Expr>, Token, Box<Expr>),
    Call(Box<Expr>, Token, Vec<Expr>),
    Lambda(Option<Token>, Vec<Token>, Vec<Stmt>, LambdaType),
    Get(Box<Expr>, Token),
    SetProperty(Box<Expr>, Token, Box<Expr>),
    This(Token),
    Super(Token, Token),
    List(Vec<Expr>),
    Index(Box<Expr>, Box<Expr>, Token),
    IndexSet(Box<Expr>, Box<Expr>, Box<Expr>, Token),
}

/// The mathematical model of an [`Expr`].
pub struct ExprV {
    pub id: nat,
    pub kind: ExprKindV,
}

/// The mathematical model of an [`ExprKind`].
pub enum ExprKindV {
    Binary(Box<ExprV>, TokenV, Box<ExprV>),
    Grouping(Box<ExprV>),
    Literal(LiteralV),
    Unary(TokenV, Box<ExprV>),
    Comma(Box<ExprV>, Box<ExprV>),
    Ternary(Box<ExprV>, Box<ExprV>, Box<ExprV>),
    Variable(TokenV),
    Assign(TokenV, Box<ExprV>),
    Logical(Box<ExprV>, TokenV, Box<ExprV>),
    Call(Box<ExprV>, TokenV, Seq<ExprV>),
    Lambda(Option<TokenV>, Seq<TokenV>, Seq<StmtV>, LambdaType),
    Get(Box<ExprV>, TokenV),
    SetProperty(Box<ExprV>, TokenV, Box<ExprV>),
    This(TokenV),
    Super(TokenV, TokenV),
    List(Seq<ExprV>),
    Index(Box<ExprV>, Box<ExprV>, TokenV),
    IndexSet(Box<ExprV>, Box<ExprV>, Box<ExprV>, TokenV),
}

pub open spec fn option_token_view(t: Option<Token>) -> Option<TokenV> {
    match t {
        Some(x) => Some(x@),
        None => None,
    }
}

/// The model of a sequence of expressions, element by element.
pub open spec fn exprs_view(es: Seq<Expr>) -> Seq<ExprV> {
    es.map_values(|e: Expr| expr_view(e))
}

pub open spec fn token_seq_view(ts: Seq<Token>) -> Seq<TokenV> {
    ts.map_values(|t: Token| t@)
}

pub open spec fn expr_view(e: Expr) -> ExprV
    decreases e,
{
    ExprV {
        id: e.id as nat,
        kind: match e.kind {
            ExprKind::Binary(l, op, r) => ExprKindV::Binary(
                Box::new(expr_view(*l)),
                op@,
                Box::new(expr_view(*r)),
            ),
            ExprKind::Grouping(x) => ExprKindV::Grouping(Box::new(expr_view(*x))),
            ExprKind::Literal(l) => ExprKindV::Literal(l@),
            ExprKind::Unary(op, r) => ExprKindV::Unary(op@, Box::new(expr_view(*r))),
            ExprKind::Comma(l, r) => ExprKindV::Comma(
                Box::new(expr_view(*l)),
                Box::new(expr_view(*r)),
            ),
            ExprKind::Ternary(c, l, r) => ExprKindV::Ternary(
                Box::new(expr_view(*c)),
                Box::new(expr_view(*l)),
                Box::new(expr_view(*r)),
            ),
            ExprKind::Variable(n) => ExprKindV::Variable(n@),
            ExprKind::Assign(n, v) => ExprKindV::Assign(n@, Box::new(expr_view(*v))),
            ExprKind::Logical(l, op, r) => ExprKindV::Logical(
                Box::new(expr_view(*l)),
                op@,
                Box::new(expr_view(*r)),
            ),
            ExprKind::Call(c, p, args) => ExprKindV::Call(
                Box::new(expr_view(*c)),
                p@,
                Seq::new(
                    args@.len(),
                    |i: int|
                        if 0 <= i < args@.len() {
                            expr_view(args@[i])
                        } else {
                            ExprV { id: 0, kind: ExprKindV::Literal(LiteralV::Nil) }
                        },
                ),
            ),
            ExprKind::Lambda(name, params, body, lt) => ExprKindV::Lambda(
                option_token_view(name),
                token_seq_view(params@),
                Seq::new(
                    body@.len(),
                    |i: int|
                        if 0 <= i < body@.len() {
                            stmt_view(body@[i])
                        } else {
                            StmtV::Block(Seq::empty())
                        },
                ),
                lt,
            ),
            ExprKind::Get(o, n) => ExprKindV::Get(Box::new(expr_view(*o)), n@),
            ExprKind::SetProperty(o, n, v) => ExprKindV::SetProperty(
                Box::new(expr_view(*o)),
                n@,
                Box::new(expr_view(*v)),
            ),
            ExprKind::This(k) => ExprKindV::This(k@),
            ExprKind::Super(k, m) => ExprKindV::Super(k@, m@),
            ExprKind::List(items) => ExprKindV::List(
                Seq::new(
                    items@.len(),
                    |i: int|
                        if 0 <= i < items@.len() {
                            expr_view(items@[i])
                        } else {
                            ExprV { id: 0, kind: ExprKindV::Literal(LiteralV::Nil) }
                        },
                ),
            ),
            ExprKind::Index(l, i, p) => ExprKindV::Index(
                Box::new(expr_view(*l)),
                Box::new(expr_view(*i)),
                p@,
            ),
            ExprKind::IndexSet(l, i, v, p) => ExprKindV::IndexSet(
                Box::new(expr_view(*l)),
                Box::new(expr_view(*i)),
                Box::new(expr_view(*v)),
                p@,
            ),
        },
    }
}

/// The model of a call is built from the models of its parts.
pub proof fn lemma_call_view(id: ExprId, callee: Expr, paren: Token, args: Vec<Expr>)
    ensures
        expr_view(Expr { id, kind: ExprKind::Call(Box::new(callee), paren, args) }) == (ExprV {
            id: id as nat,
            kind: ExprKindV::Call(Box::new(expr_view(callee)), paren@, exprs_view(args@)),
        }),
{
    let v = expr_view(Expr { id, kind: ExprKind::Call(Box::new(callee), paren, args) });
    match v.kind {
        ExprKindV::Call(_, _, a) => assert(a =~= exprs_view(args@)),
        _ => {},
    }
}

/// The model of a list is the sequence of the models of its items.
pub proof fn lemma_list_view(id: ExprId, items: Vec<Expr>)
    ensures
        expr_view(Expr { id, kind: ExprKind::List(items) }) == (ExprV {
            id: id as nat,
            kind: ExprKindV::List(exprs_view(items@)),
        }),
{
    let v = expr_view(Expr { id, kind: ExprKind::List(items) });
    match v.kind {
        ExprKindV::List(a) => assert(a =~= exprs_view(items@)),
        _ => {},
    }
}

impl View for Expr {
    type V = ExprV;

    open spec fn view(&self) -> ExprV {
        expr_view(*self)
    }
}

impl ExprKind {
    pub fn binary(left: Expr, operator: Token, right: Expr) -> (r: ExprKind)
        ensures
            r == ExprKind::Binary(Box::new(left), operator, Box::new(right)),
    {
        ExprKind::Binary(Box::new(left), operator, Box::new(right))
    }

    pub fn unary(operator: Token, right: Expr) -> (r: ExprKind)
        ensures
            r == ExprKind::Unary(operator, Box::new(right)),
    {
        ExprKind::Unary(operator, Box::new(right))
    }

    pub fn literal(literal: Literal) -> (r: ExprKind)
        ensures
            r == ExprKind::Literal(literal),
    {
        ExprKind::Literal(literal)
    }

    pub fn grouping(expr: Expr) -> (r: ExprKind)
        ensures
            r == ExprKind::Grouping(Box::new(expr)),
    {
        ExprKind::Grouping(Box::new(expr))
    }

    pub fn comma(left: Expr, right: Expr) -> (r: ExprKind)
        ensures
            r == ExprKind::Comma(Box::new(left), Box::new(right)),
    {
        ExprKind::Comma(Box::new(left), Box::new(right))
    }

    pub fn ternary(cond: Expr, left: Expr, right: Expr) -> (r: ExprKind)
        ensures
            r == ExprKind::Ternary(Box::new(cond), Box::new(left), Box::new(right)),
    {
        ExprKind::Ternary(Box::new(cond), Box::new(left), Box::new(right))
    }

    pub fn assign(name: Token, value: Expr) -> (r: ExprKind)
        ensures
            r == ExprKind::Assign(name, Box::new(value)),
    {
        ExprKind::Assign(name, Box::new(value))
    }

    pub fn logical(left: Expr, operator: Token, right: Expr) -> (r: ExprKind)
        ensures
            r == ExprKind::Logical(Box::new(left), operator, Box::new(right)),
    {
        ExprKind::Logical(Box::new(left), operator, Box::new(right))
    }

    pub fn call(callee: Expr, paren: Token, arguments: Vec<Expr>) -> (r: ExprKind)
        ensures
            r == ExprKind::Call(Box::new(callee), paren, arguments),
    {
        ExprKind::Call(Box::new(callee), paren, arguments)
    }

    pub fn get(object: Expr, name: Token) -> (r: ExprKind)
        ensures
            r == ExprKind::Get(Box::new(object), name),
    {
        ExprKind::Get(Box::new(object), name)
    }

    pub fn set(object: Box<Expr>, name: Token, value: Expr) -> (r: ExprKind)
        ensures
            r == ExprKind::SetProperty(object, name, Box::new(value)),
    {
        ExprKind::SetProperty(object, name, Box::new(value))
    }

    pub fn index(list: Expr, index: Expr, paren: Token) -> (r: ExprKind)
        ensures
            r == ExprKind::Index(Box::new(list), Box::new(index), paren),
    {
        ExprKind::Index(Box::new(list), Box::new(index), paren)
    }

    pub fn index_set(list: Box<Expr>, index: Box<Expr>, value: Expr, paren: Token) -> (r:
        ExprKind)
        ensures
            r == ExprKind::IndexSet(list, index, Box::new(value), paren),
    {
        ExprKind::IndexSet(list, index, Box::new(value), paren)
    }
}

} // verus!
