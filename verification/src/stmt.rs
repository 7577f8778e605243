use crate::expr::{
    expr_view, exprs_view, lemma_call_view, lemma_list_view, option_token_view, token_seq_view,
    Expr, ExprId, ExprKind, ExprKindV, ExprV, LambdaType,
};
use crate::token::{Token, TokenV};
use vstd::prelude::*;

verus! {

/// The statements of a program.
#[derive(Debug)]
pub enum Stmt {
    Expression(Expr),
    Print(Expr),
    Var(Token, Option<Expr>),
    Block(Vec<Stmt>),
    If(Expr, Box<Stmt>, Option<Box<Stmt>>),
    While(Expr, Box<Stmt>),
    Return(Token, Option<Expr>),
    Break(Token),
    Class(Token, Option<Expr>, Vec<Stmt>),
}

/// The mathematical model of a [`Stmt`].
pub enum StmtV {
    Expression(ExprV),
    Print(ExprV),
    Var(TokenV, Option<ExprV>),
    Block(Seq<StmtV>),
    If(ExprV, Box<StmtV>, Option<Box<StmtV>>),
    While(ExprV, Box<StmtV>),
    Return(TokenV, Option<ExprV>),
    Break(TokenV),
    Class(TokenV, Option<ExprV>, Seq<StmtV>),
}

pub open spec fn option_expr_view(e: Option<Expr>) -> Option<ExprV> {
    match e {
        Some(x) => Some(expr_view(x)),
        None => None,
    }
}

pub open spec fn stmt_view(s: Stmt) -> StmtV
    decreases s,
{
    match s {
        Stmt::Expression(e) => StmtV::Expression(expr_view(e)),
        Stmt::Print(e) => StmtV::Print(expr_view(e)),
        Stmt::Var(n, init) => StmtV::Var(
            n@,
            match init {
                Some(x) => Some(expr_view(x)),
                None => None,
            },
        ),
        Stmt::Block(stmts) => StmtV::Block(
            Seq::new(
                stmts@.len(),
                |i: int|
                    if 0 <= i < stmts@.len() {
                        stmt_view(stmts@[i])
                    } else {
                        StmtV::Block(Seq::empty())
                    },
            ),
        ),
        Stmt::If(c, t, e) => StmtV::If(
            expr_view(c),
            Box::new(stmt_view(*t)),
            match e {
                Some(b) => Some(Box::new(stmt_view(*b))),
                None => None,
            },
        ),
        Stmt::While(c, b) => StmtV::While(expr_view(c), Box::new(stmt_view(*b))),
        Stmt::Return(k, v) => StmtV::Return(
            k@,
            match v {
                Some(x) => Some(expr_view(x)),
                None => None,
            },
        ),
        Stmt::Break(k) => StmtV::Break(k@),
        Stmt::Class(n, superclass, methods) => StmtV::Class(
            n@,
            match superclass {
                Some(x) => Some(expr_view(x)),
                None => None,
            },
            Seq::new(
                methods@.len(),
                |i: int|
                    if 0 <= i < methods@.len() {
                        stmt_view(methods@[i])
                    } else {
                        StmtV::Block(Seq::empty())
                    },
            ),
        ),
    }
}

impl View for Stmt {
    type V = StmtV;

    open spec fn view(&self) -> StmtV {
        stmt_view(*self)
    }
}

pub open spec fn option_stmt_view(s: Option<Stmt>) -> Option<StmtV> {
    match s {
        Some(x) => Some(stmt_view(x)),
        None => None,
    }
}

/// The model of a sequence of statements, element by element.
pub open spec fn stmts_view(ss: Seq<Stmt>) -> Seq<StmtV> {
    ss.map_values(|s: Stmt| stmt_view(s))
}

/// The model of a function literal is built from the models of its parts.
pub proof fn lemma_lambda_view(
    id: ExprId,
    name: Option<Token>,
    params: Vec<Token>,
    body: Vec<Stmt>,
    lt: LambdaType,
)
    ensures
        expr_view(Expr { id, kind: ExprKind::Lambda(name, params, body, lt) }) == (ExprV {
            id: id as nat,
            kind: ExprKindV::Lambda(
                option_token_view(name),
                token_seq_view(params@),
                stmts_view(body@),
                lt,
            ),
        }),
{
    let v = expr_view(Expr { id, kind: ExprKind::Lambda(name, params, body, lt) });
    match v.kind {
        ExprKindV::Lambda(_, _, b, _) => assert(b =~= stmts_view(body@)),
        _ => {},
    }
}

/// The model of a block is the sequence of the models of its statements.
pub proof fn lemma_block_view(stmts: Vec<Stmt>)
    ensures
        stmt_view(Stmt::Block(stmts)) == StmtV::Block(stmts_view(stmts@)),
{
    match stmt_view(Stmt::Block(stmts)) {
        StmtV::Block(b) => assert(b =~= stmts_view(stmts@)),
        _ => {},
    }
}

/// The model of a class is its name and the models of its members.
pub proof fn lemma_class_view(name: Token, superclass: Option<Expr>, methods: Vec<Stmt>)
    ensures
        stmt_view(Stmt::Class(name, superclass, methods)) == StmtV::Class(
            name@,
            option_expr_view(superclass),
            stmts_view(methods@),
        ),
{
    match stmt_view(Stmt::Class(name, superclass, methods)) {
        StmtV::Class(_, _, m) => assert(m =~= stmts_view(methods@)),
        _ => {},
    }
}

impl Stmt {
    pub fn if_else(condition: Expr, then_branch: Stmt, else_branch: Option<Stmt>) -> (r: Stmt)
        ensures
            r == Stmt::If(
                condition,
                Box::new(then_branch),
                match else_branch {
                    Some(b) => Some(Box::new(b)),
                    None => None,
                },
            ),
    {
        let else_boxed = match else_branch {
            Some(b) => Some(Box::new(b)),
            None => None,
        };
        Stmt::If(condition, Box::new(then_branch), else_boxed)
    }

    pub fn while_st(condition: Expr, body: Stmt) -> (r: Stmt)
        ensures
            r == Stmt::While(condition, Box::new(body)),
    {
        Stmt::While(condition, Box::new(body))
    }
}

// ---------------------------------------------------------------------------
// Copies
/// A copy of an expression.
fn copy_expr(e: &Expr) -> (r: Expr)
    ensures
        r@ == e@,
    decreases e, 1nat,
{
    let kind = match &e.kind {
        ExprKind::Binary(l, op, r) => ExprKind::Binary(
            Box::new(copy_expr(l)),
            op.clone(),
            Box::new(copy_expr(r)),
        ),
        ExprKind::Grouping(x) => ExprKind::Grouping(Box::new(copy_expr(x))),
        ExprKind::Literal(l) => ExprKind::Literal(l.clone()),
        ExprKind::Unary(op, r) => ExprKind::Unary(op.clone(), Box::new(copy_expr(r))),
        ExprKind::Comma(l, r) => ExprKind::Comma(Box::new(copy_expr(l)), Box::new(copy_expr(r))),
        ExprKind::Ternary(c, l, r) => ExprKind::Ternary(
            Box::new(copy_expr(c)),
            Box::new(copy_expr(l)),
            Box::new(copy_expr(r)),
        ),
        ExprKind::Variable(n) => ExprKind::Variable(n.clone()),
        ExprKind::Assign(n, v) => ExprKind::Assign(n.clone(), Box::new(copy_expr(v))),
        ExprKind::Logical(l, op, r) => ExprKind::Logical(
            Box::new(copy_expr(l)),
            op.clone(),
            Box::new(copy_expr(r)),
        ),
        ExprKind::Call(c, p, args) => {
            proof {
                assert(decreases_to!(*e => e.kind->Call_2));
            }
            let callee = copy_expr(c);
            let copied = copy_exprs(args);
            let ghost gcallee = callee;
            let ghost gcopied = copied;
            let r = ExprKind::Call(Box::new(callee), p.clone(), copied);
            proof {
                lemma_call_view(e.id, **c, *p, *args);
                lemma_call_view(e.id, gcallee, *p, gcopied);
            }
            r
        },
        ExprKind::Lambda(name, params, body, lt) => {
            proof {
                assert(decreases_to!(*e => e.kind->Lambda_2));
            }
            let copied_name = match name {
                Some(n) => Some(n.clone()),
                None => None,
            };
            let copied_params = copy_tokens(params);
            let copied_body = copy_stmts(body);
            proof {
                lemma_lambda_view(e.id, *name, *params, *body, *lt);
                lemma_lambda_view(e.id, copied_name, copied_params, copied_body, *lt);
            }
            ExprKind::Lambda(copied_name, copied_params, copied_body, *lt)
        },
        ExprKind::Get(o, n) => ExprKind::Get(Box::new(copy_expr(o)), n.clone()),
        ExprKind::SetProperty(o, n, v) => ExprKind::SetProperty(
            Box::new(copy_expr(o)),
            n.clone(),
            Box::new(copy_expr(v)),
        ),
        ExprKind::This(k) => ExprKind::This(k.clone()),
        ExprKind::Super(k, m) => ExprKind::Super(k.clone(), m.clone()),
        ExprKind::List(items) => {
            proof {
                assert(decreases_to!(*e => e.kind->List_0));
            }
            let copied = copy_exprs(items);
            proof {
                lemma_list_view(e.id, *items);
                lemma_list_view(e.id, copied);
            }
            ExprKind::List(copied)
        },
        ExprKind::Index(l, i, p) => ExprKind::Index(
            Box::new(copy_expr(l)),
            Box::new(copy_expr(i)),
            p.clone(),
        ),
        ExprKind::IndexSet(l, i, v, p) => ExprKind::IndexSet(
            Box::new(copy_expr(l)),
            Box::new(copy_expr(i)),
            Box::new(copy_expr(v)),
            p.clone(),
        ),
    };
    Expr { id: e.id, kind }
}

/// Copies of expressions, in order.
fn copy_exprs(v: &Vec<Expr>) -> (r: Vec<Expr>)
    ensures
        exprs_view(r@) == exprs_view(v@),
    decreases v, 0nat,
{
    let mut r: Vec<Expr> = Vec::new();
    let mut i: usize = 0;
    while i < v.len()
        invariant
            0 <= i <= v@.len(),
            exprs_view(r@) == exprs_view(v@).take(i as int),
        decreases v@.len() - i,
    {
        proof {
            assert(decreases_to!(*v => v@));
            assert(decreases_to!(v@ => v@[i as int]));
        }
        let x = copy_expr(&v[i]);
        let ghost before = exprs_view(r@);
        r.push(x);
        assert(exprs_view(r@) =~= before.push(expr_view(x)));
        assert(exprs_view(v@).take(i + 1) =~= exprs_view(v@).take(i as int).push(
            expr_view(v@[i as int]),
        ));
        i += 1;
    }
    assert(exprs_view(v@).take(i as int) =~= exprs_view(v@));
    r
}

/// Copies of tokens, in order.
pub(crate) fn copy_tokens(v: &Vec<Token>) -> (r: Vec<Token>)
    ensures
        r@ == v@,
{
    let mut r: Vec<Token> = Vec::new();
    let mut i: usize = 0;
    while i < v.len()
        invariant
            0 <= i <= v@.len(),
            r@ == v@.take(i as int),
        decreases v@.len() - i,
    {
        r.push(v[i].clone());
        assert(r@ =~= v@.take(i + 1));
        i += 1;
    }
    assert(v@.take(i as int) =~= v@);
    r
}

/// A copy of a statement.
fn copy_stmt(s: &Stmt) -> (r: Stmt)
    ensures
        r@ == s@,
    decreases s, 1nat,
{
    match s {
        Stmt::Expression(e) => Stmt::Expression(copy_expr(e)),
        Stmt::Print(e) => Stmt::Print(copy_expr(e)),
        Stmt::Var(n, init) => Stmt::Var(
            n.clone(),
            match init {
                Some(e) => Some(copy_expr(e)),
                None => None,
            },
        ),
        Stmt::Block(b) => {
            let copied = copy_stmts(b);
            proof {
                lemma_block_view(*b);
                lemma_block_view(copied);
            }
            Stmt::Block(copied)
        },
        Stmt::If(c, t, e) => Stmt::If(
            copy_expr(c),
            Box::new(copy_stmt(t)),
            match e {
                Some(x) => Some(Box::new(copy_stmt(x))),
                None => None,
            },
        ),
        Stmt::While(c, b) => Stmt::While(copy_expr(c), Box::new(copy_stmt(b))),
        Stmt::Return(k, v) => Stmt::Return(
            k.clone(),
            match v {
                Some(e) => Some(copy_expr(e)),
                None => None,
            },
        ),
        Stmt::Break(k) => Stmt::Break(k.clone()),
        Stmt::Class(n, superclass, methods) => {
            let copied = copy_stmts(methods);
            let sup = match superclass {
                Some(e) => Some(copy_expr(e)),
                None => None,
            };
            proof {
                lemma_class_view(*n, *superclass, *methods);
                lemma_class_view(*n, sup, copied);
            }
            Stmt::Class(n.clone(), sup, copied)
        },
    }
}

/// Copies of statements, in order.
pub(crate) fn copy_stmts(v: &Vec<Stmt>) -> (r: Vec<Stmt>)
    ensures
        stmts_view(r@) == stmts_view(v@),
    decreases v, 0nat,
{
    let mut r: Vec<Stmt> = Vec::new();
    let mut i: usize = 0;
    while i < v.len()
        invariant
            0 <= i <= v@.len(),
            stmts_view(r@) == stmts_view(v@).take(i as int),
        decreases v@.len() - i,
    {
        proof {
            assert(decreases_to!(*v => v@));
            assert(decreases_to!(v@ => v@[i as int]));
        }
        let x = copy_stmt(&v[i]);
        let ghost before = stmts_view(r@);
        r.push(x);
        assert(stmts_view(r@) =~= before.push(stmt_view(x)));
        assert(stmts_view(v@).take(i + 1) =~= stmts_view(v@).take(i as int).push(
            stmt_view(v@[i as int]),
        ));
        i += 1;
    }
    assert(stmts_view(v@).take(i as int) =~= stmts_view(v@));
    r
}

impl Clone for Expr {
    fn clone(&self) -> (r: Self)
        ensures
            r@ == self@,
    {
        copy_expr(self)
    }
}

impl Clone for Stmt {
    fn clone(&self) -> (r: Self)
        ensures
            r@ == self@,
    {
        copy_stmt(self)
    }
}

} // verus!
