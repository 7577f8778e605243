//! Expression identities: within what one parse yields, no two expressions
//! share an identity.
use crate::expr::{ExprKindV, ExprV, LambdaType};
use crate::grammar::{
    at, at_end, built, check, check1, combine, lemma_arg_list, lemma_args_rest_end,
    lemma_args_rest_more, lemma_arguments, lemma_assignment, lemma_block, lemma_block_items_end,
    lemma_block_items_more, lemma_call, lemma_call_tail_bracket, lemma_call_tail_dot,
    lemma_call_tail_end, lemma_index, lemma_items, lemma_items_rest_end, lemma_items_rest_more,
    lemma_list, p_index, p_items, p_items_rest, p_list, p_superclass,
    lemma_call_tail_paren, lemma_class_declaration, lemma_class_members_end,
    lemma_class_members_method, lemma_class_members_static, lemma_cond_body, lemma_declaration,
    lemma_expression, lemma_expression_statement, lemma_for, lemma_for_clauses,
    lemma_function_declaration, lemma_if, lemma_lambda, lemma_level, lemma_operand, lemma_params,
    lemma_params_rest_end, lemma_params_rest_more, lemma_primary, lemma_print, lemma_return,
    lemma_skip, lemma_statement, lemma_tail, lemma_terminated, lemma_ternary, lemma_unary,
    lemma_var_declaration, lemma_while, level_ops, level_rank, literal_types, missing_left_ops,
    next, p_arg_list, p_args_rest, p_arguments, p_assignment, p_block, p_block_items, p_call,
    p_call_tail, p_class_declaration, p_class_members, p_cond_body, p_consume, p_declaration,
    p_expression, p_expression_statement, p_for, p_for_clauses, p_function_declaration, p_if,
    p_lambda, p_level, p_operand, p_params, p_params_rest, p_primary, p_print, p_program, p_return,
    p_skip, p_statement, p_tail, p_terminated, p_ternary, p_try_program, p_unary,
    p_var_declaration, p_while, parse_program, perr, rem, seq2, shift, Level, Out, PState,
};
use crate::stmt::StmtV;
use crate::token::{TokenType, TokenV};
use vstd::prelude::*;

verus! {

/// The identities of an expression and of every expression inside it.
pub open spec fn expr_ids(e: ExprV) -> Seq<nat>
    decreases e, 1nat,
{
    let own = seq![e.id];
    match e.kind {
        ExprKindV::Binary(l, _, r) => expr_ids(*l) + expr_ids(*r) + own,
        ExprKindV::Grouping(x) => expr_ids(*x) + own,
        ExprKindV::Literal(_) => own,
        ExprKindV::Unary(_, r) => expr_ids(*r) + own,
        ExprKindV::Comma(l, r) => expr_ids(*l) + expr_ids(*r) + own,
        ExprKindV::Ternary(c, l, r) => expr_ids(*c) + expr_ids(*l) + expr_ids(*r) + own,
        ExprKindV::Variable(_) => own,
        ExprKindV::Assign(_, v) => expr_ids(*v) + own,
        ExprKindV::Logical(l, _, r) => expr_ids(*l) + expr_ids(*r) + own,
        ExprKindV::Call(c, _, args) => expr_ids(*c) + exprs_ids(args) + own,
        ExprKindV::Lambda(_, _, body, _) => stmts_ids(body) + own,
        ExprKindV::Get(o, _) => expr_ids(*o) + own,
        ExprKindV::SetProperty(o, _, v) => expr_ids(*o) + expr_ids(*v) + own,
        ExprKindV::This(_) => own,
        ExprKindV::Super(_, _) => own,
        ExprKindV::List(items) => exprs_ids(items) + own,
        ExprKindV::Index(l, i, _) => expr_ids(*l) + expr_ids(*i) + own,
        ExprKindV::IndexSet(l, i, v, _) => expr_ids(*l) + expr_ids(*i) + expr_ids(*v) + own,
    }
}

/// The identities of expressions, in turn.
pub open spec fn exprs_ids(es: Seq<ExprV>) -> Seq<nat>
    decreases es, 0nat,
{
    if es.len() == 0 {
        Seq::empty()
    } else {
        exprs_ids(es.subrange(0, es.len() - 1)) + expr_ids(es[es.len() - 1])
    }
}

pub open spec fn opt_expr_ids(e: Option<ExprV>) -> Seq<nat> {
    match e {
        Some(x) => expr_ids(x),
        None => Seq::empty(),
    }
}

/// The identities of the expressions in a statement.
pub open spec fn stmt_ids(s: StmtV) -> Seq<nat>
    decreases s, 1nat,
{
    match s {
        StmtV::Expression(e) => expr_ids(e),
        StmtV::Print(e) => expr_ids(e),
        StmtV::Var(_, init) => match init {
            Some(x) => expr_ids(x),
            None => Seq::empty(),
        },
        StmtV::Block(b) => stmts_ids(b),
        StmtV::If(c, t, e) => expr_ids(c) + stmt_ids(*t) + match e {
            Some(x) => stmt_ids(*x),
            None => Seq::empty(),
        },
        StmtV::While(c, b) => expr_ids(c) + stmt_ids(*b),
        StmtV::Return(_, v) => match v {
            Some(x) => expr_ids(x),
            None => Seq::empty(),
        },
        StmtV::Break(_) => Seq::empty(),
        StmtV::Class(_, superclass, methods) => (match superclass {
            Some(x) => expr_ids(x),
            None => Seq::empty(),
        }) + stmts_ids(methods),
    }
}

/// The identities of the expressions in statements, in turn.
pub open spec fn stmts_ids(ss: Seq<StmtV>) -> Seq<nat>
    decreases ss, 0nat,
{
    if ss.len() == 0 {
        Seq::empty()
    } else {
        stmts_ids(ss.subrange(0, ss.len() - 1)) + stmt_ids(ss[ss.len() - 1])
    }
}

/// Distinct identities, each above `lo` and at most `hi`.
pub open spec fn fresh_ids(l: Seq<nat>, lo: nat, hi: nat) -> bool {
    &&& forall|i: int| 0 <= i < l.len() ==> lo < #[trigger] l[i] <= hi
    &&& l.no_duplicates()
}

pub proof fn lemma_fresh_empty(lo: nat, hi: nat)
    ensures
        fresh_ids(Seq::empty(), lo, hi),
{
}

pub proof fn lemma_fresh_one(id: nat, lo: nat)
    requires
        lo < id,
    ensures
        fresh_ids(seq![id], lo, id),
{
}

/// Two lists of distinct identities from disjoint ranges join into one.
pub proof fn lemma_fresh_join(l1: Seq<nat>, a1: nat, b1: nat, l2: Seq<nat>, a2: nat, b2: nat)
    requires
        fresh_ids(l1, a1, b1),
        fresh_ids(l2, a2, b2),
        b1 <= a2 || b2 <= a1,
    ensures
        fresh_ids(l1 + l2, if a1 <= a2 { a1 } else { a2 }, if b1 <= b2 { b2 } else { b1 }),
{
    let l = l1 + l2;
    assert forall|i: int, j: int|
        0 <= i < l.len() && 0 <= j < l.len() && i != j implies l[i] != l[j] by {
        if i < l1.len() && j >= l1.len() {
            assert(l[j] == l2[j - l1.len()]);
        } else if j < l1.len() && i >= l1.len() {
            assert(l[i] == l2[i - l1.len()]);
        } else if i >= l1.len() && j >= l1.len() {
            assert(l[i] == l2[i - l1.len()]);
            assert(l[j] == l2[j - l1.len()]);
        }
    }
    assert forall|i: int| 0 <= i < l.len() implies (if a1 <= a2 { a1 } else { a2 }) < #[trigger] l[i]
        <= (if b1 <= b2 { b2 } else { b1 }) by {
        if i >= l1.len() {
            assert(l[i] == l2[i - l1.len()]);
        }
    }
}

/// Consecutive ranges: `l1` then `l2`.
pub proof fn lemma_fresh_then(l1: Seq<nat>, l2: Seq<nat>, a: nat, b: nat, c: nat)
    requires
        fresh_ids(l1, a, b),
        fresh_ids(l2, b, c),
        a <= b <= c,
    ensures
        fresh_ids(l1 + l2, a, c),
{
    lemma_fresh_join(l1, a, b, l2, b, c);
}

/// Identities in a range are in any wider range.
pub proof fn lemma_fresh_widen(l: Seq<nat>, a: nat, b: nat, a2: nat, b2: nat)
    requires
        fresh_ids(l, a, b),
        a2 <= a,
        b <= b2,
    ensures
        fresh_ids(l, a2, b2),
{
}

/// A list of identities followed by the next one.
pub proof fn lemma_fresh_push(l: Seq<nat>, a: nat, b: nat)
    requires
        fresh_ids(l, a, b),
        a <= b,
    ensures
        fresh_ids(l + seq![b + 1], a, b + 1),
{
    lemma_fresh_join(l, a, b, seq![b + 1], b, b + 1);
}

/// The front part of distinct identities.
pub proof fn lemma_fresh_prefix(l1: Seq<nat>, l2: Seq<nat>, a: nat, b: nat)
    requires
        fresh_ids(l1 + l2, a, b),
    ensures
        fresh_ids(l1, a, b),
{
    let l = l1 + l2;
    assert forall|i: int| 0 <= i < l1.len() implies a < #[trigger] l1[i] <= b by {
        assert(l[i] == l1[i]);
    }
    assert forall|i: int, j: int|
        0 <= i < l1.len() && 0 <= j < l1.len() && i != j implies l1[i] != l1[j] by {
        assert(l[i] == l1[i]);
        assert(l[j] == l1[j]);
    }
}

pub proof fn lemma_exprs_ids_push(es: Seq<ExprV>, e: ExprV)
    ensures
        exprs_ids(es.push(e)) == exprs_ids(es) + expr_ids(e),
{
    assert(es.push(e).subrange(0, es.len() as int) =~= es);
}

pub proof fn lemma_stmts_ids_push(ss: Seq<StmtV>, s: StmtV)
    ensures
        stmts_ids(ss.push(s)) == stmts_ids(ss) + stmt_ids(s),
{
    assert(ss.push(s).subrange(0, ss.len() as int) =~= ss);
}

/// An expression outcome: identities handed out only upward, and on success
/// distinct identities above `lo`.
pub open spec fn expr_fresh(s: PState, o: Out<ExprV>, lo: nat) -> bool {
    &&& s.seed <= o.seed
    &&& match o.res {
        Ok(v) => fresh_ids(expr_ids(v), lo, o.seed),
        Err(_) => true,
    }
}

pub open spec fn exprs_fresh(s: PState, o: Out<Seq<ExprV>>, lo: nat) -> bool {
    &&& s.seed <= o.seed
    &&& match o.res {
        Ok(v) => fresh_ids(exprs_ids(v), lo, o.seed),
        Err(_) => true,
    }
}

pub open spec fn stmt_fresh(s: PState, o: Out<StmtV>, lo: nat) -> bool {
    &&& s.seed <= o.seed
    &&& match o.res {
        Ok(v) => fresh_ids(stmt_ids(v), lo, o.seed),
        Err(_) => true,
    }
}

pub open spec fn stmts_fresh(s: PState, o: Out<Seq<StmtV>>, lo: nat) -> bool {
    &&& s.seed <= o.seed
    &&& match o.res {
        Ok(v) => fresh_ids(stmts_ids(v), lo, o.seed),
        Err(_) => true,
    }
}

pub open spec fn opt_stmt_ids(s: Option<StmtV>) -> Seq<nat> {
    match s {
        Some(x) => stmt_ids(x),
        None => Seq::empty(),
    }
}

/// An outcome of the condition-and-body rule.
pub open spec fn pair_fresh(s: PState, o: Out<(ExprV, StmtV)>, lo: nat) -> bool {
    &&& s.seed <= o.seed
    &&& match o.res {
        Ok((c, b)) => fresh_ids(expr_ids(c) + stmt_ids(b), lo, o.seed),
        Err(_) => true,
    }
}

/// The expression that joins two operands holds their identities and its own.
pub proof fn lemma_combine_ids(k: Level, left: ExprV, op: TokenV, right: ExprV, id: nat)
    ensures
        expr_ids(ExprV { id, kind: combine(k, left, op, right) }) == expr_ids(left) + expr_ids(
            right,
        ) + seq![id],
{
}

proof fn lemma_params_rest_seed(t: Seq<TokenV>, s: PState, acc: Seq<TokenV>)
    ensures
        p_params_rest(t, s, acc).seed == s.seed,
    decreases rem(t, s.pos),
{
    if check1(t, s.pos, TokenType::Comma) {
        lemma_params_rest_more(t, s, acc);
        let s1 = PState {
            pos: s.pos + 1,
            seed: s.seed,
            errors: if acc.len() >= 255 {
                s.errors.push(perr(t, s.pos + 1, "Can't have more than 255 parameters."@))
            } else {
                s.errors
            },
        };
        let o = shift(1, p_consume(t, s1, TokenType::Identifier, "Expect parameter name."@));
        match o.res {
            Err(_) => {},
            Ok(p) => lemma_params_rest_seed(t, next(s, o), acc.push(p)),
        }
    } else {
        lemma_params_rest_end(t, s, acc);
    }
}

proof fn lemma_params_seed(t: Seq<TokenV>, s: PState)
    ensures
        p_params(t, s).seed == s.seed,
{
    lemma_params(t, s);
    if !check1(t, s.pos, TokenType::RightParen) {
        let o = p_consume(t, s, TokenType::Identifier, "Expect parameter name."@);
        match o.res {
            Err(_) => {},
            Ok(p) => lemma_params_rest_seed(t, next(s, o), seq![p]),
        }
    }
}

proof fn lemma_primary_ids(t: Seq<TokenV>, s: PState)
    ensures
        expr_fresh(s, p_primary(t, s), s.seed),
    decreases rem(t, s.pos), 42nat,
{
    lemma_primary(t, s);
    if check(t, s.pos, literal_types()) {
        lemma_fresh_one(s.seed + 1, s.seed);
    } else if check1(t, s.pos, TokenType::LeftParen) {
        lemma_expression_ids(t, at(s, 1));
        let o1 = shift(1, p_expression(t, at(s, 1)));
        match o1.res {
            Err(_) => {},
            Ok(inner) => lemma_fresh_push(expr_ids(inner), s.seed, o1.seed),
        }
    } else if check1(t, s.pos, TokenType::This) {
        lemma_fresh_one(s.seed + 1, s.seed);
    } else if check1(t, s.pos, TokenType::Super) {
        lemma_fresh_one(s.seed + 1, s.seed);
    } else if check1(t, s.pos, TokenType::Identifier) {
        lemma_fresh_one(s.seed + 1, s.seed);
    } else if check1(t, s.pos, TokenType::Fun) {
        lemma_lambda_ids(t, at(s, 1), None, "function"@, LambdaType::Function);
    } else if check1(t, s.pos, TokenType::LeftBracket) {
        lemma_list_ids(t, at(s, 1));
    }
}

proof fn lemma_items_rest_ids(t: Seq<TokenV>, s: PState, acc: Seq<ExprV>, lo: nat)
    requires
        lo <= s.seed,
        fresh_ids(exprs_ids(acc), lo, s.seed),
    ensures
        exprs_fresh(s, p_items_rest(t, s, acc), lo),
    decreases rem(t, s.pos), 65nat,
{
    if check1(t, s.pos, TokenType::Comma) {
        lemma_items_rest_more(t, s, acc);
        lemma_assignment_ids(t, at(s, 1));
        let o = shift(1, p_assignment(t, at(s, 1)));
        match o.res {
            Err(_) => {},
            Ok(a) => {
                lemma_exprs_ids_push(acc, a);
                lemma_fresh_then(exprs_ids(acc), expr_ids(a), lo, s.seed, o.seed);
                lemma_items_rest_ids(t, next(s, o), acc.push(a), lo);
            },
        }
    } else {
        lemma_items_rest_end(t, s, acc);
    }
}

proof fn lemma_items_ids(t: Seq<TokenV>, s: PState)
    ensures
        exprs_fresh(s, p_items(t, s), s.seed),
    decreases rem(t, s.pos), 66nat,
{
    lemma_items(t, s);
    if !check1(t, s.pos, TokenType::RightBracket) {
        lemma_assignment_ids(t, s);
        let oa = p_assignment(t, s);
        match oa.res {
            Err(_) => {},
            Ok(a) => {
                lemma_exprs_ids_push(Seq::empty(), a);
                assert(Seq::<ExprV>::empty().push(a) =~= seq![a]);
                assert(exprs_ids(Seq::<ExprV>::empty()) + expr_ids(a) =~= expr_ids(a));
                lemma_items_rest_ids(t, next(s, oa), seq![a], s.seed);
            },
        }
    } else {
        assert(exprs_ids(Seq::<ExprV>::empty()) =~= Seq::<nat>::empty());
    }
}

proof fn lemma_list_ids(t: Seq<TokenV>, s: PState)
    ensures
        expr_fresh(s, p_list(t, s), s.seed),
    decreases rem(t, s.pos), 67nat,
{
    lemma_list(t, s);
    lemma_items_ids(t, s);
    let o1 = p_items(t, s);
    match o1.res {
        Err(_) => {},
        Ok(items) => lemma_fresh_push(exprs_ids(items), s.seed, o1.seed),
    }
}

proof fn lemma_index_ids(t: Seq<TokenV>, s: PState, list: ExprV, lo: nat)
    requires
        lo <= s.seed,
        fresh_ids(expr_ids(list), lo, s.seed),
    ensures
        expr_fresh(s, p_index(t, s, list), lo),
    decreases rem(t, s.pos), 72nat,
{
    lemma_index(t, s, list);
    lemma_expression_ids(t, s);
    let o1 = p_expression(t, s);
    match o1.res {
        Err(_) => {},
        Ok(index) => {
            lemma_fresh_then(expr_ids(list), expr_ids(index), lo, s.seed, o1.seed);
            lemma_fresh_push(expr_ids(list) + expr_ids(index), lo, o1.seed);
        },
    }
}

proof fn lemma_args_rest_ids(t: Seq<TokenV>, s: PState, acc: Seq<ExprV>, lo: nat)
    requires
        lo <= s.seed,
        fresh_ids(exprs_ids(acc), lo, s.seed),
    ensures
        exprs_fresh(s, p_args_rest(t, s, acc), lo),
    decreases rem(t, s.pos), 65nat,
{
    if check1(t, s.pos, TokenType::Comma) {
        lemma_args_rest_more(t, s, acc);
        let s1 = PState {
            pos: s.pos + 1,
            seed: s.seed,
            errors: if acc.len() >= 255 {
                s.errors.push(perr(t, s.pos + 1, "Can't have more than 255 arguments."@))
            } else {
                s.errors
            },
        };
        lemma_assignment_ids(t, s1);
        let o = shift(1, p_assignment(t, s1));
        match o.res {
            Err(_) => {},
            Ok(a) => {
                lemma_exprs_ids_push(acc, a);
                lemma_fresh_then(exprs_ids(acc), expr_ids(a), lo, s.seed, o.seed);
                lemma_args_rest_ids(t, next(s, o), acc.push(a), lo);
            },
        }
    } else {
        lemma_args_rest_end(t, s, acc);
    }
}

proof fn lemma_arg_list_ids(t: Seq<TokenV>, s: PState)
    ensures
        exprs_fresh(s, p_arg_list(t, s), s.seed),
    decreases rem(t, s.pos), 66nat,
{
    lemma_arg_list(t, s);
    if !check1(t, s.pos, TokenType::RightParen) {
        lemma_assignment_ids(t, s);
        let oa = p_assignment(t, s);
        match oa.res {
            Err(_) => {},
            Ok(a) => {
                lemma_exprs_ids_push(Seq::empty(), a);
                assert(Seq::<ExprV>::empty().push(a) =~= seq![a]);
                assert(exprs_ids(Seq::<ExprV>::empty()) + expr_ids(a) =~= expr_ids(a));
                lemma_args_rest_ids(t, next(s, oa), seq![a], s.seed);
            },
        }
    } else {
        assert(exprs_ids(Seq::<ExprV>::empty()) =~= Seq::<nat>::empty());
    }
}

proof fn lemma_arguments_ids(t: Seq<TokenV>, s: PState, callee: ExprV, lo: nat)
    requires
        lo <= s.seed,
        fresh_ids(expr_ids(callee), lo, s.seed),
    ensures
        expr_fresh(s, p_arguments(t, s, callee), lo),
    decreases rem(t, s.pos), 67nat,
{
    lemma_arguments(t, s, callee);
    lemma_arg_list_ids(t, s);
    let o1 = p_arg_list(t, s);
    match o1.res {
        Err(_) => {},
        Ok(args) => {
            lemma_fresh_then(expr_ids(callee), exprs_ids(args), lo, s.seed, o1.seed);
            lemma_fresh_push(expr_ids(callee) + exprs_ids(args), lo, o1.seed);
        },
    }
}

proof fn lemma_call_tail_ids(t: Seq<TokenV>, s: PState, e: ExprV, lo: nat)
    requires
        lo <= s.seed,
        fresh_ids(expr_ids(e), lo, s.seed),
    ensures
        expr_fresh(s, p_call_tail(t, s, e), lo),
    decreases rem(t, s.pos), 43nat,
{
    if check1(t, s.pos, TokenType::LeftParen) {
        lemma_call_tail_paren(t, s, e);
        lemma_arguments_ids(t, at(s, 1), e, lo);
        let o = shift(1, p_arguments(t, at(s, 1), e));
        match o.res {
            Err(_) => {},
            Ok(e2) => lemma_call_tail_ids(t, next(s, o), e2, lo),
        }
    } else if check1(t, s.pos, TokenType::Dot) {
        lemma_call_tail_dot(t, s, e);
        let o = shift(
            1,
            p_consume(t, at(s, 1), TokenType::Identifier, "Expect property name after '.'."@),
        );
        match o.res {
            Err(_) => {},
            Ok(name) => {
                let e2 = ExprV { id: o.seed + 1, kind: ExprKindV::Get(Box::new(e), name) };
                lemma_fresh_push(expr_ids(e), lo, s.seed);
                assert(expr_ids(e2) == expr_ids(e) + seq![o.seed + 1]);
                let ob = built(o, ExprKindV::Get(Box::new(e), name));
                lemma_call_tail_ids(t, next(s, ob), e2, lo);
            },
        }
    } else if check1(t, s.pos, TokenType::LeftBracket) {
        lemma_call_tail_bracket(t, s, e);
        lemma_index_ids(t, at(s, 1), e, lo);
        let o = shift(1, p_index(t, at(s, 1), e));
        match o.res {
            Err(_) => {},
            Ok(e2) => lemma_call_tail_ids(t, next(s, o), e2, lo),
        }
    } else {
        lemma_call_tail_end(t, s, e);
    }
}

proof fn lemma_call_ids(t: Seq<TokenV>, s: PState)
    ensures
        expr_fresh(s, p_call(t, s), s.seed),
    decreases rem(t, s.pos), 44nat,
{
    lemma_call(t, s);
    lemma_primary_ids(t, s);
    let o1 = p_primary(t, s);
    match o1.res {
        Err(_) => {},
        Ok(e) => lemma_call_tail_ids(t, next(s, o1), e, s.seed),
    }
}

proof fn lemma_unary_ids(t: Seq<TokenV>, s: PState)
    ensures
        expr_fresh(s, p_unary(t, s), s.seed),
    decreases rem(t, s.pos), 45nat,
{
    lemma_unary(t, s);
    if check(t, s.pos, seq![TokenType::Bang, TokenType::Minus]) {
        lemma_unary_ids(t, at(s, 1));
        let o = shift(1, p_unary(t, at(s, 1)));
        match o.res {
            Err(_) => {},
            Ok(right) => lemma_fresh_push(expr_ids(right), s.seed, o.seed),
        }
    } else {
        lemma_call_ids(t, s);
    }
}

proof fn lemma_operand_ids(t: Seq<TokenV>, s: PState, k: Level)
    ensures
        expr_fresh(s, p_operand(t, s, k), s.seed),
    decreases rem(t, s.pos), (level_rank(k) - 1) as nat,
{
    lemma_operand(t, s, k);
    match k {
        Level::Comma => lemma_assignment_ids(t, s),
        Level::Or => lemma_level_ids(t, s, Level::And),
        Level::And => lemma_level_ids(t, s, Level::Equality),
        Level::Equality => lemma_level_ids(t, s, Level::Comparison),
        Level::Comparison => lemma_level_ids(t, s, Level::Term),
        Level::Term => lemma_level_ids(t, s, Level::Factor),
        Level::Factor => lemma_unary_ids(t, s),
    }
}

proof fn lemma_skip_seed(t: Seq<TokenV>, s: PState, k: Level)
    ensures
        s.seed <= p_skip(t, s, k).seed,
    decreases rem(t, s.pos), (level_rank(k) - 2) as nat,
{
    lemma_skip(t, s, k);
    if check(t, s.pos, level_ops(k)) {
        lemma_operand_ids(t, at(s, 1), k);
        let o = shift(1, p_operand(t, at(s, 1), k));
        lemma_skip_seed(t, next(s, o), k);
    }
}

proof fn lemma_tail_ids(t: Seq<TokenV>, s: PState, k: Level, left: ExprV, lo: nat)
    requires
        lo <= s.seed,
        fresh_ids(expr_ids(left), lo, s.seed),
    ensures
        expr_fresh(s, p_tail(t, s, k, left), lo),
    decreases rem(t, s.pos), (level_rank(k) - 2) as nat,
{
    lemma_tail(t, s, k, left);
    if check(t, s.pos, level_ops(k)) {
        let op = t[s.pos as int];
        lemma_operand_ids(t, at(s, 1), k);
        let o = shift(1, p_operand(t, at(s, 1), k));
        match o.res {
            Err(_) => {},
            Ok(right) => {
                let e2 = ExprV { id: o.seed + 1, kind: combine(k, left, op, right) };
                lemma_combine_ids(k, left, op, right, o.seed + 1);
                lemma_fresh_then(expr_ids(left), expr_ids(right), lo, s.seed, o.seed);
                lemma_fresh_push(expr_ids(left) + expr_ids(right), lo, o.seed);
                let ob = built(o, combine(k, left, op, right));
                lemma_tail_ids(t, next(s, ob), k, e2, lo);
            },
        }
    }
}

proof fn lemma_level_ids(t: Seq<TokenV>, s: PState, k: Level)
    ensures
        expr_fresh(s, p_level(t, s, k), s.seed),
    decreases rem(t, s.pos), level_rank(k),
{
    lemma_level(t, s, k);
    if check(t, s.pos, missing_left_ops(k)) {
        lemma_skip_seed(t, s, k);
    } else {
        lemma_operand_ids(t, s, k);
        let o1 = p_operand(t, s, k);
        match o1.res {
            Err(_) => {},
            Ok(left) => lemma_tail_ids(t, next(s, o1), k, left, s.seed),
        }
    }
}

proof fn lemma_ternary_ids(t: Seq<TokenV>, s: PState)
    ensures
        expr_fresh(s, p_ternary(t, s), s.seed),
    decreases rem(t, s.pos), 64nat,
{
    lemma_ternary(t, s);
    if check1(t, s.pos, TokenType::Question) {
        lemma_ternary_ids(t, at(s, 1));
        let o1 = shift(1, p_ternary(t, at(s, 1)));
        lemma_ternary_ids(t, next(s, o1));
    } else {
        lemma_level_ids(t, s, Level::Or);
        let o1 = p_level(t, s, Level::Or);
        match o1.res {
            Err(_) => {},
            Ok(cond) => if check1(t, next(s, o1).pos, TokenType::Question) {
                lemma_ternary_ids(t, at(next(s, o1), 1));
                let o2 = seq2(o1, shift(1, p_ternary(t, at(next(s, o1), 1))));
                match o2.res {
                    Err(_) => {},
                    Ok(left) => {
                        let o3 = seq2(
                            o2,
                            p_consume(
                                t,
                                next(s, o2),
                                TokenType::Colon,
                                "Expect ':' after ternary expression"@,
                            ),
                        );
                        match o3.res {
                            Err(_) => {},
                            Ok(_) => {
                                lemma_ternary_ids(t, next(s, o3));
                                let o4 = seq2(o3, p_ternary(t, next(s, o3)));
                                match o4.res {
                                    Err(_) => {},
                                    Ok(right) => {
                                        lemma_fresh_then(
                                            expr_ids(cond),
                                            expr_ids(left),
                                            s.seed,
                                            o1.seed,
                                            o2.seed,
                                        );
                                        lemma_fresh_then(
                                            expr_ids(cond) + expr_ids(left),
                                            expr_ids(right),
                                            s.seed,
                                            o2.seed,
                                            o4.seed,
                                        );
                                        lemma_fresh_push(
                                            expr_ids(cond) + expr_ids(left) + expr_ids(right),
                                            s.seed,
                                            o4.seed,
                                        );
                                    },
                                }
                            },
                        }
                    },
                }
            },
        }
    }
}

proof fn lemma_assignment_ids(t: Seq<TokenV>, s: PState)
    ensures
        expr_fresh(s, p_assignment(t, s), s.seed),
    decreases rem(t, s.pos), 65nat,
{
    lemma_assignment(t, s);
    lemma_ternary_ids(t, s);
    let o1 = p_ternary(t, s);
    match o1.res {
        Err(_) => {},
        Ok(target) => {
            let s1 = next(s, o1);
            if check1(t, s1.pos, TokenType::Equal) {
                lemma_assignment_ids(t, at(s1, 1));
                let o2 = seq2(o1, shift(1, p_assignment(t, at(s1, 1))));
                match o2.res {
                    Err(_) => {},
                    Ok(value) => match target.kind {
                        ExprKindV::Variable(name) => {
                            lemma_fresh_widen(expr_ids(value), o1.seed, o2.seed, s.seed, o2.seed);
                            lemma_fresh_push(expr_ids(value), s.seed, o2.seed);
                        },
                        ExprKindV::Get(object, name) => {
                            lemma_fresh_prefix(expr_ids(*object), seq![target.id], s.seed, o1.seed);
                            lemma_fresh_then(
                                expr_ids(*object),
                                expr_ids(value),
                                s.seed,
                                o1.seed,
                                o2.seed,
                            );
                            lemma_fresh_push(
                                expr_ids(*object) + expr_ids(value),
                                s.seed,
                                o2.seed,
                            );
                        },
                        ExprKindV::Index(list, index, _) => {
                            let front = expr_ids(*list) + expr_ids(*index);
                            lemma_fresh_prefix(front, seq![target.id], s.seed, o1.seed);
                            lemma_fresh_then(front, expr_ids(value), s.seed, o1.seed, o2.seed);
                            lemma_fresh_push(front + expr_ids(value), s.seed, o2.seed);
                        },
                        _ => {},
                    },
                }
            }
        },
    }
}

proof fn lemma_expression_ids(t: Seq<TokenV>, s: PState)
    ensures
        expr_fresh(s, p_expression(t, s), s.seed),
    decreases rem(t, s.pos), 71nat,
{
    lemma_expression(t, s);
    lemma_level_ids(t, s, Level::Comma);
}

proof fn lemma_lambda_ids(
    t: Seq<TokenV>,
    s: PState,
    name: Option<TokenV>,
    kind: Seq<char>,
    lt: LambdaType,
)
    ensures
        expr_fresh(s, p_lambda(t, s, name, kind, lt), s.seed),
    decreases rem(t, s.pos), 86nat,
{
    lemma_lambda(t, s, name, kind, lt);
    if lt == LambdaType::Getter {
        lemma_block_ids(t, s);
        let o1 = p_block(t, s);
        match o1.res {
            Err(_) => {},
            Ok(body) => lemma_fresh_push(stmts_ids(body), s.seed, o1.seed),
        }
    } else {
        let o1 = p_consume(t, s, TokenType::LeftParen, "Expect '(' after "@ + kind + "."@);
        match o1.res {
            Err(_) => {},
            Ok(_) => {
                lemma_params_seed(t, next(s, o1));
                let o2 = seq2(o1, p_params(t, next(s, o1)));
                match o2.res {
                    Err(_) => {},
                    Ok(params) => {
                        let o3 = seq2(
                            o2,
                            p_consume(
                                t,
                                next(s, o2),
                                TokenType::RightParen,
                                "Expect ')' after parameters."@,
                            ),
                        );
                        match o3.res {
                            Err(_) => {},
                            Ok(_) => {
                                let o4 = seq2(
                                    o3,
                                    p_consume(
                                        t,
                                        next(s, o3),
                                        TokenType::LeftBrace,
                                        "Expect '{' before "@ + kind + " body."@,
                                    ),
                                );
                                match o4.res {
                                    Err(_) => {},
                                    Ok(_) => {
                                        lemma_block_ids(t, next(s, o4));
                                        let o5 = seq2(o4, p_block(t, next(s, o4)));
                                        match o5.res {
                                            Err(_) => {},
                                            Ok(body) => lemma_fresh_push(
                                                stmts_ids(body),
                                                s.seed,
                                                o5.seed,
                                            ),
                                        }
                                    },
                                }
                            },
                        }
                    },
                }
            },
        }
    }
}

proof fn lemma_function_declaration_ids(t: Seq<TokenV>, s: PState, kind: Seq<char>, lt: LambdaType)
    ensures
        stmt_fresh(s, p_function_declaration(t, s, kind, lt), s.seed),
    decreases rem(t, s.pos), 87nat,
{
    lemma_function_declaration(t, s, kind, lt);
    if check1(t, s.pos, TokenType::Identifier) {
        let name = t[s.pos as int];
        let s1 = at(s, 1);
        if lt == LambdaType::Getter {
            if check1(t, s1.pos, TokenType::LeftBrace) {
                lemma_lambda_ids(t, at(s1, 1), Some(name), "getter"@, LambdaType::Getter);
            } else {
                lemma_lambda_ids(t, s1, Some(name), "method"@, LambdaType::Function);
            }
        } else {
            lemma_lambda_ids(t, s1, Some(name), kind, lt);
        }
    } else {
        lemma_lambda_ids(t, s, None, kind, lt);
    }
}

proof fn lemma_class_members_ids(t: Seq<TokenV>, s: PState, acc: Seq<StmtV>, lo: nat)
    requires
        lo <= s.seed,
        fresh_ids(stmts_ids(acc), lo, s.seed),
    ensures
        stmts_fresh(s, p_class_members(t, s, acc), lo),
    decreases rem(t, s.pos), 88nat,
{
    if check1(t, s.pos, TokenType::RightBrace) || at_end(t, s.pos) {
        lemma_class_members_end(t, s, acc);
    } else if check1(t, s.pos, TokenType::Class) {
        lemma_class_members_static(t, s, acc);
        lemma_function_declaration_ids(t, at(s, 1), "static method"@, LambdaType::ClassStatic);
        let o = shift(
            1,
            p_function_declaration(t, at(s, 1), "static method"@, LambdaType::ClassStatic),
        );
        match o.res {
            Err(_) => {},
            Ok(m) => {
                lemma_stmts_ids_push(acc, m);
                lemma_fresh_then(stmts_ids(acc), stmt_ids(m), lo, s.seed, o.seed);
                lemma_class_members_ids(t, next(s, o), acc.push(m), lo);
            },
        }
    } else {
        lemma_class_members_method(t, s, acc);
        lemma_function_declaration_ids(t, s, "method or getter"@, LambdaType::Getter);
        let o = p_function_declaration(t, s, "method or getter"@, LambdaType::Getter);
        match o.res {
            Err(_) => {},
            Ok(m) => if o.adv != 0 {
                lemma_stmts_ids_push(acc, m);
                lemma_fresh_then(stmts_ids(acc), stmt_ids(m), lo, s.seed, o.seed);
                lemma_class_members_ids(t, next(s, o), acc.push(m), lo);
            },
        }
    }
}

proof fn lemma_class_declaration_ids(t: Seq<TokenV>, s: PState)
    ensures
        stmt_fresh(s, p_class_declaration(t, s), s.seed),
    decreases rem(t, s.pos), 79nat,
{
    lemma_class_declaration(t, s);
    let o1 = p_consume(t, s, TokenType::Identifier, "Expect class name."@);
    match o1.res {
        Err(_) => {},
        Ok(name) => {
            let ob = seq2(o1, p_superclass(t, next(s, o1)));
            match ob.res {
                Err(_) => {},
                Ok(superclass) => {
                    match superclass {
                        Some(_) => lemma_fresh_one(s.seed + 1, s.seed),
                        None => lemma_fresh_empty(s.seed, s.seed),
                    }
                    assert(fresh_ids(opt_expr_ids(superclass), s.seed, ob.seed));
                    let o2 = seq2(
                        ob,
                        p_consume(
                            t,
                            next(s, ob),
                            TokenType::LeftBrace,
                            "Expect '{' after class body"@,
                        ),
                    );
                    match o2.res {
                        Err(_) => {},
                        Ok(_) => {
                            assert(stmts_ids(Seq::<StmtV>::empty()) =~= Seq::<nat>::empty());
                            lemma_class_members_ids(t, next(s, o2), Seq::empty(), o2.seed);
                            let o3 = seq2(o2, p_class_members(t, next(s, o2), Seq::empty()));
                            match o3.res {
                                Err(_) => {},
                                Ok(methods) => {
                                    lemma_fresh_then(
                                        opt_expr_ids(superclass),
                                        stmts_ids(methods),
                                        s.seed,
                                        ob.seed,
                                        o3.seed,
                                    );
                                },
                            }
                        },
                    }
                },
            }
        },
    }
}

proof fn lemma_block_items_ids(t: Seq<TokenV>, s: PState, acc: Seq<StmtV>, lo: nat)
    requires
        lo <= s.seed,
        fresh_ids(stmts_ids(acc), lo, s.seed),
    ensures
        stmts_fresh(s, p_block_items(t, s, acc), lo),
    decreases rem(t, s.pos), 83nat,
{
    if check1(t, s.pos, TokenType::RightBrace) || at_end(t, s.pos) {
        lemma_block_items_end(t, s, acc);
    } else {
        lemma_block_items_more(t, s, acc);
        lemma_declaration_ids(t, s);
        let o = p_declaration(t, s);
        match o.res {
            Err(_) => {},
            Ok(d) => if o.adv != 0 {
                lemma_stmts_ids_push(acc, d);
                lemma_fresh_then(stmts_ids(acc), stmt_ids(d), lo, s.seed, o.seed);
                lemma_block_items_ids(t, next(s, o), acc.push(d), lo);
            },
        }
    }
}

proof fn lemma_block_ids(t: Seq<TokenV>, s: PState)
    ensures
        stmts_fresh(s, p_block(t, s), s.seed),
    decreases rem(t, s.pos), 84nat,
{
    lemma_block(t, s);
    assert(stmts_ids(Seq::<StmtV>::empty()) =~= Seq::<nat>::empty());
    lemma_block_items_ids(t, s, Seq::empty(), s.seed);
}

proof fn lemma_terminated_ids(t: Seq<TokenV>, s: PState)
    ensures
        expr_fresh(s, p_terminated(t, s), s.seed),
    decreases rem(t, s.pos), 72nat,
{
    lemma_terminated(t, s);
    lemma_expression_ids(t, s);
}

proof fn lemma_expression_statement_ids(t: Seq<TokenV>, s: PState)
    ensures
        stmt_fresh(s, p_expression_statement(t, s), s.seed),
    decreases rem(t, s.pos), 73nat,
{
    lemma_expression_statement(t, s);
    lemma_terminated_ids(t, s);
}

proof fn lemma_print_ids(t: Seq<TokenV>, s: PState)
    ensures
        stmt_fresh(s, p_print(t, s), s.seed),
    decreases rem(t, s.pos), 74nat,
{
    lemma_print(t, s);
    lemma_terminated_ids(t, s);
}

proof fn lemma_return_ids(t: Seq<TokenV>, s: PState)
    ensures
        stmt_fresh(s, p_return(t, s), s.seed),
    decreases rem(t, s.pos), 75nat,
{
    lemma_return(t, s);
    if !check1(t, s.pos, TokenType::Semicolon) {
        lemma_expression_ids(t, s);
    } else {
        lemma_fresh_empty(s.seed, s.seed);
    }
}

proof fn lemma_cond_body_ids(t: Seq<TokenV>, s: PState)
    ensures
        pair_fresh(s, p_cond_body(t, s), s.seed),
    decreases rem(t, s.pos), 76nat,
{
    lemma_cond_body(t, s);
    let o1 = p_consume(t, s, TokenType::LeftParen, "Expect '(' after 'if'."@);
    match o1.res {
        Err(_) => {},
        Ok(_) => {
            lemma_expression_ids(t, next(s, o1));
            let o2 = seq2(o1, p_expression(t, next(s, o1)));
            match o2.res {
                Err(_) => {},
                Ok(cond) => {
                    let o3 = seq2(
                        o2,
                        p_consume(
                            t,
                            next(s, o2),
                            TokenType::RightParen,
                            "Expect ')' after if condition."@,
                        ),
                    );
                    match o3.res {
                        Err(_) => {},
                        Ok(_) => {
                            lemma_statement_ids(t, next(s, o3));
                            let o4 = seq2(o3, p_statement(t, next(s, o3)));
                            match o4.res {
                                Err(_) => {},
                                Ok(body) => lemma_fresh_then(
                                    expr_ids(cond),
                                    stmt_ids(body),
                                    s.seed,
                                    o2.seed,
                                    o4.seed,
                                ),
                            }
                        },
                    }
                },
            }
        },
    }
}

proof fn lemma_if_ids(t: Seq<TokenV>, s: PState)
    ensures
        stmt_fresh(s, p_if(t, s), s.seed),
    decreases rem(t, s.pos), 77nat,
{
    lemma_if(t, s);
    lemma_cond_body_ids(t, s);
    let o1 = p_cond_body(t, s);
    match o1.res {
        Err(_) => {},
        Ok((cond, then_branch)) => {
            let s1 = next(s, o1);
            if check1(t, s1.pos, TokenType::Else) {
                lemma_statement_ids(t, at(s1, 1));
                let o2 = seq2(o1, shift(1, p_statement(t, at(s1, 1))));
                match o2.res {
                    Err(_) => {},
                    Ok(else_branch) => lemma_fresh_then(
                        expr_ids(cond) + stmt_ids(then_branch),
                        stmt_ids(else_branch),
                        s.seed,
                        o1.seed,
                        o2.seed,
                    ),
                }
            } else {
                assert(expr_ids(cond) + stmt_ids(then_branch) + Seq::<nat>::empty() =~= expr_ids(
                    cond,
                ) + stmt_ids(then_branch));
            }
        },
    }
}

proof fn lemma_while_ids(t: Seq<TokenV>, s: PState)
    ensures
        stmt_fresh(s, p_while(t, s), s.seed),
    decreases rem(t, s.pos), 78nat,
{
    lemma_while(t, s);
    lemma_cond_body_ids(t, s);
}

/// The identities of the loop that a `for` statement becomes.
proof fn lemma_desugar_ids(init: Option<StmtV>, cond: ExprV, inc: Option<ExprV>, body: StmtV)
    ensures
        stmt_ids(crate::grammar::desugar_for(init, cond, inc, body)) == opt_stmt_ids(init) + (
        expr_ids(cond) + (stmt_ids(body) + opt_expr_ids(inc))),
{
    let with_inc = match inc {
        Some(i) => StmtV::Block(seq![body, StmtV::Expression(i)]),
        None => body,
    };
    match inc {
        Some(i) => {
            lemma_pair_ids(body, StmtV::Expression(i));
        },
        None => {
            assert(stmt_ids(body) + Seq::<nat>::empty() =~= stmt_ids(body));
        },
    }
    assert(stmt_ids(with_inc) == stmt_ids(body) + opt_expr_ids(inc));
    let looped = StmtV::While(cond, Box::new(with_inc));
    match init {
        Some(x) => {
            lemma_pair_ids(x, looped);
        },
        None => {
            assert(Seq::<nat>::empty() + stmt_ids(looped) =~= stmt_ids(looped));
        },
    }
}

/// The identities of a block of two statements.
proof fn lemma_pair_ids(a: StmtV, b: StmtV)
    ensures
        stmt_ids(StmtV::Block(seq![a, b])) == stmt_ids(a) + stmt_ids(b),
{
    let ab = seq![a, b];
    assert(ab.subrange(0, 1) =~= seq![a]);
    assert(seq![a].subrange(0, 0) =~= Seq::<StmtV>::empty());
    assert(stmts_ids(Seq::<StmtV>::empty()) == Seq::<nat>::empty());
    assert(stmts_ids(seq![a]) == stmts_ids(Seq::<StmtV>::empty()) + stmt_ids(a));
    assert(stmts_ids(seq![a]) =~= stmt_ids(a));
    assert(stmts_ids(ab) == stmts_ids(seq![a]) + stmt_ids(b));
}

proof fn lemma_for_clauses_ids(t: Seq<TokenV>, s: PState, init: Option<StmtV>, lo: nat)
    requires
        lo <= s.seed,
        fresh_ids(opt_stmt_ids(init), lo, s.seed),
    ensures
        stmt_fresh(s, p_for_clauses(t, s, init), lo),
    decreases rem(t, s.pos), 80nat,
{
    lemma_for_clauses(t, s, init);
    let o3 = if !check1(t, s.pos, TokenType::Semicolon) {
        p_expression(t, s)
    } else {
        built(crate::grammar::stay(s, Ok(())), ExprKindV::Literal(crate::token::LiteralV::Boolean(true)))
    };
    if !check1(t, s.pos, TokenType::Semicolon) {
        lemma_expression_ids(t, s);
    } else {
        lemma_fresh_one(s.seed + 1, s.seed);
    }
    match o3.res {
        Err(_) => {},
        Ok(cond) => {
            let o4 = seq2(
                o3,
                p_consume(t, next(s, o3), TokenType::Semicolon, "Expect ';' after loop condition"@),
            );
            match o4.res {
                Err(_) => {},
                Ok(_) => {
                    let s4 = next(s, o4);
                    let o5i = if !check1(t, s4.pos, TokenType::RightParen) {
                        crate::grammar::some_expr(p_expression(t, s4))
                    } else {
                        crate::grammar::stay(s4, Ok(None))
                    };
                    if !check1(t, s4.pos, TokenType::RightParen) {
                        lemma_expression_ids(t, s4);
                    } else {
                        lemma_fresh_empty(s4.seed, s4.seed);
                    }
                    let o5 = seq2(o4, o5i);
                    match o5.res {
                        Err(_) => {},
                        Ok(inc) => {
                            let o6 = seq2(
                                o5,
                                p_consume(
                                    t,
                                    next(s, o5),
                                    TokenType::RightParen,
                                    "Expect ')' after clauses."@,
                                ),
                            );
                            match o6.res {
                                Err(_) => {},
                                Ok(_) => {
                                    lemma_statement_ids(t, next(s, o6));
                                    let o7 = seq2(o6, p_statement(t, next(s, o6)));
                                    match o7.res {
                                        Err(_) => {},
                                        Ok(body) => {
                                            lemma_desugar_ids(init, cond, inc, body);
                                            lemma_fresh_join(
                                                stmt_ids(body),
                                                o5.seed,
                                                o7.seed,
                                                opt_expr_ids(inc),
                                                o3.seed,
                                                o5.seed,
                                            );
                                            lemma_fresh_then(
                                                expr_ids(cond),
                                                stmt_ids(body) + opt_expr_ids(inc),
                                                s.seed,
                                                o3.seed,
                                                o7.seed,
                                            );
                                            lemma_fresh_then(
                                                opt_stmt_ids(init),
                                                expr_ids(cond) + (stmt_ids(body) + opt_expr_ids(
                                                    inc,
                                                )),
                                                lo,
                                                s.seed,
                                                o7.seed,
                                            );
                                        },
                                    }
                                },
                            }
                        },
                    }
                },
            }
        },
    }
}

proof fn lemma_for_ids(t: Seq<TokenV>, s: PState)
    ensures
        stmt_fresh(s, p_for(t, s), s.seed),
    decreases rem(t, s.pos), 81nat,
{
    lemma_for(t, s);
    let o1 = p_consume(t, s, TokenType::LeftParen, "Expect '(' after 'for'."@);
    match o1.res {
        Err(_) => {},
        Ok(_) => {
            let s1 = next(s, o1);
            if check1(t, s1.pos, TokenType::Semicolon) {
                lemma_fresh_empty(s.seed, s.seed);
            } else if check1(t, s1.pos, TokenType::Var) {
                lemma_var_declaration_ids(t, at(s1, 1));
            } else {
                lemma_expression_statement_ids(t, s1);
            }
            let o2 = seq2(
                o1,
                if check1(t, s1.pos, TokenType::Semicolon) {
                    crate::grammar::with(crate::grammar::moved(s1, 1), Ok(None))
                } else if check1(t, s1.pos, TokenType::Var) {
                    shift(1, crate::grammar::some_stmt(p_var_declaration(t, at(s1, 1))))
                } else {
                    crate::grammar::some_stmt(p_expression_statement(t, s1))
                },
            );
            match o2.res {
                Err(_) => {},
                Ok(init) => lemma_for_clauses_ids(t, next(s, o2), init, s.seed),
            }
        },
    }
}

proof fn lemma_statement_ids(t: Seq<TokenV>, s: PState)
    ensures
        stmt_fresh(s, p_statement(t, s), s.seed),
    decreases rem(t, s.pos), 81nat,
{
    lemma_statement(t, s);
    if check1(t, s.pos, TokenType::If) {
        lemma_if_ids(t, at(s, 1));
    } else if check1(t, s.pos, TokenType::While) {
        lemma_while_ids(t, at(s, 1));
    } else if check1(t, s.pos, TokenType::For) {
        lemma_for_ids(t, at(s, 1));
    } else if check1(t, s.pos, TokenType::Print) {
        lemma_print_ids(t, at(s, 1));
    } else if check1(t, s.pos, TokenType::Break) {
        lemma_fresh_empty(s.seed, s.seed);
    } else if check1(t, s.pos, TokenType::Return) {
        lemma_return_ids(t, at(s, 1));
    } else if check1(t, s.pos, TokenType::LeftBrace) {
        lemma_block_ids(t, at(s, 1));
    } else {
        lemma_expression_statement_ids(t, s);
    }
}

proof fn lemma_var_declaration_ids(t: Seq<TokenV>, s: PState)
    ensures
        stmt_fresh(s, p_var_declaration(t, s), s.seed),
    decreases rem(t, s.pos), 20nat,
{
    lemma_var_declaration(t, s);
    let o1 = p_consume(t, s, TokenType::Identifier, "Expect variable name."@);
    match o1.res {
        Err(_) => {},
        Ok(name) => {
            let s1 = next(s, o1);
            if check1(t, s1.pos, TokenType::Equal) {
                lemma_expression_ids(t, at(s1, 1));
            } else {
                lemma_fresh_empty(s.seed, s.seed);
            }
        },
    }
}

proof fn lemma_declaration_ids(t: Seq<TokenV>, s: PState)
    ensures
        stmt_fresh(s, p_declaration(t, s), s.seed),
    decreases rem(t, s.pos), 82nat,
{
    lemma_declaration(t, s);
    if check1(t, s.pos, TokenType::Var) {
        lemma_var_declaration_ids(t, at(s, 1));
    } else if check1(t, s.pos, TokenType::Fun) {
        lemma_function_declaration_ids(t, at(s, 1), "function"@, LambdaType::Function);
    } else if check1(t, s.pos, TokenType::Class) {
        lemma_class_declaration_ids(t, at(s, 1));
    } else {
        lemma_statement_ids(t, s);
    }
}

proof fn lemma_program_ids(t: Seq<TokenV>, s: PState, acc: Seq<StmtV>)
    requires
        fresh_ids(stmts_ids(acc), 0, s.seed),
    ensures
        stmts_ids(p_program(t, s, acc).0).no_duplicates(),
    decreases rem(t, s.pos),
{
    if !at_end(t, s.pos) {
        let o = p_try_program(t, s);
        if o.adv != 0 {
            lemma_declaration_ids(t, s);
            let od = p_declaration(t, s);
            match od.res {
                Ok(d) => {
                    lemma_stmts_ids_push(acc, d);
                    lemma_fresh_then(stmts_ids(acc), stmt_ids(d), 0, s.seed, od.seed);
                    lemma_program_ids(t, next(s, o), acc.push(d));
                },
                Err(_) => {
                    lemma_fresh_widen(stmts_ids(acc), 0, s.seed, 0, od.seed);
                    lemma_program_ids(t, next(s, o), acc);
                },
            }
        }
    }
}

/// Within what parsing a program yields, no two expressions share an
/// identity.
pub proof fn lemma_parse_identities_distinct(t: Seq<TokenV>)
    ensures
        stmts_ids(parse_program(t).0).no_duplicates(),
{
    assert(stmts_ids(Seq::<StmtV>::empty()) =~= Seq::<nat>::empty());
    lemma_program_ids(t, PState { pos: 0, seed: 0, errors: Seq::empty() }, Seq::empty());
}

/// An expression parsed from any state holds distinct identities, all
/// handed out after that state's last one.
pub proof fn lemma_expression_identities_distinct(t: Seq<TokenV>, s: PState)
    ensures
        p_expression(t, s).res matches Ok(e) ==> expr_ids(e).no_duplicates() && forall|i: int|
            0 <= i < expr_ids(e).len() ==> s.seed < #[trigger] expr_ids(e)[i],
{
    lemma_expression_ids(t, s);
}

} // verus!
