//! The grammar of Lox, with the parser's error recovery, as functions on
//! token sequences. Each rule maps the tokens and the parse state to an
//! outcome: how many tokens it consumed, the identity counter and error list
//! after it, and what it produced.
use crate::expr::{ExprKindV, ExprV, LambdaType};
use crate::stmt::StmtV;
use crate::token::{LiteralV, TokenType, TokenV};
use vstd::prelude::*;

verus! {

/// The mathematical model of a parse error.
pub struct ParseErrorV {
    pub token: TokenV,
    pub message: Seq<char>,
}

/// Where a parse stands: the next token, the last identity handed out and the
/// errors recorded so far.
pub struct PState {
    pub pos: nat,
    pub seed: nat,
    pub errors: Seq<ParseErrorV>,
}

/// What a grammar rule does from a state: tokens consumed, the identity
/// counter and errors afterwards, and its result.
pub struct Out<T> {
    pub adv: nat,
    pub seed: nat,
    pub errors: Seq<ParseErrorV>,
    pub res: Result<T, ParseErrorV>,
}

/// The state after an outcome.
pub open spec fn next<T>(s: PState, o: Out<T>) -> PState {
    PState { pos: s.pos + o.adv, seed: o.seed, errors: o.errors }
}

/// The state `k` tokens further on.
pub open spec fn at(s: PState, k: nat) -> PState {
    PState { pos: s.pos + k, seed: s.seed, errors: s.errors }
}

/// An outcome that consumed `k` more tokens before it.
pub open spec fn shift<T>(k: nat, o: Out<T>) -> Out<T> {
    Out { adv: k + o.adv, seed: o.seed, errors: o.errors, res: o.res }
}

/// `o2`, run right after `o1`.
pub open spec fn seq2<A, B>(o1: Out<A>, o2: Out<B>) -> Out<B> {
    shift(o1.adv, o2)
}

/// The state of `o` with another result.
pub open spec fn with<A, B>(o: Out<A>, res: Result<B, ParseErrorV>) -> Out<B> {
    Out { adv: o.adv, seed: o.seed, errors: o.errors, res }
}

/// The state of `o` with the failure `e`.
pub open spec fn fail<A, B>(o: Out<A>, e: ParseErrorV) -> Out<B> {
    with(o, Err(e))
}

/// `k` tokens consumed, nothing else changed.
pub open spec fn moved(s: PState, k: nat) -> Out<()> {
    Out { adv: k, seed: s.seed, errors: s.errors, res: Ok(()) }
}

/// No token consumed, state unchanged.
pub open spec fn stay<T>(s: PState, res: Result<T, ParseErrorV>) -> Out<T> {
    Out { adv: 0, seed: s.seed, errors: s.errors, res }
}

/// The state of `o` after building an expression of the given kind, which
/// takes the next identity.
pub open spec fn built<A>(o: Out<A>, kind: ExprKindV) -> Out<ExprV> {
    Out {
        adv: o.adv,
        seed: o.seed + 1,
        errors: o.errors,
        res: Ok(ExprV { id: o.seed + 1, kind }),
    }
}

/// How many tokens remain from `pos` on.
pub open spec fn rem(t: Seq<TokenV>, pos: nat) -> nat {
    if pos < t.len() {
        (t.len() - pos) as nat
    } else {
        0
    }
}

pub open spec fn at_end(t: Seq<TokenV>, pos: nat) -> bool {
    pos >= t.len() || t[pos as int].token_type == TokenType::Eof
}

/// The next token is one of `types` (and not the end).
pub open spec fn check(t: Seq<TokenV>, pos: nat, types: Seq<TokenType>) -> bool {
    !at_end(t, pos) && types.contains(t[pos as int].token_type)
}

pub open spec fn check1(t: Seq<TokenV>, pos: nat, tt: TokenType) -> bool {
    !at_end(t, pos) && t[pos as int].token_type == tt
}

/// The error reported at the next token.
pub open spec fn perr(t: Seq<TokenV>, pos: nat, message: Seq<char>) -> ParseErrorV {
    ParseErrorV { token: t[pos as int], message }
}

/// Consume a token of type `tt`, or report `message` at the next token.
pub open spec fn p_consume(t: Seq<TokenV>, s: PState, tt: TokenType, message: Seq<char>) -> Out<
    TokenV,
> {
    if check1(t, s.pos, tt) {
        Out { adv: 1, seed: s.seed, errors: s.errors, res: Ok(t[s.pos as int]) }
    } else {
        stay(s, Err(perr(t, s.pos, message)))
    }
}

/// The binary levels of the expression grammar, loosest first.
pub enum Level {
    Comma,
    Or,
    And,
    Equality,
    Comparison,
    Term,
    Factor,
}

/// The operators of a level.
pub open spec fn level_ops(k: Level) -> Seq<TokenType> {
    match k {
        Level::Comma => seq![TokenType::Comma],
        Level::Or => seq![TokenType::Or],
        Level::And => seq![TokenType::And],
        Level::Equality => seq![TokenType::BangEqual, TokenType::EqualEqual],
        Level::Comparison => seq![
            TokenType::Greater,
            TokenType::GreaterEqual,
            TokenType::Less,
            TokenType::LessEqual,
        ],
        Level::Term => seq![TokenType::Minus, TokenType::Plus],
        Level::Factor => seq![TokenType::Slash, TokenType::Star, TokenType::Percent],
    }
}

/// The precedence table of the binary operators: `,` loosest, then `or`,
/// `and`, the equality operators `!=` and `==`, the comparisons `>`, `>=`,
/// `<` and `<=`, then `-` and `+`, and `/`, `*` and `%` binding tightest.
/// Each level takes exactly its operators.
pub proof fn lemma_operator_levels(tt: TokenType)
    ensures
        level_ops(Level::Comma).contains(tt) <==> tt == TokenType::Comma,
        level_ops(Level::Or).contains(tt) <==> tt == TokenType::Or,
        level_ops(Level::And).contains(tt) <==> tt == TokenType::And,
        level_ops(Level::Equality).contains(tt) <==> (tt == TokenType::BangEqual || tt
            == TokenType::EqualEqual),
        level_ops(Level::Comparison).contains(tt) <==> (tt == TokenType::Greater || tt
            == TokenType::GreaterEqual || tt == TokenType::Less || tt == TokenType::LessEqual),
        level_ops(Level::Term).contains(tt) <==> (tt == TokenType::Minus || tt == TokenType::Plus),
        level_ops(Level::Factor).contains(tt) <==> (tt == TokenType::Slash || tt == TokenType::Star
            || tt == TokenType::Percent),
{
    let c = level_ops(Level::Comparison);
    if tt == TokenType::Greater { assert(c[0] == tt); }
    if tt == TokenType::GreaterEqual { assert(c[1] == tt); }
    if tt == TokenType::Less { assert(c[2] == tt); }
    if tt == TokenType::LessEqual { assert(c[3] == tt); }
    let e = level_ops(Level::Equality);
    if tt == TokenType::BangEqual { assert(e[0] == tt); }
    if tt == TokenType::EqualEqual { assert(e[1] == tt); }
    let t = level_ops(Level::Term);
    if tt == TokenType::Minus { assert(t[0] == tt); }
    if tt == TokenType::Plus { assert(t[1] == tt); }
    let f = level_ops(Level::Factor);
    if tt == TokenType::Slash { assert(f[0] == tt); }
    if tt == TokenType::Star { assert(f[1] == tt); }
    if tt == TokenType::Percent { assert(f[2] == tt); }
    assert(level_ops(Level::Comma)[0] == TokenType::Comma);
    assert(level_ops(Level::Or)[0] == TokenType::Or);
    assert(level_ops(Level::And)[0] == TokenType::And);
}

/// The operators that, met where a level's left operand should start, are
/// reported as a missing operand.
pub open spec fn missing_left_ops(k: Level) -> Seq<TokenType> {
    match k {
        Level::Or => seq![],
        Level::And => seq![],
        Level::Term => seq![TokenType::Plus],
        _ => level_ops(k),
    }
}

pub open spec fn missing_left_msg(k: Level) -> Seq<char> {
    match k {
        Level::Comma => "Expect expression before comma"@,
        Level::Equality => "Expect expression before equality"@,
        Level::Comparison => "Expect expression before comparison"@,
        _ => "Expect expression before binary operator"@,
    }
}

/// The expression that joins two operands at a level.
pub open spec fn combine(k: Level, left: ExprV, op: TokenV, right: ExprV) -> ExprKindV {
    match k {
        Level::Comma => ExprKindV::Comma(Box::new(left), Box::new(right)),
        Level::Or => ExprKindV::Logical(Box::new(left), op, Box::new(right)),
        Level::And => ExprKindV::Logical(Box::new(left), op, Box::new(right)),
        _ => ExprKindV::Binary(Box::new(left), op, Box::new(right)),
    }
}

pub open spec fn level_rank(k: Level) -> nat {
    match k {
        Level::Comma => 70,
        Level::Or => 63,
        Level::And => 60,
        Level::Equality => 57,
        Level::Comparison => 54,
        Level::Term => 51,
        Level::Factor => 48,
    }
}

/// The token types that stand for literal values.
pub open spec fn literal_types() -> Seq<TokenType> {
    seq![TokenType::True, TokenType::False, TokenType::Nil, TokenType::Number, TokenType::String]
}

pub open spec fn some_stmt(o: Out<StmtV>) -> Out<Option<StmtV>> {
    match o.res {
        Ok(v) => with(o, Ok(Some(v))),
        Err(e) => fail(o, e),
    }
}

pub open spec fn some_expr(o: Out<ExprV>) -> Out<Option<ExprV>> {
    match o.res {
        Ok(v) => with(o, Ok(Some(v))),
        Err(e) => fail(o, e),
    }
}

// ---------------------------------------------------------------------------
// Expressions
/// "super" "." IDENTIFIER : a method of the superclass, from the `super`
/// token at `s`.
pub open spec fn p_super(t: Seq<TokenV>, s: PState) -> Out<ExprV> {
    let o1 = shift(1, p_consume(t, at(s, 1), TokenType::Dot, "Expect '.' after 'super'."@));
    match o1.res {
        Err(e) => fail(o1, e),
        Ok(_) => {
            let o2 = seq2(
                o1,
                p_consume(
                    t,
                    next(s, o1),
                    TokenType::Identifier,
                    "Expect superclass method name."@,
                ),
            );
            match o2.res {
                Err(e) => fail(o2, e),
                Ok(method) => built(o2, ExprKindV::Super(t[s.pos as int], method)),
            }
        },
    }
}

/// primary -> NUMBER | STRING | "true" | "false" | "nil" | "(" expression ")"
///          | "this" | "super" "." IDENTIFIER | IDENTIFIER | "fun" lambda
///          | "[" list
#[verifier::opaque]
pub open spec fn p_primary(t: Seq<TokenV>, s: PState) -> Out<ExprV>
    decreases rem(t, s.pos), 42nat,
{
    if check(t, s.pos, literal_types()) {
        built(moved(s, 1), ExprKindV::Literal(t[s.pos as int].literal.unwrap()))
    } else if check1(t, s.pos, TokenType::LeftParen) {
        let o1 = shift(1, p_expression(t, at(s, 1)));
        match o1.res {
            Err(e) => o1,
            Ok(inner) => {
                let o2 = seq2(
                    o1,
                    p_consume(t, next(s, o1), TokenType::RightParen, "Expect ')' after expression."@),
                );
                match o2.res {
                    Err(e) => fail(o2, e),
                    Ok(_) => built(o2, ExprKindV::Grouping(Box::new(inner))),
                }
            },
        }
    } else if check1(t, s.pos, TokenType::This) {
        built(moved(s, 1), ExprKindV::This(t[s.pos as int]))
    } else if check1(t, s.pos, TokenType::Super) {
        p_super(t, s)
    } else if check1(t, s.pos, TokenType::Identifier) {
        built(moved(s, 1), ExprKindV::Variable(t[s.pos as int]))
    } else if check1(t, s.pos, TokenType::Fun) {
        shift(1, p_lambda(t, at(s, 1), None, "function"@, LambdaType::Function))
    } else if check1(t, s.pos, TokenType::LeftBracket) {
        shift(1, p_list(t, at(s, 1)))
    } else {
        stay(s, Err(perr(t, s.pos, "Expect expression."@)))
    }
}

/// A primary expression, unfolded.
pub proof fn lemma_primary(t: Seq<TokenV>, s: PState)
    ensures
        p_primary(t, s) == (if check(t, s.pos, literal_types()) {
            built(moved(s, 1), ExprKindV::Literal(t[s.pos as int].literal.unwrap()))
        } else if check1(t, s.pos, TokenType::LeftParen) {
            let o1 = shift(1, p_expression(t, at(s, 1)));
            match o1.res {
                Err(e) => o1,
                Ok(inner) => {
                    let o2 = seq2(
                        o1,
                        p_consume(
                            t,
                            next(s, o1),
                            TokenType::RightParen,
                            "Expect ')' after expression."@,
                        ),
                    );
                    match o2.res {
                        Err(e) => fail(o2, e),
                        Ok(_) => built(o2, ExprKindV::Grouping(Box::new(inner))),
                    }
                },
            }
        } else if check1(t, s.pos, TokenType::This) {
            built(moved(s, 1), ExprKindV::This(t[s.pos as int]))
        } else if check1(t, s.pos, TokenType::Super) {
            p_super(t, s)
        } else if check1(t, s.pos, TokenType::Identifier) {
            built(moved(s, 1), ExprKindV::Variable(t[s.pos as int]))
        } else if check1(t, s.pos, TokenType::Fun) {
            shift(1, p_lambda(t, at(s, 1), None, "function"@, LambdaType::Function))
        } else if check1(t, s.pos, TokenType::LeftBracket) {
            shift(1, p_list(t, at(s, 1)))
        } else {
            stay(s, Err(perr(t, s.pos, "Expect expression."@)))
        }),
{
    reveal(p_primary);
    reveal(p_expression);
    reveal(p_lambda);
    reveal(p_list);
}

/// The rest of an argument list after `acc`: ("," assignment)*
#[verifier::opaque]
pub open spec fn p_args_rest(t: Seq<TokenV>, s: PState, acc: Seq<ExprV>) -> Out<Seq<ExprV>>
    decreases rem(t, s.pos), 65nat,
{
    if check1(t, s.pos, TokenType::Comma) {
        let s1 = PState {
            pos: s.pos + 1,
            seed: s.seed,
            errors: if acc.len() >= 255 {
                s.errors.push(perr(t, s.pos + 1, "Can't have more than 255 arguments."@))
            } else {
                s.errors
            },
        };
        let o = shift(1, p_assignment(t, s1));
        match o.res {
            Err(e) => fail(o, e),
            Ok(a) => seq2(o, p_args_rest(t, next(s, o), acc.push(a))),
        }
    } else {
        stay(s, Ok(acc))
    }
}

/// The argument list of a call: (assignment ("," assignment)*)?
#[verifier::opaque]
pub open spec fn p_arg_list(t: Seq<TokenV>, s: PState) -> Out<Seq<ExprV>>
    decreases rem(t, s.pos), 66nat,
{
    if !check1(t, s.pos, TokenType::RightParen) {
        let oa = p_assignment(t, s);
        match oa.res {
            Err(e) => fail(oa, e),
            Ok(a) => seq2(oa, p_args_rest(t, next(s, oa), seq![a])),
        }
    } else {
        stay(s, Ok(Seq::<ExprV>::empty()))
    }
}

/// arguments -> (assignment ("," assignment)*)? ")" : the call of `callee`.
#[verifier::opaque]
pub open spec fn p_arguments(t: Seq<TokenV>, s: PState, callee: ExprV) -> Out<ExprV>
    decreases rem(t, s.pos), 67nat,
{
    let o1 = p_arg_list(t, s);
    match o1.res {
        Err(e) => fail(o1, e),
        Ok(args) => {
            let o2 = seq2(
                o1,
                p_consume(t, next(s, o1), TokenType::RightParen, "Expect ')' after arguments."@),
            );
            match o2.res {
                Err(e) => fail(o2, e),
                Ok(paren) => built(o2, ExprKindV::Call(Box::new(callee), paren, args)),
            }
        },
    }
}

/// The calls, property accesses and indexings that follow `e`:
/// ( "(" arguments | "." IDENTIFIER | "[" index )*
#[verifier::opaque]
pub open spec fn p_call_tail(t: Seq<TokenV>, s: PState, e: ExprV) -> Out<ExprV>
    decreases rem(t, s.pos), 43nat,
{
    if check1(t, s.pos, TokenType::LeftParen) {
        let o = shift(1, p_arguments(t, at(s, 1), e));
        match o.res {
            Err(err) => o,
            Ok(e2) => seq2(o, p_call_tail(t, next(s, o), e2)),
        }
    } else if check1(t, s.pos, TokenType::Dot) {
        let o = shift(
            1,
            p_consume(t, at(s, 1), TokenType::Identifier, "Expect property name after '.'."@),
        );
        match o.res {
            Err(err) => fail(o, err),
            Ok(name) => {
                let ob = built(o, ExprKindV::Get(Box::new(e), name));
                seq2(
                    ob,
                    p_call_tail(
                        t,
                        next(s, ob),
                        ExprV { id: o.seed + 1, kind: ExprKindV::Get(Box::new(e), name) },
                    ),
                )
            },
        }
    } else if check1(t, s.pos, TokenType::LeftBracket) {
        let o = shift(1, p_index(t, at(s, 1), e));
        match o.res {
            Err(err) => o,
            Ok(e2) => seq2(o, p_call_tail(t, next(s, o), e2)),
        }
    } else {
        stay(s, Ok(e))
    }
}

/// An indexing in the tail of a call expression.
pub proof fn lemma_call_tail_bracket(t: Seq<TokenV>, s: PState, e: ExprV)
    requires
        !check1(t, s.pos, TokenType::LeftParen),
        !check1(t, s.pos, TokenType::Dot),
        check1(t, s.pos, TokenType::LeftBracket),
    ensures
        p_call_tail(t, s, e) == ({
            let o = shift(1, p_index(t, at(s, 1), e));
            match o.res {
                Err(err) => o,
                Ok(e2) => seq2(o, p_call_tail(t, next(s, o), e2)),
            }
        }),
{
    reveal(p_call_tail);
    reveal(p_index);
}

/// index -> expression "]" after the "[" of an indexing of `list`.
#[verifier::opaque]
pub open spec fn p_index(t: Seq<TokenV>, s: PState, list: ExprV) -> Out<ExprV>
    decreases rem(t, s.pos), 72nat,
{
    let o1 = p_expression(t, s);
    match o1.res {
        Err(e) => o1,
        Ok(index) => {
            let o2 = seq2(
                o1,
                p_consume(t, next(s, o1), TokenType::RightBracket, "Expect ']' after index."@),
            );
            match o2.res {
                Err(e) => fail(o2, e),
                Ok(bracket) => built(
                    o2,
                    ExprKindV::Index(Box::new(list), Box::new(index), bracket),
                ),
            }
        },
    }
}

/// [`p_index`], unfolded.
pub proof fn lemma_index(t: Seq<TokenV>, s: PState, list: ExprV)
    ensures
        p_index(t, s, list) == ({
            let o1 = p_expression(t, s);
            match o1.res {
                Err(e) => o1,
                Ok(index) => {
                    let o2 = seq2(
                        o1,
                        p_consume(
                            t,
                            next(s, o1),
                            TokenType::RightBracket,
                            "Expect ']' after index."@,
                        ),
                    );
                    match o2.res {
                        Err(e) => fail(o2, e),
                        Ok(bracket) => built(
                            o2,
                            ExprKindV::Index(Box::new(list), Box::new(index), bracket),
                        ),
                    }
                },
            }
        }),
{
    reveal(p_index);
    reveal(p_expression);
}

/// The elements of a list literal after `acc`: ("," assignment)*
#[verifier::opaque]
pub open spec fn p_items_rest(t: Seq<TokenV>, s: PState, acc: Seq<ExprV>) -> Out<Seq<ExprV>>
    decreases rem(t, s.pos), 65nat,
{
    if check1(t, s.pos, TokenType::Comma) {
        let o = shift(1, p_assignment(t, at(s, 1)));
        match o.res {
            Err(e) => fail(o, e),
            Ok(a) => seq2(o, p_items_rest(t, next(s, o), acc.push(a))),
        }
    } else {
        stay(s, Ok(acc))
    }
}

/// The elements of a list literal: (assignment ("," assignment)*)?
#[verifier::opaque]
pub open spec fn p_items(t: Seq<TokenV>, s: PState) -> Out<Seq<ExprV>>
    decreases rem(t, s.pos), 66nat,
{
    if !check1(t, s.pos, TokenType::RightBracket) {
        let oa = p_assignment(t, s);
        match oa.res {
            Err(e) => fail(oa, e),
            Ok(a) => seq2(oa, p_items_rest(t, next(s, oa), seq![a])),
        }
    } else {
        stay(s, Ok(Seq::<ExprV>::empty()))
    }
}

/// list -> (assignment ("," assignment)*)? "]" after the "[" of a list literal.
#[verifier::opaque]
pub open spec fn p_list(t: Seq<TokenV>, s: PState) -> Out<ExprV>
    decreases rem(t, s.pos), 67nat,
{
    let o1 = p_items(t, s);
    match o1.res {
        Err(e) => fail(o1, e),
        Ok(items) => {
            let o2 = seq2(
                o1,
                p_consume(t, next(s, o1), TokenType::RightBracket, "Expect ']' after list elements."@),
            );
            match o2.res {
                Err(e) => fail(o2, e),
                Ok(_) => built(o2, ExprKindV::List(items)),
            }
        },
    }
}

/// [`p_list`], unfolded.
pub proof fn lemma_list(t: Seq<TokenV>, s: PState)
    ensures
        p_list(t, s) == ({
            let o1 = p_items(t, s);
            match o1.res {
                Err(e) => fail(o1, e),
                Ok(items) => {
                    let o2 = seq2(
                        o1,
                        p_consume(
                            t,
                            next(s, o1),
                            TokenType::RightBracket,
                            "Expect ']' after list elements."@,
                        ),
                    );
                    match o2.res {
                        Err(e) => fail(o2, e),
                        Ok(_) => built(o2, ExprKindV::List(items)),
                    }
                },
            }
        }),
{
    reveal(p_list);
    reveal(p_items);
}

/// [`p_items`], unfolded.
pub proof fn lemma_items(t: Seq<TokenV>, s: PState)
    ensures
        p_items(t, s) == (if !check1(t, s.pos, TokenType::RightBracket) {
            let oa = p_assignment(t, s);
            match oa.res {
                Err(e) => fail(oa, e),
                Ok(a) => seq2(oa, p_items_rest(t, next(s, oa), seq![a])),
            }
        } else {
            stay(s, Ok(Seq::<ExprV>::empty()))
        }),
{
    reveal(p_items);
    reveal(p_assignment);
    reveal(p_items_rest);
}

/// One more element of a list literal.
pub proof fn lemma_items_rest_more(t: Seq<TokenV>, s: PState, acc: Seq<ExprV>)
    requires
        check1(t, s.pos, TokenType::Comma),
    ensures
        p_items_rest(t, s, acc) == ({
            let o = shift(1, p_assignment(t, at(s, 1)));
            match o.res {
                Err(e) => fail(o, e),
                Ok(a) => seq2(o, p_items_rest(t, next(s, o), acc.push(a))),
            }
        }),
{
    reveal(p_items_rest);
    reveal(p_assignment);
}

/// The end of the elements of a list literal.
pub proof fn lemma_items_rest_end(t: Seq<TokenV>, s: PState, acc: Seq<ExprV>)
    requires
        !check1(t, s.pos, TokenType::Comma),
    ensures
        p_items_rest(t, s, acc) == stay(s, Ok(acc)),
{
    reveal(p_items_rest);
    reveal(p_assignment);
}

/// A call in the tail of a call expression.
pub proof fn lemma_call_tail_paren(t: Seq<TokenV>, s: PState, e: ExprV)
    requires
        check1(t, s.pos, TokenType::LeftParen),
    ensures
        p_call_tail(t, s, e) == ({
            let o = shift(1, p_arguments(t, at(s, 1), e));
            match o.res {
                Err(err) => o,
                Ok(e2) => seq2(o, p_call_tail(t, next(s, o), e2)),
            }
        }),
{
    reveal(p_call_tail);
    reveal(p_arguments);
}

/// A property access in the tail of a call expression.
pub proof fn lemma_call_tail_dot(t: Seq<TokenV>, s: PState, e: ExprV)
    requires
        !check1(t, s.pos, TokenType::LeftParen),
        check1(t, s.pos, TokenType::Dot),
    ensures
        p_call_tail(t, s, e) == ({
            let o = shift(
                1,
                p_consume(t, at(s, 1), TokenType::Identifier, "Expect property name after '.'."@),
            );
            match o.res {
                Err(err) => fail(o, err),
                Ok(name) => {
                    let ob = built(o, ExprKindV::Get(Box::new(e), name));
                    seq2(
                        ob,
                        p_call_tail(
                            t,
                            next(s, ob),
                            ExprV { id: o.seed + 1, kind: ExprKindV::Get(Box::new(e), name) },
                        ),
                    )
                },
            }
        }),
{
    reveal(p_call_tail);
}

/// The end of the tail of a call expression.
pub proof fn lemma_call_tail_end(t: Seq<TokenV>, s: PState, e: ExprV)
    requires
        !check1(t, s.pos, TokenType::LeftParen),
        !check1(t, s.pos, TokenType::Dot),
        !check1(t, s.pos, TokenType::LeftBracket),
    ensures
        p_call_tail(t, s, e) == stay(s, Ok(e)),
{
    reveal(p_call_tail);
}

/// The call that an argument list makes.
pub proof fn lemma_arguments(t: Seq<TokenV>, s: PState, callee: ExprV)
    ensures
        p_arguments(t, s, callee) == ({
            let o1 = p_arg_list(t, s);
            match o1.res {
                Err(e) => fail(o1, e),
                Ok(args) => {
                    let o2 = seq2(
                        o1,
                        p_consume(
                            t,
                            next(s, o1),
                            TokenType::RightParen,
                            "Expect ')' after arguments."@,
                        ),
                    );
                    match o2.res {
                        Err(e) => fail(o2, e),
                        Ok(paren) => built(o2, ExprKindV::Call(Box::new(callee), paren, args)),
                    }
                },
            }
        }),
{
    reveal(p_arguments);
    reveal(p_arg_list);
}

/// An argument list: empty before ")", else a first argument and the rest.
pub proof fn lemma_arg_list(t: Seq<TokenV>, s: PState)
    ensures
        p_arg_list(t, s) == (if !check1(t, s.pos, TokenType::RightParen) {
            let oa = p_assignment(t, s);
            match oa.res {
                Err(e) => fail(oa, e),
                Ok(a) => seq2(oa, p_args_rest(t, next(s, oa), seq![a])),
            }
        } else {
            stay(s, Ok(Seq::<ExprV>::empty()))
        }),
{
    reveal(p_arg_list);
    reveal(p_assignment);
    reveal(p_args_rest);
}

/// One more argument.
pub proof fn lemma_args_rest_more(t: Seq<TokenV>, s: PState, acc: Seq<ExprV>)
    requires
        check1(t, s.pos, TokenType::Comma),
    ensures
        p_args_rest(t, s, acc) == ({
            let s1 = PState {
                pos: s.pos + 1,
                seed: s.seed,
                errors: if acc.len() >= 255 {
                    s.errors.push(perr(t, s.pos + 1, "Can't have more than 255 arguments."@))
                } else {
                    s.errors
                },
            };
            let o = shift(1, p_assignment(t, s1));
            match o.res {
                Err(e) => fail(o, e),
                Ok(a) => seq2(o, p_args_rest(t, next(s, o), acc.push(a))),
            }
        }),
{
    reveal(p_args_rest);
    reveal(p_assignment);
}

/// The end of an argument list.
pub proof fn lemma_args_rest_end(t: Seq<TokenV>, s: PState, acc: Seq<ExprV>)
    requires
        !check1(t, s.pos, TokenType::Comma),
    ensures
        p_args_rest(t, s, acc) == stay(s, Ok(acc)),
{
    reveal(p_args_rest);
}

/// call -> primary ( "(" arguments? ")" | "." IDENTIFIER )*
#[verifier::opaque]
pub open spec fn p_call(t: Seq<TokenV>, s: PState) -> Out<ExprV>
    decreases rem(t, s.pos), 44nat,
{
    let o1 = p_primary(t, s);
    match o1.res {
        Err(e) => o1,
        Ok(e) => seq2(o1, p_call_tail(t, next(s, o1), e)),
    }
}

/// unary -> ("!" | "-") unary | call
#[verifier::opaque]
pub open spec fn p_unary(t: Seq<TokenV>, s: PState) -> Out<ExprV>
    decreases rem(t, s.pos), 45nat,
{
    if check(t, s.pos, seq![TokenType::Bang, TokenType::Minus]) {
        let op = t[s.pos as int];
        let o = shift(1, p_unary(t, at(s, 1)));
        match o.res {
            Err(e) => o,
            Ok(right) => built(o, ExprKindV::Unary(op, Box::new(right))),
        }
    } else {
        p_call(t, s)
    }
}

/// The operand rule of a binary level.
#[verifier::opaque]
pub open spec fn p_operand(t: Seq<TokenV>, s: PState, k: Level) -> Out<ExprV>
    decreases rem(t, s.pos), (level_rank(k) - 1) as nat,
{
    match k {
        Level::Comma => p_assignment(t, s),
        Level::Or => p_level(t, s, Level::And),
        Level::And => p_level(t, s, Level::Equality),
        Level::Equality => p_level(t, s, Level::Comparison),
        Level::Comparison => p_level(t, s, Level::Term),
        Level::Term => p_level(t, s, Level::Factor),
        Level::Factor => p_unary(t, s),
    }
}

/// After a missing left operand: skip each operator of the level together
/// with the operand after it.
#[verifier::opaque]
pub open spec fn p_skip(t: Seq<TokenV>, s: PState, k: Level) -> Out<()>
    decreases rem(t, s.pos), (level_rank(k) - 2) as nat,
{
    if check(t, s.pos, level_ops(k)) {
        let o = shift(1, p_operand(t, at(s, 1), k));
        seq2(o, p_skip(t, next(s, o), k))
    } else {
        stay(s, Ok(()))
    }
}

/// The operators and operands of a level that follow the operand `left`,
/// joined left to right.
#[verifier::opaque]
pub open spec fn p_tail(t: Seq<TokenV>, s: PState, k: Level, left: ExprV) -> Out<ExprV>
    decreases rem(t, s.pos), (level_rank(k) - 2) as nat,
{
    if check(t, s.pos, level_ops(k)) {
        let op = t[s.pos as int];
        let o = shift(1, p_operand(t, at(s, 1), k));
        match o.res {
            Err(e) => o,
            Ok(right) => {
                let ob = built(o, combine(k, left, op, right));
                seq2(
                    ob,
                    p_tail(
                        t,
                        next(s, ob),
                        k,
                        ExprV { id: o.seed + 1, kind: combine(k, left, op, right) },
                    ),
                )
            },
        }
    } else {
        stay(s, Ok(left))
    }
}

/// A binary level: operand (op operand)*, where an operator in place of the
/// first operand is reported and skipped.
#[verifier::opaque]
pub open spec fn p_level(t: Seq<TokenV>, s: PState, k: Level) -> Out<ExprV>
    decreases rem(t, s.pos), level_rank(k),
{
    if check(t, s.pos, missing_left_ops(k)) {
        let e = perr(t, s.pos, missing_left_msg(k));
        fail(p_skip(t, s, k), e)
    } else {
        let o1 = p_operand(t, s, k);
        match o1.res {
            Err(e) => o1,
            Ok(left) => seq2(o1, p_tail(t, next(s, o1), k, left)),
        }
    }
}

/// ternary -> (logic_or "?" ternary ":" ternary) | logic_or
#[verifier::opaque]
pub open spec fn p_ternary(t: Seq<TokenV>, s: PState) -> Out<ExprV>
    decreases rem(t, s.pos), 64nat,
{
    if check1(t, s.pos, TokenType::Question) {
        let e = perr(t, s.pos, "Expect condition in ternary expression"@);
        let o1 = shift(1, p_ternary(t, at(s, 1)));
        let o2 = seq2(o1, p_ternary(t, next(s, o1)));
        fail(o2, e)
    } else {
        let o1 = p_level(t, s, Level::Or);
        match o1.res {
            Err(e) => o1,
            Ok(cond) => if check1(t, next(s, o1).pos, TokenType::Question) {
                let o2 = seq2(o1, shift(1, p_ternary(t, at(next(s, o1), 1))));
                match o2.res {
                    Err(e) => o2,
                    Ok(left) => {
                        let o3 = seq2(
                            o2,
                            p_consume(
                                t,
                                next(s, o2),
                                TokenType::Colon,
                                "Expect ':' after ternary expression"@,
                            ),
                        );
                        match o3.res {
                            Err(e) => fail(o3, e),
                            Ok(_) => {
                                let o4 = seq2(o3, p_ternary(t, next(s, o3)));
                                match o4.res {
                                    Err(e) => o4,
                                    Ok(right) => built(
                                        o4,
                                        ExprKindV::Ternary(
                                            Box::new(cond),
                                            Box::new(left),
                                            Box::new(right),
                                        ),
                                    ),
                                }
                            },
                        }
                    },
                }
            } else {
                o1
            },
        }
    }
}

/// assignment -> (call ".")? IDENTIFIER "=" assignment
///             | call "[" index "=" assignment | ternary
#[verifier::opaque]
pub open spec fn p_assignment(t: Seq<TokenV>, s: PState) -> Out<ExprV>
    decreases rem(t, s.pos), 65nat,
{
    let o1 = p_ternary(t, s);
    match o1.res {
        Err(e) => o1,
        Ok(target) => {
            let s1 = next(s, o1);
            if check1(t, s1.pos, TokenType::Equal) {
                let equals = t[s1.pos as int];
                let o2 = seq2(o1, shift(1, p_assignment(t, at(s1, 1))));
                match o2.res {
                    Err(e) => o2,
                    Ok(value) => match target.kind {
                        ExprKindV::Variable(name) => built(
                            o2,
                            ExprKindV::Assign(name, Box::new(value)),
                        ),
                        ExprKindV::Get(object, name) => built(
                            o2,
                            ExprKindV::SetProperty(object, name, Box::new(value)),
                        ),
                        ExprKindV::Index(list, index, bracket) => built(
                            o2,
                            ExprKindV::IndexSet(list, index, Box::new(value), bracket),
                        ),
                        _ => fail(
                            o2,
                            ParseErrorV { token: equals, message: "Invalid assignment target"@ },
                        ),
                    },
                }
            } else {
                o1
            }
        },
    }
}

/// expression -> comma
#[verifier::opaque]
pub open spec fn p_expression(t: Seq<TokenV>, s: PState) -> Out<ExprV>
    decreases rem(t, s.pos), 71nat,
{
    p_level(t, s, Level::Comma)
}

// ---------------------------------------------------------------------------
// Functions and classes
/// The parameters after the first, `acc` so far: ("," IDENTIFIER)*
#[verifier::opaque]
pub open spec fn p_params_rest(t: Seq<TokenV>, s: PState, acc: Seq<TokenV>) -> Out<Seq<TokenV>>
    decreases rem(t, s.pos), 10nat,
{
    if check1(t, s.pos, TokenType::Comma) {
        let s1 = PState {
            pos: s.pos + 1,
            seed: s.seed,
            errors: if acc.len() >= 255 {
                s.errors.push(perr(t, s.pos + 1, "Can't have more than 255 parameters."@))
            } else {
                s.errors
            },
        };
        let o = shift(1, p_consume(t, s1, TokenType::Identifier, "Expect parameter name."@));
        match o.res {
            Err(e) => fail(o, e),
            Ok(p) => seq2(o, p_params_rest(t, next(s, o), acc.push(p))),
        }
    } else {
        stay(s, Ok(acc))
    }
}

/// parameters -> (IDENTIFIER ("," IDENTIFIER)*)?
#[verifier::opaque]
pub open spec fn p_params(t: Seq<TokenV>, s: PState) -> Out<Seq<TokenV>>
    decreases rem(t, s.pos), 11nat,
{
    if !check1(t, s.pos, TokenType::RightParen) {
        let o = p_consume(t, s, TokenType::Identifier, "Expect parameter name."@);
        match o.res {
            Err(e) => fail(o, e),
            Ok(p) => seq2(o, p_params_rest(t, next(s, o), seq![p])),
        }
    } else {
        stay(s, Ok(Seq::<TokenV>::empty()))
    }
}

/// A function literal of the given kind: a getter is just a block; anything
/// else is "(" parameters? ")" "{" block.
#[verifier::opaque]
pub open spec fn p_lambda(
    t: Seq<TokenV>,
    s: PState,
    name: Option<TokenV>,
    kind: Seq<char>,
    lt: LambdaType,
) -> Out<ExprV>
    decreases rem(t, s.pos), 86nat,
{
    if lt == LambdaType::Getter {
        let o1 = p_block(t, s);
        match o1.res {
            Err(e) => fail(o1, e),
            Ok(body) => built(o1, ExprKindV::Lambda(name, Seq::empty(), body, lt)),
        }
    } else {
        let o1 = p_consume(t, s, TokenType::LeftParen, "Expect '(' after "@ + kind + "."@);
        match o1.res {
            Err(e) => fail(o1, e),
            Ok(_) => {
                let o2 = seq2(o1, p_params(t, next(s, o1)));
                match o2.res {
                    Err(e) => fail(o2, e),
                    Ok(params) => {
                        let o3 = seq2(
                            o2,
                            p_consume(
                                t,
                                next(s, o2),
                                TokenType::RightParen,
                                "Expect ')' after parameters."@,
                            ),
                        );
                        match o3.res {
                            Err(e) => fail(o3, e),
                            Ok(_) => {
                                let o4 = seq2(
                                    o3,
                                    p_consume(
                                        t,
                                        next(s, o3),
                                        TokenType::LeftBrace,
                                        "Expect '{' before "@ + kind + " body."@,
                                    ),
                                );
                                match o4.res {
                                    Err(e) => fail(o4, e),
                                    Ok(_) => {
                                        let o5 = seq2(o4, p_block(t, next(s, o4)));
                                        match o5.res {
                                            Err(e) => fail(o5, e),
                                            Ok(body) => built(
                                                o5,
                                                ExprKindV::Lambda(name, params, body, lt),
                                            ),
                                        }
                                    },
                                }
                            },
                        }
                    },
                }
            },
        }
    }
}

/// A parameter list: empty before ")", else a first name and the rest.
pub proof fn lemma_params(t: Seq<TokenV>, s: PState)
    ensures
        p_params(t, s) == (if !check1(t, s.pos, TokenType::RightParen) {
            let o = p_consume(t, s, TokenType::Identifier, "Expect parameter name."@);
            match o.res {
                Err(e) => fail(o, e),
                Ok(p) => seq2(o, p_params_rest(t, next(s, o), seq![p])),
            }
        } else {
            stay(s, Ok(Seq::<TokenV>::empty()))
        }),
{
    reveal(p_params);
    reveal(p_params_rest);
}

/// One more parameter.
pub proof fn lemma_params_rest_more(t: Seq<TokenV>, s: PState, acc: Seq<TokenV>)
    requires
        check1(t, s.pos, TokenType::Comma),
    ensures
        p_params_rest(t, s, acc) == ({
            let s1 = PState {
                pos: s.pos + 1,
                seed: s.seed,
                errors: if acc.len() >= 255 {
                    s.errors.push(perr(t, s.pos + 1, "Can't have more than 255 parameters."@))
                } else {
                    s.errors
                },
            };
            let o = shift(1, p_consume(t, s1, TokenType::Identifier, "Expect parameter name."@));
            match o.res {
                Err(e) => fail(o, e),
                Ok(p) => seq2(o, p_params_rest(t, next(s, o), acc.push(p))),
            }
        }),
{
    reveal(p_params_rest);
}

/// The end of a parameter list.
pub proof fn lemma_params_rest_end(t: Seq<TokenV>, s: PState, acc: Seq<TokenV>)
    requires
        !check1(t, s.pos, TokenType::Comma),
    ensures
        p_params_rest(t, s, acc) == stay(s, Ok(acc)),
{
    reveal(p_params_rest);
}

/// A function literal, unfolded.
pub proof fn lemma_lambda(
    t: Seq<TokenV>,
    s: PState,
    name: Option<TokenV>,
    kind: Seq<char>,
    lt: LambdaType,
)
    ensures
        p_lambda(t, s, name, kind, lt) == (if lt == LambdaType::Getter {
            let o1 = p_block(t, s);
            match o1.res {
                Err(e) => fail(o1, e),
                Ok(body) => built(o1, ExprKindV::Lambda(name, Seq::empty(), body, lt)),
            }
        } else {
            let o1 = p_consume(t, s, TokenType::LeftParen, "Expect '(' after "@ + kind + "."@);
            match o1.res {
                Err(e) => fail(o1, e),
                Ok(_) => {
                    let o2 = seq2(o1, p_params(t, next(s, o1)));
                    match o2.res {
                        Err(e) => fail(o2, e),
                        Ok(params) => {
                            let o3 = seq2(
                                o2,
                                p_consume(
                                    t,
                                    next(s, o2),
                                    TokenType::RightParen,
                                    "Expect ')' after parameters."@,
                                ),
                            );
                            match o3.res {
                                Err(e) => fail(o3, e),
                                Ok(_) => {
                                    let o4 = seq2(
                                        o3,
                                        p_consume(
                                            t,
                                            next(s, o3),
                                            TokenType::LeftBrace,
                                            "Expect '{' before "@ + kind + " body."@,
                                        ),
                                    );
                                    match o4.res {
                                        Err(e) => fail(o4, e),
                                        Ok(_) => {
                                            let o5 = seq2(o4, p_block(t, next(s, o4)));
                                            match o5.res {
                                                Err(e) => fail(o5, e),
                                                Ok(body) => built(
                                                    o5,
                                                    ExprKindV::Lambda(name, params, body, lt),
                                                ),
                                            }
                                        },
                                    }
                                },
                            }
                        },
                    }
                },
            }
        }),
{
    reveal(p_lambda);
    reveal(p_block);
    reveal(p_params);
}

/// funDecl -> IDENTIFIER function | lambda; a named function declares a variable.
#[verifier::opaque]
pub open spec fn p_function_declaration(
    t: Seq<TokenV>,
    s: PState,
    kind: Seq<char>,
    lt: LambdaType,
) -> Out<StmtV>
    decreases rem(t, s.pos), 87nat,
{
    if check1(t, s.pos, TokenType::Identifier) {
        let name = t[s.pos as int];
        let s1 = at(s, 1);
        let o = shift(
            1,
            if lt == LambdaType::Getter {
                if check1(t, s1.pos, TokenType::LeftBrace) {
                    shift(1, p_lambda(t, at(s1, 1), Some(name), "getter"@, LambdaType::Getter))
                } else {
                    p_lambda(t, s1, Some(name), "method"@, LambdaType::Function)
                }
            } else {
                p_lambda(t, s1, Some(name), kind, lt)
            },
        );
        match o.res {
            Err(e) => fail(o, e),
            Ok(f) => with(o, Ok(StmtV::Var(name, Some(f)))),
        }
    } else {
        let o = p_lambda(t, s, None, kind, lt);
        match o.res {
            Err(e) => fail(o, e),
            Ok(f) => with(o, Ok(StmtV::Expression(f))),
        }
    }
}

/// The members of a class body, `acc` so far, up to its closing brace.
#[verifier::opaque]
pub open spec fn p_class_members(t: Seq<TokenV>, s: PState, acc: Seq<StmtV>) -> Out<Seq<StmtV>>
    decreases rem(t, s.pos), 88nat,
{
    if check1(t, s.pos, TokenType::RightBrace) || at_end(t, s.pos) {
        stay(s, Ok(acc))
    } else if check1(t, s.pos, TokenType::Class) {
        let o = shift(
            1,
            p_function_declaration(t, at(s, 1), "static method"@, LambdaType::ClassStatic),
        );
        match o.res {
            Err(e) => fail(o, e),
            Ok(m) => seq2(o, p_class_members(t, next(s, o), acc.push(m))),
        }
    } else {
        let o = p_function_declaration(t, s, "method or getter"@, LambdaType::Getter);
        match o.res {
            Err(e) => fail(o, e),
            Ok(m) => if o.adv == 0 {
                stay(s, Ok(acc))
            } else {
                seq2(o, p_class_members(t, next(s, o), acc.push(m)))
            },
        }
    }
}

/// superclass -> ("<" IDENTIFIER)? : the class a class declaration inherits
/// from, read as a variable.
pub open spec fn p_superclass(t: Seq<TokenV>, s: PState) -> Out<Option<ExprV>> {
    if check1(t, s.pos, TokenType::Less) {
        let o = shift(
            1,
            p_consume(t, at(s, 1), TokenType::Identifier, "Expect superclass name."@),
        );
        match o.res {
            Err(e) => fail(o, e),
            Ok(n) => some_expr(built(o, ExprKindV::Variable(n))),
        }
    } else {
        stay(s, Ok(None))
    }
}

/// classDecl -> IDENTIFIER superclass "{" member* "}"
#[verifier::opaque]
pub open spec fn p_class_declaration(t: Seq<TokenV>, s: PState) -> Out<StmtV>
    decreases rem(t, s.pos), 79nat,
{
    let o1 = p_consume(t, s, TokenType::Identifier, "Expect class name."@);
    match o1.res {
        Err(e) => fail(o1, e),
        Ok(name) => {
            let ob = seq2(o1, p_superclass(t, next(s, o1)));
            match ob.res {
                Err(e) => fail(ob, e),
                Ok(superclass) => {
                    let o2 = seq2(
                        ob,
                        p_consume(
                            t,
                            next(s, ob),
                            TokenType::LeftBrace,
                            "Expect '{' after class body"@,
                        ),
                    );
                    match o2.res {
                        Err(e) => fail(o2, e),
                        Ok(_) => {
                            let o3 = seq2(o2, p_class_members(t, next(s, o2), Seq::empty()));
                            match o3.res {
                                Err(e) => fail(o3, e),
                                Ok(methods) => {
                                    let o4 = seq2(
                                        o3,
                                        p_consume(
                                            t,
                                            next(s, o3),
                                            TokenType::RightBrace,
                                            "Expect '}' after class body"@,
                                        ),
                                    );
                                    match o4.res {
                                        Err(e) => fail(o4, e),
                                        Ok(_) => with(
                                            o4,
                                            Ok(StmtV::Class(name, superclass, methods)),
                                        ),
                                    }
                                },
                            }
                        },
                    }
                },
            }
        },
    }
}

/// The end of a class body.
pub proof fn lemma_class_members_end(t: Seq<TokenV>, s: PState, acc: Seq<StmtV>)
    requires
        check1(t, s.pos, TokenType::RightBrace) || at_end(t, s.pos),
    ensures
        p_class_members(t, s, acc) == stay(s, Ok(acc)),
{
    reveal(p_class_members);
}

/// A static method in a class body.
pub proof fn lemma_class_members_static(t: Seq<TokenV>, s: PState, acc: Seq<StmtV>)
    requires
        !check1(t, s.pos, TokenType::RightBrace),
        !at_end(t, s.pos),
        check1(t, s.pos, TokenType::Class),
    ensures
        p_class_members(t, s, acc) == ({
            let o = shift(
                1,
                p_function_declaration(t, at(s, 1), "static method"@, LambdaType::ClassStatic),
            );
            match o.res {
                Err(e) => fail(o, e),
                Ok(m) => seq2(o, p_class_members(t, next(s, o), acc.push(m))),
            }
        }),
{
    reveal(p_class_members);
    reveal(p_function_declaration);
}

/// A method or getter in a class body.
pub proof fn lemma_class_members_method(t: Seq<TokenV>, s: PState, acc: Seq<StmtV>)
    requires
        !check1(t, s.pos, TokenType::RightBrace),
        !at_end(t, s.pos),
        !check1(t, s.pos, TokenType::Class),
    ensures
        p_class_members(t, s, acc) == ({
            let o = p_function_declaration(t, s, "method or getter"@, LambdaType::Getter);
            match o.res {
                Err(e) => fail(o, e),
                Ok(m) => if o.adv == 0 {
                    stay(s, Ok(acc))
                } else {
                    seq2(o, p_class_members(t, next(s, o), acc.push(m)))
                },
            }
        }),
{
    reveal(p_class_members);
    reveal(p_function_declaration);
}

/// A class declaration, unfolded.
pub proof fn lemma_class_declaration(t: Seq<TokenV>, s: PState)
    ensures
        p_class_declaration(t, s) == ({
            let o1 = p_consume(t, s, TokenType::Identifier, "Expect class name."@);
            match o1.res {
                Err(e) => fail(o1, e),
                Ok(name) => {
                    let ob = seq2(o1, p_superclass(t, next(s, o1)));
                    match ob.res {
                        Err(e) => fail(ob, e),
                        Ok(superclass) => {
                            let o2 = seq2(
                                ob,
                                p_consume(
                                    t,
                                    next(s, ob),
                                    TokenType::LeftBrace,
                                    "Expect '{' after class body"@,
                                ),
                            );
                            match o2.res {
                                Err(e) => fail(o2, e),
                                Ok(_) => {
                                    let o3 = seq2(
                                        o2,
                                        p_class_members(t, next(s, o2), Seq::empty()),
                                    );
                                    match o3.res {
                                        Err(e) => fail(o3, e),
                                        Ok(methods) => {
                                            let o4 = seq2(
                                                o3,
                                                p_consume(
                                                    t,
                                                    next(s, o3),
                                                    TokenType::RightBrace,
                                                    "Expect '}' after class body"@,
                                                ),
                                            );
                                            match o4.res {
                                                Err(e) => fail(o4, e),
                                                Ok(_) => with(
                                                    o4,
                                                    Ok(StmtV::Class(name, superclass, methods)),
                                                ),
                                            }
                                        },
                                    }
                                },
                            }
                        },
                    }
                },
            }
        }),
{
    reveal(p_class_declaration);
    reveal(p_class_members);
}

// ---------------------------------------------------------------------------
// Statements
/// The declarations of a block, `acc` so far, up to its closing brace.
#[verifier::opaque]
pub open spec fn p_block_items(t: Seq<TokenV>, s: PState, acc: Seq<StmtV>) -> Out<Seq<StmtV>>
    decreases rem(t, s.pos), 83nat,
{
    if check1(t, s.pos, TokenType::RightBrace) || at_end(t, s.pos) {
        stay(s, Ok(acc))
    } else {
        let o = p_declaration(t, s);
        match o.res {
            Err(e) => fail(o, e),
            Ok(d) => if o.adv == 0 {
                stay(s, Ok(acc))
            } else {
                seq2(o, p_block_items(t, next(s, o), acc.push(d)))
            },
        }
    }
}

/// block -> declaration* "}"
#[verifier::opaque]
pub open spec fn p_block(t: Seq<TokenV>, s: PState) -> Out<Seq<StmtV>>
    decreases rem(t, s.pos), 84nat,
{
    let o1 = p_block_items(t, s, Seq::empty());
    match o1.res {
        Err(e) => o1,
        Ok(stmts) => {
            let o2 = seq2(
                o1,
                p_consume(t, next(s, o1), TokenType::RightBrace, "Expect '}' after block."@),
            );
            match o2.res {
                Err(e) => fail(o2, e),
                Ok(_) => with(o2, Ok(stmts)),
            }
        },
    }
}

/// The end of a block's declarations.
pub proof fn lemma_block_items_end(t: Seq<TokenV>, s: PState, acc: Seq<StmtV>)
    requires
        check1(t, s.pos, TokenType::RightBrace) || at_end(t, s.pos),
    ensures
        p_block_items(t, s, acc) == stay(s, Ok(acc)),
{
    reveal(p_block_items);
}

/// One more declaration in a block.
pub proof fn lemma_block_items_more(t: Seq<TokenV>, s: PState, acc: Seq<StmtV>)
    requires
        !check1(t, s.pos, TokenType::RightBrace),
        !at_end(t, s.pos),
    ensures
        p_block_items(t, s, acc) == ({
            let o = p_declaration(t, s);
            match o.res {
                Err(e) => fail(o, e),
                Ok(d) => if o.adv == 0 {
                    stay(s, Ok(acc))
                } else {
                    seq2(o, p_block_items(t, next(s, o), acc.push(d)))
                },
            }
        }),
{
    reveal(p_block_items);
    reveal(p_declaration);
}

/// A block, unfolded.
pub proof fn lemma_block(t: Seq<TokenV>, s: PState)
    ensures
        p_block(t, s) == ({
            let o1 = p_block_items(t, s, Seq::empty());
            match o1.res {
                Err(e) => o1,
                Ok(stmts) => {
                    let o2 = seq2(
                        o1,
                        p_consume(t, next(s, o1), TokenType::RightBrace, "Expect '}' after block."@),
                    );
                    match o2.res {
                        Err(e) => fail(o2, e),
                        Ok(_) => with(o2, Ok(stmts)),
                    }
                },
            }
        }),
{
    reveal(p_block);
    reveal(p_block_items);
}

/// An expression followed by ";".
#[verifier::opaque]
pub open spec fn p_terminated(t: Seq<TokenV>, s: PState) -> Out<ExprV>
    decreases rem(t, s.pos), 72nat,
{
    let o1 = p_expression(t, s);
    match o1.res {
        Err(e) => o1,
        Ok(v) => {
            let o2 = seq2(
                o1,
                p_consume(t, next(s, o1), TokenType::Semicolon, "Expect ';' after value."@),
            );
            match o2.res {
                Err(e) => fail(o2, e),
                Ok(_) => with(o2, Ok(v)),
            }
        },
    }
}

/// exprStmt -> expression ";"
#[verifier::opaque]
pub open spec fn p_expression_statement(t: Seq<TokenV>, s: PState) -> Out<StmtV>
    decreases rem(t, s.pos), 73nat,
{
    let o = p_terminated(t, s);
    match o.res {
        Err(e) => fail(o, e),
        Ok(v) => with(o, Ok(StmtV::Expression(v))),
    }
}

/// printStmt -> "print" expression ";" (after "print")
#[verifier::opaque]
pub open spec fn p_print(t: Seq<TokenV>, s: PState) -> Out<StmtV>
    decreases rem(t, s.pos), 74nat,
{
    let o = p_terminated(t, s);
    match o.res {
        Err(e) => fail(o, e),
        Ok(v) => with(o, Ok(StmtV::Print(v))),
    }
}

/// returnStmt -> "return" expression? ";" (after "return")
#[verifier::opaque]
pub open spec fn p_return(t: Seq<TokenV>, s: PState) -> Out<StmtV>
    decreases rem(t, s.pos), 75nat,
{
    let keyword = t[s.pos - 1];
    let o1 = if !check1(t, s.pos, TokenType::Semicolon) {
        some_expr(p_expression(t, s))
    } else {
        stay(s, Ok(None))
    };
    match o1.res {
        Err(e) => fail(o1, e),
        Ok(value) => {
            let o2 = seq2(
                o1,
                p_consume(t, next(s, o1), TokenType::Semicolon, "Expect ';' after return value."@),
            );
            match o2.res {
                Err(e) => fail(o2, e),
                Ok(_) => with(o2, Ok(StmtV::Return(keyword, value))),
            }
        },
    }
}

/// breakStmt -> "break" ";" (after "break")
pub open spec fn p_break(t: Seq<TokenV>, s: PState) -> Out<StmtV> {
    let keyword = t[s.pos - 1];
    let o = p_consume(t, s, TokenType::Semicolon, "Expect ';' after break."@);
    match o.res {
        Err(e) => fail(o, e),
        Ok(_) => with(o, Ok(StmtV::Break(keyword))),
    }
}

/// "(" expression ")" statement, the shape shared by `if` and `while`.
#[verifier::opaque]
pub open spec fn p_cond_body(t: Seq<TokenV>, s: PState) -> Out<(ExprV, StmtV)>
    decreases rem(t, s.pos), 76nat,
{
    let o1 = p_consume(t, s, TokenType::LeftParen, "Expect '(' after 'if'."@);
    match o1.res {
        Err(e) => fail(o1, e),
        Ok(_) => {
            let o2 = seq2(o1, p_expression(t, next(s, o1)));
            match o2.res {
                Err(e) => fail(o2, e),
                Ok(cond) => {
                    let o3 = seq2(
                        o2,
                        p_consume(
                            t,
                            next(s, o2),
                            TokenType::RightParen,
                            "Expect ')' after if condition."@,
                        ),
                    );
                    match o3.res {
                        Err(e) => fail(o3, e),
                        Ok(_) => {
                            let o4 = seq2(o3, p_statement(t, next(s, o3)));
                            match o4.res {
                                Err(e) => fail(o4, e),
                                Ok(body) => with(o4, Ok((cond, body))),
                            }
                        },
                    }
                },
            }
        },
    }
}

/// ifStmt -> "if" "(" expression ")" statement ("else" statement)? (after "if")
#[verifier::opaque]
pub open spec fn p_if(t: Seq<TokenV>, s: PState) -> Out<StmtV>
    decreases rem(t, s.pos), 77nat,
{
    let o1 = p_cond_body(t, s);
    match o1.res {
        Err(e) => fail(o1, e),
        Ok((cond, then_branch)) => {
            let s1 = next(s, o1);
            if check1(t, s1.pos, TokenType::Else) {
                let o2 = seq2(o1, shift(1, p_statement(t, at(s1, 1))));
                match o2.res {
                    Err(e) => fail(o2, e),
                    Ok(else_branch) => with(
                        o2,
                        Ok(StmtV::If(cond, Box::new(then_branch), Some(Box::new(else_branch)))),
                    ),
                }
            } else {
                with(o1, Ok(StmtV::If(cond, Box::new(then_branch), None)))
            }
        },
    }
}

/// whileStmt -> "while" "(" expression ")" statement (after "while")
#[verifier::opaque]
pub open spec fn p_while(t: Seq<TokenV>, s: PState) -> Out<StmtV>
    decreases rem(t, s.pos), 78nat,
{
    let o = p_cond_body(t, s);
    match o.res {
        Err(e) => fail(o, e),
        Ok((cond, body)) => with(o, Ok(StmtV::While(cond, Box::new(body)))),
    }
}

/// The loop that a `for` statement stands for.
pub open spec fn desugar_for(
    init: Option<StmtV>,
    cond: ExprV,
    inc: Option<ExprV>,
    body: StmtV,
) -> StmtV {
    let with_inc = match inc {
        Some(i) => StmtV::Block(seq![body, StmtV::Expression(i)]),
        None => body,
    };
    let looped = StmtV::While(cond, Box::new(with_inc));
    match init {
        Some(x) => StmtV::Block(seq![x, looped]),
        None => looped,
    }
}

/// The clauses of a `for` after its initializer `init`: condition ";" increment ")" body,
/// desugared into a while loop.
#[verifier::opaque]
pub open spec fn p_for_clauses(t: Seq<TokenV>, s: PState, init: Option<StmtV>) -> Out<StmtV>
    decreases rem(t, s.pos), 80nat,
{
    let o3 = if !check1(t, s.pos, TokenType::Semicolon) {
        p_expression(t, s)
    } else {
        built(stay(s, Ok(())), ExprKindV::Literal(LiteralV::Boolean(true)))
    };
    match o3.res {
        Err(e) => fail(o3, e),
        Ok(cond) => {
            let o4 = seq2(
                o3,
                p_consume(t, next(s, o3), TokenType::Semicolon, "Expect ';' after loop condition"@),
            );
            match o4.res {
                Err(e) => fail(o4, e),
                Ok(_) => {
                    let s4 = next(s, o4);
                    let o5 = seq2(
                        o4,
                        if !check1(t, s4.pos, TokenType::RightParen) {
                            some_expr(p_expression(t, s4))
                        } else {
                            stay(s4, Ok(None))
                        },
                    );
                    match o5.res {
                        Err(e) => fail(o5, e),
                        Ok(inc) => {
                            let o6 = seq2(
                                o5,
                                p_consume(
                                    t,
                                    next(s, o5),
                                    TokenType::RightParen,
                                    "Expect ')' after clauses."@,
                                ),
                            );
                            match o6.res {
                                Err(e) => fail(o6, e),
                                Ok(_) => {
                                    let o7 = seq2(o6, p_statement(t, next(s, o6)));
                                    match o7.res {
                                        Err(e) => fail(o7, e),
                                        Ok(body) => with(o7, Ok(desugar_for(init, cond, inc, body))),
                                    }
                                },
                            }
                        },
                    }
                },
            }
        },
    }
}

/// forStmt -> "for" "(" (varDecl | exprStmt | ";") expression? ";" expression? ")" statement
/// (after "for"), desugared into a while loop.
#[verifier::opaque]
pub open spec fn p_for(t: Seq<TokenV>, s: PState) -> Out<StmtV>
    decreases rem(t, s.pos), 81nat,
{
    let o1 = p_consume(t, s, TokenType::LeftParen, "Expect '(' after 'for'."@);
    match o1.res {
        Err(e) => fail(o1, e),
        Ok(_) => {
            let s1 = next(s, o1);
            let o2 = seq2(
                o1,
                if check1(t, s1.pos, TokenType::Semicolon) {
                    with(moved(s1, 1), Ok(None))
                } else if check1(t, s1.pos, TokenType::Var) {
                    shift(1, some_stmt(p_var_declaration(t, at(s1, 1))))
                } else {
                    some_stmt(p_expression_statement(t, s1))
                },
            );
            match o2.res {
                Err(e) => fail(o2, e),
                Ok(init) => seq2(o2, p_for_clauses(t, next(s, o2), init)),
            }
        },
    }
}

/// statement -> ifStmt | whileStmt | forStmt | printStmt | breakStmt | returnStmt
///            | "{" block | exprStmt
#[verifier::opaque]
pub open spec fn p_statement(t: Seq<TokenV>, s: PState) -> Out<StmtV>
    decreases rem(t, s.pos), 81nat,
{
    if check1(t, s.pos, TokenType::If) {
        shift(1, p_if(t, at(s, 1)))
    } else if check1(t, s.pos, TokenType::While) {
        shift(1, p_while(t, at(s, 1)))
    } else if check1(t, s.pos, TokenType::For) {
        shift(1, p_for(t, at(s, 1)))
    } else if check1(t, s.pos, TokenType::Print) {
        shift(1, p_print(t, at(s, 1)))
    } else if check1(t, s.pos, TokenType::Break) {
        shift(1, p_break(t, at(s, 1)))
    } else if check1(t, s.pos, TokenType::Return) {
        shift(1, p_return(t, at(s, 1)))
    } else if check1(t, s.pos, TokenType::LeftBrace) {
        let o = shift(1, p_block(t, at(s, 1)));
        match o.res {
            Err(e) => fail(o, e),
            Ok(b) => with(o, Ok(StmtV::Block(b))),
        }
    } else {
        p_expression_statement(t, s)
    }
}

/// varDecl -> "var" IDENTIFIER ("=" expression)? ";" (after "var")
#[verifier::opaque]
pub open spec fn p_var_declaration(t: Seq<TokenV>, s: PState) -> Out<StmtV>
    decreases rem(t, s.pos), 20nat,
{
    let o1 = p_consume(t, s, TokenType::Identifier, "Expect variable name."@);
    match o1.res {
        Err(e) => fail(o1, e),
        Ok(name) => {
            let s1 = next(s, o1);
            let o2 = seq2(
                o1,
                if check1(t, s1.pos, TokenType::Equal) {
                    shift(1, some_expr(p_expression(t, at(s1, 1))))
                } else {
                    stay(s1, Ok(None))
                },
            );
            match o2.res {
                Err(e) => fail(o2, e),
                Ok(init) => {
                    let o3 = seq2(
                        o2,
                        p_consume(
                            t,
                            next(s, o2),
                            TokenType::Semicolon,
                            "Expect ';' after variable declaration."@,
                        ),
                    );
                    match o3.res {
                        Err(e) => fail(o3, e),
                        Ok(_) => with(o3, Ok(StmtV::Var(name, init))),
                    }
                },
            }
        },
    }
}

/// declaration -> "var" varDecl | "fun" funDecl | "class" classDecl | statement
#[verifier::opaque]
pub open spec fn p_declaration(t: Seq<TokenV>, s: PState) -> Out<StmtV>
    decreases rem(t, s.pos), 82nat,
{
    if check1(t, s.pos, TokenType::Var) {
        shift(1, p_var_declaration(t, at(s, 1)))
    } else if check1(t, s.pos, TokenType::Fun) {
        shift(1, p_function_declaration(t, at(s, 1), "function"@, LambdaType::Function))
    } else if check1(t, s.pos, TokenType::Class) {
        shift(1, p_class_declaration(t, at(s, 1)))
    } else {
        p_statement(t, s)
    }
}

/// An expression and its ";", unfolded.
pub proof fn lemma_terminated(t: Seq<TokenV>, s: PState)
    ensures
        p_terminated(t, s) == ({
            let o1 = p_expression(t, s);
            match o1.res {
                Err(e) => o1,
                Ok(v) => {
                    let o2 = seq2(
                        o1,
                        p_consume(t, next(s, o1), TokenType::Semicolon, "Expect ';' after value."@),
                    );
                    match o2.res {
                        Err(e) => fail(o2, e),
                        Ok(_) => with(o2, Ok(v)),
                    }
                },
            }
        }),
{
    reveal(p_terminated);
    reveal(p_expression);
}

/// A print statement, unfolded.
pub proof fn lemma_print(t: Seq<TokenV>, s: PState)
    ensures
        p_print(t, s) == ({
            let o = p_terminated(t, s);
            match o.res {
                Err(e) => fail(o, e),
                Ok(v) => with(o, Ok(StmtV::Print(v))),
            }
        }),
{
    reveal(p_print);
    reveal(p_terminated);
}

/// An expression statement, unfolded.
pub proof fn lemma_expression_statement(t: Seq<TokenV>, s: PState)
    ensures
        p_expression_statement(t, s) == ({
            let o = p_terminated(t, s);
            match o.res {
                Err(e) => fail(o, e),
                Ok(v) => with(o, Ok(StmtV::Expression(v))),
            }
        }),
{
    reveal(p_expression_statement);
    reveal(p_terminated);
}

/// A return statement, unfolded.
pub proof fn lemma_return(t: Seq<TokenV>, s: PState)
    ensures
        p_return(t, s) == ({
            let keyword = t[s.pos - 1];
            let o1 = if !check1(t, s.pos, TokenType::Semicolon) {
                some_expr(p_expression(t, s))
            } else {
                stay(s, Ok(None))
            };
            match o1.res {
                Err(e) => fail(o1, e),
                Ok(value) => {
                    let o2 = seq2(
                        o1,
                        p_consume(
                            t,
                            next(s, o1),
                            TokenType::Semicolon,
                            "Expect ';' after return value."@,
                        ),
                    );
                    match o2.res {
                        Err(e) => fail(o2, e),
                        Ok(_) => with(o2, Ok(StmtV::Return(keyword, value))),
                    }
                },
            }
        }),
{
    reveal(p_return);
    reveal(p_expression);
}

/// A variable declaration, unfolded.
pub proof fn lemma_var_declaration(t: Seq<TokenV>, s: PState)
    ensures
        p_var_declaration(t, s) == ({
            let o1 = p_consume(t, s, TokenType::Identifier, "Expect variable name."@);
            match o1.res {
                Err(e) => fail(o1, e),
                Ok(name) => {
                    let s1 = next(s, o1);
                    let o2 = seq2(
                        o1,
                        if check1(t, s1.pos, TokenType::Equal) {
                            shift(1, some_expr(p_expression(t, at(s1, 1))))
                        } else {
                            stay(s1, Ok(None))
                        },
                    );
                    match o2.res {
                        Err(e) => fail(o2, e),
                        Ok(init) => {
                            let o3 = seq2(
                                o2,
                                p_consume(
                                    t,
                                    next(s, o2),
                                    TokenType::Semicolon,
                                    "Expect ';' after variable declaration."@,
                                ),
                            );
                            match o3.res {
                                Err(e) => fail(o3, e),
                                Ok(_) => with(o3, Ok(StmtV::Var(name, init))),
                            }
                        },
                    }
                },
            }
        }),
{
    reveal(p_var_declaration);
    reveal(p_expression);
}

/// The condition and body of `if` and `while`, unfolded.
pub proof fn lemma_cond_body(t: Seq<TokenV>, s: PState)
    ensures
        p_cond_body(t, s) == ({
            let o1 = p_consume(t, s, TokenType::LeftParen, "Expect '(' after 'if'."@);
            match o1.res {
                Err(e) => fail(o1, e),
                Ok(_) => {
                    let o2 = seq2(o1, p_expression(t, next(s, o1)));
                    match o2.res {
                        Err(e) => fail(o2, e),
                        Ok(cond) => {
                            let o3 = seq2(
                                o2,
                                p_consume(
                                    t,
                                    next(s, o2),
                                    TokenType::RightParen,
                                    "Expect ')' after if condition."@,
                                ),
                            );
                            match o3.res {
                                Err(e) => fail(o3, e),
                                Ok(_) => {
                                    let o4 = seq2(o3, p_statement(t, next(s, o3)));
                                    match o4.res {
                                        Err(e) => fail(o4, e),
                                        Ok(body) => with(o4, Ok((cond, body))),
                                    }
                                },
                            }
                        },
                    }
                },
            }
        }),
{
    reveal(p_cond_body);
    reveal(p_expression);
    reveal(p_statement);
}

/// An if statement, unfolded.
pub proof fn lemma_if(t: Seq<TokenV>, s: PState)
    ensures
        p_if(t, s) == ({
            let o1 = p_cond_body(t, s);
            match o1.res {
                Err(e) => fail(o1, e),
                Ok((cond, then_branch)) => {
                    let s1 = next(s, o1);
                    if check1(t, s1.pos, TokenType::Else) {
                        let o2 = seq2(o1, shift(1, p_statement(t, at(s1, 1))));
                        match o2.res {
                            Err(e) => fail(o2, e),
                            Ok(else_branch) => with(
                                o2,
                                Ok(
                                    StmtV::If(
                                        cond,
                                        Box::new(then_branch),
                                        Some(Box::new(else_branch)),
                                    ),
                                ),
                            ),
                        }
                    } else {
                        with(o1, Ok(StmtV::If(cond, Box::new(then_branch), None)))
                    }
                },
            }
        }),
{
    reveal(p_if);
    reveal(p_cond_body);
    reveal(p_statement);
}

/// A while statement, unfolded.
pub proof fn lemma_while(t: Seq<TokenV>, s: PState)
    ensures
        p_while(t, s) == ({
            let o = p_cond_body(t, s);
            match o.res {
                Err(e) => fail(o, e),
                Ok((cond, body)) => with(o, Ok(StmtV::While(cond, Box::new(body)))),
            }
        }),
{
    reveal(p_while);
    reveal(p_cond_body);
}

/// A for statement, unfolded.
pub proof fn lemma_for(t: Seq<TokenV>, s: PState)
    ensures
        p_for(t, s) == ({
            let o1 = p_consume(t, s, TokenType::LeftParen, "Expect '(' after 'for'."@);
            match o1.res {
                Err(e) => fail(o1, e),
                Ok(_) => {
                    let s1 = next(s, o1);
                    let o2 = seq2(
                        o1,
                        if check1(t, s1.pos, TokenType::Semicolon) {
                            with(moved(s1, 1), Ok(None))
                        } else if check1(t, s1.pos, TokenType::Var) {
                            shift(1, some_stmt(p_var_declaration(t, at(s1, 1))))
                        } else {
                            some_stmt(p_expression_statement(t, s1))
                        },
                    );
                    match o2.res {
                        Err(e) => fail(o2, e),
                        Ok(init) => seq2(o2, p_for_clauses(t, next(s, o2), init)),
                    }
                },
            }
        }),
{
    reveal(p_for);
    reveal(p_var_declaration);
    reveal(p_expression_statement);
    reveal(p_for_clauses);
}

/// The clauses of a for statement, unfolded.
pub proof fn lemma_for_clauses(t: Seq<TokenV>, s: PState, init: Option<StmtV>)
    ensures
        p_for_clauses(t, s, init) == ({
            let o3 = if !check1(t, s.pos, TokenType::Semicolon) {
                p_expression(t, s)
            } else {
                built(stay(s, Ok(())), ExprKindV::Literal(LiteralV::Boolean(true)))
            };
            match o3.res {
                Err(e) => fail(o3, e),
                Ok(cond) => {
                    let o4 = seq2(
                        o3,
                        p_consume(
                            t,
                            next(s, o3),
                            TokenType::Semicolon,
                            "Expect ';' after loop condition"@,
                        ),
                    );
                    match o4.res {
                        Err(e) => fail(o4, e),
                        Ok(_) => {
                            let s4 = next(s, o4);
                            let o5 = seq2(
                                o4,
                                if !check1(t, s4.pos, TokenType::RightParen) {
                                    some_expr(p_expression(t, s4))
                                } else {
                                    stay(s4, Ok(None))
                                },
                            );
                            match o5.res {
                                Err(e) => fail(o5, e),
                                Ok(inc) => {
                                    let o6 = seq2(
                                        o5,
                                        p_consume(
                                            t,
                                            next(s, o5),
                                            TokenType::RightParen,
                                            "Expect ')' after clauses."@,
                                        ),
                                    );
                                    match o6.res {
                                        Err(e) => fail(o6, e),
                                        Ok(_) => {
                                            let o7 = seq2(o6, p_statement(t, next(s, o6)));
                                            match o7.res {
                                                Err(e) => fail(o7, e),
                                                Ok(body) => with(
                                                    o7,
                                                    Ok(desugar_for(init, cond, inc, body)),
                                                ),
                                            }
                                        },
                                    }
                                },
                            }
                        },
                    }
                },
            }
        }),
{
    reveal(p_for_clauses);
    reveal(p_expression);
    reveal(p_statement);
}

/// A statement, by its first token.
pub proof fn lemma_statement(t: Seq<TokenV>, s: PState)
    ensures
        p_statement(t, s) == (if check1(t, s.pos, TokenType::If) {
            shift(1, p_if(t, at(s, 1)))
        } else if check1(t, s.pos, TokenType::While) {
            shift(1, p_while(t, at(s, 1)))
        } else if check1(t, s.pos, TokenType::For) {
            shift(1, p_for(t, at(s, 1)))
        } else if check1(t, s.pos, TokenType::Print) {
            shift(1, p_print(t, at(s, 1)))
        } else if check1(t, s.pos, TokenType::Break) {
            shift(1, p_break(t, at(s, 1)))
        } else if check1(t, s.pos, TokenType::Return) {
            shift(1, p_return(t, at(s, 1)))
        } else if check1(t, s.pos, TokenType::LeftBrace) {
            let o = shift(1, p_block(t, at(s, 1)));
            match o.res {
                Err(e) => fail(o, e),
                Ok(b) => with(o, Ok(StmtV::Block(b))),
            }
        } else {
            p_expression_statement(t, s)
        }),
{
    reveal(p_statement);
    reveal(p_if);
    reveal(p_while);
    reveal(p_for);
    reveal(p_print);
    reveal(p_return);
    reveal(p_block);
    reveal(p_expression_statement);
}

/// A declaration, by its first token.
pub proof fn lemma_declaration(t: Seq<TokenV>, s: PState)
    ensures
        p_declaration(t, s) == (if check1(t, s.pos, TokenType::Var) {
            shift(1, p_var_declaration(t, at(s, 1)))
        } else if check1(t, s.pos, TokenType::Fun) {
            shift(1, p_function_declaration(t, at(s, 1), "function"@, LambdaType::Function))
        } else if check1(t, s.pos, TokenType::Class) {
            shift(1, p_class_declaration(t, at(s, 1)))
        } else {
            p_statement(t, s)
        }),
{
    reveal(p_declaration);
    reveal(p_var_declaration);
    reveal(p_function_declaration);
    reveal(p_class_declaration);
    reveal(p_statement);
}

/// [`p_call`], unfolded.
pub proof fn lemma_call(t: Seq<TokenV>, s: PState)
    ensures
        p_call(t, s) == ({
            let o1 = p_primary(t, s);
            match o1.res {
                Err(e) => o1,
                Ok(e) => seq2(o1, p_call_tail(t, next(s, o1), e)),
            }
        }),
{
    reveal(p_call);
    reveal(p_call_tail);
    reveal(p_primary);
}

/// [`p_unary`], unfolded.
pub proof fn lemma_unary(t: Seq<TokenV>, s: PState)
    ensures
        p_unary(t, s) == ({
            if check(t, s.pos, seq![TokenType::Bang, TokenType::Minus]) {
                let op = t[s.pos as int];
                let o = shift(1, p_unary(t, at(s, 1)));
                match o.res {
                    Err(e) => o,
                    Ok(right) => built(o, ExprKindV::Unary(op, Box::new(right))),
                }
            } else {
                p_call(t, s)
            }
        }),
{
    reveal(p_unary);
    reveal(p_call);
}

/// [`p_operand`], unfolded.
pub proof fn lemma_operand(t: Seq<TokenV>, s: PState, k: Level)
    ensures
        p_operand(t, s, k) == ({
            match k {
                Level::Comma => p_assignment(t, s),
                Level::Or => p_level(t, s, Level::And),
                Level::And => p_level(t, s, Level::Equality),
                Level::Equality => p_level(t, s, Level::Comparison),
                Level::Comparison => p_level(t, s, Level::Term),
                Level::Term => p_level(t, s, Level::Factor),
                Level::Factor => p_unary(t, s),
            }
        }),
{
    reveal(p_operand);
    reveal(p_assignment);
    reveal(p_level);
    reveal(p_unary);
}

/// [`p_skip`], unfolded.
pub proof fn lemma_skip(t: Seq<TokenV>, s: PState, k: Level)
    ensures
        p_skip(t, s, k) == ({
            if check(t, s.pos, level_ops(k)) {
                let o = shift(1, p_operand(t, at(s, 1), k));
                seq2(o, p_skip(t, next(s, o), k))
            } else {
                stay(s, Ok(()))
            }
        }),
{
    reveal(p_skip);
    reveal(p_operand);
}

/// [`p_tail`], unfolded.
pub proof fn lemma_tail(t: Seq<TokenV>, s: PState, k: Level, left: ExprV)
    ensures
        p_tail(t, s, k, left) == ({
            if check(t, s.pos, level_ops(k)) {
                let op = t[s.pos as int];
                let o = shift(1, p_operand(t, at(s, 1), k));
                match o.res {
                    Err(e) => o,
                    Ok(right) => {
                        let ob = built(o, combine(k, left, op, right));
                        seq2(
                            ob,
                            p_tail(
                                t,
                                next(s, ob),
                                k,
                                ExprV { id: o.seed + 1, kind: combine(k, left, op, right) },
                            ),
                        )
                    },
                }
            } else {
                stay(s, Ok(left))
            }
        }),
{
    reveal(p_tail);
    reveal(p_operand);
}

/// [`p_level`], unfolded.
pub proof fn lemma_level(t: Seq<TokenV>, s: PState, k: Level)
    ensures
        p_level(t, s, k) == ({
            if check(t, s.pos, missing_left_ops(k)) {
                let e = perr(t, s.pos, missing_left_msg(k));
                fail(p_skip(t, s, k), e)
            } else {
                let o1 = p_operand(t, s, k);
                match o1.res {
                    Err(e) => o1,
                    Ok(left) => seq2(o1, p_tail(t, next(s, o1), k, left)),
                }
            }
        }),
{
    reveal(p_level);
    reveal(p_operand);
    reveal(p_skip);
    reveal(p_tail);
}

/// [`p_ternary`], unfolded.
pub proof fn lemma_ternary(t: Seq<TokenV>, s: PState)
    ensures
        p_ternary(t, s) == ({
            if check1(t, s.pos, TokenType::Question) {
                let e = perr(t, s.pos, "Expect condition in ternary expression"@);
                let o1 = shift(1, p_ternary(t, at(s, 1)));
                let o2 = seq2(o1, p_ternary(t, next(s, o1)));
                fail(o2, e)
            } else {
                let o1 = p_level(t, s, Level::Or);
                match o1.res {
                    Err(e) => o1,
                    Ok(cond) => if check1(t, next(s, o1).pos, TokenType::Question) {
                        let o2 = seq2(o1, shift(1, p_ternary(t, at(next(s, o1), 1))));
                        match o2.res {
                            Err(e) => o2,
                            Ok(left) => {
                                let o3 = seq2(
                                    o2,
                                    p_consume(
                                        t,
                                        next(s, o2),
                                        TokenType::Colon,
                                        "Expect ':' after ternary expression"@,
                                    ),
                                );
                                match o3.res {
                                    Err(e) => fail(o3, e),
                                    Ok(_) => {
                                        let o4 = seq2(o3, p_ternary(t, next(s, o3)));
                                        match o4.res {
                                            Err(e) => o4,
                                            Ok(right) => built(
                                                o4,
                                                ExprKindV::Ternary(
                                                    Box::new(cond),
                                                    Box::new(left),
                                                    Box::new(right),
                                                ),
                                            ),
                                        }
                                    },
                                }
                            },
                        }
                    } else {
                        o1
                    },
                }
            }
        }),
{
    reveal(p_ternary);
    reveal(p_level);
}

/// [`p_assignment`], unfolded.
pub proof fn lemma_assignment(t: Seq<TokenV>, s: PState)
    ensures
        p_assignment(t, s) == ({
            let o1 = p_ternary(t, s);
            match o1.res {
                Err(e) => o1,
                Ok(target) => {
                    let s1 = next(s, o1);
                    if check1(t, s1.pos, TokenType::Equal) {
                        let equals = t[s1.pos as int];
                        let o2 = seq2(o1, shift(1, p_assignment(t, at(s1, 1))));
                        match o2.res {
                            Err(e) => o2,
                            Ok(value) => match target.kind {
                                ExprKindV::Variable(name) => built(
                                    o2,
                                    ExprKindV::Assign(name, Box::new(value)),
                                ),
                                ExprKindV::Get(object, name) => built(
                                    o2,
                                    ExprKindV::SetProperty(object, name, Box::new(value)),
                                ),
                                ExprKindV::Index(list, index, bracket) => built(
                                    o2,
                                    ExprKindV::IndexSet(list, index, Box::new(value), bracket),
                                ),
                                _ => fail(
                                    o2,
                                    ParseErrorV { token: equals, message: "Invalid assignment target"@ },
                                ),
                            },
                        }
                    } else {
                        o1
                    }
                },
            }
        }),
{
    reveal(p_assignment);
    reveal(p_ternary);
}

/// [`p_expression`], unfolded.
pub proof fn lemma_expression(t: Seq<TokenV>, s: PState)
    ensures
        p_expression(t, s) == ({
            p_level(t, s, Level::Comma)
        }),
{
    reveal(p_expression);
    reveal(p_level);
}

/// [`p_function_declaration`], unfolded.
pub proof fn lemma_function_declaration(
    t: Seq<TokenV>,
    s: PState,
    kind: Seq<char>,
    lt: LambdaType,
)
    ensures
        p_function_declaration(t, s, kind, lt) == ({
            if check1(t, s.pos, TokenType::Identifier) {
                let name = t[s.pos as int];
                let s1 = at(s, 1);
                let o = shift(
                    1,
                    if lt == LambdaType::Getter {
                        if check1(t, s1.pos, TokenType::LeftBrace) {
                            shift(1, p_lambda(t, at(s1, 1), Some(name), "getter"@, LambdaType::Getter))
                        } else {
                            p_lambda(t, s1, Some(name), "method"@, LambdaType::Function)
                        }
                    } else {
                        p_lambda(t, s1, Some(name), kind, lt)
                    },
                );
                match o.res {
                    Err(e) => fail(o, e),
                    Ok(f) => with(o, Ok(StmtV::Var(name, Some(f)))),
                }
            } else {
                let o = p_lambda(t, s, None, kind, lt);
                match o.res {
                    Err(e) => fail(o, e),
                    Ok(f) => with(o, Ok(StmtV::Expression(f))),
                }
            }
        }),
{
    reveal(p_function_declaration);
    reveal(p_lambda);
}

/// A block that is parsed consumes at least its closing brace.
pub proof fn lemma_block_progress(t: Seq<TokenV>, s: PState)
    ensures
        p_block(t, s).res is Ok ==> p_block(t, s).adv > 0,
{
    lemma_block(t, s);
}

/// A declaration that is parsed consumes at least one token, so the loops
/// over the declarations of a block and of a program always move on.
pub proof fn lemma_declaration_progress(t: Seq<TokenV>, s: PState)
    ensures
        p_declaration(t, s).res is Ok ==> p_declaration(t, s).adv > 0,
{
    lemma_declaration(t, s);
    lemma_statement(t, s);
    lemma_expression_statement(t, s);
    lemma_terminated(t, s);
}

/// A member of a class that is parsed consumes at least one token.
pub proof fn lemma_function_declaration_progress(
    t: Seq<TokenV>,
    s: PState,
    kind: Seq<char>,
    lt: LambdaType,
)
    ensures
        p_function_declaration(t, s, kind, lt).res is Ok ==> p_function_declaration(
            t,
            s,
            kind,
            lt,
        ).adv > 0,
{
    lemma_function_declaration(t, s, kind, lt);
    lemma_lambda(t, s, None, kind, lt);
    lemma_block_progress(t, s);
}

// ---------------------------------------------------------------------------
// Programs and error recovery
/// The token types that start a new statement, where recovery stops.
pub open spec fn is_sync_start(tt: TokenType) -> bool {
    tt == TokenType::Class || tt == TokenType::Fun || tt == TokenType::Var || tt
        == TokenType::For || tt == TokenType::If || tt == TokenType::While || tt
        == TokenType::Print || tt == TokenType::Return
}

/// How many tokens recovery skips from `pos`, once it has stepped past the
/// offending token: up to just after a ";", or up to a statement keyword, or
/// to the end.
pub open spec fn sync_rest(t: Seq<TokenV>, pos: nat) -> nat
    decreases rem(t, pos),
{
    if at_end(t, pos) || (pos >= 1 && t[pos - 1].token_type == TokenType::Semicolon)
        || is_sync_start(t[pos as int].token_type) {
        0
    } else {
        1 + sync_rest(t, pos + 1)
    }
}

/// How many tokens recovery from an error at `pos` skips.
pub open spec fn sync_len(t: Seq<TokenV>, pos: nat) -> nat {
    if at_end(t, pos) {
        0
    } else {
        1 + sync_rest(t, pos + 1)
    }
}

/// One declaration of a program; after an error, the error is recorded and
/// the parser skips ahead.
pub open spec fn p_try_program(t: Seq<TokenV>, s: PState) -> Out<Option<StmtV>> {
    let o = p_declaration(t, s);
    match o.res {
        Ok(d) => with(o, Ok(Some(d))),
        Err(e) => {
            let p = s.pos + o.adv;
            Out { adv: o.adv + sync_len(t, p), seed: o.seed, errors: o.errors.push(e), res: Ok(None) }
        },
    }
}

/// program -> declaration* EOF: the declarations read from `s` on, after `acc`,
/// and the errors.
pub open spec fn p_program(t: Seq<TokenV>, s: PState, acc: Seq<StmtV>) -> (
    Seq<StmtV>,
    Seq<ParseErrorV>,
)
    decreases rem(t, s.pos),
{
    if at_end(t, s.pos) {
        (acc, s.errors)
    } else {
        let o = p_try_program(t, s);
        if o.adv == 0 {
            (acc, o.errors)
        } else {
            p_program(
                t,
                next(s, o),
                match o.res {
                    Ok(Some(d)) => acc.push(d),
                    _ => acc,
                },
            )
        }
    }
}

/// Short of the end, each step of a program consumes at least one token:
/// a declaration, or the tokens skipped after an error.
pub proof fn lemma_program_progress(t: Seq<TokenV>, s: PState)
    requires
        !at_end(t, s.pos),
    ensures
        p_try_program(t, s).adv > 0,
{
    lemma_declaration_progress(t, s);
}

/// The statements and errors that parsing the tokens `t` yields.
pub open spec fn parse_program(t: Seq<TokenV>) -> (Seq<StmtV>, Seq<ParseErrorV>) {
    p_program(t, PState { pos: 0, seed: 0, errors: Seq::empty() }, Seq::empty())
}

} // verus!
