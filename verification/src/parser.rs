use crate::expr::{
    expr_view, exprs_view, option_token_view, token_seq_view, Expr, ExprKind, ExprV, LambdaType,
};
use crate::grammar::{
    at, at_end, check, check1, lemma_block, lemma_block_items_end, lemma_block_items_more,
    lemma_class_declaration, lemma_class_members_end, lemma_class_members_method,
    lemma_class_members_static, lemma_cond_body, lemma_declaration, lemma_expression_statement,
    lemma_for, lemma_for_clauses, lemma_if, lemma_lambda, lemma_params, lemma_params_rest_end,
    lemma_params_rest_more, lemma_primary, lemma_print, lemma_return, lemma_statement,
    lemma_terminated, lemma_var_declaration, lemma_while, level_ops, literal_types,
    missing_left_ops, next, p_arg_list, p_args_rest, p_arguments, p_assignment, p_block,
    p_block_items, p_break, p_call, p_call_tail, p_class_declaration, p_class_members, p_consume,
    p_declaration, p_expression, p_expression_statement, p_for, p_function_declaration, p_if,
    p_lambda, p_level, p_operand, p_params, p_params_rest, p_primary, p_print, p_program, p_return,
    p_skip, p_statement, p_tail, p_ternary, p_try_program, p_unary, p_var_declaration, p_while,
    rem, shift, stay, sync_len, sync_rest, Level, Out, PState, ParseErrorV,
};
use crate::stmt::{
    lemma_block_view, lemma_class_view, lemma_lambda_view, option_expr_view, option_stmt_view,
    stmt_view, stmts_view, Stmt, StmtV,
};
use crate::token::{
    lemma_scan_shape, literal_fits, scan, token_spans, tokens_view, Literal, Token, TokenType,
    TokenV,
};
use vstd::prelude::*;
use vstd::string::to_string_from_display_ensures_for_str;
use vstd::string::StringExecFns;

verus! {

broadcast use to_string_from_display_ensures_for_str;

/// A syntax error: the token where it was found and what was expected.
#[derive(Debug)]
pub struct ParseError {
    pub token: Token,
    pub message: String,
}

impl View for ParseError {
    type V = ParseErrorV;

    open spec fn view(&self) -> ParseErrorV {
        ParseErrorV { token: self.token@, message: self.message@ }
    }
}

pub open spec fn perrors_view(es: Seq<ParseError>) -> Seq<ParseErrorV> {
    es.map_values(|e: ParseError| e@)
}

pub open spec fn expr_result_view(r: Result<Expr, ParseError>) -> Result<ExprV, ParseErrorV> {
    match r {
        Ok(e) => Ok(expr_view(e)),
        Err(e) => Err(e@),
    }
}

pub open spec fn stmt_result_view(r: Result<Stmt, ParseError>) -> Result<StmtV, ParseErrorV> {
    match r {
        Ok(s) => Ok(stmt_view(s)),
        Err(e) => Err(e@),
    }
}

/// Every literal token carries its value.
#[verifier::opaque]
pub open spec fn literals_present(t: Seq<TokenV>) -> bool {
    forall|i: int|
        0 <= i < t.len() && literal_types().contains(#[trigger] t[i].token_type)
            ==> t[i].literal is Some
}

/// Token sequences that the parser accepts: they end with the end-of-file
/// token, are numbered within `u32`, and every literal token carries its value.
pub open spec fn parsable(t: Seq<TokenV>) -> bool {
    &&& 1 <= t.len() <= u32::MAX
    &&& t[t.len() - 1].token_type == TokenType::Eof
    &&& literals_present(t)
}

/// The lexemes of the scanned tokens start at or after their own index.
proof fn lemma_spans_advance(src: Seq<u8>, i: int)
    requires
        0 <= i < token_spans(src, 0).len(),
        forall|k: int|
            0 <= k < token_spans(src, 0).len() ==> 0 <= (#[trigger] token_spans(src, 0)[k]).0
                < token_spans(src, 0)[k].1,
        forall|k: int, j: int|
            0 <= k < j < token_spans(src, 0).len() ==> (#[trigger] token_spans(src, 0)[k]).1
                <= (#[trigger] token_spans(src, 0)[j]).0,
    ensures
        token_spans(src, 0)[i].0 >= i,
    decreases i,
{
    if i > 0 {
        lemma_spans_advance(src, i - 1);
        let sp = token_spans(src, 0);
        assert(sp[i - 1].1 <= sp[i].0);
    }
}

/// The parser accepts whatever the scanner yields from a source of fewer
/// than `u32::MAX` bytes: the tokens end with the end-of-file token and
/// every literal token carries its value.
pub proof fn lemma_scanned_tokens_parsable(src: Seq<u8>)
    requires
        src.len() < u32::MAX,
    ensures
        parsable(scan(src).0),
{
    lemma_scan_shape(src);
    let ts = scan(src).0;
    let sp = token_spans(src, 0);
    if sp.len() > 0 {
        lemma_spans_advance(src, sp.len() - 1);
        assert(sp[sp.len() - 1].0 < src.len());
    }
    assert(literals_present(ts)) by {
        reveal(literals_present);
        assert forall|i: int|
            0 <= i < ts.len() && literal_types().contains(#[trigger] ts[i].token_type) implies ts[i].literal is Some by {
            if i < sp.len() {
                assert(sp[i].0 < sp[i].1);
                assert(literal_fits(ts[i]));
            } else {
                assert(i == ts.len() - 1);
                assert(!literal_types().contains(TokenType::Eof));
            }
        }
    }
}

type ParseExprResult = Result<Expr, ParseError>;

type ParseStmtResult = Result<Stmt, ParseError>;

/// A recursive-descent parser over a token sequence.
pub struct Parser<'a> {
    tokens: &'a [Token],
    errors: Vec<ParseError>,
    current: usize,
    id_seed: u32,
}

impl<'a> Parser<'a> {
    /// The tokens being parsed.
    pub closed spec fn tokens_v(&self) -> Seq<TokenV> {
        tokens_view(self.tokens@)
    }

    /// Where the parse stands.
    pub closed spec fn state(&self) -> PState {
        PState {
            pos: self.current as nat,
            seed: self.id_seed as nat,
            errors: perrors_view(self.errors@),
        }
    }

    /// The parser's invariant: a parsable token sequence, a position on one of
    /// its tokens, and no more identities handed out than tokens consumed.
    pub closed spec fn wf(&self) -> bool {
        &&& parsable(self.tokens_v())
        &&& self.current < self.tokens@.len()
        &&& self.id_seed <= self.current
    }

    pub closed spec fn remaining(&self) -> nat {
        rem(self.tokens_v(), self.current as nat)
    }

    /// `self` is `before` after the outcome `o`.
    pub closed spec fn steps<T>(self, before: Self, o: Out<T>) -> bool {
        &&& self.wf()
        &&& self.tokens@ == before.tokens@
        &&& self.state() == next(before.state(), o)
        &&& self.id_seed - before.id_seed <= self.current - before.current
    }

    fn error(&self, token: Token, err_msg: &str) -> (r: ParseError)
        ensures
            r@ == (ParseErrorV { token: token@, message: err_msg@ }),
    {
        ParseError { token, message: err_msg.to_string() }
    }

    /// A parser at the start of `tokens`.
    pub fn new(tokens: &'a [Token]) -> (r: Self)
        requires
            parsable(tokens_view(tokens@)),
        ensures
            r.wf(),
            r.tokens_v() == tokens_view(tokens@),
            r.state() == (PState { pos: 0, seed: 0, errors: Seq::empty() }),
    {
        let r = Self { tokens, errors: Vec::new(), current: 0, id_seed: 0 };
        assert(perrors_view(r.errors@) =~= Seq::empty());
        r
    }

    /// The parser reads the same tokens as `other`.
    pub closed spec fn same_tokens(&self, other: &Self) -> bool {
        self.tokens@ == other.tokens@
    }

    /// An expression of the given kind with the next identity.
    pub fn build_expr(&mut self, kind: ExprKind) -> (r: Expr)
        requires
            old(self).state().seed < u32::MAX,
        ensures
            r.id == old(self).state().seed + 1,
            r.kind == kind,
            final(self).state() == (PState {
                pos: old(self).state().pos,
                seed: old(self).state().seed + 1,
                errors: old(self).state().errors,
            }),
            final(self).same_tokens(old(self)),
            old(self).wf() && old(self).state().seed < old(self).state().pos ==> final(self).wf(),
    {
        self.id_seed += 1;
        Expr { id: self.id_seed, kind }
    }

    /// Parses one expression from the current token.
    pub fn parse_expression(&mut self) -> (r: ParseExprResult)
        requires
            old(self).wf(),
        ensures
            final(self).steps(*old(self), p_expression(old(self).tokens_v(), old(self).state())),
            expr_result_view(r) == p_expression(old(self).tokens_v(), old(self).state()).res,
    {
        self.expression()
    }

    // -----------------------------------------------------------------------
    // Token-level helpers
    fn peek(&self) -> (r: &'a Token)
        requires
            self.wf(),
        ensures
            *r == self.tokens@[self.current as int],
    {
        &self.tokens[self.current]
    }

    fn previous(&self) -> (r: &'a Token)
        requires
            self.wf(),
            self.current >= 1,
        ensures
            *r == self.tokens@[self.current - 1],
    {
        &self.tokens[self.current - 1]
    }

    fn is_at_end(&self) -> (r: bool)
        requires
            self.wf(),
        ensures
            r == at_end(self.tokens_v(), self.current as nat),
    {
        assert(self.tokens_v()[self.current as int] == self.tokens@[self.current as int]@);
        self.peek().token_type == TokenType::Eof
    }

    fn check(&self, types: &[TokenType]) -> (r: bool)
        requires
            self.wf(),
        ensures
            r == check(self.tokens_v(), self.current as nat, types@),
            types@.len() == 1 ==> r == check1(self.tokens_v(), self.current as nat, types@[0]),
    {
        if self.is_at_end() {
            return false;
        }
        let tt = self.peek().token_type;
        assert(self.tokens_v()[self.current as int] == self.tokens@[self.current as int]@);
        let mut i: usize = 0;
        while i < types.len()
            invariant
                !at_end(self.tokens_v(), self.current as nat),
                0 <= i <= types@.len(),
                tt == self.tokens_v()[self.current as int].token_type,
                forall|j: int| 0 <= j < i ==> types@[j] != tt,
            decreases types@.len() - i,
        {
            if types[i] == tt {
                assert(types@[i as int] == tt);
                return true;
            }
            i += 1;
        }
        false
    }

    fn advance(&mut self) -> (r: &'a Token)
        requires
            old(self).wf(),
            old(self).current >= 1 || !at_end(old(self).tokens_v(), old(self).current as nat),
        ensures
            final(self).wf(),
            final(self).tokens == old(self).tokens,
            final(self).errors == old(self).errors,
            final(self).id_seed == old(self).id_seed,
            final(self).current == old(self).current + (if at_end(
                old(self).tokens_v(),
                old(self).current as nat,
            ) {
                0int
            } else {
                1int
            }),
            *r == final(self).tokens@[final(self).current - 1],
    {
        if !self.is_at_end() {
            self.current += 1;
        }
        self.previous()
    }

    fn advance_if(&mut self, types: &[TokenType]) -> (r: bool)
        requires
            old(self).wf(),
        ensures
            r == check(old(self).tokens_v(), old(self).current as nat, types@),
            types@.len() == 1 ==> r == check1(
                old(self).tokens_v(),
                old(self).current as nat,
                types@[0],
            ),
            final(self).wf(),
            final(self).tokens == old(self).tokens,
            final(self).errors == old(self).errors,
            final(self).id_seed == old(self).id_seed,
            final(self).current == old(self).current + (if r {
                1int
            } else {
                0int
            }),
    {
        if !self.check(types) {
            return false;
        }
        self.advance();
        true
    }

    /// Consume a given token or return error if it doesn't exist
    fn consume(&mut self, token_type: TokenType, err_msg: &str) -> (r: Result<&'a Token, ParseError>)
        requires
            old(self).wf(),
        ensures
            final(self).steps(
                *old(self),
                p_consume(old(self).tokens_v(), old(self).state(), token_type, err_msg@),
            ),
            match r {
                Ok(tok) => p_consume(
                    old(self).tokens_v(),
                    old(self).state(),
                    token_type,
                    err_msg@,
                ).res == Ok::<TokenV, ParseErrorV>(tok@),
                Err(e) => p_consume(
                    old(self).tokens_v(),
                    old(self).state(),
                    token_type,
                    err_msg@,
                ).res == Err::<TokenV, ParseErrorV>(e@),
            },
    {
        if self.check(&[token_type]) {
            return Ok(self.advance());
        }
        Err(self.error(self.peek().clone(), err_msg))
    }

    // -----------------------------------------------------------------------
    // Expressions
    /// comma level of the expression grammar
    fn comma(&mut self) -> (r: ParseExprResult)
        requires
            old(self).wf(),
        ensures
            final(self).steps(
                *old(self),
                p_level(old(self).tokens_v(), old(self).state(), Level::Comma),
            ),
            expr_result_view(r) == p_level(old(self).tokens_v(), old(self).state(), Level::Comma).res,
            r is Ok ==> final(self).current > old(self).current,
        decreases old(self).remaining(), 70nat,
    {
        proof {
            reveal(p_assignment);
            reveal(p_level);
            reveal(p_tail);
            reveal(p_skip);
            reveal(p_operand);
        }
        let ghost t = self.tokens_v();
        let ghost s0 = self.state();
        let next_tokens_to_match = [TokenType::Comma];
        assert(next_tokens_to_match@ =~= level_ops(Level::Comma));
        // Missing left operand
        let missing = [TokenType::Comma];
        assert(missing@ =~= missing_left_ops(Level::Comma));
        if self.check(&missing) {
            let err = self.error(self.peek().clone(), "Expect expression before comma");
            loop
                invariant
                    check(t, s0.pos, missing_left_ops(Level::Comma)),
                    err@ == crate::grammar::perr(t, s0.pos, crate::grammar::missing_left_msg(Level::Comma)),
                    t == old(self).tokens_v(),
                    s0 == old(self).state(),
                    next_tokens_to_match@ == level_ops(Level::Comma),
                    self.wf(),
                    self.tokens@ == old(self).tokens@,
                    old(self).current <= self.current,
                    self.id_seed - old(self).id_seed <= self.current - old(self).current,
                    p_skip(t, s0, Level::Comma) == shift(
                        (self.current - old(self).current) as nat,
                        p_skip(t, self.state(), Level::Comma),
                    ),
                decreases self.remaining(),
            {
                proof {
                    reveal(p_assignment);
                    reveal(p_level);
                    reveal(p_tail);
                    reveal(p_skip);
                    reveal(p_operand);
                }
                let ghost cur = self.state();
                if !self.advance_if(&next_tokens_to_match) {
                    return Err(err);
                }
                assert(p_operand(t, at(cur, 1), Level::Comma) == p_assignment(t, at(cur, 1)));
                let _ = self.assignment();
            }
        }
        assert(p_operand(t, s0, Level::Comma) == p_assignment(t, s0));
        let mut expr = match self.assignment() {
            Ok(e) => e,
            Err(e) => return Err(e),
        };
        loop
            invariant
                t == old(self).tokens_v(),
                s0 == old(self).state(),
                next_tokens_to_match@ == level_ops(Level::Comma),
                self.wf(),
                self.tokens@ == old(self).tokens@,
                old(self).current < self.current,
                self.id_seed - old(self).id_seed <= self.current - old(self).current,
                p_level(t, s0, Level::Comma) == shift(
                    (self.current - old(self).current) as nat,
                    p_tail(t, self.state(), Level::Comma, expr_view(expr)),
                ),
            decreases self.remaining(),
        {
            proof {
                reveal(p_assignment);
                reveal(p_level);
                reveal(p_tail);
                reveal(p_skip);
                reveal(p_operand);
            }
            let ghost cur = self.state();
            if !self.advance_if(&next_tokens_to_match) {
                return Ok(expr);
            }
            assert(p_operand(t, at(cur, 1), Level::Comma) == p_assignment(t, at(cur, 1)));
            let right = match self.assignment() {
                Ok(e) => e,
                Err(e) => return Err(e),
            };
            expr = self.build_expr(ExprKind::comma(expr, right));
        }
    }

    /// or level of the expression grammar
    fn or(&mut self) -> (r: ParseExprResult)
        requires
            old(self).wf(),
        ensures
            final(self).steps(
                *old(self),
                p_level(old(self).tokens_v(), old(self).state(), Level::Or),
            ),
            expr_result_view(r) == p_level(old(self).tokens_v(), old(self).state(), Level::Or).res,
            r is Ok ==> final(self).current > old(self).current,
        decreases old(self).remaining(), 63nat,
    {
        proof {
            reveal(p_level);
            reveal(p_tail);
            reveal(p_skip);
            reveal(p_operand);
        }
        let ghost t = self.tokens_v();
        let ghost s0 = self.state();
        let next_tokens_to_match = [TokenType::Or];
        assert(next_tokens_to_match@ =~= level_ops(Level::Or));
        assert(p_operand(t, s0, Level::Or) == p_level(t, s0, Level::And));
        let mut expr = match self.and() {
            Ok(e) => e,
            Err(e) => return Err(e),
        };
        loop
            invariant
                t == old(self).tokens_v(),
                s0 == old(self).state(),
                next_tokens_to_match@ == level_ops(Level::Or),
                self.wf(),
                self.tokens@ == old(self).tokens@,
                old(self).current < self.current,
                self.id_seed - old(self).id_seed <= self.current - old(self).current,
                p_level(t, s0, Level::Or) == shift(
                    (self.current - old(self).current) as nat,
                    p_tail(t, self.state(), Level::Or, expr_view(expr)),
                ),
            decreases self.remaining(),
        {
            proof {
                reveal(p_level);
                reveal(p_tail);
                reveal(p_skip);
                reveal(p_operand);
            }
            let ghost cur = self.state();
            if !self.advance_if(&next_tokens_to_match) {
                return Ok(expr);
            }
            let operator = self.previous().clone();
            assert(p_operand(t, at(cur, 1), Level::Or) == p_level(t, at(cur, 1), Level::And));
            let right = match self.and() {
                Ok(e) => e,
                Err(e) => return Err(e),
            };
            expr = self.build_expr(ExprKind::logical(expr, operator, right));
        }
    }

    /// and level of the expression grammar
    fn and(&mut self) -> (r: ParseExprResult)
        requires
            old(self).wf(),
        ensures
            final(self).steps(
                *old(self),
                p_level(old(self).tokens_v(), old(self).state(), Level::And),
            ),
            expr_result_view(r) == p_level(old(self).tokens_v(), old(self).state(), Level::And).res,
            r is Ok ==> final(self).current > old(self).current,
        decreases old(self).remaining(), 60nat,
    {
        proof {
            reveal(p_level);
            reveal(p_tail);
            reveal(p_skip);
            reveal(p_operand);
        }
        let ghost t = self.tokens_v();
        let ghost s0 = self.state();
        let next_tokens_to_match = [TokenType::And];
        assert(next_tokens_to_match@ =~= level_ops(Level::And));
        assert(p_operand(t, s0, Level::And) == p_level(t, s0, Level::Equality));
        let mut expr = match self.equality() {
            Ok(e) => e,
            Err(e) => return Err(e),
        };
        loop
            invariant
                t == old(self).tokens_v(),
                s0 == old(self).state(),
                next_tokens_to_match@ == level_ops(Level::And),
                self.wf(),
                self.tokens@ == old(self).tokens@,
                old(self).current < self.current,
                self.id_seed - old(self).id_seed <= self.current - old(self).current,
                p_level(t, s0, Level::And) == shift(
                    (self.current - old(self).current) as nat,
                    p_tail(t, self.state(), Level::And, expr_view(expr)),
                ),
            decreases self.remaining(),
        {
            proof {
                reveal(p_level);
                reveal(p_tail);
                reveal(p_skip);
                reveal(p_operand);
            }
            let ghost cur = self.state();
            if !self.advance_if(&next_tokens_to_match) {
                return Ok(expr);
            }
            let operator = self.previous().clone();
            assert(p_operand(t, at(cur, 1), Level::And) == p_level(t, at(cur, 1), Level::Equality));
            let right = match self.equality() {
                Ok(e) => e,
                Err(e) => return Err(e),
            };
            expr = self.build_expr(ExprKind::logical(expr, operator, right));
        }
    }

    /// equality level of the expression grammar
    fn equality(&mut self) -> (r: ParseExprResult)
        requires
            old(self).wf(),
        ensures
            final(self).steps(
                *old(self),
                p_level(old(self).tokens_v(), old(self).state(), Level::Equality),
            ),
            expr_result_view(r) == p_level(old(self).tokens_v(), old(self).state(), Level::Equality).res,
            r is Ok ==> final(self).current > old(self).current,
        decreases old(self).remaining(), 57nat,
    {
        proof {
            reveal(p_level);
            reveal(p_tail);
            reveal(p_skip);
            reveal(p_operand);
        }
        let ghost t = self.tokens_v();
        let ghost s0 = self.state();
        let next_tokens_to_match = [TokenType::BangEqual, TokenType::EqualEqual];
        assert(next_tokens_to_match@ =~= level_ops(Level::Equality));
        // Missing left operand
        if self.check(&next_tokens_to_match) {
            let err = self.error(self.peek().clone(), "Expect expression before equality");
            loop
                invariant
                    check(t, s0.pos, missing_left_ops(Level::Equality)),
                    err@ == crate::grammar::perr(t, s0.pos, crate::grammar::missing_left_msg(Level::Equality)),
                    t == old(self).tokens_v(),
                    s0 == old(self).state(),
                    next_tokens_to_match@ == level_ops(Level::Equality),
                    self.wf(),
                    self.tokens@ == old(self).tokens@,
                    old(self).current <= self.current,
                    self.id_seed - old(self).id_seed <= self.current - old(self).current,
                    p_skip(t, s0, Level::Equality) == shift(
                        (self.current - old(self).current) as nat,
                        p_skip(t, self.state(), Level::Equality),
                    ),
                decreases self.remaining(),
            {
                proof {
                    reveal(p_level);
                    reveal(p_tail);
                    reveal(p_skip);
                    reveal(p_operand);
                }
                let ghost cur = self.state();
                if !self.advance_if(&next_tokens_to_match) {
                    return Err(err);
                }
                assert(p_operand(t, at(cur, 1), Level::Equality) == p_level(t, at(cur, 1), Level::Comparison));
                let _ = self.comparison();
            }
        }
        assert(p_operand(t, s0, Level::Equality) == p_level(t, s0, Level::Comparison));
        let mut expr = match self.comparison() {
            Ok(e) => e,
            Err(e) => return Err(e),
        };
        loop
            invariant
                t == old(self).tokens_v(),
                s0 == old(self).state(),
                next_tokens_to_match@ == level_ops(Level::Equality),
                self.wf(),
                self.tokens@ == old(self).tokens@,
                old(self).current < self.current,
                self.id_seed - old(self).id_seed <= self.current - old(self).current,
                p_level(t, s0, Level::Equality) == shift(
                    (self.current - old(self).current) as nat,
                    p_tail(t, self.state(), Level::Equality, expr_view(expr)),
                ),
            decreases self.remaining(),
        {
            proof {
                reveal(p_level);
                reveal(p_tail);
                reveal(p_skip);
                reveal(p_operand);
            }
            let ghost cur = self.state();
            if !self.advance_if(&next_tokens_to_match) {
                return Ok(expr);
            }
            let operator = self.previous().clone();
            assert(p_operand(t, at(cur, 1), Level::Equality) == p_level(t, at(cur, 1), Level::Comparison));
            let right = match self.comparison() {
                Ok(e) => e,
                Err(e) => return Err(e),
            };
            expr = self.build_expr(ExprKind::binary(expr, operator, right));
        }
    }

    /// comparison level of the expression grammar
    fn comparison(&mut self) -> (r: ParseExprResult)
        requires
            old(self).wf(),
        ensures
            final(self).steps(
                *old(self),
                p_level(old(self).tokens_v(), old(self).state(), Level::Comparison),
            ),
            expr_result_view(r) == p_level(old(self).tokens_v(), old(self).state(), Level::Comparison).res,
            r is Ok ==> final(self).current > old(self).current,
        decreases old(self).remaining(), 54nat,
    {
        proof {
            reveal(p_level);
            reveal(p_tail);
            reveal(p_skip);
            reveal(p_operand);
        }
        let ghost t = self.tokens_v();
        let ghost s0 = self.state();
        let next_tokens_to_match = [TokenType::Greater, TokenType::GreaterEqual, TokenType::Less, TokenType::LessEqual];
        assert(next_tokens_to_match@ =~= level_ops(Level::Comparison));
        // Missing left operand
        if self.check(&next_tokens_to_match) {
            let err = self.error(self.peek().clone(), "Expect expression before comparison");
            loop
                invariant
                    check(t, s0.pos, missing_left_ops(Level::Comparison)),
                    err@ == crate::grammar::perr(t, s0.pos, crate::grammar::missing_left_msg(Level::Comparison)),
                    t == old(self).tokens_v(),
                    s0 == old(self).state(),
                    next_tokens_to_match@ == level_ops(Level::Comparison),
                    self.wf(),
                    self.tokens@ == old(self).tokens@,
                    old(self).current <= self.current,
                    self.id_seed - old(self).id_seed <= self.current - old(self).current,
                    p_skip(t, s0, Level::Comparison) == shift(
                        (self.current - old(self).current) as nat,
                        p_skip(t, self.state(), Level::Comparison),
                    ),
                decreases self.remaining(),
            {
                proof {
                    reveal(p_level);
                    reveal(p_tail);
                    reveal(p_skip);
                    reveal(p_operand);
                }
                let ghost cur = self.state();
                if !self.advance_if(&next_tokens_to_match) {
                    return Err(err);
                }
                assert(p_operand(t, at(cur, 1), Level::Comparison) == p_level(t, at(cur, 1), Level::Term));
                let _ = self.term();
            }
        }
        assert(p_operand(t, s0, Level::Comparison) == p_level(t, s0, Level::Term));
        let mut expr = match self.term() {
            Ok(e) => e,
            Err(e) => return Err(e),
        };
        loop
            invariant
                t == old(self).tokens_v(),
                s0 == old(self).state(),
                next_tokens_to_match@ == level_ops(Level::Comparison),
                self.wf(),
                self.tokens@ == old(self).tokens@,
                old(self).current < self.current,
                self.id_seed - old(self).id_seed <= self.current - old(self).current,
                p_level(t, s0, Level::Comparison) == shift(
                    (self.current - old(self).current) as nat,
                    p_tail(t, self.state(), Level::Comparison, expr_view(expr)),
                ),
            decreases self.remaining(),
        {
            proof {
                reveal(p_level);
                reveal(p_tail);
                reveal(p_skip);
                reveal(p_operand);
            }
            let ghost cur = self.state();
            if !self.advance_if(&next_tokens_to_match) {
                return Ok(expr);
            }
            let operator = self.previous().clone();
            assert(p_operand(t, at(cur, 1), Level::Comparison) == p_level(t, at(cur, 1), Level::Term));
            let right = match self.term() {
                Ok(e) => e,
                Err(e) => return Err(e),
            };
            expr = self.build_expr(ExprKind::binary(expr, operator, right));
        }
    }

    /// term level of the expression grammar
    fn term(&mut self) -> (r: ParseExprResult)
        requires
            old(self).wf(),
        ensures
            final(self).steps(
                *old(self),
                p_level(old(self).tokens_v(), old(self).state(), Level::Term),
            ),
            expr_result_view(r) == p_level(old(self).tokens_v(), old(self).state(), Level::Term).res,
            r is Ok ==> final(self).current > old(self).current,
        decreases old(self).remaining(), 51nat,
    {
        proof {
            reveal(p_level);
            reveal(p_tail);
            reveal(p_skip);
            reveal(p_operand);
        }
        let ghost t = self.tokens_v();
        let ghost s0 = self.state();
        let next_tokens_to_match = [TokenType::Minus, TokenType::Plus];
        assert(next_tokens_to_match@ =~= level_ops(Level::Term));
        // Missing left operand
        let missing = [TokenType::Plus];
        assert(missing@ =~= missing_left_ops(Level::Term));
        if self.check(&missing) {
            let err = self.error(self.peek().clone(), "Expect expression before binary operator");
            loop
                invariant
                    check(t, s0.pos, missing_left_ops(Level::Term)),
                    err@ == crate::grammar::perr(t, s0.pos, crate::grammar::missing_left_msg(Level::Term)),
                    t == old(self).tokens_v(),
                    s0 == old(self).state(),
                    next_tokens_to_match@ == level_ops(Level::Term),
                    self.wf(),
                    self.tokens@ == old(self).tokens@,
                    old(self).current <= self.current,
                    self.id_seed - old(self).id_seed <= self.current - old(self).current,
                    p_skip(t, s0, Level::Term) == shift(
                        (self.current - old(self).current) as nat,
                        p_skip(t, self.state(), Level::Term),
                    ),
                decreases self.remaining(),
            {
                proof {
                    reveal(p_level);
                    reveal(p_tail);
                    reveal(p_skip);
                    reveal(p_operand);
                }
                let ghost cur = self.state();
                if !self.advance_if(&next_tokens_to_match) {
                    return Err(err);
                }
                assert(p_operand(t, at(cur, 1), Level::Term) == p_level(t, at(cur, 1), Level::Factor));
                let _ = self.factor();
            }
        }
        assert(p_operand(t, s0, Level::Term) == p_level(t, s0, Level::Factor));
        let mut expr = match self.factor() {
            Ok(e) => e,
            Err(e) => return Err(e),
        };
        loop
            invariant
                t == old(self).tokens_v(),
                s0 == old(self).state(),
                next_tokens_to_match@ == level_ops(Level::Term),
                self.wf(),
                self.tokens@ == old(self).tokens@,
                old(self).current < self.current,
                self.id_seed - old(self).id_seed <= self.current - old(self).current,
                p_level(t, s0, Level::Term) == shift(
                    (self.current - old(self).current) as nat,
                    p_tail(t, self.state(), Level::Term, expr_view(expr)),
                ),
            decreases self.remaining(),
        {
            proof {
                reveal(p_level);
                reveal(p_tail);
                reveal(p_skip);
                reveal(p_operand);
            }
            let ghost cur = self.state();
            if !self.advance_if(&next_tokens_to_match) {
                return Ok(expr);
            }
            let operator = self.previous().clone();
            assert(p_operand(t, at(cur, 1), Level::Term) == p_level(t, at(cur, 1), Level::Factor));
            let right = match self.factor() {
                Ok(e) => e,
                Err(e) => return Err(e),
            };
            expr = self.build_expr(ExprKind::binary(expr, operator, right));
        }
    }

    /// factor level of the expression grammar
    fn factor(&mut self) -> (r: ParseExprResult)
        requires
            old(self).wf(),
        ensures
            final(self).steps(
                *old(self),
                p_level(old(self).tokens_v(), old(self).state(), Level::Factor),
            ),
            expr_result_view(r) == p_level(old(self).tokens_v(), old(self).state(), Level::Factor).res,
            r is Ok ==> final(self).current > old(self).current,
        decreases old(self).remaining(), 48nat,
    {
        proof {
            reveal(p_unary);
            reveal(p_level);
            reveal(p_tail);
            reveal(p_skip);
            reveal(p_operand);
        }
        let ghost t = self.tokens_v();
        let ghost s0 = self.state();
        let next_tokens_to_match = [TokenType::Slash, TokenType::Star, TokenType::Percent];
        assert(next_tokens_to_match@ =~= level_ops(Level::Factor));
        // Missing left operand
        if self.check(&next_tokens_to_match) {
            let err = self.error(self.peek().clone(), "Expect expression before binary operator");
            loop
                invariant
                    check(t, s0.pos, missing_left_ops(Level::Factor)),
                    err@ == crate::grammar::perr(t, s0.pos, crate::grammar::missing_left_msg(Level::Factor)),
                    t == old(self).tokens_v(),
                    s0 == old(self).state(),
                    next_tokens_to_match@ == level_ops(Level::Factor),
                    self.wf(),
                    self.tokens@ == old(self).tokens@,
                    old(self).current <= self.current,
                    self.id_seed - old(self).id_seed <= self.current - old(self).current,
                    p_skip(t, s0, Level::Factor) == shift(
                        (self.current - old(self).current) as nat,
                        p_skip(t, self.state(), Level::Factor),
                    ),
                decreases self.remaining(),
            {
                proof {
                    reveal(p_unary);
                    reveal(p_level);
                    reveal(p_tail);
                    reveal(p_skip);
                    reveal(p_operand);
                }
                let ghost cur = self.state();
                if !self.advance_if(&next_tokens_to_match) {
                    return Err(err);
                }
                assert(p_operand(t, at(cur, 1), Level::Factor) == p_unary(t, at(cur, 1)));
                let _ = self.unary();
            }
        }
        assert(p_operand(t, s0, Level::Factor) == p_unary(t, s0));
        let mut expr = match self.unary() {
            Ok(e) => e,
            Err(e) => return Err(e),
        };
        loop
            invariant
                t == old(self).tokens_v(),
                s0 == old(self).state(),
                next_tokens_to_match@ == level_ops(Level::Factor),
                self.wf(),
                self.tokens@ == old(self).tokens@,
                old(self).current < self.current,
                self.id_seed - old(self).id_seed <= self.current - old(self).current,
                p_level(t, s0, Level::Factor) == shift(
                    (self.current - old(self).current) as nat,
                    p_tail(t, self.state(), Level::Factor, expr_view(expr)),
                ),
            decreases self.remaining(),
        {
            proof {
                reveal(p_unary);
                reveal(p_level);
                reveal(p_tail);
                reveal(p_skip);
                reveal(p_operand);
            }
            let ghost cur = self.state();
            if !self.advance_if(&next_tokens_to_match) {
                return Ok(expr);
            }
            let operator = self.previous().clone();
            assert(p_operand(t, at(cur, 1), Level::Factor) == p_unary(t, at(cur, 1)));
            let right = match self.unary() {
                Ok(e) => e,
                Err(e) => return Err(e),
            };
            expr = self.build_expr(ExprKind::binary(expr, operator, right));
        }
    }

    /// ternary -> (logic_or "?" ternary ":" ternary) | logic_or
    fn ternary(&mut self) -> (r: ParseExprResult)
        requires
            old(self).wf(),
        ensures
            final(self).steps(*old(self), p_ternary(old(self).tokens_v(), old(self).state())),
            expr_result_view(r) == p_ternary(old(self).tokens_v(), old(self).state()).res,
            r is Ok ==> final(self).current > old(self).current,
        decreases old(self).remaining(), 64nat,
    {
        proof {
            reveal(p_level);
            reveal(p_ternary);
        }
        let ghost t = self.tokens_v();
        let ghost s0 = self.state();
        // Missing left operand
        if self.check(&[TokenType::Question]) {
            let err = self.error(self.peek().clone(), "Expect condition in ternary expression");
            self.advance();
            let _ = self.ternary();
            let _ = self.ternary();
            return Err(err);
        }
        let mut expr = match self.or() {
            Ok(e) => e,
            Err(e) => return Err(e),
        };
        if self.advance_if(&[TokenType::Question]) {
            let left = match self.ternary() {
                Ok(e) => e,
                Err(e) => return Err(e),
            };
            match self.consume(TokenType::Colon, "Expect ':' after ternary expression") {
                Ok(_) => {},
                Err(e) => return Err(e),
            }
            let right = match self.ternary() {
                Ok(e) => e,
                Err(e) => return Err(e),
            };
            expr = self.build_expr(ExprKind::ternary(expr, left, right));
        }
        Ok(expr)
    }

    /// assignment -> (call ".")? IDENTIFIER "=" assignment | ternary
    fn assignment(&mut self) -> (r: ParseExprResult)
        requires
            old(self).wf(),
        ensures
            final(self).steps(*old(self), p_assignment(old(self).tokens_v(), old(self).state())),
            expr_result_view(r) == p_assignment(old(self).tokens_v(), old(self).state()).res,
            r is Ok ==> final(self).current > old(self).current,
        decreases old(self).remaining(), 65nat,
    {
        proof {
            reveal(p_ternary);
            reveal(p_assignment);
        }
        let expr = match self.ternary() {
            Ok(e) => e,
            Err(e) => return Err(e),
        };
        if self.advance_if(&[TokenType::Equal]) {
            let equals = self.previous().clone();
            let value = match self.assignment() {
                Ok(e) => e,
                Err(e) => return Err(e),
            };
            match expr.kind {
                ExprKind::Variable(name) => {
                    return Ok(self.build_expr(ExprKind::assign(name, value)));
                },
                ExprKind::Get(object, name) => {
                    return Ok(self.build_expr(ExprKind::set(object, name, value)));
                },
                ExprKind::Index(list, index, bracket) => {
                    return Ok(self.build_expr(ExprKind::index_set(list, index, value, bracket)));
                },
                _ => {
                    return Err(self.error(equals, "Invalid assignment target"));
                },
            }
        }
        Ok(expr)
    }

    /// expression -> comma
    fn expression(&mut self) -> (r: ParseExprResult)
        requires
            old(self).wf(),
        ensures
            final(self).steps(*old(self), p_expression(old(self).tokens_v(), old(self).state())),
            expr_result_view(r) == p_expression(old(self).tokens_v(), old(self).state()).res,
            r is Ok ==> final(self).current > old(self).current,
        decreases old(self).remaining(), 71nat,
    {
        proof {
            reveal(p_level);
            reveal(p_expression);
        }
        self.comma()
    }

    /// unary -> ("!" | "-") unary | call
    fn unary(&mut self) -> (r: ParseExprResult)
        requires
            old(self).wf(),
        ensures
            final(self).steps(*old(self), p_unary(old(self).tokens_v(), old(self).state())),
            expr_result_view(r) == p_unary(old(self).tokens_v(), old(self).state()).res,
            r is Ok ==> final(self).current > old(self).current,
        decreases old(self).remaining(), 45nat,
    {
        proof {
            reveal(p_call);
            reveal(p_unary);
        }
        let next_tokens_to_match = [TokenType::Bang, TokenType::Minus];
        if self.advance_if(&next_tokens_to_match) {
            let operator = self.previous().clone();
            let right = match self.unary() {
                Ok(e) => e,
                Err(e) => return Err(e),
            };
            return Ok(self.build_expr(ExprKind::unary(operator, right)));
        }
        self.call()
    }

    /// call -> primary ( "(" arguments? ")" | "." IDENTIFIER )*
    fn call(&mut self) -> (r: ParseExprResult)
        requires
            old(self).wf(),
        ensures
            final(self).steps(*old(self), p_call(old(self).tokens_v(), old(self).state())),
            expr_result_view(r) == p_call(old(self).tokens_v(), old(self).state()).res,
            r is Ok ==> final(self).current > old(self).current,
        decreases old(self).remaining(), 44nat,
    {
        proof {
            reveal(p_call);
            reveal(p_primary);
            reveal(p_call_tail);
        }
        let ghost t = self.tokens_v();
        let ghost s0 = self.state();
        let mut expr = match self.primary() {
            Ok(e) => e,
            Err(e) => return Err(e),
        };
        loop
            invariant
                t == old(self).tokens_v(),
                s0 == old(self).state(),
                self.wf(),
                self.tokens@ == old(self).tokens@,
                old(self).current < self.current,
                self.id_seed - old(self).id_seed <= self.current - old(self).current,
                p_call(t, s0) == shift(
                    (self.current - old(self).current) as nat,
                    p_call_tail(t, self.state(), expr_view(expr)),
                ),
            decreases self.remaining(),
        {
            let ghost cur = self.state();
            let ghost ev = expr_view(expr);
            if self.advance_if(&[TokenType::LeftParen]) {
                proof {
                    crate::grammar::lemma_call_tail_paren(t, cur, ev);
                }
                expr = match self.arguments(expr) {
                    Ok(e) => e,
                    Err(e) => return Err(e),
                };
            } else if self.advance_if(&[TokenType::Dot]) {
                proof {
                    crate::grammar::lemma_call_tail_dot(t, cur, ev);
                }
                let name = match self.consume(
                    TokenType::Identifier,
                    "Expect property name after '.'.",
                ) {
                    Ok(tok) => tok.clone(),
                    Err(e) => return Err(e),
                };
                expr = self.build_expr(ExprKind::get(expr, name));
            } else if self.advance_if(&[TokenType::LeftBracket]) {
                proof {
                    crate::grammar::lemma_call_tail_bracket(t, cur, ev);
                }
                expr = match self.index(expr) {
                    Ok(e) => e,
                    Err(e) => return Err(e),
                };
            } else {
                proof {
                    crate::grammar::lemma_call_tail_end(t, cur, ev);
                }
                return Ok(expr);
            }
        }
    }

    /// arguments -> assignment ("," assignment)* ")" after the "(" of a call of `callee`
    fn arguments(&mut self, callee: Expr) -> (r: ParseExprResult)
        requires
            old(self).wf(),
            old(self).current >= 1,
        ensures
            final(self).steps(
                *old(self),
                p_arguments(old(self).tokens_v(), old(self).state(), expr_view(callee)),
            ),
            expr_result_view(r) == p_arguments(
                old(self).tokens_v(),
                old(self).state(),
                expr_view(callee),
            ).res,
            r is Ok ==> final(self).current > old(self).current,
        decreases old(self).remaining(), 67nat,
    {
        let ghost t = self.tokens_v();
        let ghost s0 = self.state();
        proof {
            crate::grammar::lemma_arguments(t, s0, expr_view(callee));
            crate::grammar::lemma_arg_list(t, s0);
        }
        let mut arguments: Vec<Expr> = Vec::new();
        if !self.check(&[TokenType::RightParen]) {
            let first = match self.assignment() {
                Ok(e) => e,
                Err(e) => return Err(e),
            };
            arguments.push(first);
            assert(exprs_view(arguments@) =~= seq![expr_view(first)]);
            loop
                invariant
                    t == old(self).tokens_v(),
                    s0 == old(self).state(),
                    self.wf(),
                    self.tokens@ == old(self).tokens@,
                    old(self).current < self.current,
                    self.id_seed - old(self).id_seed <= self.current - old(self).current,
                    p_arg_list(t, s0) == shift(
                        (self.current - old(self).current) as nat,
                        p_args_rest(t, self.state(), exprs_view(arguments@)),
                    ),
                ensures
                    self.wf(),
                    self.tokens@ == old(self).tokens@,
                    old(self).current < self.current,
                    self.id_seed - old(self).id_seed <= self.current - old(self).current,
                    p_arg_list(t, s0) == shift(
                        (self.current - old(self).current) as nat,
                        crate::grammar::stay(self.state(), Ok(exprs_view(arguments@))),
                    ),
                decreases self.remaining(),
            {
                let ghost cur = self.state();
                if !self.advance_if(&[TokenType::Comma]) {
                    proof {
                        crate::grammar::lemma_args_rest_end(t, cur, exprs_view(arguments@));
                    }
                    break;
                }
                proof {
                    crate::grammar::lemma_args_rest_more(t, cur, exprs_view(arguments@));
                }
                if arguments.len() >= 255 {
                    let err = self.error(
                        self.peek().clone(),
                        "Can't have more than 255 arguments.",
                    );
                    self.errors.push(err);
                    assert(perrors_view(self.errors@) =~= cur.errors.push(err@));
                }
                let a = match self.assignment() {
                    Ok(e) => e,
                    Err(e) => {
                        proof {
                            crate::grammar::lemma_arguments(t, s0, expr_view(callee));
                        }
                        return Err(e);
                    },
                };
                let ghost before = exprs_view(arguments@);
                arguments.push(a);
                assert(exprs_view(arguments@) =~= before.push(expr_view(a)));
            }
        } else {
            assert(exprs_view(arguments@) =~= Seq::<ExprV>::empty());
        }
        let paren = match self.consume(TokenType::RightParen, "Expect ')' after arguments.") {
            Ok(tok) => tok.clone(),
            Err(e) => return Err(e),
        };
        let ghost gc = callee;
        let ghost gp = paren;
        let ghost ga = arguments;
        let r = self.build_expr(ExprKind::call(callee, paren, arguments));
        proof {
            crate::expr::lemma_call_view(r.id, gc, gp, ga);
        }
        Ok(r)
    }

    /// primary -> NUMBER | STRING | "true" | "false" | "nil" | "(" expression ")" | IDENTIFIER |
    /// Lambda
    fn primary(&mut self) -> (r: ParseExprResult)
        requires
            old(self).wf(),
        ensures
            final(self).steps(*old(self), p_primary(old(self).tokens_v(), old(self).state())),
            expr_result_view(r) == p_primary(old(self).tokens_v(), old(self).state()).res,
            r is Ok ==> final(self).current > old(self).current,
        decreases old(self).remaining(), 42nat,
    {
        proof {
            lemma_primary(self.tokens_v(), self.state());
        }
        // Literals
        let next_tokens_to_match = [
            TokenType::True,
            TokenType::False,
            TokenType::Nil,
            TokenType::Number,
            TokenType::String,
        ];
        assert(next_tokens_to_match@ =~= literal_types());
        if self.advance_if(&next_tokens_to_match) {
            proof {
                reveal(literals_present);
                assert(self.tokens_v()[self.current - 1] == self.tokens@[self.current - 1]@);
            }
            let literal = self.previous().literal.as_ref().unwrap();
            return Ok(self.build_expr(ExprKind::literal(literal.clone())));
        }
        if self.advance_if(&[TokenType::LeftParen]) {
            let expr = match self.expression() {
                Ok(e) => e,
                Err(e) => return Err(e),
            };
            match self.consume(TokenType::RightParen, "Expect ')' after expression.") {
                Ok(_) => {},
                Err(e) => return Err(e),
            }
            return Ok(self.build_expr(ExprKind::grouping(expr)));
        }
        if self.advance_if(&[TokenType::This]) {
            let keyword = self.previous().clone();
            return Ok(self.build_expr(ExprKind::This(keyword)));
        }
        if self.advance_if(&[TokenType::Super]) {
            let keyword = self.previous().clone();
            match self.consume(TokenType::Dot, "Expect '.' after 'super'.") {
                Ok(_) => {},
                Err(e) => return Err(e),
            }
            let method = match self.consume(
                TokenType::Identifier,
                "Expect superclass method name.",
            ) {
                Ok(tok) => tok.clone(),
                Err(e) => return Err(e),
            };
            return Ok(self.build_expr(ExprKind::Super(keyword, method)));
        }
        if self.advance_if(&[TokenType::Identifier]) {
            let name = self.previous().clone();
            return Ok(self.build_expr(ExprKind::Variable(name)));
        }
        if self.advance_if(&[TokenType::Fun]) {
            return self.lambda(None, "function", LambdaType::Function);
        }
        if self.advance_if(&[TokenType::LeftBracket]) {
            return self.list();
        }
        Err(self.error(self.peek().clone(), "Expect expression."))
    }

    /// list -> (assignment ("," assignment)*)? "]" after the "[" of a list literal
    fn list(&mut self) -> (r: ParseExprResult)
        requires
            old(self).wf(),
            old(self).current >= 1,
        ensures
            final(self).steps(
                *old(self),
                crate::grammar::p_list(old(self).tokens_v(), old(self).state()),
            ),
            expr_result_view(r) == crate::grammar::p_list(
                old(self).tokens_v(),
                old(self).state(),
            ).res,
            r is Ok ==> final(self).current > old(self).current,
        decreases old(self).remaining(), 67nat,
    {
        let ghost t = self.tokens_v();
        let ghost s0 = self.state();
        proof {
            crate::grammar::lemma_list(t, s0);
            crate::grammar::lemma_items(t, s0);
        }
        let mut items: Vec<Expr> = Vec::new();
        if !self.check(&[TokenType::RightBracket]) {
            let first = match self.assignment() {
                Ok(e) => e,
                Err(e) => return Err(e),
            };
            items.push(first);
            assert(exprs_view(items@) =~= seq![expr_view(first)]);
            loop
                invariant
                    t == old(self).tokens_v(),
                    s0 == old(self).state(),
                    self.wf(),
                    self.tokens@ == old(self).tokens@,
                    old(self).current < self.current,
                    self.id_seed - old(self).id_seed <= self.current - old(self).current,
                    crate::grammar::p_items(t, s0) == shift(
                        (self.current - old(self).current) as nat,
                        crate::grammar::p_items_rest(t, self.state(), exprs_view(items@)),
                    ),
                ensures
                    self.wf(),
                    self.tokens@ == old(self).tokens@,
                    old(self).current < self.current,
                    self.id_seed - old(self).id_seed <= self.current - old(self).current,
                    crate::grammar::p_items(t, s0) == shift(
                        (self.current - old(self).current) as nat,
                        crate::grammar::stay(self.state(), Ok(exprs_view(items@))),
                    ),
                decreases self.remaining(),
            {
                let ghost cur = self.state();
                if !self.advance_if(&[TokenType::Comma]) {
                    proof {
                        crate::grammar::lemma_items_rest_end(t, cur, exprs_view(items@));
                    }
                    break;
                }
                proof {
                    crate::grammar::lemma_items_rest_more(t, cur, exprs_view(items@));
                }
                let a = match self.assignment() {
                    Ok(e) => e,
                    Err(e) => {
                        proof {
                            crate::grammar::lemma_list(t, s0);
                        }
                        return Err(e);
                    },
                };
                let ghost before = exprs_view(items@);
                items.push(a);
                assert(exprs_view(items@) =~= before.push(expr_view(a)));
            }
        } else {
            assert(exprs_view(items@) =~= Seq::<ExprV>::empty());
        }
        match self.consume(TokenType::RightBracket, "Expect ']' after list elements.") {
            Ok(_) => {},
            Err(e) => return Err(e),
        }
        let ghost gi = items;
        let r = self.build_expr(ExprKind::List(items));
        proof {
            crate::expr::lemma_list_view(r.id, gi);
        }
        Ok(r)
    }

    /// index -> expression "]" after the "[" of an indexing of `list`
    fn index(&mut self, list: Expr) -> (r: ParseExprResult)
        requires
            old(self).wf(),
            old(self).current >= 1,
        ensures
            final(self).steps(
                *old(self),
                crate::grammar::p_index(old(self).tokens_v(), old(self).state(), expr_view(list)),
            ),
            expr_result_view(r) == crate::grammar::p_index(
                old(self).tokens_v(),
                old(self).state(),
                expr_view(list),
            ).res,
            r is Ok ==> final(self).current > old(self).current,
        decreases old(self).remaining(), 72nat,
    {
        proof {
            crate::grammar::lemma_index(self.tokens_v(), self.state(), expr_view(list));
        }
        let index = match self.expression() {
            Ok(e) => e,
            Err(e) => return Err(e),
        };
        let bracket = match self.consume(TokenType::RightBracket, "Expect ']' after index.") {
            Ok(tok) => tok.clone(),
            Err(e) => return Err(e),
        };
        Ok(self.build_expr(ExprKind::index(list, index, bracket)))
    }

    /// function -> "(" parameters? ")" "{" block, or just a block for a getter
    fn lambda(&mut self, name: Option<Token>, kind: &str, lambda_type: LambdaType) -> (r:
        ParseExprResult)
        requires
            old(self).wf(),
        ensures
            final(self).steps(
                *old(self),
                p_lambda(
                    old(self).tokens_v(),
                    old(self).state(),
                    option_token_view(name),
                    kind@,
                    lambda_type,
                ),
            ),
            expr_result_view(r) == p_lambda(
                old(self).tokens_v(),
                old(self).state(),
                option_token_view(name),
                kind@,
                lambda_type,
            ).res,
            r is Ok ==> final(self).current > old(self).current,
        decreases old(self).remaining(), 86nat,
    {
        let ghost t = self.tokens_v();
        let ghost s0 = self.state();
        let ghost nv = option_token_view(name);
        proof {
            lemma_lambda(t, s0, nv, kind@, lambda_type);
        }
        if lambda_type == LambdaType::Getter {
            let body = match self.block() {
                Ok(b) => b,
                Err(e) => return Err(e),
            };
            let params: Vec<Token> = Vec::new();
            let ghost gname = name;
            let ghost gparams = params;
            let ghost gbody = body;
            let r = self.build_expr(ExprKind::Lambda(name, params, body, lambda_type));
            proof {
                lemma_lambda_view(r.id, gname, gparams, gbody, lambda_type);
                assert(token_seq_view(gparams@) =~= Seq::<TokenV>::empty());
            }
            return Ok(r);
        }
        let open_msg = String::from_str("Expect '(' after ").concat(kind).concat(".");
        match self.consume(TokenType::LeftParen, open_msg.as_str()) {
            Ok(_) => {},
            Err(e) => return Err(e),
        }
        let ghost s1 = self.state();
        proof {
            lemma_params(t, s1);
        }
        let mut parameters: Vec<Token> = Vec::new();
        if !self.check(&[TokenType::RightParen]) {
            let first = match self.consume(TokenType::Identifier, "Expect parameter name.") {
                Ok(tok) => tok.clone(),
                Err(e) => return Err(e),
            };
            parameters.push(first);
            assert(token_seq_view(parameters@) =~= seq![first@]);
            loop
                invariant
                    t == old(self).tokens_v(),
                    s0 == old(self).state(),
                    nv == option_token_view(name),
                    lambda_type != LambdaType::Getter,
                    check1(t, s0.pos, TokenType::LeftParen),
                    s1 == at(s0, 1),
                    self.wf(),
                    self.tokens@ == old(self).tokens@,
                    s1.pos < self.current,
                    self.id_seed == old(self).id_seed,
                    p_params(t, s1) == shift(
                        (self.current - s1.pos) as nat,
                        p_params_rest(t, self.state(), token_seq_view(parameters@)),
                    ),
                ensures
                    self.wf(),
                    self.tokens@ == old(self).tokens@,
                    s1.pos < self.current,
                    self.id_seed == old(self).id_seed,
                    p_params(t, s1) == shift(
                        (self.current - s1.pos) as nat,
                        stay(self.state(), Ok(token_seq_view(parameters@))),
                    ),
                decreases self.remaining(),
            {
                let ghost cur = self.state();
                if !self.advance_if(&[TokenType::Comma]) {
                    proof {
                        lemma_params_rest_end(t, cur, token_seq_view(parameters@));
                    }
                    break;
                }
                proof {
                    lemma_params_rest_more(t, cur, token_seq_view(parameters@));
                }
                if parameters.len() >= 255 {
                    let err = self.error(
                        self.peek().clone(),
                        "Can't have more than 255 parameters.",
                    );
                    self.errors.push(err);
                    assert(perrors_view(self.errors@) =~= cur.errors.push(err@));
                }
                let p = match self.consume(TokenType::Identifier, "Expect parameter name.") {
                    Ok(tok) => tok.clone(),
                    Err(e) => {
                        proof {
                            lemma_lambda(t, s0, nv, kind@, lambda_type);
                        }
                        return Err(e);
                    },
                };
                let ghost before = token_seq_view(parameters@);
                parameters.push(p);
                assert(token_seq_view(parameters@) =~= before.push(p@));
            }
        } else {
            assert(token_seq_view(parameters@) =~= Seq::<TokenV>::empty());
        }
        match self.consume(TokenType::RightParen, "Expect ')' after parameters.") {
            Ok(_) => {},
            Err(e) => return Err(e),
        }
        let brace_msg = String::from_str("Expect '{' before ").concat(kind).concat(" body.");
        match self.consume(TokenType::LeftBrace, brace_msg.as_str()) {
            Ok(_) => {},
            Err(e) => return Err(e),
        }
        let body = match self.block() {
            Ok(b) => b,
            Err(e) => return Err(e),
        };
        let ghost gname = name;
        let ghost gparams = parameters;
        let ghost gbody = body;
        let r = self.build_expr(ExprKind::Lambda(name, parameters, body, lambda_type));
        proof {
            lemma_lambda_view(r.id, gname, gparams, gbody, lambda_type);
        }
        Ok(r)
    }

    // -----------------------------------------------------------------------
    // Declarations and statements
    /// declaration -> varDecl | funDecl | classDecl | statement
    fn declaration(&mut self) -> (r: ParseStmtResult)
        requires
            old(self).wf(),
        ensures
            final(self).steps(*old(self), p_declaration(old(self).tokens_v(), old(self).state())),
            stmt_result_view(r) == p_declaration(old(self).tokens_v(), old(self).state()).res,
            r is Ok ==> final(self).current > old(self).current,
        decreases old(self).remaining(), 82nat,
    {
        proof {
            lemma_declaration(self.tokens_v(), self.state());
        }
        if self.advance_if(&[TokenType::Var]) {
            return self.var_declaration();
        }
        if self.advance_if(&[TokenType::Fun]) {
            return self.function_declaration("function", LambdaType::Function);
        }
        if self.advance_if(&[TokenType::Class]) {
            return self.class_declaration();
        }
        self.statement()
    }

    /// "class" IDENTIFIER "{" (function | staticFunction| getter)* "}"
    fn class_declaration(&mut self) -> (r: ParseStmtResult)
        requires
            old(self).wf(),
        ensures
            final(self).steps(
                *old(self),
                p_class_declaration(old(self).tokens_v(), old(self).state()),
            ),
            stmt_result_view(r) == p_class_declaration(old(self).tokens_v(), old(self).state()).res,
            r is Ok ==> final(self).current > old(self).current,
        decreases old(self).remaining(), 79nat,
    {
        let ghost t = self.tokens_v();
        let ghost s0 = self.state();
        proof {
            lemma_class_declaration(t, s0);
        }
        let name = match self.consume(TokenType::Identifier, "Expect class name.") {
            Ok(tok) => tok.clone(),
            Err(e) => return Err(e),
        };
        let ghost s1 = self.state();
        let superclass: Option<Expr> = if self.advance_if(&[TokenType::Less]) {
            let sname = match self.consume(TokenType::Identifier, "Expect superclass name.") {
                Ok(tok) => tok.clone(),
                Err(e) => return Err(e),
            };
            Some(self.build_expr(ExprKind::Variable(sname)))
        } else {
            None
        };
        let ghost gsup = crate::grammar::p_superclass(t, s1);
        assert(s1 == at(s0, 1));
        assert(gsup.res == Ok::<Option<ExprV>, ParseErrorV>(option_expr_view(superclass)));
        assert(self.state() == next(s1, gsup));
        match self.consume(TokenType::LeftBrace, "Expect '{' after class body") {
            Ok(_) => {},
            Err(e) => return Err(e),
        }
        let ghost s2 = self.state();
        let mut methods: Vec<Stmt> = Vec::new();
        assert(stmts_view(methods@) =~= Seq::<StmtV>::empty());
        loop
            invariant
                t == old(self).tokens_v(),
                s0 == old(self).state(),
                check1(t, s0.pos, TokenType::Identifier),
                name@ == t[s0.pos as int],
                gsup == crate::grammar::p_superclass(t, at(s0, 1)),
                gsup.res == Ok::<Option<ExprV>, ParseErrorV>(option_expr_view(superclass)),
                check1(t, s0.pos + 1 + gsup.adv, TokenType::LeftBrace),
                s2 == at(next(at(s0, 1), gsup), 1),
                self.wf(),
                self.tokens@ == old(self).tokens@,
                s2.pos <= self.current,
                self.id_seed - old(self).id_seed <= self.current - old(self).current,
                p_class_members(t, s2, Seq::empty()) == shift(
                    (self.current - s2.pos) as nat,
                    p_class_members(t, self.state(), stmts_view(methods@)),
                ),
            ensures
                self.wf(),
                self.tokens@ == old(self).tokens@,
                s2.pos <= self.current,
                self.id_seed - old(self).id_seed <= self.current - old(self).current,
                p_class_members(t, s2, Seq::empty()) == shift(
                    (self.current - s2.pos) as nat,
                    stay(self.state(), Ok(stmts_view(methods@))),
                ),
            decreases self.remaining(),
        {
            let ghost cur = self.state();
            if self.check(&[TokenType::RightBrace]) || self.is_at_end() {
                proof {
                    lemma_class_members_end(t, cur, stmts_view(methods@));
                }
                break;
            }
            let m = if self.advance_if(&[TokenType::Class]) {
                proof {
                    lemma_class_members_static(t, cur, stmts_view(methods@));
                }
                match self.function_declaration("static method", LambdaType::ClassStatic) {
                    Ok(m) => m,
                    Err(e) => {
                        proof {
                            lemma_class_declaration(t, s0);
                        }
                        return Err(e);
                    },
                }
            } else {
                proof {
                    lemma_class_members_method(t, cur, stmts_view(methods@));
                }
                match self.function_declaration("method or getter", LambdaType::Getter) {
                    Ok(m) => m,
                    Err(e) => {
                        proof {
                            lemma_class_declaration(t, s0);
                        }
                        return Err(e);
                    },
                }
            };
            let ghost before = stmts_view(methods@);
            methods.push(m);
            assert(stmts_view(methods@) =~= before.push(stmt_view(m)));
        }
        match self.consume(TokenType::RightBrace, "Expect '}' after class body") {
            Ok(_) => {},
            Err(e) => return Err(e),
        }
        let ghost gname = name;
        let ghost gsuperclass = superclass;
        let ghost gmethods = methods;
        let r = Stmt::Class(name, superclass, methods);
        proof {
            lemma_class_view(gname, gsuperclass, gmethods);
        }
        Ok(r)
    }

    /// funDecl -> lambda | "fun" IDENTIFIER "(" parameters? ")" block
    #[verifier::spinoff_prover]
    #[verifier::rlimit(40)]
    fn function_declaration(&mut self, kind: &str, lambda_type: LambdaType) -> (r:
        ParseStmtResult)
        requires
            old(self).wf(),
        ensures
            final(self).steps(
                *old(self),
                p_function_declaration(
                    old(self).tokens_v(),
                    old(self).state(),
                    kind@,
                    lambda_type,
                ),
            ),
            stmt_result_view(r) == p_function_declaration(
                old(self).tokens_v(),
                old(self).state(),
                kind@,
                lambda_type,
            ).res,
            r is Ok ==> final(self).current > old(self).current,
        decreases old(self).remaining(), 87nat,
    {
        proof {
            reveal(p_function_declaration);
            reveal(p_lambda);
        }
        if self.advance_if(&[TokenType::Identifier]) {
            let name = self.previous().clone();
            let function = if lambda_type == LambdaType::Getter {
                if self.advance_if(&[TokenType::LeftBrace]) {
                    self.lambda(Some(name.clone()), "getter", LambdaType::Getter)
                } else {
                    self.lambda(Some(name.clone()), "method", LambdaType::Function)
                }
            } else {
                self.lambda(Some(name.clone()), kind, lambda_type)
            };
            return match function {
                Ok(f) => Ok(Stmt::Var(name, Some(f))),
                Err(e) => Err(e),
            };
        }
        match self.lambda(None, kind, lambda_type) {
            Ok(f) => Ok(Stmt::Expression(f)),
            Err(e) => Err(e),
        }
    }

    /// varDecl -> "var" IDENTIFIER ("=" expression)? ";"
    fn var_declaration(&mut self) -> (r: ParseStmtResult)
        requires
            old(self).wf(),
        ensures
            final(self).steps(*old(self), p_var_declaration(old(self).tokens_v(), old(self).state())),
            stmt_result_view(r) == p_var_declaration(old(self).tokens_v(), old(self).state()).res,
            r is Ok ==> final(self).current > old(self).current,
        decreases old(self).remaining(), 20nat,
    {
        proof {
            lemma_var_declaration(self.tokens_v(), self.state());
        }
        let name = match self.consume(TokenType::Identifier, "Expect variable name.") {
            Ok(tok) => tok.clone(),
            Err(e) => return Err(e),
        };
        // Uninitialized variable
        let expression = if self.advance_if(&[TokenType::Equal]) {
            match self.expression() {
                Ok(e) => Some(e),
                Err(e) => return Err(e),
            }
        } else {
            None
        };
        match self.consume(TokenType::Semicolon, "Expect ';' after variable declaration.") {
            Ok(_) => {},
            Err(e) => return Err(e),
        }
        Ok(Stmt::Var(name, expression))
    }

    /// statement -> printStmt | ifStmt | exprStmt | whileStmt | forStmt | breakStmt | returnStmt | block
    fn statement(&mut self) -> (r: ParseStmtResult)
        requires
            old(self).wf(),
        ensures
            final(self).steps(*old(self), p_statement(old(self).tokens_v(), old(self).state())),
            stmt_result_view(r) == p_statement(old(self).tokens_v(), old(self).state()).res,
            r is Ok ==> final(self).current > old(self).current,
        decreases old(self).remaining(), 81nat,
    {
        proof {
            lemma_statement(self.tokens_v(), self.state());
        }
        if self.advance_if(&[TokenType::If]) {
            return self.if_statement();
        }
        if self.advance_if(&[TokenType::While]) {
            return self.while_statement();
        }
        if self.advance_if(&[TokenType::For]) {
            return self.for_statement();
        }
        if self.advance_if(&[TokenType::Print]) {
            return self.print_statement();
        }
        if self.advance_if(&[TokenType::Break]) {
            return self.break_statement();
        }
        if self.advance_if(&[TokenType::Return]) {
            return self.return_statement();
        }
        if self.advance_if(&[TokenType::LeftBrace]) {
            return match self.block() {
                Ok(b) => {
                    let ghost gb = b;
                    let r = Stmt::Block(b);
                    proof {
                        lemma_block_view(gb);
                    }
                    Ok(r)
                },
                Err(e) => Err(e),
            };
        }
        self.expression_statement()
    }

    /// returnStmt -> "return" expression? ";"
    fn return_statement(&mut self) -> (r: ParseStmtResult)
        requires
            old(self).wf(),
            old(self).current >= 1,
        ensures
            final(self).steps(*old(self), p_return(old(self).tokens_v(), old(self).state())),
            stmt_result_view(r) == p_return(old(self).tokens_v(), old(self).state()).res,
            r is Ok ==> final(self).current > old(self).current,
        decreases old(self).remaining(), 75nat,
    {
        proof {
            lemma_return(self.tokens_v(), self.state());
            assert(self.tokens_v()[self.current - 1] == self.tokens@[self.current - 1]@);
        }
        let keyword = self.previous().clone();
        let value = if !self.check(&[TokenType::Semicolon]) {
            match self.expression() {
                Ok(e) => Some(e),
                Err(e) => return Err(e),
            }
        } else {
            None
        };
        match self.consume(TokenType::Semicolon, "Expect ';' after return value.") {
            Ok(_) => {},
            Err(e) => return Err(e),
        }
        Ok(Stmt::Return(keyword, value))
    }

    /// breakStmt -> "break" ";"
    fn break_statement(&mut self) -> (r: ParseStmtResult)
        requires
            old(self).wf(),
            old(self).current >= 1,
        ensures
            final(self).steps(*old(self), p_break(old(self).tokens_v(), old(self).state())),
            stmt_result_view(r) == p_break(old(self).tokens_v(), old(self).state()).res,
            r is Ok ==> final(self).current > old(self).current,
    {
        proof {
            assert(self.tokens_v()[self.current - 1] == self.tokens@[self.current - 1]@);
        }
        let keyword = self.previous().clone();
        match self.consume(TokenType::Semicolon, "Expect ';' after break.") {
            Ok(_) => {},
            Err(e) => return Err(e),
        }
        Ok(Stmt::Break(keyword))
    }

    /// ifStmt -> "if" "(" expression ")" statement ("else" statement)?
    fn if_statement(&mut self) -> (r: ParseStmtResult)
        requires
            old(self).wf(),
        ensures
            final(self).steps(*old(self), p_if(old(self).tokens_v(), old(self).state())),
            stmt_result_view(r) == p_if(old(self).tokens_v(), old(self).state()).res,
            r is Ok ==> final(self).current > old(self).current,
        decreases old(self).remaining(), 77nat,
    {
        proof {
            lemma_if(self.tokens_v(), self.state());
            lemma_cond_body(self.tokens_v(), self.state());
        }
        match self.consume(TokenType::LeftParen, "Expect '(' after 'if'.") {
            Ok(_) => {},
            Err(e) => return Err(e),
        }
        let condition = match self.expression() {
            Ok(e) => e,
            Err(e) => return Err(e),
        };
        match self.consume(TokenType::RightParen, "Expect ')' after if condition.") {
            Ok(_) => {},
            Err(e) => return Err(e),
        }
        let then_branch = match self.statement() {
            Ok(s) => s,
            Err(e) => return Err(e),
        };
        let else_branch = if self.advance_if(&[TokenType::Else]) {
            match self.statement() {
                Ok(s) => Some(s),
                Err(e) => return Err(e),
            }
        } else {
            None
        };
        Ok(Stmt::if_else(condition, then_branch, else_branch))
    }

    /// block -> "{" declaration* "}"
    fn block(&mut self) -> (r: Result<Vec<Stmt>, ParseError>)
        requires
            old(self).wf(),
        ensures
            final(self).steps(*old(self), p_block(old(self).tokens_v(), old(self).state())),
            match r {
                Ok(stmts) => p_block(old(self).tokens_v(), old(self).state()).res == Ok::<
                    Seq<StmtV>,
                    ParseErrorV,
                >(stmts_view(stmts@)),
                Err(e) => p_block(old(self).tokens_v(), old(self).state()).res == Err::<
                    Seq<StmtV>,
                    ParseErrorV,
                >(e@),
            },
            r is Ok ==> final(self).current > old(self).current,
            r is Ok ==> final(self).id_seed - old(self).id_seed < final(self).current
                - old(self).current,
        decreases old(self).remaining(), 84nat,
    {
        let ghost t = self.tokens_v();
        let ghost s0 = self.state();
        proof {
            lemma_block(t, s0);
        }
        let mut statements: Vec<Stmt> = Vec::new();
        assert(stmts_view(statements@) =~= Seq::<StmtV>::empty());
        loop
            invariant
                t == old(self).tokens_v(),
                s0 == old(self).state(),
                self.wf(),
                self.tokens@ == old(self).tokens@,
                old(self).current <= self.current,
                self.id_seed - old(self).id_seed <= self.current - old(self).current,
                p_block_items(t, s0, Seq::empty()) == shift(
                    (self.current - old(self).current) as nat,
                    p_block_items(t, self.state(), stmts_view(statements@)),
                ),
            ensures
                self.wf(),
                self.tokens@ == old(self).tokens@,
                old(self).current <= self.current,
                self.id_seed - old(self).id_seed <= self.current - old(self).current,
                p_block_items(t, s0, Seq::empty()) == shift(
                    (self.current - old(self).current) as nat,
                    stay(self.state(), Ok(stmts_view(statements@))),
                ),
            decreases self.remaining(),
        {
            let ghost cur = self.state();
            if self.check(&[TokenType::RightBrace]) || self.is_at_end() {
                proof {
                    lemma_block_items_end(t, cur, stmts_view(statements@));
                }
                break;
            }
            proof {
                lemma_block_items_more(t, cur, stmts_view(statements@));
            }
            let d = match self.declaration() {
                Ok(d) => d,
                Err(e) => {
                    proof {
                        lemma_block(t, s0);
                    }
                    return Err(e);
                },
            };
            let ghost before = stmts_view(statements@);
            statements.push(d);
            assert(stmts_view(statements@) =~= before.push(stmt_view(d)));
        }
        match self.consume(TokenType::RightBrace, "Expect '}' after block.") {
            Ok(_) => {},
            Err(e) => return Err(e),
        }
        Ok(statements)
    }

    /// printStmt -> "print" expression ";"
    fn print_statement(&mut self) -> (r: ParseStmtResult)
        requires
            old(self).wf(),
        ensures
            final(self).steps(*old(self), p_print(old(self).tokens_v(), old(self).state())),
            stmt_result_view(r) == p_print(old(self).tokens_v(), old(self).state()).res,
            r is Ok ==> final(self).current > old(self).current,
        decreases old(self).remaining(), 74nat,
    {
        proof {
            lemma_print(self.tokens_v(), self.state());
            lemma_terminated(self.tokens_v(), self.state());
        }
        let value = match self.expression() {
            Ok(e) => e,
            Err(e) => return Err(e),
        };
        match self.consume(TokenType::Semicolon, "Expect ';' after value.") {
            Ok(_) => {},
            Err(e) => return Err(e),
        }
        Ok(Stmt::Print(value))
    }

    /// exprStmt -> expression ";"
    fn expression_statement(&mut self) -> (r: ParseStmtResult)
        requires
            old(self).wf(),
        ensures
            final(self).steps(
                *old(self),
                p_expression_statement(old(self).tokens_v(), old(self).state()),
            ),
            stmt_result_view(r) == p_expression_statement(
                old(self).tokens_v(),
                old(self).state(),
            ).res,
            r is Ok ==> final(self).current > old(self).current,
        decreases old(self).remaining(), 73nat,
    {
        proof {
            lemma_expression_statement(self.tokens_v(), self.state());
            lemma_terminated(self.tokens_v(), self.state());
        }
        let value = match self.expression() {
            Ok(e) => e,
            Err(e) => return Err(e),
        };
        match self.consume(TokenType::Semicolon, "Expect ';' after value.") {
            Ok(_) => {},
            Err(e) => return Err(e),
        }
        Ok(Stmt::Expression(value))
    }

    /// whileStmt -> "while" "(" expression ")" statement
    fn while_statement(&mut self) -> (r: ParseStmtResult)
        requires
            old(self).wf(),
        ensures
            final(self).steps(*old(self), p_while(old(self).tokens_v(), old(self).state())),
            stmt_result_view(r) == p_while(old(self).tokens_v(), old(self).state()).res,
            r is Ok ==> final(self).current > old(self).current,
        decreases old(self).remaining(), 78nat,
    {
        proof {
            lemma_while(self.tokens_v(), self.state());
            lemma_cond_body(self.tokens_v(), self.state());
        }
        match self.consume(TokenType::LeftParen, "Expect '(' after 'if'.") {
            Ok(_) => {},
            Err(e) => return Err(e),
        }
        let condition = match self.expression() {
            Ok(e) => e,
            Err(e) => return Err(e),
        };
        match self.consume(TokenType::RightParen, "Expect ')' after if condition.") {
            Ok(_) => {},
            Err(e) => return Err(e),
        }
        let body = match self.statement() {
            Ok(s) => s,
            Err(e) => return Err(e),
        };
        Ok(Stmt::while_st(condition, body))
    }

    /// forStmt -> "for" "(" (varDel | exprStmt | ";") expression? ";" expression? ")" statement
    #[verifier::rlimit(40)]
    fn for_statement(&mut self) -> (r: ParseStmtResult)
        requires
            old(self).wf(),
        ensures
            final(self).steps(*old(self), p_for(old(self).tokens_v(), old(self).state())),
            stmt_result_view(r) == p_for(old(self).tokens_v(), old(self).state()).res,
            r is Ok ==> final(self).current > old(self).current,
        decreases old(self).remaining(), 80nat,
    {
        proof {
            lemma_for(self.tokens_v(), self.state());
        }
        match self.consume(TokenType::LeftParen, "Expect '(' after 'for'.") {
            Ok(_) => {},
            Err(e) => return Err(e),
        }
        let initializer = if self.advance_if(&[TokenType::Semicolon]) {
            None
        } else if self.advance_if(&[TokenType::Var]) {
            match self.var_declaration() {
                Ok(s) => Some(s),
                Err(e) => return Err(e),
            }
        } else {
            match self.expression_statement() {
                Ok(s) => Some(s),
                Err(e) => return Err(e),
            }
        };
        proof {
            lemma_for_clauses(self.tokens_v(), self.state(), option_stmt_view(initializer));
        }
        let condition = if !self.check(&[TokenType::Semicolon]) {
            match self.expression() {
                Ok(e) => e,
                Err(e) => return Err(e),
            }
        } else {
            self.build_expr(ExprKind::literal(Literal::Boolean(true)))
        };
        match self.consume(TokenType::Semicolon, "Expect ';' after loop condition") {
            Ok(_) => {},
            Err(e) => return Err(e),
        }
        let increment = if !self.check(&[TokenType::RightParen]) {
            match self.expression() {
                Ok(e) => Some(e),
                Err(e) => return Err(e),
            }
        } else {
            None
        };
        match self.consume(TokenType::RightParen, "Expect ')' after clauses.") {
            Ok(_) => {},
            Err(e) => return Err(e),
        }
        let mut body = match self.statement() {
            Ok(s) => s,
            Err(e) => return Err(e),
        };
        let ghost ginit = option_stmt_view(initializer);
        let ghost gcond = expr_view(condition);
        let ghost ginc = option_expr_view(increment);
        let ghost gbody = stmt_view(body);
        if let Some(inc) = increment {
            let mut parts: Vec<Stmt> = Vec::new();
            parts.push(body);
            parts.push(Stmt::Expression(inc));
            let ghost gparts = parts;
            body = Stmt::Block(parts);
            proof {
                lemma_block_view(gparts);
                assert(stmts_view(gparts@) =~= seq![gbody, StmtV::Expression(expr_view(inc))]);
            }
        }
        let ghost with_inc = stmt_view(body);
        assert(with_inc == match ginc {
            Some(i) => StmtV::Block(seq![gbody, StmtV::Expression(i)]),
            None => gbody,
        });
        body = Stmt::while_st(condition, body);
        assert(stmt_view(body) == StmtV::While(gcond, Box::new(with_inc)));
        if let Some(init) = initializer {
            let ghost looped = stmt_view(body);
            let mut parts: Vec<Stmt> = Vec::new();
            parts.push(init);
            parts.push(body);
            let ghost gparts = parts;
            body = Stmt::Block(parts);
            proof {
                lemma_block_view(gparts);
                assert(stmts_view(gparts@) =~= seq![stmt_view(init), looped]);
            }
        }
        assert(stmt_view(body) == crate::grammar::desugar_for(ginit, gcond, ginc, gbody));
        Ok(body)
    }

    // -----------------------------------------------------------------------
    // Programs and error recovery
    /// Parses the whole program: every declaration up to the end of the
    /// tokens, recovering after each syntax error.
    pub fn parse(self) -> (r: (Vec<Stmt>, Vec<ParseError>))
        requires
            self.wf(),
        ensures
            (stmts_view(r.0@), perrors_view(r.1@)) == p_program(
                self.tokens_v(),
                self.state(),
                Seq::empty(),
            ),
    {
        let ghost t = self.tokens_v();
        let ghost s0 = self.state();
        let mut this = self;
        let mut statements: Vec<Stmt> = Vec::new();
        assert(stmts_view(statements@) =~= Seq::<StmtV>::empty());
        while !this.is_at_end()
            invariant
                this.wf(),
                this.tokens_v() == t,
                p_program(t, s0, Seq::empty()) == p_program(
                    t,
                    this.state(),
                    stmts_view(statements@),
                ),
            decreases this.remaining(),
        {
            let ghost cur = this.state();
            let ghost acc = stmts_view(statements@);
            match this.try_program() {
                Some(stmt) => {
                    statements.push(stmt);
                    assert(stmts_view(statements@) =~= acc.push(stmt_view(stmt)));
                },
                None => {},
            }
        }
        (statements, this.errors)
    }

    /// One declaration; after a syntax error, the error is recorded and the
    /// parser skips ahead to the next statement.
    fn try_program(&mut self) -> (r: Option<Stmt>)
        requires
            old(self).wf(),
            !at_end(old(self).tokens_v(), old(self).current as nat),
        ensures
            final(self).steps(*old(self), p_try_program(old(self).tokens_v(), old(self).state())),
            p_try_program(old(self).tokens_v(), old(self).state()).res == Ok::<
                Option<StmtV>,
                ParseErrorV,
            >(option_stmt_view(r)),
            final(self).current > old(self).current,
    {
        match self.declaration() {
            Ok(stmt) => Some(stmt),
            Err(e) => {
                let ghost before = perrors_view(self.errors@);
                self.errors.push(e);
                assert(perrors_view(self.errors@) =~= before.push(e@));
                self.synchronize();
                None
            },
        }
    }

    /// Skips tokens after a syntax error: past the offending token, then up
    /// to just after a ";" or up to a token that starts a statement.
    fn synchronize(&mut self)
        requires
            old(self).wf(),
            old(self).current >= 1 || !at_end(old(self).tokens_v(), old(self).current as nat),
        ensures
            final(self).wf(),
            final(self).tokens == old(self).tokens,
            final(self).errors == old(self).errors,
            final(self).id_seed == old(self).id_seed,
            final(self).current == old(self).current + sync_len(
                old(self).tokens_v(),
                old(self).current as nat,
            ),
    {
        let ghost t = self.tokens_v();
        let ghost p = self.current as nat;
        self.advance();
        while !self.is_at_end()
            invariant
                self.wf(),
                self.tokens == old(self).tokens,
                self.errors == old(self).errors,
                self.id_seed == old(self).id_seed,
                t == self.tokens_v(),
                p == old(self).current,
                at_end(t, p) ==> self.current == p,
                !at_end(t, p) ==> p < self.current && sync_len(t, p) == (self.current - p)
                    + sync_rest(t, self.current as nat),
            decreases self.remaining(),
        {
            assert(t[self.current - 1] == self.tokens@[self.current - 1]@);
            assert(t[self.current as int] == self.tokens@[self.current as int]@);
            if self.previous().token_type == TokenType::Semicolon {
                return;
            }
            match self.peek().token_type {
                TokenType::Class
                | TokenType::Fun
                | TokenType::Var
                | TokenType::For
                | TokenType::If
                | TokenType::While
                | TokenType::Print
                | TokenType::Return => return,
                _ => {},
            }
            self.advance();
        }
    }
}

} // verus!
