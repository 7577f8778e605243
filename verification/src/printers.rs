//! Printing expressions, as a parenthesized tree and in reverse Polish
//! notation.
use crate::expr::{Expr, ExprKind, ExprKindV, ExprV};
use crate::token::literal_text;
use vstd::prelude::*;
use vstd::string::StringExecFns;

verus! {

/// The printers know every kind of expression but calls, functions,
/// properties, `this`, `super`, lists and indexing.
pub open spec fn printable(e: ExprV) -> bool
    decreases e,
{
    match e.kind {
        ExprKindV::Binary(l, _, r) => printable(*l) && printable(*r),
        ExprKindV::Grouping(x) => printable(*x),
        ExprKindV::Literal(_) => true,
        ExprKindV::Unary(_, r) => printable(*r),
        ExprKindV::Comma(l, r) => printable(*l) && printable(*r),
        ExprKindV::Ternary(c, l, r) => printable(*c) && printable(*l) && printable(*r),
        ExprKindV::Variable(_) => true,
        ExprKindV::Assign(_, v) => printable(*v),
        ExprKindV::Logical(l, _, r) => printable(*l) && printable(*r),
        _ => false,
    }
}

/// Each part preceded by a space.
pub open spec fn spaced(parts: Seq<Seq<char>>) -> Seq<char>
    decreases parts.len(),
{
    if parts.len() == 0 {
        Seq::empty()
    } else {
        spaced(parts.drop_last()) + " "@ + parts.last()
    }
}

/// Each part followed by a space.
pub open spec fn trailing(parts: Seq<Seq<char>>) -> Seq<char>
    decreases parts.len(),
{
    if parts.len() == 0 {
        Seq::empty()
    } else {
        trailing(parts.drop_last()) + parts.last() + " "@
    }
}

/// `(name part part ...)`
pub open spec fn parenthesized(name: Seq<char>, parts: Seq<Seq<char>>) -> Seq<char> {
    "("@ + name + spaced(parts) + ")"@
}

/// `part part ... op`
pub open spec fn post_ordered(op: Seq<char>, parts: Seq<Seq<char>>) -> Seq<char> {
    trailing(parts) + op
}

/// The tree of an expression, each operation in parentheses before its
/// operands: `-1 + 2` is `(+ (- 1) 2)`.
pub open spec fn ast_text(e: ExprV) -> Seq<char>
    decreases e,
{
    match e.kind {
        ExprKindV::Binary(l, op, r) => parenthesized(op.lexeme, seq![ast_text(*l), ast_text(*r)]),
        ExprKindV::Grouping(x) => parenthesized("group"@, seq![ast_text(*x)]),
        ExprKindV::Literal(l) => literal_text(l),
        ExprKindV::Unary(op, r) => parenthesized(op.lexeme, seq![ast_text(*r)]),
        ExprKindV::Comma(l, r) => parenthesized(","@, seq![ast_text(*l), ast_text(*r)]),
        ExprKindV::Ternary(c, l, r) => parenthesized(
            "?:"@,
            seq![ast_text(*c), ast_text(*l), ast_text(*r)],
        ),
        ExprKindV::Variable(n) => n.lexeme,
        ExprKindV::Assign(n, v) => parenthesized("= "@ + n.lexeme, seq![ast_text(*v)]),
        ExprKindV::Logical(l, op, r) => parenthesized(op.lexeme, seq![ast_text(*l), ast_text(*r)]),
        _ => Seq::empty(),
    }
}

/// An expression in reverse Polish notation, each operation after its
/// operands: `(1 + 2) * 3` is `1 2 + 3 *`.
pub open spec fn rpn_text(e: ExprV) -> Seq<char>
    decreases e,
{
    match e.kind {
        ExprKindV::Binary(l, op, r) => post_ordered(op.lexeme, seq![rpn_text(*l), rpn_text(*r)]),
        ExprKindV::Grouping(x) => rpn_text(*x),
        ExprKindV::Literal(l) => literal_text(l),
        ExprKindV::Unary(op, r) => post_ordered(op.lexeme, seq![rpn_text(*r)]),
        ExprKindV::Comma(l, r) => post_ordered(","@, seq![rpn_text(*l), rpn_text(*r)]),
        ExprKindV::Ternary(c, l, r) => post_ordered(
            "?:"@,
            seq![rpn_text(*c), rpn_text(*l), rpn_text(*r)],
        ),
        ExprKindV::Variable(n) => n.lexeme,
        ExprKindV::Assign(n, v) => post_ordered("= "@ + n.lexeme, seq![rpn_text(*v)]),
        ExprKindV::Logical(l, op, r) => post_ordered(op.lexeme, seq![rpn_text(*l), rpn_text(*r)]),
        _ => Seq::empty(),
    }
}

pub open spec fn strings_view(ss: Seq<String>) -> Seq<Seq<char>> {
    ss.map_values(|s: String| s@)
}

/// Builds `(name part part ...)`.
pub fn parenthesize(name: &str, parts: &[String]) -> (r: String)
    ensures
        r@ == parenthesized(name@, strings_view(parts@)),
{
    let mut builder = String::from_str("(");
    builder.append(name);
    let mut i: usize = 0;
    while i < parts.len()
        invariant
            0 <= i <= parts@.len(),
            builder@ == "("@ + name@ + spaced(strings_view(parts@).take(i as int)),
        decreases parts@.len() - i,
    {
        let ghost before = builder@;
        builder.append(" ");
        builder.append(parts[i].as_str());
        proof {
            let v = strings_view(parts@);
            assert(v.take(i + 1).drop_last() =~= v.take(i as int));
            assert(builder@ =~= "("@ + name@ + spaced(v.take(i + 1)));
        }
        i += 1;
    }
    assert(strings_view(parts@).take(i as int) =~= strings_view(parts@));
    builder.append(")");
    builder
}

/// Builds `part part ... op`.
pub fn post_orderize(op: &str, parts: &[String]) -> (r: String)
    ensures
        r@ == post_ordered(op@, strings_view(parts@)),
{
    let mut builder = String::new();
    assert(builder@ =~= trailing(strings_view(parts@).take(0)));
    let mut i: usize = 0;
    while i < parts.len()
        invariant
            0 <= i <= parts@.len(),
            builder@ == trailing(strings_view(parts@).take(i as int)),
        decreases parts@.len() - i,
    {
        builder.append(parts[i].as_str());
        builder.append(" ");
        proof {
            let v = strings_view(parts@);
            assert(v.take(i + 1).drop_last() =~= v.take(i as int));
            assert(builder@ =~= trailing(v.take(i + 1)));
        }
        i += 1;
    }
    assert(strings_view(parts@).take(i as int) =~= strings_view(parts@));
    builder.append(op);
    builder
}

/// Prints expressions as parenthesized trees.
pub struct AstPrinter;

impl AstPrinter {
    /// Prints the Abstract Syntax Tree (AST) of a given expression
    pub fn print(&mut self, expr: &Expr) -> (r: String)
        requires
            printable(expr@),
        ensures
            r@ == ast_text(expr@),
        decreases expr,
    {
        match &expr.kind {
            ExprKind::Binary(left, operator, right) => {
                let parts = vec![self.print(left), self.print(right)];
                assert(strings_view(parts@) =~= seq![ast_text(left@), ast_text(right@)]);
                parenthesize(operator.lexeme.as_str(), parts.as_slice())
            },
            ExprKind::Grouping(expression) => {
                let parts = vec![self.print(expression)];
                assert(strings_view(parts@) =~= seq![ast_text(expression@)]);
                parenthesize("group", parts.as_slice())
            },
            ExprKind::Literal(literal) => literal.to_string(),
            ExprKind::Unary(operator, right) => {
                let parts = vec![self.print(right)];
                assert(strings_view(parts@) =~= seq![ast_text(right@)]);
                parenthesize(operator.lexeme.as_str(), parts.as_slice())
            },
            ExprKind::Comma(left, right) => {
                let parts = vec![self.print(left), self.print(right)];
                assert(strings_view(parts@) =~= seq![ast_text(left@), ast_text(right@)]);
                parenthesize(",", parts.as_slice())
            },
            ExprKind::Ternary(cond, left, right) => {
                let parts = vec![self.print(cond), self.print(left), self.print(right)];
                assert(strings_view(parts@) =~= seq![
                    ast_text(cond@),
                    ast_text(left@),
                    ast_text(right@),
                ]);
                parenthesize("?:", parts.as_slice())
            },
            ExprKind::Variable(name) => name.lexeme.clone(),
            ExprKind::Assign(name, value) => {
                let parts = vec![self.print(value)];
                assert(strings_view(parts@) =~= seq![ast_text(value@)]);
                let label = String::from_str("= ").concat(name.lexeme.as_str());
                parenthesize(label.as_str(), parts.as_slice())
            },
            ExprKind::Logical(left, operator, right) => {
                let parts = vec![self.print(left), self.print(right)];
                assert(strings_view(parts@) =~= seq![ast_text(left@), ast_text(right@)]);
                parenthesize(operator.lexeme.as_str(), parts.as_slice())
            },
            _ => String::new(),
        }
    }
}

/// Prints expressions in reverse Polish notation.
pub struct RpnPrinter;

impl RpnPrinter {
    /// Prints the Reverse Polish Notation of a given expression
    pub fn print(&mut self, expr: &Expr) -> (r: String)
        requires
            printable(expr@),
        ensures
            r@ == rpn_text(expr@),
        decreases expr,
    {
        match &expr.kind {
            ExprKind::Binary(left, operator, right) => {
                let parts = vec![self.print(left), self.print(right)];
                assert(strings_view(parts@) =~= seq![rpn_text(left@), rpn_text(right@)]);
                post_orderize(operator.lexeme.as_str(), parts.as_slice())
            },
            ExprKind::Grouping(expression) => self.print(expression),
            ExprKind::Literal(literal) => literal.to_string(),
            ExprKind::Unary(operator, right) => {
                let parts = vec![self.print(right)];
                assert(strings_view(parts@) =~= seq![rpn_text(right@)]);
                post_orderize(operator.lexeme.as_str(), parts.as_slice())
            },
            ExprKind::Comma(left, right) => {
                let parts = vec![self.print(left), self.print(right)];
                assert(strings_view(parts@) =~= seq![rpn_text(left@), rpn_text(right@)]);
                post_orderize(",", parts.as_slice())
            },
            ExprKind::Ternary(cond, left, right) => {
                let parts = vec![self.print(cond), self.print(left), self.print(right)];
                assert(strings_view(parts@) =~= seq![
                    rpn_text(cond@),
                    rpn_text(left@),
                    rpn_text(right@),
                ]);
                post_orderize("?:", parts.as_slice())
            },
            ExprKind::Variable(name) => name.lexeme.clone(),
            ExprKind::Assign(name, value) => {
                let parts = vec![self.print(value)];
                assert(strings_view(parts@) =~= seq![rpn_text(value@)]);
                let label = String::from_str("= ").concat(name.lexeme.as_str());
                post_orderize(label.as_str(), parts.as_slice())
            },
            ExprKind::Logical(left, operator, right) => {
                let parts = vec![self.print(left), self.print(right)];
                assert(strings_view(parts@) =~= seq![rpn_text(left@), rpn_text(right@)]);
                post_orderize(operator.lexeme.as_str(), parts.as_slice())
            },
            _ => String::new(),
        }
    }
}

} // verus!
