//! Parenthesized printing of the small expression tree.
use crate::expr::tree::Expr;
use crate::printers::{ast_text, parenthesize, strings_view};
use vstd::prelude::*;

verus! {

/// Prints small expression trees as parenthesized trees.
pub struct AstPrinter;

impl AstPrinter {
    /// Prints the Abstract Syntax Tree (AST) of a given expression
    pub fn print(&mut self, expr: &Expr) -> (r: String)
        ensures
            r@ == ast_text(expr@),
        decreases expr,
    {
        match expr {
            Expr::Binary(left, operator, right) => {
                let parts = vec![self.print(left), self.print(right)];
                assert(strings_view(parts@) =~= seq![ast_text(left@), ast_text(right@)]);
                parenthesize(operator.lexeme.as_str(), parts.as_slice())
            },
            Expr::Grouping(expression) => {
                let parts = vec![self.print(expression)];
                assert(strings_view(parts@) =~= seq![ast_text(expression@)]);
                parenthesize("group", parts.as_slice())
            },
            Expr::Literal(literal) => literal.to_string(),
            Expr::Unary(operator, right) => {
                let parts = vec![self.print(right)];
                assert(strings_view(parts@) =~= seq![ast_text(right@)]);
                parenthesize(operator.lexeme.as_str(), parts.as_slice())
            },
            Expr::Comma(left, right) => {
                let parts = vec![self.print(left), self.print(right)];
                assert(strings_view(parts@) =~= seq![ast_text(left@), ast_text(right@)]);
                parenthesize(",", parts.as_slice())
            },
            Expr::Ternary(cond, left, right) => {
                let parts = vec![self.print(cond), self.print(left), self.print(right)];
                assert(strings_view(parts@) =~= seq![
                    ast_text(cond@),
                    ast_text(left@),
                    ast_text(right@),
                ]);
                parenthesize("?:", parts.as_slice())
            },
        }
    }
}

} // verus!
