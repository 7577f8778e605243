//! Reverse Polish printing of the small expression tree.
use crate::expr::tree::Expr;
use crate::printers::{post_orderize, rpn_text, strings_view};
use vstd::prelude::*;

verus! {

/// Prints small expression trees in reverse Polish notation.
pub struct RpnPrinter;

impl RpnPrinter {
    /// Prints the Reverse Polish Notation of a given expression
    pub fn print(&mut self, expr: &Expr) -> (r: String)
        ensures
            r@ == rpn_text(expr@),
        decreases expr,
    {
        match expr {
            Expr::Binary(left, operator, right) => {
                let parts = vec![self.print(left), self.print(right)];
                assert(strings_view(parts@) =~= seq![rpn_text(left@), rpn_text(right@)]);
                post_orderize(operator.lexeme.as_str(), parts.as_slice())
            },
            Expr::Grouping(expression) => self.print(expression),
            Expr::Literal(literal) => literal.to_string(),
            Expr::Unary(operator, right) => {
                let parts = vec![self.print(right)];
                assert(strings_view(parts@) =~= seq![rpn_text(right@)]);
                post_orderize(operator.lexeme.as_str(), parts.as_slice())
            },
            Expr::Comma(left, right) => {
                let parts = vec![self.print(left), self.print(right)];
                assert(strings_view(parts@) =~= seq![rpn_text(left@), rpn_text(right@)]);
                post_orderize(",", parts.as_slice())
            },
            Expr::Ternary(cond, left, right) => {
                let parts = vec![self.print(cond), self.print(left), self.print(right)];
                assert(strings_view(parts@) =~= seq![
                    rpn_text(cond@),
                    rpn_text(left@),
                    rpn_text(right@),
                ]);
                post_orderize("?:", parts.as_slice())
            },
        }
    }
}

} // verus!
