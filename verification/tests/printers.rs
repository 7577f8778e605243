use rlox::expr::tree;
use rlox::parser::Parser;
use rlox::printers::{AstPrinter, RpnPrinter};
use rlox::token::{Literal, Scanner, Token, TokenType};

fn print_both(src: &str) -> (String, String) {
    let (tokens, _) = Scanner::new(src.to_string()).scan_tokens();
    let e = Parser::new(&tokens).parse_expression().ok().unwrap();
    (AstPrinter.print(&e), RpnPrinter.print(&e))
}

#[test]
fn prints_operators_in_both_notations() {
    assert_eq!(print_both("1 + 2 * 3"), ("(+ 1 (* 2 3))".to_string(), "1 2 3 * +".to_string()));
    assert_eq!(print_both("(1 + 2) * 3"), ("(* (group (+ 1 2)) 3)".to_string(), "1 2 + 3 *".to_string()));
    assert_eq!(print_both("-a"), ("(- a)".to_string(), "a -".to_string()));
}

#[test]
fn prints_the_other_printable_kinds() {
    assert_eq!(print_both("a = \"s\""), ("(= a \"s\")".to_string(), "\"s\" = a".to_string()));
    assert_eq!(print_both("a or b"), ("(or a b)".to_string(), "a b or".to_string()));
    assert_eq!(print_both("1, nil"), ("(, 1 nil)".to_string(), "1 nil ,".to_string()));
    assert_eq!(print_both("c ? true : false"), ("(?: c true false)".to_string(), "c true false ?:".to_string()));
}

fn op(t: TokenType, lexeme: &str) -> Token {
    Token::new(t, lexeme.to_string(), None, 1)
}

fn num(n: &str) -> tree::Expr {
    tree::Expr::literal(Literal::Number(n.to_string()))
}

#[test]
fn prints_the_small_tree() {
    // -123 * (45.67)
    let e = tree::Expr::binary(
        tree::Expr::unary(op(TokenType::Minus, "-"), num("123")),
        op(TokenType::Star, "*"),
        tree::Expr::grouping(num("45.67")),
    );
    assert_eq!(rlox::expr::ast_printer::AstPrinter.print(&e), "(* (- 123) (group 45.67))");
    assert_eq!(rlox::expr::rpn_printer::RpnPrinter.print(&e), "123 - 45.67 *");
    let c = tree::Expr::comma(num("1"), num("2"));
    assert_eq!(rlox::expr::ast_printer::AstPrinter.print(&c), "(, 1 2)");
    assert_eq!(rlox::expr::rpn_printer::RpnPrinter.print(&c), "1 2 ,");
}

#[test]
fn numbers_print_as_their_values() {
    for (written, shown) in [
        ("10.0", "10"),
        ("007.50", "7.5"),
        ("0.0", "0"),
        ("000", "0"),
        ("100", "100"),
        ("1.05", "1.05"),
        ("0.250", "0.25"),
    ] {
        assert_eq!(Literal::Number(written.to_string()).to_string(), shown);
    }
    assert_eq!(print_both("10.0 + 1.50"), ("(+ 10 1.5)".to_string(), "10 1.5 +".to_string()));
}
