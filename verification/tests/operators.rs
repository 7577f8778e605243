use rlox::operators::{binary_action, unary_action, BinaryAction, UnaryAction, ValueKind};
use rlox::token::{Token, TokenType};

fn op(kind: TokenType, lexeme: &str) -> Token {
    Token { token_type: kind, lexeme: lexeme.to_string(), literal: None, line: 7 }
}

fn refusal(r: Result<BinaryAction, (Token, String)>) -> (String, String) {
    let (token, message) = r.err().unwrap();
    (token.lexeme, message)
}

#[test]
fn arithmetic_wants_two_numbers() {
    for (t, l) in [
        (TokenType::Minus, "-"),
        (TokenType::Slash, "/"),
        (TokenType::Star, "*"),
        (TokenType::Percent, "%"),
    ] {
        let o = op(t, l);
        assert_eq!(binary_action(&o, ValueKind::Number, ValueKind::Number).ok(), Some(BinaryAction::Arithmetic));
        assert_eq!(
            refusal(binary_action(&o, ValueKind::Number, ValueKind::String)),
            (l.to_string(), "Operands must be numbers.".to_string())
        );
        assert_eq!(
            refusal(binary_action(&o, ValueKind::Nil, ValueKind::Number)).1,
            "Operands must be numbers."
        );
    }
}

#[test]
fn plus_adds_numbers_and_joins_strings() {
    let plus = op(TokenType::Plus, "+");
    assert_eq!(binary_action(&plus, ValueKind::Number, ValueKind::Number).ok(), Some(BinaryAction::AddNumbers));
    assert_eq!(binary_action(&plus, ValueKind::String, ValueKind::String).ok(), Some(BinaryAction::Concatenate));
    assert_eq!(
        binary_action(&plus, ValueKind::String, ValueKind::Number).ok(),
        Some(BinaryAction::ConcatenateNumberRight)
    );
    assert_eq!(
        binary_action(&plus, ValueKind::Number, ValueKind::String).ok(),
        Some(BinaryAction::ConcatenateNumberLeft)
    );
    assert_eq!(
        refusal(binary_action(&plus, ValueKind::Boolean, ValueKind::String)),
        ("+".to_string(), "Operands must be numbers or strings.".to_string())
    );
}

#[test]
fn comparisons_want_two_numbers_or_two_strings() {
    let less = op(TokenType::Less, "<");
    assert_eq!(binary_action(&less, ValueKind::Number, ValueKind::Number).ok(), Some(BinaryAction::CompareNumbers));
    assert_eq!(binary_action(&less, ValueKind::String, ValueKind::String).ok(), Some(BinaryAction::CompareStrings));
    assert_eq!(
        refusal(binary_action(&less, ValueKind::String, ValueKind::Number)).1,
        "Operands must be two numbers or two strings."
    );
    let ge = op(TokenType::GreaterEqual, ">=");
    assert_eq!(refusal(binary_action(&ge, ValueKind::List, ValueKind::List)).0, ">=");
}

#[test]
fn equality_takes_anything() {
    let eq = op(TokenType::EqualEqual, "==");
    let ne = op(TokenType::BangEqual, "!=");
    assert_eq!(binary_action(&eq, ValueKind::Nil, ValueKind::Instance).ok(), Some(BinaryAction::Equal));
    assert_eq!(binary_action(&ne, ValueKind::Callable, ValueKind::Number).ok(), Some(BinaryAction::NotEqual));
}

#[test]
fn unary_operators() {
    let minus = op(TokenType::Minus, "-");
    let bang = op(TokenType::Bang, "!");
    assert_eq!(unary_action(&minus, ValueKind::Number).ok(), Some(UnaryAction::Negate));
    let (token, message) = unary_action(&minus, ValueKind::String).err().unwrap();
    assert_eq!((token.lexeme.as_str(), token.line), ("-", 7));
    assert_eq!(message, "Operand must be a number.");
    assert_eq!(unary_action(&bang, ValueKind::Nil).ok(), Some(UnaryAction::Not));
}
