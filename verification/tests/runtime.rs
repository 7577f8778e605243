use rlox::runtime::{call_check, property_source, property_target, PropertySource, PropertyTarget};
use rlox::token::{Token, TokenType};

fn token(kind: TokenType, lexeme: &str) -> Token {
    Token { token_type: kind, lexeme: lexeme.to_string(), literal: None, line: 4 }
}

#[test]
fn calls_need_a_callable_with_the_right_arity() {
    let paren = token(TokenType::RightParen, ")");
    assert!(call_check(&paren, true, 2, 2).is_ok());
    assert!(call_check(&paren, true, 0, 0).is_ok());
    let (at, message) = call_check(&paren, false, 0, 0).err().unwrap();
    assert_eq!((at.lexeme.as_str(), at.line), (")", 4));
    assert_eq!(message, "Can only call function and classes.");
    assert_eq!(call_check(&paren, true, 2, 13).err().unwrap().1, "Expected 2 arguments but got 13.");
    assert_eq!(call_check(&paren, true, 10, 0).err().unwrap().1, "Expected 10 arguments but got 0.");
}

#[test]
fn instance_properties_come_from_fields_then_getters_then_methods() {
    let name = token(TokenType::Identifier, "area");
    assert_eq!(property_source(true, true, true, &name).ok(), Some(PropertySource::Field));
    assert_eq!(property_source(false, true, true, &name).ok(), Some(PropertySource::Getter));
    assert_eq!(property_source(false, false, true, &name).ok(), Some(PropertySource::Method));
    let (at, message) = property_source(false, false, false, &name).err().unwrap();
    assert_eq!(at.lexeme, "area");
    assert_eq!(message, "Undefined property 'area'");
}

#[test]
fn property_reads_need_a_class_or_an_instance() {
    let name = token(TokenType::Identifier, "square");
    assert_eq!(property_target(true, true, false, &name).ok(), Some(PropertyTarget::Static));
    assert_eq!(property_target(false, false, true, &name).ok(), Some(PropertyTarget::Instance));
    assert_eq!(property_target(true, false, false, &name).err().unwrap().1, "Undefined static property.");
    assert_eq!(property_target(false, false, false, &name).err().unwrap().1, "Only instances have properties.");
}
