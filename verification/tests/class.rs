use rlox::class::{check_superclass, class_shape, find_method, super_outcome, ClassModel, MemberKind};
use rlox::parser::Parser;
use rlox::stmt::Stmt;
use rlox::token::{Scanner, Token, TokenType};

fn class_body(src: &str) -> (Token, Vec<Stmt>) {
    let (tokens, errors) = Scanner::new(src.to_string()).scan_tokens();
    assert!(errors.is_empty());
    let (mut stmts, errors) = Parser::new(&tokens).parse();
    assert!(errors.is_empty());
    match stmts.remove(0) {
        Stmt::Class(name, _, members) => (name, members),
        other => panic!("unexpected {:?}", other),
    }
}

fn token(kind: TokenType, lexeme: &str) -> Token {
    Token { token_type: kind, lexeme: lexeme.to_string(), literal: None, line: 3 }
}

fn model(methods: &[&str], superclass: Option<ClassModel>) -> ClassModel {
    ClassModel {
        methods: methods.iter().map(|m| m.to_string()).collect(),
        superclass: superclass.map(Box::new),
    }
}

#[test]
fn members_are_sorted_by_kind() {
    let (name, members) =
        class_body("class A { init(a, b) { } m(x) { return x; } area { return 1; } class s() { } }");
    let shape = class_shape(&name, &members).ok().unwrap();
    assert_eq!(shape.arity, 2);
    let summary: Vec<(String, MemberKind, usize, bool)> = shape
        .members
        .iter()
        .map(|m| (m.0.clone(), m.1, m.2.len(), m.4))
        .collect();
    assert_eq!(
        summary,
        vec![
            ("init".to_string(), MemberKind::Method, 2, true),
            ("m".to_string(), MemberKind::Method, 1, false),
            ("area".to_string(), MemberKind::Getter, 0, false),
            ("s".to_string(), MemberKind::Static, 0, false),
        ]
    );
    assert_eq!(shape.members[1].3.len(), 1);
}

#[test]
fn arity_is_zero_without_initializer() {
    let (name, members) = class_body("class A { m(x, y, z) { } }");
    let shape = class_shape(&name, &members).ok().unwrap();
    assert_eq!(shape.arity, 0);
    let (name, members) = class_body("class A { }");
    let shape = class_shape(&name, &members).ok().unwrap();
    assert_eq!(shape.arity, 0);
    assert!(shape.members.is_empty());
}

#[test]
fn a_static_init_is_not_the_initializer() {
    let (name, members) = class_body("class A { class init(a) { } }");
    let shape = class_shape(&name, &members).ok().unwrap();
    assert_eq!(shape.arity, 0);
    assert!(!shape.members[0].4);
}

#[test]
fn the_last_initializer_gives_the_arity() {
    let (name, members) = class_body("class A { init(a) { } init(a, b, c) { } }");
    let shape = class_shape(&name, &members).ok().unwrap();
    assert_eq!(shape.arity, 3);
    assert!(shape.members[0].4 && shape.members[1].4);
}

#[test]
fn only_methods_are_allowed_in_a_class_body() {
    let name = token(TokenType::Identifier, "A");
    let members = vec![Stmt::Var(token(TokenType::Identifier, "x"), None)];
    let (at, message) = class_shape(&name, &members).err().unwrap();
    assert_eq!(at.lexeme, "A");
    assert_eq!(message, "Only methods allowed in class body.");
}

#[test]
fn superclass_must_be_a_class() {
    let name = token(TokenType::Identifier, "B");
    assert!(check_superclass(&name, None).is_ok());
    assert!(check_superclass(&name, Some(true)).is_ok());
    let (at, message) = check_superclass(&name, Some(false)).err().unwrap();
    assert_eq!(at.lexeme, "B");
    assert_eq!(message, "Superclass must be a class.");
}

#[test]
fn methods_are_found_up_the_chain() {
    let base = model(&["greet", "init"], None);
    let middle = model(&["walk"], Some(base));
    let top = model(&["greet"], Some(middle));
    assert_eq!(find_method(&top, "greet"), Some(0));
    assert_eq!(find_method(&top, "walk"), Some(1));
    assert_eq!(find_method(&top, "init"), Some(2));
    assert_eq!(find_method(&top, "fly"), None);
    assert_eq!(find_method(&model(&[], None), "greet"), None);
}

#[test]
fn super_access_errors_come_in_order() {
    let keyword = token(TokenType::Super, "super");
    let method = token(TokenType::Identifier, "cook");
    let (at, message) = super_outcome(false, false, None, &keyword, &method).err().unwrap();
    assert_eq!((at.lexeme.as_str(), message.as_str()), ("super", "'super' must be a class."));
    let (at, message) = super_outcome(true, false, Some(0), &keyword, &method).err().unwrap();
    assert_eq!((at.lexeme.as_str(), message.as_str()), ("super", "'this' must be class instance."));
    let (at, message) = super_outcome(true, true, None, &keyword, &method).err().unwrap();
    assert_eq!((at.lexeme.as_str(), message.as_str()), ("cook", "Undefined property 'cook'"));
    assert_eq!(super_outcome(true, true, Some(2), &keyword, &method).ok(), Some(2));
}
