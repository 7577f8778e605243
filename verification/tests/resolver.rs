use rlox::parser::Parser;
use rlox::resolver::{ResolveError, Resolver};
use rlox::stmt::Stmt;
use rlox::token::Scanner;

fn resolve(src: &str) -> (Vec<Stmt>, Vec<ResolveError>, Vec<(u32, usize)>) {
    let (tokens, _) = Scanner::new(src.to_string()).scan_tokens();
    let (stmts, errors) = Parser::new(&tokens).parse();
    assert!(errors.is_empty());
    let (errors, locals) = Resolver::new().resolve(&stmts);
    (stmts, errors, locals)
}

#[test]
fn globals_are_not_resolved() {
    let (_, errors, locals) = resolve("var a = 1; print a;");
    assert!(errors.is_empty());
    assert!(locals.is_empty());
}

#[test]
fn locals_are_resolved_to_their_scope() {
    // a = literal 1 (id 1); `a` in print (id 2); `a` in the inner block (id 3)
    let (_, errors, locals) = resolve("{ var a = 1; print a; { print a; } }");
    assert!(errors.is_empty());
    assert_eq!(locals, vec![(2, 0), (3, 1)]);
}

#[test]
fn parameters_and_closures() {
    // x in g's body is one scope out (g's scope, then f's scope holding x)
    let (_, errors, locals) = resolve("fun f(x) { fun g() { return x; } }");
    // g is a local of f that nothing reads
    assert_eq!(errors.len(), 1);
    assert_eq!(errors[0].message, "Local variable is never used.");
    assert_eq!(errors[0].token.lexeme, "g");
    assert_eq!(locals.len(), 1);
    assert_eq!(locals[0].1, 1);
    let (_, errors, _) = resolve("fun f(x) { fun g() { return x; } return g; }");
    assert!(errors.is_empty());
}

#[test]
fn assignments_are_resolved() {
    let (_, errors, locals) = resolve("{ var a; a = 2; }");
    // assigning is not reading
    assert_eq!(errors.len(), 1);
    assert_eq!(errors[0].message, "Local variable is never used.");
    // the target `a` is read first as a variable (id 1), then 2 (id 2),
    // and the assignment takes id 3
    assert_eq!(locals, vec![(3, 0)]);
}

#[test]
fn reading_in_own_initializer_is_an_error() {
    let (_, errors, _) = resolve("{ var a = a; }");
    assert_eq!(errors.len(), 1);
    assert_eq!(errors[0].message, "Can't read local variable in its own initializer.");
    assert_eq!(errors[0].token.lexeme, "a");
}

#[test]
fn declaring_twice_in_a_scope_is_an_error() {
    let (_, errors, _) = resolve("{ var a = 1; var a = 2; print a; }");
    assert_eq!(errors.len(), 1);
    assert_eq!(errors[0].message, "Already a variable with this name in this scope.");
    let (_, errors, _) = resolve("var a = 1; var a = 2;");
    assert!(errors.is_empty());
}

#[test]
fn return_at_top_level_is_an_error() {
    let (_, errors, _) = resolve("return 1;");
    assert_eq!(errors.len(), 1);
    assert_eq!(errors[0].message, "Can't return from top-level code");
    let (_, errors, _) = resolve("fun f() { return 1; }");
    assert!(errors.is_empty());
}

#[test]
fn every_scope_opened_is_closed() {
    // after the nested blocks close, `b` is one scope deep again
    let (_, errors, locals) = resolve("{ { } } fun f() { } var a; { var b = 1; print b; }");
    assert!(errors.is_empty());
    assert_eq!(locals.len(), 1);
    assert_eq!(locals[0].1, 0);
}

#[test]
fn unused_local_is_an_error() {
    let (_, errors, _) = resolve("{ var a = 1; }");
    assert_eq!(errors.len(), 1);
    assert_eq!(errors[0].message, "Local variable is never used.");
    assert_eq!(errors[0].token.lexeme, "a");
    assert_eq!(errors[0].token.line, 1);
}

#[test]
fn unused_locals_are_reported_in_declaration_order() {
    let (_, errors, _) = resolve("{ var a; var b; }\n{ var c = 1; print c; }");
    assert_eq!(errors.len(), 2);
    assert_eq!(errors[0].token.lexeme, "a");
    assert_eq!(errors[1].token.lexeme, "b");
}

#[test]
fn unused_parameters_are_not_errors() {
    let (_, errors, _) = resolve("fun f(a, b) { return 1; }");
    assert!(errors.is_empty());
}

#[test]
fn redefining_a_native_function_is_an_error() {
    let (_, errors, _) = resolve("var clock = 1;");
    assert_eq!(errors.len(), 1);
    assert_eq!(errors[0].message, "Can't redefine a native function.");
    assert_eq!(errors[0].token.lexeme, "clock");
    let (_, errors, _) = resolve("fun len(x) { return 0; } class push {}");
    assert_eq!(errors.len(), 2);
    assert_eq!(errors[0].token.lexeme, "len");
    assert_eq!(errors[1].token.lexeme, "push");
    let (_, errors, _) = resolve("var clocks = 1; { var clock = 1; print clock; }");
    assert!(errors.is_empty());
}

#[test]
fn class_methods_are_resolved() {
    let (_, errors, _) = resolve("class A { m() { var x; } }");
    assert_eq!(errors.len(), 1);
    assert_eq!(errors[0].message, "Local variable is never used.");
    assert_eq!(errors[0].token.lexeme, "x");
}

#[test]
fn properties_and_lists_resolve_their_parts() {
    let (_, errors, locals) = resolve("{ var a = 1; print a.b; }");
    assert!(errors.is_empty());
    assert_eq!(locals.len(), 1);
    let (_, errors, locals) = resolve("{ var a = 1; var v = 2; a.b = v; }");
    assert!(errors.is_empty());
    assert_eq!(locals.len(), 2);
}

#[test]
fn reading_before_assignment_is_an_error() {
    let (_, errors, _) = resolve("{ var a;\n print a; }");
    assert_eq!(errors.len(), 1);
    assert_eq!(errors[0].message, "Can't use local variable before it is assigned.");
    assert_eq!(errors[0].token.lexeme, "a");
    assert_eq!(errors[0].token.line, 2);
    let (_, errors, _) = resolve("{ var a; a = 1; print a; }");
    assert!(errors.is_empty());
    let (_, errors, _) = resolve("var a; print a;");
    assert!(errors.is_empty());
    let (_, errors, _) = resolve("fun f(x) { print x; }");
    assert!(errors.is_empty());
}

#[test]
fn a_superclass_is_read() {
    let (_, errors, locals) = resolve("{ class B {} class A < B {} print A; }");
    assert!(errors.is_empty());
    assert_eq!(locals.len(), 2);
    let (_, errors, _) = resolve("{ class B {} class A < B {} }");
    assert_eq!(errors.len(), 1);
    assert_eq!(errors[0].token.lexeme, "A");
}

#[test]
fn this_and_super_resolve_to_the_scopes_a_class_opens() {
    // `this` (id 1) lies one scope out of the method's own scope
    let (_, errors, locals) = resolve("class A { m() { return this; } }");
    assert!(errors.is_empty());
    assert_eq!(locals, vec![(1, 1)]);
    // a static method has no `this`
    let (_, errors, locals) = resolve("class A { class s() { return this; } }");
    assert!(errors.is_empty());
    assert!(locals.is_empty());
    // `super` (id 2, after the superclass variable) lies two scopes out
    let (_, errors, locals) = resolve("class B {} class A < B { m() { return super.m; } }");
    assert!(errors.is_empty());
    assert_eq!(locals, vec![(2, 2)]);
}
