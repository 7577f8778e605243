use rlox::expr::{Expr, ExprKind, LambdaType};
use rlox::parser::{ParseError, Parser};
use rlox::stmt::Stmt;
use rlox::token::{Literal, Scanner, Token, TokenType};

fn tokens(src: &str) -> Vec<Token> {
    let (tokens, errors) = Scanner::new(src.to_string()).scan_tokens();
    assert!(errors.is_empty());
    tokens
}

fn parse(src: &str) -> (Vec<Stmt>, Vec<ParseError>) {
    let tokens = tokens(src);
    Parser::new(&tokens).parse()
}

fn expression(src: &str) -> Result<Expr, ParseError> {
    let tokens = tokens(src);
    Parser::new(&tokens).parse_expression()
}

#[test]
fn parses_a_variable_declaration() {
    let (stmts, errors) = parse("var x = 1;");
    assert!(errors.is_empty());
    assert_eq!(stmts.len(), 1);
    match &stmts[0] {
        Stmt::Var(name, Some(init)) => {
            assert_eq!(name.lexeme, "x");
            assert_eq!(init.id, 1);
            assert!(matches!(&init.kind, ExprKind::Literal(Literal::Number(n)) if n == "1"));
        }
        other => panic!("unexpected {:?}", other),
    }
}

#[test]
fn multiplication_binds_tighter_than_addition() {
    let e = expression("1 + 2 * 3").ok().unwrap();
    assert_eq!(e.id, 5);
    match &e.kind {
        ExprKind::Binary(l, op, r) => {
            assert_eq!(op.token_type, TokenType::Plus);
            assert_eq!(l.id, 1);
            match &r.kind {
                ExprKind::Binary(_, op2, _) => assert_eq!(op2.token_type, TokenType::Star),
                other => panic!("unexpected {:?}", other),
            }
            assert_eq!(r.id, 4);
        }
        other => panic!("unexpected {:?}", other),
    }
}

#[test]
fn identities_count_up() {
    let e = expression("(a)").ok().unwrap();
    assert_eq!(e.id, 2);
    match &e.kind {
        ExprKind::Grouping(inner) => assert_eq!(inner.id, 1),
        other => panic!("unexpected {:?}", other),
    }
}

#[test]
fn assignment_targets() {
    assert!(matches!(expression("a = 1").ok().unwrap().kind, ExprKind::Assign(_, _)));
    assert!(matches!(expression("a.b = 1").ok().unwrap().kind, ExprKind::SetProperty(_, _, _)));
    let err = expression("1 = 2").err().unwrap();
    assert_eq!(err.message, "Invalid assignment target");
    assert_eq!(err.token.token_type, TokenType::Equal);
}

#[test]
fn calls_and_properties() {
    let e = expression("f(1, 2).g").ok().unwrap();
    match &e.kind {
        ExprKind::Get(obj, name) => {
            assert_eq!(name.lexeme, "g");
            match &obj.kind {
                ExprKind::Call(callee, paren, args) => {
                    assert!(matches!(callee.kind, ExprKind::Variable(_)));
                    assert_eq!(paren.token_type, TokenType::RightParen);
                    assert_eq!(args.len(), 2);
                }
                other => panic!("unexpected {:?}", other),
            }
        }
        other => panic!("unexpected {:?}", other),
    }
}

#[test]
fn ternary_and_comma() {
    assert!(matches!(expression("a ? 1 : 2").ok().unwrap().kind, ExprKind::Ternary(_, _, _)));
    assert!(matches!(expression("1, 2").ok().unwrap().kind, ExprKind::Comma(_, _)));
    let err = expression("a ? 1 2").err().unwrap();
    assert_eq!(err.message, "Expect ':' after ternary expression");
}

#[test]
fn missing_left_operands() {
    let err = expression("+ 1").err().unwrap();
    assert_eq!(err.message, "Expect expression before binary operator");
    assert_eq!(err.token.token_type, TokenType::Plus);
    assert_eq!(expression("== 1").err().unwrap().message, "Expect expression before equality");
    assert_eq!(expression("< 1").err().unwrap().message, "Expect expression before comparison");
    assert_eq!(expression(", 1").err().unwrap().message, "Expect expression before comma");
    assert_eq!(expression("? 1 : 2").err().unwrap().message, "Expect condition in ternary expression");
}

#[test]
fn expect_expression() {
    let err = expression(";").err().unwrap();
    assert_eq!(err.message, "Expect expression.");
    assert_eq!(err.token.token_type, TokenType::Semicolon);
    assert_eq!(expression("(1").err().unwrap().message, "Expect ')' after expression.");
}

#[test]
fn missing_semicolon_is_reported_at_end() {
    let (stmts, errors) = parse("print 1");
    assert!(stmts.is_empty());
    assert_eq!(errors.len(), 1);
    assert_eq!(errors[0].message, "Expect ';' after value.");
    assert_eq!(errors[0].token.token_type, TokenType::Eof);
}

#[test]
fn recovers_after_an_error() {
    let (stmts, errors) = parse("var = 1; print 2;");
    assert_eq!(errors.len(), 1);
    assert_eq!(errors[0].message, "Expect variable name.");
    assert_eq!(errors[0].token.lexeme, "=");
    assert_eq!(stmts.len(), 1);
    assert!(matches!(&stmts[0], Stmt::Print(_)));
}

#[test]
fn recovery_stops_at_a_statement_keyword() {
    let (stmts, errors) = parse("1 + ; var a; print a;");
    assert_eq!(errors.len(), 1);
    assert_eq!(errors[0].message, "Expect expression.");
    assert_eq!(stmts.len(), 2);
    assert!(matches!(&stmts[0], Stmt::Var(_, None)));
}

#[test]
fn for_loops_become_while_loops() {
    let (stmts, errors) = parse("for (var i = 0; i < 3; i = i + 1) print i;");
    assert!(errors.is_empty());
    assert_eq!(stmts.len(), 1);
    match &stmts[0] {
        Stmt::Block(parts) => {
            assert_eq!(parts.len(), 2);
            assert!(matches!(&parts[0], Stmt::Var(_, Some(_))));
            match &parts[1] {
                Stmt::While(cond, body) => {
                    assert!(matches!(cond.kind, ExprKind::Binary(_, _, _)));
                    match body.as_ref() {
                        Stmt::Block(inner) => {
                            assert_eq!(inner.len(), 2);
                            assert!(matches!(&inner[0], Stmt::Print(_)));
                            assert!(matches!(&inner[1], Stmt::Expression(_)));
                        }
                        other => panic!("unexpected {:?}", other),
                    }
                }
                other => panic!("unexpected {:?}", other),
            }
        }
        other => panic!("unexpected {:?}", other),
    }
}

#[test]
fn empty_for_clauses_loop_forever() {
    let (stmts, errors) = parse("for (;;) break;");
    assert!(errors.is_empty());
    match &stmts[0] {
        Stmt::While(cond, body) => {
            assert!(matches!(cond.kind, ExprKind::Literal(Literal::Boolean(true))));
            assert!(matches!(body.as_ref(), Stmt::Break(_)));
        }
        other => panic!("unexpected {:?}", other),
    }
}

#[test]
fn if_else_and_while() {
    let (stmts, errors) = parse("if (a) print 1; else print 2; while (b) { print 3; }");
    assert!(errors.is_empty());
    assert!(matches!(&stmts[0], Stmt::If(_, _, Some(_))));
    assert!(matches!(&stmts[1], Stmt::While(_, _)));
    let (_, errors) = parse("while b) print 1;");
    assert_eq!(errors[0].message, "Expect '(' after 'if'.");
}

#[test]
fn functions_are_variables_holding_lambdas() {
    let (stmts, errors) = parse("fun add(a, b) { return a + b; }");
    assert!(errors.is_empty());
    match &stmts[0] {
        Stmt::Var(name, Some(f)) => {
            assert_eq!(name.lexeme, "add");
            match &f.kind {
                ExprKind::Lambda(Some(n), params, body, LambdaType::Function) => {
                    assert_eq!(n.lexeme, "add");
                    assert_eq!(params.len(), 2);
                    assert_eq!(params[1].lexeme, "b");
                    assert!(matches!(&body[0], Stmt::Return(_, Some(_))));
                }
                other => panic!("unexpected {:?}", other),
            }
        }
        other => panic!("unexpected {:?}", other),
    }
}

#[test]
fn anonymous_functions() {
    let e = expression("fun (x) { print x; }").ok().unwrap();
    assert!(matches!(&e.kind, ExprKind::Lambda(None, params, _, LambdaType::Function) if params.len() == 1));
    let err = expression("fun x").err().unwrap();
    assert_eq!(err.message, "Expect '(' after function.");
    let err = expression("fun (x) x").err().unwrap();
    assert_eq!(err.message, "Expect '{' before function body.");
}

#[test]
fn classes_hold_methods_getters_and_static_methods() {
    let (stmts, errors) = parse("class A { m(x) { return x; } area { return 1; } class s() { } }");
    assert!(errors.is_empty());
    match &stmts[0] {
        Stmt::Class(name, superclass, members) => {
            assert!(superclass.is_none());
            assert_eq!(name.lexeme, "A");
            assert_eq!(members.len(), 3);
            let kinds: Vec<LambdaType> = members
                .iter()
                .map(|m| match m {
                    Stmt::Var(_, Some(f)) => match &f.kind {
                        ExprKind::Lambda(_, _, _, t) => *t,
                        other => panic!("unexpected {:?}", other),
                    },
                    other => panic!("unexpected {:?}", other),
                })
                .collect();
            assert_eq!(kinds, vec![LambdaType::Function, LambdaType::Getter, LambdaType::ClassStatic]);
        }
        other => panic!("unexpected {:?}", other),
    }
    let (_, errors) = parse("class { }");
    assert_eq!(errors[0].message, "Expect class name.");
}

#[test]
fn too_many_arguments_is_reported_and_parsing_goes_on() {
    let args: Vec<String> = (0..256).map(|i| i.to_string()).collect();
    let src = format!("f({});", args.join(", "));
    let (stmts, errors) = parse(&src);
    assert_eq!(stmts.len(), 1);
    assert_eq!(errors.len(), 1);
    assert_eq!(errors[0].message, "Can't have more than 255 arguments.");
    assert_eq!(errors[0].token.lexeme, "255");
}

#[test]
fn too_many_parameters_is_reported() {
    let params: Vec<String> = (0..256).map(|i| format!("p{}", i)).collect();
    let src = format!("fun f({}) {{ }}", params.join(", "));
    let (stmts, errors) = parse(&src);
    assert_eq!(stmts.len(), 1);
    assert_eq!(errors.len(), 1);
    assert_eq!(errors[0].message, "Can't have more than 255 parameters.");
    assert_eq!(errors[0].token.lexeme, "p255");
}

#[test]
fn return_and_break_keep_their_keyword() {
    let (stmts, errors) = parse("return; break;");
    assert!(errors.is_empty());
    assert!(matches!(&stmts[0], Stmt::Return(k, None) if k.lexeme == "return"));
    assert!(matches!(&stmts[1], Stmt::Break(k) if k.lexeme == "break"));
    let (_, errors) = parse("break");
    assert_eq!(errors[0].message, "Expect ';' after break.");
}

#[test]
fn blocks_need_their_closing_brace() {
    let (stmts, errors) = parse("{ print 1; }");
    assert!(errors.is_empty());
    assert!(matches!(&stmts[0], Stmt::Block(b) if b.len() == 1));
    let (_, errors) = parse("{ print 1;");
    assert_eq!(errors[0].message, "Expect '}' after block.");
}

#[test]
fn scanned_tokens_always_parse() {
    for src in ["}{)(;", "", "var", "class A { get }", "fun (", "1 + * 2;", "\"open"] {
        let (tokens, _) = Scanner::new(src.to_string()).scan_tokens();
        let (stmts, errors) = Parser::new(&tokens).parse();
        assert!(stmts.len() + errors.len() <= tokens.len());
    }
}

fn expr_ids(e: &Expr, out: &mut Vec<u32>) {
    match &e.kind {
        ExprKind::Binary(l, _, r) | ExprKind::Logical(l, _, r) | ExprKind::Comma(l, r) => {
            expr_ids(l, out);
            expr_ids(r, out);
        }
        ExprKind::Grouping(x) | ExprKind::Unary(_, x) | ExprKind::Assign(_, x) | ExprKind::Get(x, _) => {
            expr_ids(x, out)
        }
        ExprKind::Ternary(c, l, r) => {
            expr_ids(c, out);
            expr_ids(l, out);
            expr_ids(r, out);
        }
        ExprKind::SetProperty(o, _, v) => {
            expr_ids(o, out);
            expr_ids(v, out);
        }
        ExprKind::Call(c, _, args) => {
            expr_ids(c, out);
            for a in args {
                expr_ids(a, out);
            }
        }
        ExprKind::Lambda(_, _, body, _) => {
            for s in body {
                stmt_ids(s, out);
            }
        }
        _ => {}
    }
    out.push(e.id);
}

fn stmt_ids(s: &Stmt, out: &mut Vec<u32>) {
    match s {
        Stmt::Expression(e) | Stmt::Print(e) => expr_ids(e, out),
        Stmt::Var(_, Some(e)) | Stmt::Return(_, Some(e)) => expr_ids(e, out),
        Stmt::Block(b) => {
            for x in b {
                stmt_ids(x, out);
            }
        }
        Stmt::Class(_, superclass, b) => {
            if let Some(e) = superclass {
                expr_ids(e, out);
            }
            for x in b {
                stmt_ids(x, out);
            }
        }
        Stmt::If(c, t, e) => {
            expr_ids(c, out);
            stmt_ids(t, out);
            if let Some(e) = e {
                stmt_ids(e, out);
            }
        }
        Stmt::While(c, b) => {
            expr_ids(c, out);
            stmt_ids(b, out);
        }
        _ => {}
    }
}

#[test]
fn identities_are_distinct_across_a_program() {
    let src = "var a = 1; fun f(x) { return x + a; } for (var i = 0; i < 3; i = i + 1) { print f(i); } \
               class C { m() { this.v = 2; } } bad = ; print a ? 1 : 2, 3;";
    let (stmts, errors) = parse(src);
    assert_eq!(errors.len(), 1);
    let mut ids = Vec::new();
    for s in &stmts {
        stmt_ids(s, &mut ids);
    }
    let mut sorted = ids.clone();
    sorted.sort();
    sorted.dedup();
    assert_eq!(sorted.len(), ids.len());
    assert!(ids.iter().all(|&i| i >= 1));
}

#[test]
fn each_syntax_error_message() {
    let cases = [
        ("fun f(a b) {}", "Expect ')' after parameters."),
        ("fun f(1) {}", "Expect parameter name."),
        ("f(1;", "Expect ')' after arguments."),
        ("a.1;", "Expect property name after '.'."),
        ("if (a print 1;", "Expect ')' after if condition."),
        ("for a", "Expect '(' after 'for'."),
        ("for (;a b) print 1;", "Expect ';' after loop condition"),
        ("for (;;a b) print 1;", "Expect ')' after clauses."),
        ("return 1 2;", "Expect ';' after return value."),
        ("class A ;", "Expect '{' after class body"),
        ("var a = 1", "Expect ';' after variable declaration."),
        ("class A { m() {}", "Expect '}' after class body"),
    ];
    for (src, message) in cases {
        let (_, errors) = parse(src);
        assert!(!errors.is_empty(), "{}", src);
        assert_eq!(errors[0].message, message, "{}", src);
    }
}

#[test]
fn remainder_binds_like_multiplication() {
    let e = expression("1 + 7 % 2").ok().unwrap();
    match &e.kind {
        ExprKind::Binary(l, op, r) => {
            assert_eq!(op.token_type, TokenType::Plus);
            assert_eq!(l.id, 1);
            match &r.kind {
                ExprKind::Binary(a, op2, b) => {
                    assert_eq!(op2.token_type, TokenType::Percent);
                    assert_eq!(op2.lexeme, "%");
                    assert!(matches!(&a.kind, ExprKind::Literal(Literal::Number(n)) if n == "7"));
                    assert!(matches!(&b.kind, ExprKind::Literal(Literal::Number(n)) if n == "2"));
                }
                other => panic!("unexpected {:?}", other),
            }
        }
        other => panic!("unexpected {:?}", other),
    }
    let err = expression("% 1").err().unwrap();
    assert_eq!(err.message, "Expect expression before binary operator");
    assert_eq!(err.token.token_type, TokenType::Percent);
}

#[test]
fn list_literals() {
    let e = expression("[1, \"a\", [true]]").ok().unwrap();
    match &e.kind {
        ExprKind::List(items) => {
            assert_eq!(items.len(), 3);
            assert!(matches!(&items[0].kind, ExprKind::Literal(Literal::Number(n)) if n == "1"));
            assert!(matches!(&items[1].kind, ExprKind::Literal(Literal::String(s)) if s == "a"));
            match &items[2].kind {
                ExprKind::List(inner) => assert_eq!(inner.len(), 1),
                other => panic!("unexpected {:?}", other),
            }
        }
        other => panic!("unexpected {:?}", other),
    }
    assert_eq!(e.id, 5);
    match &expression("[]").ok().unwrap().kind {
        ExprKind::List(items) => assert!(items.is_empty()),
        other => panic!("unexpected {:?}", other),
    }
    assert_eq!(expression("[1, 2").err().unwrap().message, "Expect ']' after list elements.");
}

#[test]
fn indexing_and_index_assignment() {
    let e = expression("m[0][1]").ok().unwrap();
    match &e.kind {
        ExprKind::Index(list, index, bracket) => {
            assert_eq!(bracket.token_type, TokenType::RightBracket);
            assert!(matches!(&index.kind, ExprKind::Literal(Literal::Number(n)) if n == "1"));
            assert!(matches!(&list.kind, ExprKind::Index(_, _, _)));
        }
        other => panic!("unexpected {:?}", other),
    }
    let e = expression("nums[1] = 99").ok().unwrap();
    match &e.kind {
        ExprKind::IndexSet(list, index, value, _) => {
            assert!(matches!(&list.kind, ExprKind::Variable(name) if name.lexeme == "nums"));
            assert!(matches!(&index.kind, ExprKind::Literal(Literal::Number(n)) if n == "1"));
            assert!(matches!(&value.kind, ExprKind::Literal(Literal::Number(n)) if n == "99"));
        }
        other => panic!("unexpected {:?}", other),
    }
    assert_eq!(expression("a[1").err().unwrap().message, "Expect ']' after index.");
    let (stmts, errors) = parse("var nums = [1, 2, 3];\nprint nums[0];");
    assert!(errors.is_empty());
    assert_eq!(stmts.len(), 2);
}

#[test]
fn classes_may_name_a_superclass() {
    let (stmts, errors) = parse("class Dog < Animal { speak() { super.speak(); } }");
    assert!(errors.is_empty());
    match &stmts[0] {
        Stmt::Class(name, Some(superclass), members) => {
            assert_eq!(name.lexeme, "Dog");
            assert!(matches!(&superclass.kind, ExprKind::Variable(n) if n.lexeme == "Animal"));
            assert_eq!(superclass.id, 1);
            assert_eq!(members.len(), 1);
        }
        other => panic!("unexpected {:?}", other),
    }
    let (_, errors) = parse("class Dog < { }");
    assert_eq!(errors[0].message, "Expect superclass name.");
}

#[test]
fn super_names_a_superclass_method() {
    let e = expression("super.speak").ok().unwrap();
    match &e.kind {
        ExprKind::Super(keyword, method) => {
            assert_eq!(keyword.token_type, TokenType::Super);
            assert_eq!(method.lexeme, "speak");
        }
        other => panic!("unexpected {:?}", other),
    }
    assert_eq!(e.id, 1);
    assert_eq!(expression("super").err().unwrap().message, "Expect '.' after 'super'.");
    assert_eq!(expression("super.1").err().unwrap().message, "Expect superclass method name.");
}
