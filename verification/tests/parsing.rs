use rustyj::parser::lexer::{lex, Kw, Token};
use rustyj::parser::parser::{parse_programm, ParseError};
use rustyj::types::{Expr, FieldDecl, Stmt, StmtExpr, Type};

fn var(n: &str) -> Expr {
    Expr::LocalOrFieldVar(n.to_string())
}

fn bin(op: &str, l: Expr, r: Expr) -> Expr {
    Expr::Binary(op.to_string(), Box::new(l), Box::new(r))
}

/// The expression of `return <e>;` in a method of one class.
fn returned(e: &str) -> Expr {
    let src = format!("class A {{ int f() {{ return {}; }} }}", e);
    let mut classes = parse_programm(&src).unwrap();
    let body = classes.remove(0).methods.remove(0).body;
    match body {
        Stmt::Block(mut stmts) => match stmts.remove(0) {
            Stmt::Return(e) => e,
            other => panic!("not a return: {:?}", other),
        },
        other => panic!("not a block: {:?}", other),
    }
}

#[test]
fn lexer_tokens() {
    let ts = lex("class A { int x = 10; }").unwrap();
    assert_eq!(ts.len(), 9);
    assert!(matches!(ts[0], Token::Kw(Kw::Class)));
    assert!(matches!(&ts[1], Token::Ident(n) if n == "A"));
    assert!(matches!(ts[3], Token::Kw(Kw::Int)));
    assert!(matches!(ts[6], Token::Int(10)));
    let ts = lex("a<=b && 'c' != \"s t\"").unwrap();
    assert!(matches!(&ts[1], Token::Op(o) if o == "<="));
    assert!(matches!(ts[4], Token::Char('c')));
    assert!(matches!(&ts[6], Token::Str(s) if s == "s t"));
}

#[test]
fn lexer_refuses_stray_characters_and_huge_numbers() {
    assert!(lex("class A { # }").is_none());
    assert!(lex("int x = 2147483648;").is_none());
    assert!(lex("int x = 2147483647;").is_some());
    assert!(lex("\"open").is_none());
}

#[test]
fn parse_error_variants() {
    assert_eq!(parse_programm("class A { # }"), Err(ParseError::Lex));
    assert_eq!(parse_programm("class A {"), Err(ParseError::Syntax));
    assert_eq!(parse_programm("class A { int f() { return 1 } }"), Err(ParseError::Syntax));
    assert_eq!(parse_programm("class { }"), Err(ParseError::Syntax));
    assert_eq!(parse_programm(""), Ok(vec![]));
}

#[test]
fn several_classes_in_order() {
    let classes = parse_programm("class A { } class B { int x; }").unwrap();
    assert_eq!(classes.len(), 2);
    assert_eq!(classes[0].name, "A");
    assert_eq!(classes[1].name, "B");
}

#[test]
fn operators_of_one_level_group_to_the_left() {
    assert_eq!(returned("a - b - c"), bin("-", bin("-", var("a"), var("b")), var("c")));
    assert_eq!(
        returned("a - b - c - d"),
        bin("-", bin("-", bin("-", var("a"), var("b")), var("c")), var("d"))
    );
    assert_eq!(returned("a - (b - c)"), bin("-", var("a"), bin("-", var("b"), var("c"))));
    assert_eq!(returned("a * b + c"), bin("+", bin("*", var("a"), var("b")), var("c")));
    assert_eq!(returned("a + b * c"), bin("+", var("a"), bin("*", var("b"), var("c"))));
    assert_eq!(
        returned("a < b || c && d"),
        bin("||", bin("<", var("a"), var("b")), bin("&&", var("c"), var("d")))
    );
}

#[test]
fn minus_before_a_number_is_a_negative_literal() {
    assert_eq!(returned("-1"), Expr::Integer(-1));
    assert_eq!(returned("-x"), Expr::Unary("-".to_string(), Box::new(var("x"))));
    assert_eq!(returned("2 - 1"), bin("-", Expr::Integer(2), Expr::Integer(1)));
}

#[test]
fn literals_and_accesses() {
    assert_eq!(returned("'z'"), Expr::Char('z'));
    assert_eq!(returned("\"hi\""), Expr::String("hi".to_string()));
    assert_eq!(returned("null"), Expr::Jnull);
    assert_eq!(returned("false"), Expr::Bool(false));
    assert_eq!(
        returned("this.a.b"),
        Expr::InstVar(Box::new(Expr::InstVar(Box::new(Expr::This), "a".to_string())), "b".to_string())
    );
    assert_eq!(
        returned("new A(1, x)"),
        Expr::StmtExprExpr(Box::new(StmtExpr::New(
            Type::Class("A".to_string()),
            vec![Expr::Integer(1), var("x")]
        )))
    );
    assert_eq!(
        returned("o.f()"),
        Expr::StmtExprExpr(Box::new(StmtExpr::MethodCall(var("o"), "f".to_string(), vec![])))
    );
}

#[test]
fn declarations_with_values_become_assignments() {
    let classes = parse_programm("class A { int x, y = 5; void f() { int a, b = a; } }").unwrap();
    assert_eq!(
        classes[0].fields,
        vec![
            FieldDecl { field_type: Type::Int, name: "x".to_string(), val: None },
            FieldDecl { field_type: Type::Int, name: "y".to_string(), val: Some(Expr::Integer(5)) },
        ]
    );
    assert_eq!(
        classes[0].methods[0].body,
        Stmt::Block(vec![
            Stmt::LocalVarDecl(Type::Int, "a".to_string()),
            Stmt::LocalVarDecl(Type::Int, "b".to_string()),
            Stmt::StmtExprStmt(StmtExpr::Assign(var("b"), var("a"))),
        ])
    );
}

#[test]
fn nested_blocks_are_spliced_and_braces_make_branches_blocks() {
    let classes = parse_programm(
        "class A { void f(boolean c) { { x = 1; } if (c) x = 2; else { x = 3; } } }",
    )
    .unwrap();
    let assign = |v: i32| Stmt::StmtExprStmt(StmtExpr::Assign(var("x"), Expr::Integer(v)));
    assert_eq!(
        classes[0].methods[0].body,
        Stmt::Block(vec![
            assign(1),
            Stmt::If(var("c"), Box::new(assign(2)), Some(Box::new(Stmt::Block(vec![assign(3)])))),
        ])
    );
    assert_eq!(classes[0].methods[0].params, vec![(Type::Bool, "c".to_string())]);
}
