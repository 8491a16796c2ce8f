use rustyj::parser::parser::parse_programm;
use rustyj::typechecker::typechecker::{TypeChecker, TypeError};
use rustyj::types::{Class, Expr, MethodDecl, Stmt, StmtExpr, Type};

fn check(src: &str) -> Result<(), TypeError> {
    let program = parse_programm(src).unwrap();
    let mut tc = TypeChecker::new(program)?;
    tc.check_program()
}

fn check_class(class: Class) -> Result<(), TypeError> {
    let mut tc = TypeChecker::new(vec![class])?;
    tc.check_program()
}

fn method(body: Vec<Stmt>) -> Class {
    Class {
        name: "A".to_string(),
        fields: vec![],
        methods: vec![MethodDecl {
            ret_type: Type::Int,
            name: "f".to_string(),
            params: vec![(Type::Int, "p".to_string())],
            body: Stmt::Block(body),
        }],
    }
}

#[test]
fn well_typed_program_checks() {
    assert!(check("class A { int x = 1; int f(int y) { return x + y; } }").is_ok());
}

#[test]
fn duplicate_class() {
    let r = TypeChecker::new(parse_programm("class A { } class A { }").unwrap());
    assert!(matches!(r, Err(TypeError::DuplicateClass(n)) if n == "A"));
}

#[test]
fn field_value_mismatch() {
    assert!(matches!(check("class A { int x = true; }"), Err(TypeError::FieldValueMismatch(n)) if n == "x"));
}

#[test]
fn duplicate_field() {
    assert!(matches!(check("class A { int x; char x; }"), Err(TypeError::DuplicateField(n)) if n == "x"));
}

#[test]
fn duplicate_method() {
    assert!(matches!(
        check("class A { int f() { return 1; } int f() { return 2; } }"),
        Err(TypeError::DuplicateMethod(n)) if n == "f"
    ));
}

#[test]
fn duplicate_local_var() {
    assert!(matches!(
        check("class A { int f() { int a; int a; return 1; } }"),
        Err(TypeError::DuplicateLocalVar(n)) if n == "a"
    ));
}

#[test]
fn unknown_variable() {
    assert!(matches!(
        check("class A { int f() { return y; } }"),
        Err(TypeError::UnknownVariable(n)) if n == "y"
    ));
}

#[test]
fn mismatched_return_types() {
    assert!(matches!(
        check("class A { int f() { return 1; return true; } }"),
        Err(TypeError::MismatchedReturnTypes)
    ));
}

#[test]
fn condition_not_bool() {
    assert!(matches!(
        check("class A { int f() { while (1) { } return 1; } }"),
        Err(TypeError::ConditionNotBool)
    ));
}

#[test]
fn type_mismatch() {
    assert!(matches!(check("class A { int f() { return 1 + true; } }"), Err(TypeError::TypeMismatch)));
    assert!(matches!(check("class A { boolean f() { return !1; } }"), Err(TypeError::TypeMismatch)));
}

#[test]
fn method_not_found() {
    assert!(matches!(
        check("class A { int f() { return this.g(); } }"),
        Err(TypeError::MethodNotFound(n)) if n == "g"
    ));
}

#[test]
fn invalid_operator() {
    let e = Expr::Binary("^".to_string(), Box::new(Expr::Integer(1)), Box::new(Expr::Integer(2)));
    assert!(matches!(
        check_class(method(vec![Stmt::Return(e)])),
        Err(TypeError::InvalidOperator(o)) if o == "^"
    ));
}

#[test]
fn unexpected_variable() {
    let e = Expr::LocalVar("p".to_string());
    assert!(matches!(
        check_class(method(vec![Stmt::Return(e)])),
        Err(TypeError::UnexpectedVariable(n)) if n == "p"
    ));
}

#[test]
fn unexpected_typed() {
    let se = StmtExpr::TypedStmtExpr(
        Box::new(StmtExpr::Assign(Expr::LocalOrFieldVar("p".to_string()), Expr::Integer(1))),
        Type::Int,
    );
    assert!(matches!(
        check_class(method(vec![Stmt::StmtExprStmt(se)])),
        Err(TypeError::UnexpectedTyped)
    ));
}

#[test]
fn overloaded_methods_are_accepted() {
    assert!(check("class A { int f() { return 1; } int f(int a) { return a; } }").is_ok());
}

#[test]
fn recursive_and_forward_calls_are_found() {
    assert!(check(
        "class A { int fib(int n) { if (n < 2) { return n; } return this.fib(n - 1) + this.fib(n - 2); } }"
    )
    .is_ok());
    assert!(check("class A { int f() { return this.g(); } int g() { return 1; } }").is_ok());
}

#[test]
fn call_with_wrong_argument_count_is_not_found() {
    assert!(matches!(
        check("class A { int f(int a) { return this.f(); } }"),
        Err(TypeError::MethodNotFound(n)) if n == "f"
    ));
    assert!(matches!(
        check("class A { int f(int a) { return this.f(1, 2); } }"),
        Err(TypeError::MethodNotFound(n)) if n == "f"
    ));
}

#[test]
fn logical_operators_need_booleans() {
    assert!(matches!(check("class A { boolean f() { return 1 && 2; } }"), Err(TypeError::TypeMismatch)));
    assert!(matches!(check("class A { boolean f() { return true || 2; } }"), Err(TypeError::TypeMismatch)));
    assert!(check("class A { boolean f() { return true && false; } }").is_ok());
}

#[test]
fn remainder_is_an_int() {
    assert!(check("class A { int f() { return 5 % 2 + 1; } }").is_ok());
}

#[test]
fn field_access_has_the_field_type() {
    assert!(check("class A { int x; int f() { return this.x + 1; } }").is_ok());
}

#[test]
fn call_has_the_method_return_type() {
    assert!(check("class A { boolean g() { return true; } boolean f() { return this.g() && true; } }").is_ok());
}

#[test]
fn reading_an_unassigned_local_is_refused() {
    assert!(matches!(
        check("class A { int f() { int a; return a; } }"),
        Err(TypeError::UnassignedVariable(n)) if n == "a"
    ));
    assert!(check("class A { int f() { int a; a = 1; return a; } }").is_ok());
    assert!(check("class A { int f(int p) { return p; } }").is_ok());
}

#[test]
fn assignment_on_both_branches_counts() {
    assert!(check("class A { int f(boolean c) { int a; if (c) { a = 1; } else { a = 2; } return a; } }").is_ok());
    assert!(matches!(
        check("class A { int f(boolean c) { int a; if (c) { a = 1; } return a; } }"),
        Err(TypeError::UnassignedVariable(n)) if n == "a"
    ));
    assert!(matches!(
        check("class A { int f(boolean c) { int a; while (c) { a = 1; } return a; } }"),
        Err(TypeError::UnassignedVariable(n)) if n == "a"
    ));
}

#[test]
fn a_branch_that_returns_assigns_everything() {
    assert!(check("class A { int f(boolean c) { int a; if (c) { return 0; } else { a = 2; } return a; } }").is_ok());
}

#[test]
fn returns_nested_in_branches_give_the_block_its_type() {
    let program =
        parse_programm("class A { int f(boolean c) { if (c) { return 1; } else { return 2; } } }").unwrap();
    let mut tc = TypeChecker::new(program).unwrap();
    tc.check_program().unwrap();
    match &tc.typed_classes[0].methods[0].body {
        Stmt::TypedStmt(_, t) => assert_eq!(*t, Type::Int),
        other => panic!("untyped body: {:?}", other),
    }
    assert!(matches!(
        check("class A { int f(boolean c) { if (c) { return 1; } return true; } }"),
        Err(TypeError::MismatchedReturnTypes)
    ));
}

#[test]
fn return_type_must_fit_the_declared_type() {
    assert!(matches!(
        check("class A { int f() { return true; } }"),
        Err(TypeError::ReturnTypeMismatch(n)) if n == "f"
    ));
    assert!(matches!(
        check("class A { int f() { int a; a = 1; } }"),
        Err(TypeError::ReturnTypeMismatch(n)) if n == "f"
    ));
    assert!(check("class A { void f() { } }").is_ok());
    assert!(check("class A { String f() { return null; } }").is_ok());
}
