use rustyj::codegen::dir::generate_dir;
use rustyj::codegen::instruction::Instruction;
use rustyj::parser::parser::parse_programm;
use rustyj::typechecker::typechecker::TypeChecker;
use rustyj::types::Expr::{Binary, Bool, Char, FieldVar, InstVar, Integer, LocalOrFieldVar, LocalVar, StmtExprExpr, This, TypedExpr, Unary};
use rustyj::types::Stmt::{Block, If, LocalVarDecl, Return, StmtExprStmt, TypedStmt, While};
use rustyj::types::StmtExpr::{Assign, MethodCall, New, TypedStmtExpr};
use rustyj::types::{Class, Expr, FieldDecl, MethodDecl, Stmt, StmtExpr, Type};

fn stmt_tast_to_ast(stmt: &Stmt) -> Stmt {
    match stmt {
        Stmt::TypedStmt(x, _typ) => stmt_tast_to_ast(x),
        Stmt::Block(stmts) => Block(stmts.iter().map(|x| stmt_tast_to_ast(x)).collect()),
        Stmt::Return(expr) => Return(expr_tast_to_ast(expr)),
        Stmt::While(cond, body) => While(expr_tast_to_ast(cond), Box::new(stmt_tast_to_ast(body))),
        Stmt::If(cond, body, elze) => If(
            expr_tast_to_ast(cond),
            Box::new(stmt_tast_to_ast(body)),
            match elze {
                Some(x) => Some(Box::new(stmt_tast_to_ast(x))),
                None => None,
            },
        ),
        Stmt::StmtExprStmt(stmt_expr) => StmtExprStmt(stmt_expr_tast_to_ast(stmt_expr)),
        _ => stmt.copy_stmt(),
    }
}

fn stmt_expr_tast_to_ast(stmt_expr: &StmtExpr) -> StmtExpr {
    match stmt_expr {
        StmtExpr::Assign(var, val) => Assign(expr_tast_to_ast(var), expr_tast_to_ast(val)),
        StmtExpr::New(typ, params) => New(
            typ.copy_type(),
            params.iter().map(|x| expr_tast_to_ast(x)).collect(),
        ),
        StmtExpr::MethodCall(obj, method, params) => MethodCall(
            expr_tast_to_ast(obj),
            method.clone(),
            params.iter().map(|x| expr_tast_to_ast(x)).collect(),
        ),
        StmtExpr::TypedStmtExpr(x, _typ) => stmt_expr_tast_to_ast(x),
    }
}

fn expr_tast_to_ast(expr: &Expr) -> Expr {
    match expr {
        Expr::InstVar(x, s) => InstVar(Box::new(expr_tast_to_ast(x)), s.clone()),
        Expr::Unary(s, x) => Unary(s.clone(), Box::new(expr_tast_to_ast(x))),
        Expr::Binary(op, l, r) => Binary(
            op.clone(),
            Box::new(expr_tast_to_ast(l)),
            Box::new(expr_tast_to_ast(r)),
        ),
        Expr::StmtExprExpr(x) => StmtExprExpr(Box::new(stmt_expr_tast_to_ast(x))),
        Expr::TypedExpr(x, _t) => expr_tast_to_ast(x),
        Expr::LocalVar(v) => LocalOrFieldVar(v.clone()),
        Expr::FieldVar(v) => LocalOrFieldVar(v.clone()),
        _ => expr.copy_expr(),
    }
}

fn tast_to_ast(class: &Class) -> Class {
    Class {
        name: class.name.clone(),
        fields: class
            .fields
            .iter()
            .map(|field| FieldDecl {
                field_type: field.field_type.copy_type(),
                name: field.name.clone(),
                val: field.val.as_ref().map(|x| expr_tast_to_ast(x)),
            })
            .collect(),
        methods: class
            .methods
            .iter()
            .map(|method| MethodDecl {
                ret_type: method.ret_type.copy_type(),
                name: method.name.clone(),
                params: method.params.iter().map(|(t, n)| (t.copy_type(), n.clone())).collect(),
                body: stmt_tast_to_ast(&method.body),
            })
            .collect(),
    }
}

fn typechecker_test(ast: &Class, _tast: &Class) {
    let mut tc = TypeChecker::new(vec![ast.copy_class()]).unwrap();
    tc.check_program().unwrap();
    let typed = &tc.typed_classes[0];
    println!("{}", typed.summary());
    assert_eq!(*typed, *ast);
}

fn typechecker_erased_test(ast: &Class, _tast: &Class) {
    let mut tc = TypeChecker::new(vec![ast.copy_class()]).unwrap();
    tc.check_program().unwrap();
    let typed = &tc.typed_classes[0];
    println!("{}", typed.summary());
    assert_eq!(tast_to_ast(typed), *ast);
}

fn typechecker_typed_test(ast: &Class, tast: &Class) {
    let mut tc = TypeChecker::new(vec![ast.copy_class()]).unwrap();
    tc.check_program().unwrap();
    let typed = &tc.typed_classes[0];
    println!("{}", typed.summary());
    assert_eq!(*typed, *tast);
}

fn single_class_test(ast: &Class, _tast: Option<&Class>, name: &str) {
    let mut tc = TypeChecker::new(vec![ast.copy_class()]).unwrap();
    tc.check_program().unwrap();
    codegen_test(&tc.typed_classes[0], name);
}

fn parser_test(ast: &Class, src: &str) {
    let parsed = parse_programm(src).unwrap();
    assert_eq!(parsed[0], *ast);
}

fn typed_codegen_test(ast: &Class, name: &str) {
    let mut tc = TypeChecker::new(vec![ast.copy_class()]).unwrap();
    tc.check_program().unwrap();
    codegen_test(&tc.typed_classes[0], name);
}

fn codegen_test(tast: &Class, name: &str) {
    let mut dir = generate_dir(&vec![tast.copy_class()]).unwrap();
    assert_eq!(dir.classes[0].name, name);
    assert_eq!(dir.classes[0].super_name, "java/lang/Object");
    assert_eq!(dir.classes[0].fields.len(), tast.fields.len());
    assert_eq!(dir.classes[0].methods.len(), tast.methods.len() + 1);
    assert_eq!(dir.classes[0].methods[0].name, "<init>");
    for (i, m) in tast.methods.iter().enumerate() {
        let compiled = &dir.classes[0].methods[i + 1];
        assert_eq!(compiled.name, m.name);
        assert!(matches!(
            compiled.code.last(),
            Some(Instruction::ireturn) | Some(Instruction::areturn) | Some(Instruction::return_void)
        ));
    }
    let bytes = dir.as_bytes().unwrap();
    assert_eq!(&bytes[0..4], &[0xCA, 0xFE, 0xBA, 0xBE]);
}

fn assigned_fields_class() -> Class {
    Class {
        name: "AssignedFields".to_string(),
        fields: vec![
            FieldDecl {
                field_type: Type::Int,
                name: "x".to_string(),
                val: Some(Expr::Integer(69)),
            },
            FieldDecl {
                field_type: Type::Char,
                name: "c".to_string(),
                val: Some(Expr::Char('x')),
            },
            FieldDecl {
                field_type: Type::String,
                name: "s".to_string(),
                val: Some(Expr::String("Hello World".to_string())),
            },
            FieldDecl {
                field_type: Type::String,
                name: "stringsCanBeNull".to_string(),
                val: Some(Expr::Jnull),
            },
            FieldDecl {
                field_type: Type::Bool,
                name: "b".to_string(),
                val: Some(Expr::Bool(true)),
            },
        ],
        methods: vec![],
    }
}

#[test]
fn assigned_fields_class_test_typechecker() {
    let class = assigned_fields_class();
    typechecker_test(&tast_to_ast(&class), &class);
}

#[test]
fn assigned_fields_class_test_parser() {
    let class = assigned_fields_class();
    parser_test(&tast_to_ast(&class), "class AssignedFields {
    int x = 69;
    char c = 'x';
    String s = \"Hello World\";
    String stringsCanBeNull = null;
    boolean b = true;
}
");
}

#[test]
fn assigned_fields_class_test_codegen() {
    let class = assigned_fields_class();
    codegen_test(&class, "AssignedFields");
}

fn complex_if_class() -> Class {
    Class {
        name: "ComplexIf".to_string(),
        fields: vec![],
        methods: vec![MethodDecl {
            ret_type: Type::Bool,
            name: "f".to_string(),
            params: vec![(Type::Char, "c".to_string())],
            body: Block(vec![If(
                Binary(
                    "==".to_string(),
                    Box::new(TypedExpr(
                        Box::new(LocalOrFieldVar("c".to_string())),
                        Type::Char,
                    )),
                    Box::new(TypedExpr(Box::new(Expr::Char('a')), Type::Char)),
                ),
                Box::new(TypedStmt(
                    Box::new(Block(vec![TypedStmt(
                        Box::new(Return(TypedExpr(Box::new(Expr::Bool(true)), Type::Bool))),
                        Type::Bool,
                    )])),
                    Type::Bool,
                )),
                Some(Box::new(TypedStmt(
                    Box::new(If(
                        TypedExpr(
                            Box::new(Binary(
                                "==".to_string(),
                                Box::new(TypedExpr(
                                    Box::new(LocalOrFieldVar("c".to_string())),
                                    Type::Char,
                                )),
                                Box::new(TypedExpr(Box::new(Expr::Char('b')), Type::Char)),
                            )),
                            Type::Bool,
                        ),
                        Box::new(TypedStmt(
                            Box::new(Block(vec![TypedStmt(
                                Box::new(Return(TypedExpr(
                                    Box::new(Expr::Bool(false)),
                                    Type::Bool,
                                ))),
                                Type::Bool,
                            )])),
                            Type::Bool,
                        )),
                        Some(Box::new(TypedStmt(
                            Box::new(If(
                                TypedExpr(
                                    Box::new(Binary(
                                        "==".to_string(),
                                        Box::new(TypedExpr(
                                            Box::new(LocalOrFieldVar("c".to_string())),
                                            Type::Char,
                                        )),
                                        Box::new(TypedExpr(Box::new(Expr::Char('c')), Type::Char)),
                                    )),
                                    Type::Bool,
                                ),
                                Box::new(TypedStmt(
                                    Box::new(Return(TypedExpr(
                                        Box::new(Expr::Bool(true)),
                                        Type::Bool,
                                    ))),
                                    Type::Bool,
                                )),
                                Some(Box::new(TypedStmt(
                                    Box::new(Block(vec![TypedStmt(
                                        Box::new(If(
                                            TypedExpr(
                                                Box::new(Binary(
                                                    "||".to_string(),
                                                    Box::new(TypedExpr(
                                                        Box::new(Binary(
                                                            "==".to_string(),
                                                            Box::new(TypedExpr(
                                                                Box::new(LocalOrFieldVar(
                                                                    "c".to_string(),
                                                                )),
                                                                Type::Char,
                                                            )),
                                                            Box::new(TypedExpr(
                                                                Box::new(Expr::Char('d')),
                                                                Type::Char,
                                                            )),
                                                        )),
                                                        Type::Bool,
                                                    )),
                                                    Box::new(TypedExpr(
                                                        Box::new(Binary(
                                                            "==".to_string(),
                                                            Box::new(TypedExpr(
                                                                Box::new(LocalOrFieldVar(
                                                                    "c".to_string(),
                                                                )),
                                                                Type::Char,
                                                            )),
                                                            Box::new(TypedExpr(
                                                                Box::new(Expr::Char('e')),
                                                                Type::Char,
                                                            )),
                                                        )),
                                                        Type::Bool,
                                                    )),
                                                )),
                                                Type::Bool,
                                            ),
                                            Box::new(TypedStmt(
                                                Box::new(Return(TypedExpr(
                                                    Box::new(Expr::Bool(false)),
                                                    Type::Bool,
                                                ))),
                                                Type::Bool,
                                            )),
                                            Some(Box::new(TypedStmt(
                                                Box::new(If(
                                                    TypedExpr(
                                                        Box::new(Binary(
                                                            "&&".to_string(),
                                                            Box::new(TypedExpr(
                                                                Box::new(Binary(
                                                                    "==".to_string(),
                                                                    Box::new(TypedExpr(
                                                                        Box::new(LocalOrFieldVar(
                                                                            "c".to_string(),
                                                                        )),
                                                                        Type::Char,
                                                                    )),
                                                                    Box::new(TypedExpr(
                                                                        Box::new(Expr::Char('f')),
                                                                        Type::Char,
                                                                    )),
                                                                )),
                                                                Type::Bool,
                                                            )),
                                                            Box::new(TypedExpr(
                                                                Box::new(Binary(
                                                                    "==".to_string(),
                                                                    Box::new(TypedExpr(
                                                                        Box::new(LocalOrFieldVar(
                                                                            "c".to_string(),
                                                                        )),
                                                                        Type::Char,
                                                                    )),
                                                                    Box::new(TypedExpr(
                                                                        Box::new(Expr::Char('g')),
                                                                        Type::Char,
                                                                    )),
                                                                )),
                                                                Type::Bool,
                                                            )),
                                                        )),
                                                        Type::Bool,
                                                    ),
                                                    Box::new(TypedStmt(
                                                        Box::new(Return(TypedExpr(
                                                            Box::new(Expr::Bool(true)),
                                                            Type::Bool,
                                                        ))),
                                                        Type::Bool,
                                                    )),
                                                    Some(Box::new(TypedStmt(
                                                        Box::new(Block(vec![TypedStmt(
                                                            Box::new(Return(TypedExpr(
                                                                Box::new(Expr::Bool(false)),
                                                                Type::Bool,
                                                            ))),
                                                            Type::Bool,
                                                        )])),
                                                        Type::Bool,
                                                    ))),
                                                )),
                                                Type::Bool,
                                            ))),
                                        )),
                                        Type::Bool,
                                    )])),
                                    Type::Bool,
                                ))),
                            )),
                            Type::Bool,
                        ))),
                    )),
                    Type::Bool,
                ))),
            )]),
        }],
    }
}

#[test]
fn complex_if_class_test_typechecker() {
    let class = complex_if_class();
    typechecker_erased_test(&tast_to_ast(&class), &class);
}

#[test]
fn complex_if_class_test_parser() {
    let class = complex_if_class();
    parser_test(&tast_to_ast(&class), "class ComplexIf {
    boolean f(char c) {
        if (c == 'a') {
            return true;
        } else if (c == 'b') {
            return false;
        } else if (c == 'c')
            return true;
        else {
            if (c == 'd' || c == 'e')
                return false;
            else if (c == 'f' && c == 'g')
                return true;
            else {
                return false;
            }
        }
    }
}
");
}

#[test]
fn complex_if_class_test_codegen() {
    let class = complex_if_class();
    typed_codegen_test(&tast_to_ast(&class), "ComplexIf");
}

fn empty_class() -> Class {
    Class {
        name: "Empty".to_string(),
        fields: vec![],
        methods: vec![],
    }
}

#[test]
fn empty_class_test_typechecker() {
    let class = empty_class();
    typechecker_test(&tast_to_ast(&class), &class);
}

#[test]
fn empty_class_test_parser() {
    let class = empty_class();
    parser_test(&tast_to_ast(&class), "class Empty {
}
");
}

#[test]
fn empty_class_test_codegen() {
    let class = empty_class();
    codegen_test(&class, "Empty");
}

fn empty_method_class() -> Class {
    Class {
        name: "emptyMethod".to_string(),
        fields: vec![],
        methods: vec![MethodDecl {
            ret_type: Type::Void,
            name: "f".to_string(),
            params: vec![],
            body: TypedStmt(Box::new(Block(vec![])), Type::Void),
        }],
    }
}

#[test]
fn empty_method_class_test_typechecker() {
    let class = empty_method_class();
    typechecker_typed_test(&tast_to_ast(&class), &class);
}

#[test]
fn empty_method_class_test_parser() {
    let class = empty_method_class();
    parser_test(&tast_to_ast(&class), "class emptyMethod {
    void f() {
    }
}
");
}

#[test]
fn empty_method_class_test_codegen() {
    let class = empty_method_class();
    codegen_test(&class, "emptyMethod");
}

fn fib_class() -> Class {
    Class {
        name: "Fib".to_string(),
        fields: vec![],
        methods: vec![
            MethodDecl {
                ret_type: Type::Int,
                name: "rec".to_string(),
                params: vec![(Type::Int, "n".to_string())],
                body: TypedStmt(
                    Box::new(Block(vec![TypedStmt(
                        Box::new(If(
                            TypedExpr(
                                Box::new(Binary(
                                    "<".to_string(),
                                    Box::new(TypedExpr(
                                        Box::new(LocalVar("n".to_string())),
                                        Type::Int,
                                    )),
                                    Box::new(TypedExpr(Box::new(Expr::Integer(2)), Type::Int)),
                                )),
                                Type::Bool,
                            ),
                            Box::new(TypedStmt(
                                Box::new(Block(vec![TypedStmt(
                                    Box::new(Return(TypedExpr(
                                        Box::new(LocalVar("n".to_string())),
                                        Type::Int,
                                    ))),
                                    Type::Int,
                                )])),
                                Type::Int,
                            )),
                            Some(Box::new(TypedStmt(
                                Box::new(Block(vec![TypedStmt(
                                    Box::new(Return(TypedExpr(
                                        Box::new(Binary(
                                            "+".to_string(),
                                            Box::new(TypedExpr(
                                                Box::new(StmtExprExpr(Box::new(TypedStmtExpr(
                                                    Box::new(MethodCall(
                                                        TypedExpr(
                                                            Box::new(Expr::This),
                                                            Type::Class("Fib".to_string()),
                                                        ),
                                                        "rec".to_string(),
                                                        vec![TypedExpr(
                                                            Box::new(Binary(
                                                                "-".to_string(),
                                                                Box::new(TypedExpr(
                                                                    Box::new(LocalVar(
                                                                        "n".to_string(),
                                                                    )),
                                                                    Type::Int,
                                                                )),
                                                                Box::new(TypedExpr(
                                                                    Box::new(Expr::Integer(1)),
                                                                    Type::Int,
                                                                )),
                                                            )),
                                                            Type::Int,
                                                        )],
                                                    )),
                                                    Type::Int,
                                                )))),
                                                Type::Int,
                                            )),
                                            Box::new(TypedExpr(
                                                Box::new(StmtExprExpr(Box::new(TypedStmtExpr(
                                                    Box::new(MethodCall(
                                                        TypedExpr(
                                                            Box::new(Expr::This),
                                                            Type::Class("Fib".to_string()),
                                                        ),
                                                        "rec".to_string(),
                                                        vec![TypedExpr(
                                                            Box::new(Binary(
                                                                "-".to_string(),
                                                                Box::new(TypedExpr(
                                                                    Box::new(LocalVar(
                                                                        "n".to_string(),
                                                                    )),
                                                                    Type::Int,
                                                                )),
                                                                Box::new(TypedExpr(
                                                                    Box::new(Expr::Integer(2)),
                                                                    Type::Int,
                                                                )),
                                                            )),
                                                            Type::Int,
                                                        )],
                                                    )),
                                                    Type::Int,
                                                )))),
                                                Type::Int,
                                            )),
                                        )),
                                        Type::Int,
                                    ))),
                                    Type::Int,
                                )])),
                                Type::Int,
                            ))),
                        )),
                        Type::Int,
                    )])),
                    Type::Int,
                ),
            },
            MethodDecl {
                ret_type: Type::Int,
                name: "iter".to_string(),
                params: vec![(Type::Int, "n".to_string())],
                body: TypedStmt(
                    Box::new(Block(vec![
                        TypedStmt(
                            Box::new(If(
                                TypedExpr(
                                    Box::new(Binary(
                                        "<".to_string(),
                                        Box::new(TypedExpr(
                                            Box::new(LocalVar("n".to_string())),
                                            Type::Int,
                                        )),
                                        Box::new(TypedExpr(Box::new(Expr::Integer(2)), Type::Int)),
                                    )),
                                    Type::Bool,
                                ),
                                Box::new(TypedStmt(
                                    Box::new(Block(vec![TypedStmt(
                                        Box::new(Return(TypedExpr(
                                            Box::new(LocalVar("n".to_string())),
                                            Type::Int,
                                        ))),
                                        Type::Int,
                                    )])),
                                    Type::Int,
                                )),
                                None,
                            )),
                            Type::Int,
                        ),
                        TypedStmt(
                            Box::new(LocalVarDecl(Type::Int, "x".to_string())),
                            Type::Int,
                        ),
                        TypedStmt(
                            Box::new(StmtExprStmt(TypedStmtExpr(
                                Box::new(Assign(
                                    Expr::TypedExpr(
                                        Box::new(Expr::LocalVar("x".to_string())),
                                        Type::Int,
                                    ),
                                    TypedExpr(Box::new(Expr::Integer(0)), Type::Int),
                                )),
                                Type::Int,
                            ))),
                            Type::Int,
                        ),
                        TypedStmt(
                            Box::new(LocalVarDecl(Type::Int, "y".to_string())),
                            Type::Int,
                        ),
                        TypedStmt(
                            Box::new(StmtExprStmt(TypedStmtExpr(
                                Box::new(Assign(
                                    Expr::TypedExpr(
                                        Box::new(Expr::LocalVar("y".to_string())),
                                        Type::Int,
                                    ),
                                    TypedExpr(Box::new(Expr::Integer(1)), Type::Int),
                                )),
                                Type::Int,
                            ))),
                            Type::Int,
                        ),
                        TypedStmt(
                            Box::new(LocalVarDecl(Type::Int, "i".to_string())),
                            Type::Int,
                        ),
                        TypedStmt(
                            Box::new(StmtExprStmt(TypedStmtExpr(
                                Box::new(Assign(
                                    Expr::TypedExpr(
                                        Box::new(Expr::LocalVar("i".to_string())),
                                        Type::Int,
                                    ),
                                    TypedExpr(Box::new(Expr::Integer(1)), Type::Int),
                                )),
                                Type::Int,
                            ))),
                            Type::Int,
                        ),
                        TypedStmt(
                            Box::new(While(
                                TypedExpr(
                                    Box::new(Binary(
                                        "<".to_string(),
                                        Box::new(TypedExpr(
                                            Box::new(LocalVar("i".to_string())),
                                            Type::Int,
                                        )),
                                        Box::new(TypedExpr(
                                            Box::new(LocalVar("n".to_string())),
                                            Type::Int,
                                        )),
                                    )),
                                    Type::Bool,
                                ),
                                Box::new(TypedStmt(
                                    Box::new(Block(vec![
                                        TypedStmt(
                                            Box::new(LocalVarDecl(Type::Int, "next".to_string())),
                                            Type::Int,
                                        ),
                                        TypedStmt(
                                            Box::new(StmtExprStmt(TypedStmtExpr(
                                                Box::new(Assign(
                                                    Expr::TypedExpr(
                                                        Box::new(Expr::LocalVar(
                                                            "next".to_string(),
                                                        )),
                                                        Type::Int,
                                                    ),
                                                    TypedExpr(
                                                        Box::new(Binary(
                                                            "+".to_string(),
                                                            Box::new(TypedExpr(
                                                                Box::new(LocalVar("y".to_string())),
                                                                Type::Int,
                                                            )),
                                                            Box::new(TypedExpr(
                                                                Box::new(LocalVar("x".to_string())),
                                                                Type::Int,
                                                            )),
                                                        )),
                                                        Type::Int,
                                                    ),
                                                )),
                                                Type::Int,
                                            ))),
                                            Type::Int,
                                        ),
                                        TypedStmt(
                                            Box::new(StmtExprStmt(TypedStmtExpr(
                                                Box::new(Assign(
                                                    Expr::TypedExpr(
                                                        Box::new(Expr::LocalVar("x".to_string())),
                                                        Type::Int,
                                                    ),
                                                    TypedExpr(
                                                        Box::new(LocalVar("y".to_string())),
                                                        Type::Int,
                                                    ),
                                                )),
                                                Type::Int,
                                            ))),
                                            Type::Int,
                                        ),
                                        TypedStmt(
                                            Box::new(StmtExprStmt(TypedStmtExpr(
                                                Box::new(Assign(
                                                    Expr::TypedExpr(
                                                        Box::new(Expr::LocalVar("y".to_string())),
                                                        Type::Int,
                                                    ),
                                                    TypedExpr(
                                                        Box::new(LocalVar("next".to_string())),
                                                        Type::Int,
                                                    ),
                                                )),
                                                Type::Int,
                                            ))),
                                            Type::Int,
                                        ),
                                        TypedStmt(
                                            Box::new(StmtExprStmt(TypedStmtExpr(
                                                Box::new(Assign(
                                                    Expr::TypedExpr(
                                                        Box::new(Expr::LocalVar("i".to_string())),
                                                        Type::Int,
                                                    ),
                                                    TypedExpr(
                                                        Box::new(Binary(
                                                            "+".to_string(),
                                                            Box::new(TypedExpr(
                                                                Box::new(LocalVar("i".to_string())),
                                                                Type::Int,
                                                            )),
                                                            Box::new(TypedExpr(
                                                                Box::new(Expr::Integer(1)),
                                                                Type::Int,
                                                            )),
                                                        )),
                                                        Type::Int,
                                                    ),
                                                )),
                                                Type::Int,
                                            ))),
                                            Type::Int,
                                        ),
                                    ])),
                                    Type::Void,
                                )),
                            )),
                            Type::Void,
                        ),
                        TypedStmt(
                            Box::new(Return(TypedExpr(
                                Box::new(LocalVar("y".to_string())),
                                Type::Int,
                            ))),
                            Type::Int,
                        ),
                    ])),
                    Type::Int,
                ),
            },
        ],
    }
}

#[test]
fn fib_class_test_typechecker() {
    let class = fib_class();
    typechecker_typed_test(&tast_to_ast(&class), &class);
}

#[test]
fn fib_class_test_parser() {
    let class = fib_class();
    parser_test(&tast_to_ast(&class), "class Fib {
    int rec(int n) {
        if (n < 2) {
            return n;
        } else {
            return this.rec(n - 1) + this.rec(n - 2);
        }
    }

    int iter(int n) {
        if (n < 2) {
            return n;
        }
        int x = 0;
        int y = 1;
        int i = 1;
        while (i < n) {
            int next = y + x;
            x = y;
            y = next;
            i = i + 1;
        }
        return y;
    }
}
");
}

#[test]
fn fib_class_test_codegen() {
    let class = fib_class();
    codegen_test(&class, "Fib");
}

fn fields_class() -> Class {
    Class {
        name: "Fields".to_string(),
        fields: vec![
            FieldDecl {
                field_type: Type::Int,
                name: "x".to_string(),
                val: None,
            },
            FieldDecl {
                field_type: Type::Bool,
                name: "b".to_string(),
                val: None,
            },
            FieldDecl {
                field_type: Type::Char,
                name: "c".to_string(),
                val: None,
            },
            FieldDecl {
                field_type: Type::String,
                name: "s".to_string(),
                val: None,
            },
        ],
        methods: vec![],
    }
}

#[test]
fn fields_class_test_typechecker() {
    let class = fields_class();
    typechecker_test(&tast_to_ast(&class), &class);
}

#[test]
fn fields_class_test_parser() {
    let class = fields_class();
    parser_test(&tast_to_ast(&class), "class Fields {
    int x;
    boolean b;
    char c;
    String s;
}
");
}

#[test]
fn fields_class_test_codegen() {
    let class = fields_class();
    codegen_test(&class, "Fields");
}

fn full_test_class() -> Class {
    Class {
        name: "FullTest".to_string(),
        fields: vec![],
        methods: vec![],
    }
}

#[test]
fn full_test_class_test_typechecker() {
    let class = full_test_class();
    typechecker_test(&tast_to_ast(&class), &class);
}

#[test]
fn full_test_class_test_parser() {
    let class = full_test_class();
    parser_test(&tast_to_ast(&class), "class FullTest {
}
");
}

#[test]
fn full_test_class_test_codegen() {
    let class = full_test_class();
    codegen_test(&class, "FullTest");
}

fn if_class() -> Class {
    Class {
        name: "If".to_string(),
        fields: vec![],
        methods: vec![MethodDecl {
            name: "f".to_string(),
            params: vec![(Type::Char, "c".to_string())],
            ret_type: Type::Bool,
            body: TypedStmt(
                Box::new(Block(vec![
                    TypedStmt(
                        Box::new(If(
                            TypedExpr(
                                Box::new(Binary(
                                    "==".to_string(),
                                    Box::new(TypedExpr(
                                        Box::new(LocalVar("c".to_string())),
                                        Type::Char,
                                    )),
                                    Box::new(Char('a')),
                                )),
                                Type::Bool,
                            ),
                            Box::new(TypedStmt(
                                Box::new(Return(TypedExpr(Box::new(Bool(true)), Type::Bool))),
                                Type::Bool,
                            )),
                            None,
                        )),
                        Type::Bool,
                    ),
                    TypedStmt(
                        Box::new(Return(TypedExpr(Box::new(Bool(false)), Type::Bool))),
                        Type::Bool,
                    ),
                ])),
                Type::Bool,
            ),
        }],
    }
}

#[test]
fn if_class_test_typechecker() {
    let class = if_class();
    typechecker_erased_test(&tast_to_ast(&class), &class);
}

#[test]
fn if_class_test_parser() {
    let class = if_class();
    parser_test(&tast_to_ast(&class), "class If {
    boolean f(char c) {
        if (c == 'a')
            return true;
        return false;
    }
}
");
}

#[test]
fn if_class_test_codegen() {
    let class = if_class();
    typed_codegen_test(&tast_to_ast(&class), "If");
}

fn int_fields_class() -> Class {
    Class {
        name: "IntFields".to_string(),
        fields: vec![
            FieldDecl {
                field_type: Type::Int,
                name: "x".to_string(),
                val: None,
            },
            FieldDecl {
                field_type: Type::Int,
                name: "y".to_string(),
                val: None,
            },
            FieldDecl {
                field_type: Type::Int,
                name: "z".to_string(),
                val: None,
            },
            FieldDecl {
                field_type: Type::Int,
                name: "another_int".to_string(),
                val: None,
            },
        ],
        methods: vec![],
    }
}

#[test]
fn int_fields_class_test_typechecker() {
    let class = int_fields_class();
    typechecker_test(&tast_to_ast(&class), &class);
}

#[test]
fn int_fields_class_test_parser() {
    let class = int_fields_class();
    parser_test(&tast_to_ast(&class), "class IntFields {
    int x, y;
    int z;
    int another_int;
}
");
}

#[test]
fn int_fields_class_test_codegen() {
    let class = int_fields_class();
    codegen_test(&class, "IntFields");
}

fn local_var_decl_class() -> Class {
    Class {
        name: "LocalVarDecl".to_string(),
        fields: vec![],
        methods: vec![MethodDecl {
            ret_type: Type::Int,
            name: "f".to_string(),
            params: vec![],
            body: TypedStmt(
                Box::new(Block(vec![
                    TypedStmt(
                        Box::new(LocalVarDecl(Type::Int, "x".to_string())),
                        Type::Void,
                    ),
                    TypedStmt(
                        Box::new(StmtExprStmt(TypedStmtExpr(
                            Box::new(Assign(TypedExpr(Box::new(LocalVar("x".to_string())), Type::Int), TypedExpr(Box::new(Integer(69)), Type::Int))),
                            Type::Int,
                        ))),
                        Type::Int,
                    ),
                    TypedStmt(
                        Box::new(Return(TypedExpr(
                            Box::new(LocalVar("x".to_string())),
                            Type::Int,
                        ))),
                        Type::Int,
                    ),
                ])),
                Type::Int,
            ),
        }],
    }
}

#[test]
fn local_var_decl_class_test_typechecker() {
    let class = local_var_decl_class();
    typechecker_erased_test(&tast_to_ast(&class), &class);
}

#[test]
fn local_var_decl_class_test_parser() {
    let class = local_var_decl_class();
    parser_test(&tast_to_ast(&class), "class LocalVarDecl {
    int f() {
        int x = 69;
        return x;
    }
}
");
}

#[test]
fn local_var_decl_class_test_codegen() {
    let class = local_var_decl_class();
    codegen_test(&class, "LocalVarDecl");
}

fn method_call_class() -> Class {
    Class {
        name: "MethodCall".to_string(),
        fields: vec![],
        methods: vec![
            MethodDecl {
                ret_type: Type::Int,
                name: "a".to_string(),
                params: vec![],
                body: TypedStmt(
                    Box::new(Block(vec![TypedStmt(
                        Box::new(Return(TypedExpr(Box::new(Expr::Integer(2)), Type::Int))),
                        Type::Int,
                    )])),
                    Type::Int,
                ),
            },
            MethodDecl {
                ret_type: Type::Int,
                name: "b".to_string(),
                params: vec![],
                body: TypedStmt(
                    Box::new(Block(vec![TypedStmt(
                        Box::new(Return(TypedExpr(Box::new(Expr::Integer(5)), Type::Int))),
                        Type::Int,
                    )])),
                    Type::Int,
                ),
            },
            MethodDecl {
                ret_type: Type::Int,
                name: "f".to_string(),
                params: vec![],
                body: TypedStmt(
                    Box::new(Block(vec![TypedStmt(
                        Box::new(Return(TypedExpr(
                            Box::new(Binary(
                                "+".to_string(),
                                Box::new(TypedExpr(
                                    Box::new(StmtExprExpr(Box::new(TypedStmtExpr(
                                        Box::new(MethodCall(
                                            TypedExpr(
                                                Box::new(This),
                                                Type::Class("MethodCall".to_string()),
                                            ),
                                            "a".to_string(),
                                            vec![],
                                        )),
                                        Type::Int,
                                    )))),
                                    Type::Int,
                                )),
                                Box::new(TypedExpr(
                                    Box::new(StmtExprExpr(Box::new(TypedStmtExpr(
                                        Box::new(MethodCall(
                                            TypedExpr(
                                                Box::new(This),
                                                Type::Class("MethodCall".to_string()),
                                            ),
                                            "b".to_string(),
                                            vec![],
                                        )),
                                        Type::Int,
                                    )))),
                                    Type::Int,
                                )),
                            )),
                            Type::Int,
                        ))),
                        Type::Int,
                    )])),
                    Type::Int,
                ),
            },
        ],
    }
}

#[test]
fn method_call_class_test_typechecker() {
    let class = method_call_class();
    typechecker_typed_test(&tast_to_ast(&class), &class);
}

#[test]
fn method_call_class_test_parser() {
    let class = method_call_class();
    parser_test(&tast_to_ast(&class), "class MethodCall {
    int a() {
        return 2;
    }

    int b() {
        return 5;
    }

    int f() {
        return this.a() + this.b();
    }
}
");
}

#[test]
fn method_call_class_test_codegen() {
    let class = method_call_class();
    codegen_test(&class, "MethodCall");
}

fn naming_conflict() -> Class {
    Class {
        name: "NamingConflict".to_string(),
        fields: vec![FieldDecl {
            field_type: Type::Int,
            name: "x".to_string(),
            val: Some(Expr::Integer(69)),
        }],
        methods: vec![MethodDecl {
            ret_type: Type::Int,
            name: "f".to_string(),
            params: vec![(Type::Int, "x".to_string())],
            body: TypedStmt(
                Box::new(Block(vec![TypedStmt(
                    Box::new(Return(TypedExpr(
                        Box::new(Binary(
                            "+".to_string(),
                            Box::new(TypedExpr(
                                Box::new(InstVar(
                                    Box::new(TypedExpr(
                                        Box::new(Expr::This),
                                        Type::Class("NamingConflict".to_string()),
                                    )),
                                    "x".to_string(),
                                )),
                                Type::Int,
                            )),
                            Box::new(TypedExpr(Box::new(LocalVar("x".to_string())), Type::Int)),
                        )),
                        Type::Int,
                    ))),
                    Type::Int,
                )])),
                Type::Int,
            ),
        }],
    }
}

#[test]
fn naming_conflict_class_test_typechecker() {
    let class = naming_conflict();
    typechecker_typed_test(&tast_to_ast(&class), &class);
}

#[test]
fn naming_conflict_class_test_parser() {
    let class = naming_conflict();
    parser_test(&tast_to_ast(&class), "class NamingConflict {
    int x = 69;

    int f(int x) {
        return this.x + x;
    }
}
");
}

#[test]
fn naming_conflict_class_test_codegen() {
    let class = naming_conflict();
    codegen_test(&class, "NamingConflict");
}

fn negator_class() -> Class {
    Class {
        name: "Negator".to_string(),
        fields: vec![],
        methods: vec![
            MethodDecl {
                ret_type: Type::Int,
                name: "neg1".to_string(),
                params: vec![(Type::Int, "x".to_string())],
                body: TypedStmt(
                    Box::new(Block(vec![TypedStmt(
                        Box::new(Return(TypedExpr(
                            Box::new(Unary(
                                "-".to_string(),
                                Box::new(TypedExpr(
                                    Box::new(Expr::LocalVar("x".to_string())),
                                    Type::Int,
                                )),
                            )),
                            Type::Int,
                        ))),
                        Type::Int,
                    )])),
                    Type::Int,
                ),
            },
            MethodDecl {
                ret_type: Type::Int,
                name: "neg2".to_string(),
                params: vec![(Type::Int, "x".to_string())],
                body: TypedStmt(
                    Box::new(Block(vec![TypedStmt(
                        Box::new(Return(TypedExpr(
                            Box::new(Unary(
                                "-".to_string(),
                                Box::new(TypedExpr(
                                    Box::new(Unary(
                                        "+".to_string(),
                                        Box::new(TypedExpr(
                                            Box::new(Unary(
                                                "-".to_string(),
                                                Box::new(TypedExpr(
                                                    Box::new(Binary(
                                                        "*".to_string(),
                                                        Box::new(TypedExpr(
                                                            Box::new(Expr::Integer(-1)),
                                                            Type::Int,
                                                        )),
                                                        Box::new(TypedExpr(
                                                            Box::new(LocalVar("x".to_string())),
                                                            Type::Int,
                                                        )),
                                                    )),
                                                    Type::Int,
                                                )),
                                            )),
                                            Type::Int,
                                        )),
                                    )),
                                    Type::Int,
                                )),
                            )),
                            Type::Int,
                        ))),
                        Type::Int,
                    )])),
                    Type::Int,
                ),
            },
        ],
    }
}

#[test]
fn negator_class_test_typechecker() {
    let class = negator_class();
    typechecker_typed_test(&tast_to_ast(&class), &class);
}

#[test]
fn negator_class_test_parser() {
    let class = negator_class();
    parser_test(&tast_to_ast(&class), "class Negator {
    int neg1(int x) {
        return -x;
    }

    int neg2(int x) {
        return -+-(-1 * x);
    }
}
");
}

#[test]
fn negator_class_test_codegen() {
    let class = negator_class();
    codegen_test(&class, "Negator");
}

fn return_class() -> Class {
    Class {
        name: "Return".to_string(),
        fields: vec![],
        methods: vec![
            MethodDecl {
                ret_type: Type::Char,
                name: "id".to_string(),
                params: vec![(Type::Char, "x".to_string())],
                body: TypedStmt(
                    Box::new(Block(vec![TypedStmt(
                        Box::new(Return(TypedExpr(
                            Box::new(Expr::LocalVar("x".to_string())),
                            Type::Char,
                        ))),
                        Type::Char,
                    )])),
                    Type::Char,
                ),
            },
            MethodDecl {
                ret_type: Type::Bool,
                name: "id".to_string(),
                params: vec![(Type::Bool, "b".to_string())],
                body: TypedStmt(
                    Box::new(Block(vec![TypedStmt(
                        Box::new(Return(TypedExpr(
                            Box::new(Expr::LocalVar("b".to_string())),
                            Type::Bool,
                        ))),
                        Type::Bool,
                    )])),
                    Type::Bool,
                ),
            },
        ],
    }
}

#[test]
fn return_class_test_typechecker() {
    let class = return_class();
    typechecker_typed_test(&tast_to_ast(&class), &class);
}

#[test]
fn return_class_test_parser() {
    let class = return_class();
    parser_test(&tast_to_ast(&class), "class Return {
    char id(char x) {
        return x;
    }

    boolean id(boolean b) {
        return b;
    }
}
");
}

#[test]
fn return_class_test_codegen() {
    let class = return_class();
    codegen_test(&class, "Return");
}

fn setter_getter_class() -> Class {
    Class {
        name: "SetterGetter".to_string(),
        fields: vec![
            FieldDecl {
                field_type: Type::Int,
                name: "x".to_string(),
                val: None,
            },
            FieldDecl {
                field_type: Type::Bool,
                name: "b".to_string(),
                val: None,
            },
            FieldDecl {
                field_type: Type::Char,
                name: "c".to_string(),
                val: None,
            },
            FieldDecl {
                field_type: Type::String,
                name: "s".to_string(),
                val: None,
            },
        ],
        methods: vec![
            MethodDecl {
                ret_type: Type::Int,
                name: "getX".to_string(),
                params: vec![],
                body: TypedStmt(
                    Box::new(Block(vec![TypedStmt(
                        Box::new(Return(TypedExpr(
                            Box::new(InstVar(
                                Box::new(TypedExpr(
                                    Box::new(Expr::This),
                                    Type::Class("SetterGetter".to_string()),
                                )),
                                "x".to_string(),
                            )),
                            Type::Int,
                        ))),
                        Type::Int,
                    )])),
                    Type::Int,
                ),
            },
            MethodDecl {
                ret_type: Type::Void,
                name: "setX".to_string(),
                params: vec![(Type::Int, "x".to_string())],
                body: TypedStmt(
                    Box::new(Block(vec![TypedStmt(
                        Box::new(StmtExprStmt(TypedStmtExpr(
                            Box::new(Assign(TypedExpr(Box::new(InstVar(Box::new(TypedExpr(Box::new(Expr::This), Type::Class("SetterGetter".to_string()))), "x".to_string())), Type::Int), TypedExpr(Box::new(LocalVar("x".to_string())), Type::Int))),
                            Type::Int,
                        ))),
                        Type::Int,
                    )])),
                    Type::Void,
                ),
            },
            MethodDecl {
                ret_type: Type::Bool,
                name: "getB".to_string(),
                params: vec![],
                body: TypedStmt(
                    Box::new(Block(vec![TypedStmt(
                        Box::new(Return(TypedExpr(
                            Box::new(InstVar(
                                Box::new(TypedExpr(
                                    Box::new(Expr::This),
                                    Type::Class("SetterGetter".to_string()),
                                )),
                                "b".to_string(),
                            )),
                            Type::Bool,
                        ))),
                        Type::Bool,
                    )])),
                    Type::Bool,
                ),
            },
            MethodDecl {
                ret_type: Type::Void,
                name: "setB".to_string(),
                params: vec![(Type::Bool, "b".to_string())],
                body: TypedStmt(
                    Box::new(Block(vec![TypedStmt(
                        Box::new(StmtExprStmt(TypedStmtExpr(
                            Box::new(Assign(TypedExpr(Box::new(InstVar(Box::new(TypedExpr(Box::new(Expr::This), Type::Class("SetterGetter".to_string()))), "b".to_string())), Type::Bool), TypedExpr(Box::new(LocalVar("b".to_string())), Type::Bool))),
                            Type::Bool,
                        ))),
                        Type::Bool,
                    )])),
                    Type::Void,
                ),
            },
            MethodDecl {
                ret_type: Type::Char,
                name: "getC".to_string(),
                params: vec![],
                body: TypedStmt(
                    Box::new(Block(vec![TypedStmt(
                        Box::new(Return(TypedExpr(
                            Box::new(InstVar(
                                Box::new(TypedExpr(
                                    Box::new(Expr::This),
                                    Type::Class("SetterGetter".to_string()),
                                )),
                                "c".to_string(),
                            )),
                            Type::Char,
                        ))),
                        Type::Char,
                    )])),
                    Type::Char,
                ),
            },
            MethodDecl {
                ret_type: Type::Void,
                name: "setC".to_string(),
                params: vec![(Type::Char, "c".to_string())],
                body: TypedStmt(
                    Box::new(Block(vec![TypedStmt(
                        Box::new(StmtExprStmt(TypedStmtExpr(
                            Box::new(Assign(TypedExpr(Box::new(InstVar(Box::new(TypedExpr(Box::new(Expr::This), Type::Class("SetterGetter".to_string()))), "c".to_string())), Type::Char), TypedExpr(Box::new(LocalVar("c".to_string())), Type::Char))),
                            Type::Char,
                        ))),
                        Type::Char,
                    )])),
                    Type::Void,
                ),
            },
            MethodDecl {
                ret_type: Type::String,
                name: "getS".to_string(),
                params: vec![],
                body: TypedStmt(
                    Box::new(Block(vec![TypedStmt(
                        Box::new(Return(TypedExpr(
                            Box::new(InstVar(
                                Box::new(TypedExpr(
                                    Box::new(Expr::This),
                                    Type::Class("SetterGetter".to_string()),
                                )),
                                "s".to_string(),
                            )),
                            Type::String,
                        ))),
                        Type::String,
                    )])),
                    Type::String,
                ),
            },
            MethodDecl {
                ret_type: Type::Void,
                name: "setS".to_string(),
                params: vec![(Type::String, "s".to_string())],
                body: TypedStmt(
                    Box::new(Block(vec![TypedStmt(
                        Box::new(StmtExprStmt(TypedStmtExpr(
                            Box::new(Assign(TypedExpr(Box::new(InstVar(Box::new(TypedExpr(Box::new(Expr::This), Type::Class("SetterGetter".to_string()))), "s".to_string())), Type::String), TypedExpr(Box::new(LocalVar("s".to_string())), Type::String))),
                            Type::String,
                        ))),
                        Type::String,
                    )])),
                    Type::Void,
                ),
            },
        ],
    }
}

#[test]
fn setter_getter_class_test_typechecker() {
    let class = setter_getter_class();
    typechecker_typed_test(&tast_to_ast(&class), &class);
}

#[test]
fn setter_getter_class_test_parser() {
    let class = setter_getter_class();
    parser_test(&tast_to_ast(&class), "class SetterGetter {
    int x;
    boolean b;
    char c;
    String s;

    int getX() {
        return this.x;
    }

    void setX(int x) {
        this.x = x;
    }

    boolean getB() {
        return this.b;
    }

    void setB(boolean b) {
        this.b = b;
    }

    char getC() {
        return this.c;
    }

    void setC(char c) {
        this.c = c;
    }

    String getS() {
        return this.s;
    }

    void setS(String s) {
        this.s = s;
    }
}
");
}

#[test]
fn setter_getter_class_test_codegen() {
    let class = setter_getter_class();
    codegen_test(&class, "SetterGetter");
}

fn str_add_class() -> Class {
    Class {
        name: "StrAdd".to_string(),
        fields: vec![FieldDecl {
            field_type: Type::String,
            name: "hello".to_string(),
            val: Some(Expr::String("Hi".to_string())),
        }],
        methods: vec![MethodDecl {
            ret_type: Type::String,
            name: "helloWorld".to_string(),
            params: vec![],
            body: TypedStmt(
                Box::new(Return(TypedExpr(
                    Box::new(Binary(
                        "+".to_string(),
                        Box::new(TypedExpr(
                            Box::new(FieldVar("hello".to_string())),
                            Type::String,
                        )),
                        Box::new(TypedExpr(
                            Box::new(Expr::String(" World".to_string())),
                            Type::String,
                        )),
                    )),
                    Type::String,
                ))),
                Type::String,
            ),
        }],
    }
}

#[test]
fn str_add_class_test_typechecker() {
    let class = str_add_class();
    typechecker_typed_test(&tast_to_ast(&class), &class);
}

#[test]
fn str_add_class_test_codegen() {
    let class = str_add_class();
    codegen_test(&class, "StrAdd");
}

fn while_class() -> Class {
    Class {
        name: "While".to_string(),
        fields: vec![FieldDecl {
            field_type: Type::Int,
            name: "n".to_string(),
            val: Some(Expr::Integer(2)),
        }],
        methods: vec![MethodDecl {
            name: "f".to_string(),
            params: vec![(Type::Int, "x".to_string())],
            ret_type: Type::Int,
            body: TypedStmt(
                Box::new(Block(vec![
                    TypedStmt(
                        Box::new(LocalVarDecl(Type::Int, "i".to_string())),
                        Type::Void,
                    ),
                    TypedStmt(
                        Box::new(StmtExprStmt(TypedStmtExpr(
                            Box::new(Assign(TypedExpr(Box::new(LocalVar("i".to_string())), Type::Int), TypedExpr(Box::new(Integer(0)), Type::Int))),
                            Type::Int,
                        ))),
                        Type::Int,
                    ),
                    TypedStmt(
                        Box::new(LocalVarDecl(Type::Int, "a".to_string())),
                        Type::Void,
                    ),
                    TypedStmt(
                        Box::new(StmtExprStmt(TypedStmtExpr(
                            Box::new(Assign(TypedExpr(Box::new(LocalVar("a".to_string())), Type::Int), TypedExpr(Box::new(LocalOrFieldVar("n".to_string())), Type::Int))),
                            Type::Int,
                        ))),
                        Type::Int,
                    ),
                    TypedStmt(
                        Box::new(While(
                            TypedExpr(
                                Box::new(Binary(
                                    "<".to_string(),
                                    Box::new(TypedExpr(
                                        Box::new(LocalOrFieldVar("i".to_string())),
                                        Type::Int,
                                    )),
                                    Box::new(TypedExpr(
                                        Box::new(LocalOrFieldVar("x".to_string())),
                                        Type::Int,
                                    )),
                                )),
                                Type::Bool,
                            ),
                            Box::new(TypedStmt(
                                Box::new(Block(vec![
                                    TypedStmt(
                                        Box::new(StmtExprStmt(TypedStmtExpr(
                                            Box::new(Assign(TypedExpr(Box::new(LocalVar("a".to_string())), Type::Int), TypedExpr(
                                                    Box::new(Binary(
                                                        "+".to_string(),
                                                        Box::new(TypedExpr(
                                                            Box::new(LocalOrFieldVar(
                                                                "a".to_string(),
                                                            )),
                                                            Type::Int,
                                                        )),
                                                        Box::new(TypedExpr(
                                                            Box::new(LocalOrFieldVar(
                                                                "a".to_string(),
                                                            )),
                                                            Type::Int,
                                                        )),
                                                    )),
                                                    Type::Int,
                                                ))),
                                            Type::Int,
                                        ))),
                                        Type::Int,
                                    ),
                                    TypedStmt(
                                        Box::new(StmtExprStmt(TypedStmtExpr(
                                            Box::new(Assign(TypedExpr(Box::new(LocalVar("i".to_string())), Type::Int), TypedExpr(
                                                    Box::new(Binary(
                                                        "+".to_string(),
                                                        Box::new(TypedExpr(
                                                            Box::new(LocalOrFieldVar(
                                                                "i".to_string(),
                                                            )),
                                                            Type::Int,
                                                        )),
                                                        Box::new(TypedExpr(
                                                            Box::new(Integer(1)),
                                                            Type::Int,
                                                        )),
                                                    )),
                                                    Type::Int,
                                                ))),
                                            Type::Int,
                                        ))),
                                        Type::Int,
                                    ),
                                ])),
                                Type::Int,
                            )),
                        )),
                        Type::Int,
                    ),
                    TypedStmt(
                        Box::new(Return(TypedExpr(
                            Box::new(LocalOrFieldVar("a".to_string())),
                            Type::Int,
                        ))),
                        Type::Int,
                    ),
                ])),
                Type::Int,
            ),
        }],
    }
}

#[test]
fn while_class_test_typechecker() {
    let class = while_class();
    typechecker_erased_test(&tast_to_ast(&class), &class);
}

#[test]
fn while_class_test_parser() {
    let class = while_class();
    parser_test(&tast_to_ast(&class), "class While {
    int n = 2;

    int f(int x) {
        int i = 0;
        int a = n;
        while (i < x) {
            a = a + a;
            i = i + 1;
        }
        return a;
    }
}
");
}

#[test]
fn while_class_test_codegen() {
    let class = while_class();
    typed_codegen_test(&tast_to_ast(&class), "While");
}

fn wonky_assignments_class() -> Class {
    Class {
        name: "WonkyAssignments".to_string(),
        fields: vec![
            FieldDecl {
                field_type: Type::Int,
                name: "x".to_string(),
                val: None,
            },
            FieldDecl {
                field_type: Type::Int,
                name: "y".to_string(),
                val: Some(Expr::Integer(3)),
            },
            FieldDecl {
                field_type: Type::Int,
                name: "z".to_string(),
                val: None,
            },
            FieldDecl {
                field_type: Type::Bool,
                name: "a".to_string(),
                val: Some(Expr::Bool(false)),
            },
            FieldDecl {
                field_type: Type::Bool,
                name: "b".to_string(),
                val: Some(Expr::Bool(true)),
            },
            FieldDecl {
                field_type: Type::Bool,
                name: "c".to_string(),
                val: None,
            },
        ],
        methods: vec![MethodDecl {
            ret_type: Type::Int,
            name: "f".to_string(),
            params: vec![(Type::Int, "newX".to_string())],
            body: TypedStmt(
                Box::new(Block(vec![
                    TypedStmt(
                        Box::new(StmtExprStmt(TypedStmtExpr(
                            Box::new(Assign(TypedExpr(Box::new(FieldVar("c".to_string())), Type::Bool), TypedExpr(
                                    Box::new(Binary(
                                        ">".to_string(),
                                        Box::new(TypedExpr(
                                            Box::new(StmtExprExpr(Box::new(TypedStmtExpr(
                                                Box::new(Assign(TypedExpr(Box::new(FieldVar("x".to_string())), Type::Int), TypedExpr(
                                                        Box::new(LocalVar("newX".to_string())),
                                                        Type::Int,
                                                    ))),
                                                Type::Int,
                                            )))),
                                            Type::Int,
                                        )),
                                        Box::new(TypedExpr(
                                            Box::new(FieldVar("y".to_string())),
                                            Type::Int,
                                        )),
                                    )),
                                    Type::Bool,
                                ))),
                            Type::Bool,
                        ))),
                        Type::Bool,
                    ),
                    TypedStmt(
                        Box::new(LocalVarDecl(Type::Int, "i".to_string())),
                        Type::Int,
                    ),
                    TypedStmt(
                        Box::new(LocalVarDecl(Type::Int, "j".to_string())),
                        Type::Int,
                    ),
                    TypedStmt(
                        Box::new(StmtExprStmt(TypedStmtExpr(
                            Box::new(Assign(TypedExpr(Box::new(LocalVar("j".to_string())), Type::Int), TypedExpr(
                                    Box::new(StmtExprExpr(Box::new(TypedStmtExpr(
                                        Box::new(Assign(TypedExpr(Box::new(FieldVar("z".to_string())), Type::Int), TypedExpr(
                                                Box::new(FieldVar("x".to_string())),
                                                Type::Int,
                                            ))),
                                        Type::Int,
                                    )))),
                                    Type::Int,
                                ))),
                            Type::Int,
                        ))),
                        Type::Int,
                    ),
                    TypedStmt(
                        Box::new(LocalVarDecl(Type::Int, "k".to_string())),
                        Type::Int,
                    ),
                    TypedStmt(
                        Box::new(StmtExprStmt(TypedStmtExpr(
                            Box::new(Assign(TypedExpr(Box::new(LocalVar("k".to_string())), Type::Int), TypedExpr(Box::new(Expr::Integer(-1)), Type::Int))),
                            Type::Int,
                        ))),
                        Type::Int,
                    ),
                    TypedStmt(
                        Box::new(StmtExprStmt(TypedStmtExpr(
                            Box::new(Assign(TypedExpr(Box::new(FieldVar("a".to_string())), Type::Bool), TypedExpr(
                                    Box::new(Unary(
                                        "!".to_string(),
                                        Box::new(TypedExpr(
                                            Box::new(StmtExprExpr(Box::new(TypedStmtExpr(
                                                Box::new(Assign(TypedExpr(Box::new(FieldVar("b".to_string())), Type::Bool), TypedExpr(
                                                        Box::new(Binary(
                                                            "==".to_string(),
                                                            Box::new(TypedExpr(
                                                                Box::new(FieldVar("c".to_string())),
                                                                Type::Bool,
                                                            )),
                                                            Box::new(TypedExpr(
                                                                Box::new(Expr::Bool(true)),
                                                                Type::Bool,
                                                            )),
                                                        )),
                                                        Type::Bool,
                                                    ))),
                                                Type::Bool,
                                            )))),
                                            Type::Bool,
                                        )),
                                    )),
                                    Type::Bool,
                                ))),
                            Type::Bool,
                        ))),
                        Type::Bool,
                    ),
                    TypedStmt(
                        Box::new(If(
                            TypedExpr(Box::new(FieldVar("a".to_string())), Type::Bool),
                            Box::new(TypedStmt(
                                Box::new(Return(TypedExpr(
                                    Box::new(FieldVar("z".to_string())),
                                    Type::Int,
                                ))),
                                Type::Int,
                            )),
                            Some(Box::new(TypedStmt(
                                Box::new(Return(TypedExpr(
                                    Box::new(LocalVar("k".to_string())),
                                    Type::Int,
                                ))),
                                Type::Int,
                            ))),
                        )),
                        Type::Int,
                    ),
                ])),
                Type::Int,
            ),
        }],
    }
}

#[test]
fn wonky_assignments_class_test_typechecker() {
    let class = wonky_assignments_class();
    typechecker_typed_test(&tast_to_ast(&class), &class);
}

#[test]
fn wonky_assignments_class_test_parser() {
    let class = wonky_assignments_class();
    parser_test(&tast_to_ast(&class), "class WonkyAssignments {
    int x;
    int y = 3;
    int z;
    boolean a = false;
    boolean b = true;
    boolean c;

    int f(int newX) {
        c = (x = newX) > y;
        int i;
        int j = z = x;
        int k = -1;
        a = !(b = c == true);
        if (a)
            return z;
        else
            return k;
    }
}
");
}

#[test]
fn wonky_assignments_class_test_codegen() {
    let class = wonky_assignments_class();
    codegen_test(&class, "WonkyAssignments");
}

fn arithmetic_methods() -> Class {
    Class {
    name: "ArithmeticMethods".to_string(),
    fields: vec![
        FieldDecl {
            field_type: Type::Int,
            name: "x".to_string(),
            val: Some(Expr::Integer(69)),
        },
        FieldDecl {
            field_type: Type::Int,
            name: "y".to_string(),
            val: Some(Expr::Integer(420)),
        },
    ],
    methods: vec![
        MethodDecl {
            ret_type: Type::Int,
            name: "addX".to_string(),
            params: vec![(Type::Int, "a".to_string())],
            body: TypedStmt(
                Box::new(Block(vec![TypedStmt(
                    Box::new(Return(TypedExpr(
                        Box::new(Binary(
                            "+".to_string(),
                            Box::new(TypedExpr(
                                Box::new(LocalOrFieldVar("x".to_string())),
                                Type::Int,
                            )),
                            Box::new(TypedExpr(
                                Box::new(LocalOrFieldVar("a".to_string())),
                                Type::Int,
                            )),
                        )),
                        Type::Int,
                    ))),
                    Type::Int,
                )])),
                Type::Int,
            ),
        },
        MethodDecl {
            ret_type: Type::Int,
            name: "addY".to_string(),
            params: vec![(Type::Int, "a".to_string())],
            body: TypedStmt(
                Box::new(Block(vec![TypedStmt(
                    Box::new(Return(TypedExpr(
                        Box::new(Binary(
                            "+".to_string(),
                            Box::new(TypedExpr(
                                Box::new(LocalOrFieldVar("y".to_string())),
                                Type::Int,
                            )),
                            Box::new(TypedExpr(
                                Box::new(LocalOrFieldVar("a".to_string())),
                                Type::Int,
                            )),
                        )),
                        Type::Int,
                    ))),
                    Type::Int,
                )])),
                Type::Int,
            ),
        },
        MethodDecl {
            ret_type: Type::Int,
            name: "complexMath".to_string(),
            params: vec![(Type::Int, "a".to_string()), (Type::Int, "b".to_string())],
            body: TypedStmt(
                Box::new(Block(vec![
                    TypedStmt(
                        Box::new(StmtExprStmt(TypedStmtExpr(
                            Box::new(Assign(TypedExpr(Box::new(LocalVar("a".to_string())), Type::Int), TypedExpr(
                                    Box::new(Binary(
                                        "/".to_string(),
                                        Box::new(TypedExpr(
                                            Box::new(Binary(
                                                "*".to_string(),
                                                Box::new(TypedExpr(
                                                    Box::new(LocalOrFieldVar("y".to_string())),
                                                    Type::Int,
                                                )),
                                                Box::new(TypedExpr(
                                                    Box::new(Binary(
                                                        "+".to_string(),
                                                        Box::new(TypedExpr(
                                                            Box::new(LocalOrFieldVar(
                                                                "a".to_string(),
                                                            )),
                                                            Type::Int,
                                                        )),
                                                        Box::new(TypedExpr(
                                                            Box::new(LocalOrFieldVar(
                                                                "b".to_string(),
                                                            )),
                                                            Type::Int,
                                                        )),
                                                    )),
                                                    Type::Int,
                                                )),
                                            )),
                                            Type::Int,
                                        )),
                                        Box::new(TypedExpr(
                                            Box::new(LocalOrFieldVar("x".to_string())),
                                            Type::Int,
                                        )),
                                    )),
                                    Type::Int,
                                ))),
                            Type::Int,
                        ))),
                        Type::Int,
                    ),
                    TypedStmt(
                        Box::new(StmtExprStmt(TypedStmtExpr(
                            Box::new(Assign(TypedExpr(Box::new(LocalVar("b".to_string())), Type::Int), TypedExpr(
                                    Box::new(Binary(
                                        "+".to_string(),
                                        Box::new(TypedExpr(
                                            Box::new(LocalOrFieldVar("a".to_string())),
                                            Type::Int,
                                        )),
                                        Box::new(TypedExpr(
                                            Box::new(Unary(
                                                "-".to_string(),
                                                Box::new(TypedExpr(
                                                    Box::new(LocalOrFieldVar("b".to_string())),
                                                    Type::Int,
                                                )),
                                            )),
                                            Type::Int,
                                        )),
                                    )),
                                    Type::Int,
                                ))),
                            Type::Int,
                        ))),
                        Type::Int,
                    ),
                    TypedStmt(
                        Box::new(StmtExprStmt(TypedStmtExpr(
                            Box::new(Assign(TypedExpr(Box::new(LocalVar("a".to_string())), Type::Int), TypedExpr(
                                    Box::new(Binary(
                                        "+".to_string(),
                                        Box::new(TypedExpr(
                                            Box::new(LocalOrFieldVar("x".to_string())),
                                            Type::Int,
                                        )),
                                        Box::new(TypedExpr(
                                            Box::new(Binary(
                                                "*".to_string(),
                                                Box::new(TypedExpr(
                                                    Box::new(LocalOrFieldVar("b".to_string())),
                                                    Type::Int,
                                                )),
                                                Box::new(TypedExpr(
                                                    Box::new(LocalOrFieldVar("a".to_string())),
                                                    Type::Int,
                                                )),
                                            )),
                                            Type::Int,
                                        )),
                                    )),
                                    Type::Int,
                                ))),
                            Type::Int,
                        ))),
                        Type::Int,
                    ),
                    TypedStmt(
                        Box::new(Return(TypedExpr(
                            Box::new(Binary(
                                "*".to_string(),
                                Box::new(TypedExpr(
                                    Box::new(LocalOrFieldVar("x".to_string())),
                                    Type::Int,
                                )),
                                Box::new(TypedExpr(
                                    Box::new(LocalOrFieldVar("a".to_string())),
                                    Type::Int,
                                )),
                            )),
                            Type::Int,
                        ))),
                        Type::Int,
                    ),
                ])),
                Type::Int,
            ),
        },
    ],
}
}

#[test]
fn arithmetic_methods_class() {
    let class = arithmetic_methods();
    single_class_test(&tast_to_ast(&class), Some(&class), "ArithmeticMethods");
}

fn bool_alg() -> Class {
    Class {
    name: "BoolAlg".to_string(),
    fields: vec![],
    methods: vec![MethodDecl {
        ret_type: Type::Bool,
        name: "f".to_string(),
        params: vec![
            (Type::Bool, "a".to_string()),
            (Type::Bool, "b".to_string()),
            (Type::Bool, "c".to_string()),
        ],
        body: TypedStmt(
            Box::new(Block(vec![TypedStmt(
                Box::new(Return(TypedExpr(
                    Box::new(Binary(
                        "||".to_string(),
                        Box::new(TypedExpr(
                            Box::new(Binary(
                                "&&".to_string(),
                                Box::new(TypedExpr(
                                    Box::new(Binary(
                                        "&&".to_string(),
                                        Box::new(TypedExpr(
                                            Box::new(LocalOrFieldVar("a".to_string())),
                                            Type::Bool,
                                        )),
                                        Box::new(TypedExpr(
                                            Box::new(LocalOrFieldVar("b".to_string())),
                                            Type::Bool,
                                        )),
                                    )),
                                    Type::Bool,
                                )),
                                Box::new(TypedExpr(
                                    Box::new(LocalOrFieldVar("c".to_string())),
                                    Type::Bool,
                                )),
                            )),
                            Type::Bool,
                        )),
                        Box::new(TypedExpr(
                            Box::new(LocalOrFieldVar("c".to_string())),
                            Type::Bool,
                        )),
                    )),
                    Type::Bool,
                ))),
                Type::Bool,
            )])),
            Type::Bool,
        ),
    }],
}
}

#[test]
fn bool_alg_class() {
    let class = bool_alg();
    single_class_test(&tast_to_ast(&class), Some(&class), "BoolAlg");
}
