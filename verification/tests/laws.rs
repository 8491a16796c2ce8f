use rustyj::codegen::constant_pool::{Constant, ConstantPool, MethodRef, NameAndType};
use rustyj::codegen::dir::generate_dir;
use rustyj::codegen::instruction::Instruction;
use rustyj::codegen::ir::LocalVarPool;
use rustyj::codegen::stack::{sort_unique, StackSize, VerificationStack, VerificationType};
use rustyj::codegen::reljumps::convert_to_absolute_jumps;
use rustyj::parser::parser::parse_programm;
use rustyj::typechecker::typechecker::TypeChecker;
use rustyj::types::{BinaryOp, Class, Expr, FieldDecl, MethodDecl, Stmt, StmtExpr, Type, UnaryOp};

fn utf8(s: &str) -> Constant {
    Constant::Utf8(s.to_string())
}

#[test]
fn pool_add_then_index_of_finds_it() {
    let mut pool = ConstantPool::new("Fib".to_string());
    let before = pool.count();
    let idx = pool.add(utf8("hello"));
    assert_eq!(idx, before);
    assert_eq!(pool.index_of(&utf8("hello")), Some(idx));
    assert!(matches!(pool.get(idx), Some(Constant::Utf8(s)) if s == "hello"));
}

#[test]
fn pool_add_twice_changes_nothing() {
    let mut pool = ConstantPool::new("Fib".to_string());
    let first = pool.add(Constant::Integer(100_000));
    let count = pool.count();
    let second = pool.add(Constant::Integer(100_000));
    assert_eq!(first, second);
    assert_eq!(pool.count(), count);
}

#[test]
fn pool_add_existing_constant_gives_its_index() {
    let mut pool = ConstantPool::new("Fib".to_string());
    // the pool of a new class starts with the constructor of java/lang/Object
    assert_eq!(pool.index_of(&utf8("java/lang/Object")), Some(4));
    assert_eq!(pool.add(utf8("java/lang/Object")), 4);
    assert_eq!(pool.index_of_this_class(), 7);
}

#[test]
fn pool_add_method_ref_adds_its_parts_first() {
    let mut pool = ConstantPool::new("A".to_string());
    let count = pool.count();
    let idx = pool.add(Constant::MethodRef(MethodRef {
        class: "B".to_string(),
        method: NameAndType { name: "f".to_string(), descriptor: "()I".to_string() },
    }));
    // Utf8 "B", Class "B", Utf8 "f", Utf8 "()I", NameAndType, then the MethodRef
    assert_eq!(pool.count(), count + 6);
    assert_eq!(idx, count + 5);
    assert_eq!(pool.index_of(&Constant::Class("B".to_string())), Some(count + 1));
    assert_eq!(pool.index_of(&utf8("B")), Some(count));
    assert_eq!(
        pool.index_of(&Constant::NameAndType(NameAndType {
            name: "f".to_string(),
            descriptor: "()I".to_string()
        })),
        Some(count + 4)
    );
}

#[test]
fn pool_add_keeps_earlier_indices() {
    let mut pool = ConstantPool::new("A".to_string());
    let a = pool.add(utf8("a"));
    let _ = pool.add(Constant::String("b".to_string()));
    let _ = pool.add(utf8("c"));
    assert_eq!(pool.index_of(&utf8("a")), Some(a));
}

#[test]
fn converted_jumps_are_absolute() {
    let code = vec![
        Instruction::iload(1),
        Instruction::reljumpifeq(2),
        Instruction::bipush(1),
        Instruction::relgoto(1),
        Instruction::bipush(0),
        Instruction::ireturn,
    ];
    let out = convert_to_absolute_jumps(code.clone()).unwrap();
    assert_eq!(out.len(), code.len());
    for (before, after) in code.iter().zip(out.iter()) {
        assert!(!after.is_relative());
        if !before.is_relative() {
            assert_eq!(before, after);
        }
    }
}

#[test]
fn relative_jump_past_the_end_is_refused() {
    let code = vec![Instruction::iload(1), Instruction::relgoto(5), Instruction::ireturn];
    assert_eq!(convert_to_absolute_jumps(code), None);
}

#[test]
fn class_file_starts_with_magic_and_version() {
    let program = parse_programm("class A { int x; int f() { return 1; } }").unwrap();
    let mut tc = TypeChecker::new(program).unwrap();
    tc.check_program().unwrap();
    let mut dir = generate_dir(&tc.typed_classes).unwrap();
    let bytes = dir.as_bytes().unwrap();
    assert_eq!(&bytes[0..8], &[0xCA, 0xFE, 0xBA, 0xBE, 0, 0, 0, 52]);
}

#[test]
fn operator_symbols_read_back() {
    let binary = [
        BinaryOp::Add,
        BinaryOp::Sub,
        BinaryOp::Mul,
        BinaryOp::Div,
        BinaryOp::Mod,
        BinaryOp::And,
        BinaryOp::Or,
        BinaryOp::Le,
        BinaryOp::Ge,
        BinaryOp::Lt,
        BinaryOp::Gt,
        BinaryOp::Eq,
        BinaryOp::Ne,
    ];
    for op in binary {
        assert_eq!(BinaryOp::from_op(&op.to_source()), Some(op));
    }
    for op in [UnaryOp::Pos, UnaryOp::Neg, UnaryOp::Not] {
        assert_eq!(UnaryOp::from_op(&op.to_source()), Some(op));
    }
    assert_eq!(BinaryOp::Le.to_source(), "<=");
    assert_eq!(UnaryOp::Not.to_source(), "!");
    assert_eq!(BinaryOp::from_op("^"), None);
    assert_eq!(UnaryOp::from_op("~"), None);
}

#[test]
fn type_names() {
    assert_eq!(Type::Int.to_source(), "int");
    assert_eq!(Type::Bool.to_source(), "boolean");
    assert_eq!(Type::String.to_source(), "String");
    assert_eq!(Type::Class("Foo".to_string()).to_source(), "Foo");
}

#[test]
fn class_summary() {
    let class = parse_programm("class A { int x; char c; boolean f() { return true; } }").unwrap();
    assert_eq!(
        class[0].summary(),
        "class A {\n\tfields: x: int, c: char, \n\tmethods: f: boolean, \n}"
    );
}

fn erase_expr(e: &Expr) -> Expr {
    match e {
        Expr::TypedExpr(x, _) => erase_expr(x),
        Expr::LocalVar(n) | Expr::FieldVar(n) => Expr::LocalOrFieldVar(n.clone()),
        Expr::InstVar(x, n) => Expr::InstVar(Box::new(erase_expr(x)), n.clone()),
        Expr::Unary(s, x) => Expr::Unary(s.clone(), Box::new(erase_expr(x))),
        Expr::Binary(s, l, r) => {
            Expr::Binary(s.clone(), Box::new(erase_expr(l)), Box::new(erase_expr(r)))
        }
        Expr::StmtExprExpr(se) => Expr::StmtExprExpr(Box::new(erase_stmt_expr(se))),
        _ => e.copy_expr(),
    }
}

fn erase_stmt_expr(se: &StmtExpr) -> StmtExpr {
    match se {
        StmtExpr::Assign(v, x) => StmtExpr::Assign(erase_expr(v), erase_expr(x)),
        StmtExpr::New(t, a) => StmtExpr::New(t.copy_type(), a.iter().map(erase_expr).collect()),
        StmtExpr::MethodCall(r, n, a) => {
            StmtExpr::MethodCall(erase_expr(r), n.clone(), a.iter().map(erase_expr).collect())
        }
        StmtExpr::TypedStmtExpr(x, _) => erase_stmt_expr(x),
    }
}

fn erase_stmt(s: &Stmt) -> Stmt {
    match s {
        Stmt::TypedStmt(x, _) => erase_stmt(x),
        Stmt::Block(ss) => Stmt::Block(ss.iter().map(erase_stmt).collect()),
        Stmt::Return(x) => Stmt::Return(erase_expr(x)),
        Stmt::While(c, b) => Stmt::While(erase_expr(c), Box::new(erase_stmt(b))),
        Stmt::If(c, a, b) => Stmt::If(
            erase_expr(c),
            Box::new(erase_stmt(a)),
            b.as_ref().map(|x| Box::new(erase_stmt(x))),
        ),
        Stmt::StmtExprStmt(se) => Stmt::StmtExprStmt(erase_stmt_expr(se)),
        Stmt::LocalVarDecl(..) => s.copy_stmt(),
    }
}

fn erase_class(c: &Class) -> Class {
    Class {
        name: c.name.clone(),
        fields: c.fields.iter().map(FieldDecl::copy_field).collect(),
        methods: c
            .methods
            .iter()
            .map(|m| MethodDecl {
                ret_type: m.ret_type.copy_type(),
                name: m.name.clone(),
                params: m.params.iter().map(|(t, n)| (t.copy_type(), n.clone())).collect(),
                body: erase_stmt(&m.body),
            })
            .collect(),
    }
}

fn check_erases(src: &str) {
    let parsed = parse_programm(src).unwrap();
    let mut tc = TypeChecker::new(vec![parsed[0].copy_class()]).unwrap();
    tc.check_program().unwrap();
    assert_eq!(tc.typed_classes.len(), 1);
    assert_ne!(tc.typed_classes[0], parsed[0]);
    assert_eq!(erase_class(&tc.typed_classes[0]), parsed[0]);
}

#[test]
fn type_checking_only_adds_types() {
    check_erases(
        "class While { int n = 2; int f(int x) { int i = 0; int a = n; \
         while (i < x) { a = a + a; i = i + 1; } return a; } }",
    );
    check_erases("class M { int a() { return 2; } int f() { return this.a() + -3 * 4; } }");
    check_erases(
        "class S { boolean b; void setB(boolean b) { this.b = b; } \
         boolean g(boolean c) { if (c) { return !c; } else { return b == c; } } }",
    );
}

#[test]
fn stack_size_tracks_largest_depth() {
    let mut s = StackSize::new();
    s.inc(3);
    s.dec(2);
    s.inc(1);
    assert_eq!((s.current, s.max), (2, 3));
    s.set(5);
    assert_eq!((s.current, s.max), (5, 5));
    s.set(0);
    assert_eq!((s.current, s.max), (0, 5));
}

#[test]
fn local_var_pool_slots() {
    let mut pool = LocalVarPool(vec![]);
    assert_eq!(pool.add("a".to_string()), 1);
    assert_eq!(pool.add("b".to_string()), 2);
    assert_eq!(pool.get_index(&"a".to_string()), 1);
    assert_eq!(pool.get_index(&"b".to_string()), 2);
}

#[test]
fn sort_unique_sorts_and_drops_repeated_locations() {
    let stack = |location: u16| VerificationStack {
        location,
        locals: vec![VerificationType::INTEGER],
        operands: vec![],
    };
    let mut stacks = vec![stack(9), stack(2), stack(9), stack(5), stack(2)];
    sort_unique(&mut stacks);
    let locations: Vec<u16> = stacks.iter().map(|s| s.location).collect();
    assert_eq!(locations, vec![2, 5, 9]);
}

#[test]
fn program_type_checks_class_by_class() {
    let parsed = parse_programm("class A { int x; } class B { int f() { return 1; } }").unwrap();
    let mut tc = TypeChecker::new(vec![parsed[0].copy_class(), parsed[1].copy_class()]).unwrap();
    tc.check_program().unwrap();
    assert_eq!(tc.typed_classes.len(), 2);
    assert_eq!(erase_class(&tc.typed_classes[0]), parsed[0]);
    assert_eq!(erase_class(&tc.typed_classes[1]), parsed[1]);
}

#[test]
fn each_typed_class_has_its_own_methods() {
    let parsed =
        parse_programm("class A { int g() { return 2; } } class B { int f() { return 1; } }")
            .unwrap();
    let mut tc = TypeChecker::new(vec![parsed[0].copy_class(), parsed[1].copy_class()]).unwrap();
    tc.check_program().unwrap();
    let names: Vec<&str> = tc.typed_classes[1].methods.iter().map(|m| m.name.as_str()).collect();
    assert_eq!(names, vec!["f"]);
    let names: Vec<&str> = tc.typed_classes[0].methods.iter().map(|m| m.name.as_str()).collect();
    assert_eq!(names, vec!["g"]);
}

#[test]
fn pools_built_by_additions_encode_unchanged() {
    let mut pool = ConstantPool::new("A".to_string());
    let n0 = pool.count();
    assert!(pool.as_bytes().is_some());
    assert_eq!(pool.count(), n0);
    pool.add(Constant::MethodRef(MethodRef {
        class: "B".to_string(),
        method: NameAndType { name: "f".to_string(), descriptor: "(II)I".to_string() },
    }));
    pool.add(Constant::Integer(100000));
    let n1 = pool.count();
    assert!(pool.as_bytes().is_some());
    assert_eq!(pool.count(), n1);
}
