use rustyj::codegen::constant_pool::{Constant, ConstantPool};
use rustyj::codegen::instruction::Instruction;
use rustyj::codegen::ir::{generate_code_expr, generate_code_stmt, generate_code_stmt_expr, LocalVarPool};
use rustyj::codegen::stack::{StackMapFrame, StackMapTable, StackSize};
use rustyj::parser::parser::parse_programm;
use rustyj::typechecker::typechecker::TypeChecker;
use rustyj::types::{Expr, Stmt, StmtExpr, Type};

fn lit(i: i32) -> Expr {
    Expr::TypedExpr(Box::new(Expr::Integer(i)), Type::Int)
}

fn expr_code(e: &Expr) -> (Vec<Instruction>, StackSize, ConstantPool) {
    let mut stack = StackSize::new();
    let mut cp = ConstantPool::new("C".to_string());
    let mut lvp = LocalVarPool(vec![]);
    let code = generate_code_expr(e, &mut stack, &mut cp, &mut lvp, "C").unwrap();
    (code, stack, cp)
}

/// Runs straight-line integer code with forward jumps on an operand stack.
fn run(code: &[Instruction]) -> Vec<i32> {
    let mut stack: Vec<i32> = vec![];
    let mut pc: usize = 0;
    while pc < code.len() {
        let mut next = pc + 1;
        match &code[pc] {
            Instruction::bipush(b) => stack.push(*b as i32),
            Instruction::sipush(s) => stack.push(*s as i32),
            Instruction::iadd | Instruction::isub | Instruction::imul => {
                let b = stack.pop().unwrap();
                let a = stack.pop().unwrap();
                stack.push(match &code[pc] {
                    Instruction::iadd => a.wrapping_add(b),
                    Instruction::isub => a.wrapping_sub(b),
                    _ => a.wrapping_mul(b),
                });
            }
            Instruction::ineg => {
                let a = stack.pop().unwrap();
                stack.push(a.wrapping_neg());
            }
            Instruction::ifeq(_, d) | Instruction::ifne(_, d) | Instruction::iflt(_, d) | Instruction::ifge(_, d) => {
                let v = stack.pop().unwrap();
                let taken = match &code[pc] {
                    Instruction::ifeq(_, _) => v == 0,
                    Instruction::ifne(_, _) => v != 0,
                    Instruction::iflt(_, _) => v < 0,
                    _ => v >= 0,
                };
                if taken {
                    next = (pc as i64 + *d as i64) as usize;
                }
            }
            Instruction::goto(_, d) => next = (pc as i64 + *d as i64) as usize,
            other => panic!("not run here: {:?}", other),
        }
        pc = next;
    }
    stack
}

fn binary(op: &str, l: Expr, r: Expr, t: Type) -> Expr {
    Expr::TypedExpr(Box::new(Expr::Binary(op.to_string(), Box::new(l), Box::new(r))), t)
}

fn boolean(b: bool) -> Expr {
    Expr::TypedExpr(Box::new(Expr::Bool(b)), Type::Bool)
}

#[test]
fn short_range_literals_use_sipush() {
    let (code, stack, cp) = expr_code(&lit(32767));
    assert_eq!(code, vec![Instruction::sipush(32767)]);
    assert_eq!(cp.count(), ConstantPool::new("C".to_string()).count());
    assert_eq!((stack.current, stack.max), (1, 1));
    let (code, _, _) = expr_code(&lit(-32768));
    assert_eq!(code, vec![Instruction::sipush(-32768)]);
    let (code, _, cp) = expr_code(&lit(32768));
    let idx = cp.index_of(&Constant::Integer(32768)).unwrap();
    assert_eq!(code, vec![Instruction::ldc(idx as u8)]);
}

#[test]
fn comparisons_compute_java_results() {
    let ops = ["<", "<=", ">", ">=", "==", "!="];
    let pairs = [(3, 3), (2, 3), (3, 2), (-5, 7), (7, -5)];
    for op in ops.iter() {
        for (a, b) in pairs.iter() {
            let (code, stack, _) = expr_code(&binary(op, lit(*a), lit(*b), Type::Bool));
            let expected = match *op {
                "<" => a < b,
                "<=" => a <= b,
                ">" => a > b,
                ">=" => a >= b,
                "==" => a == b,
                _ => a != b,
            };
            assert_eq!(run(&code), vec![expected as i32], "{} {} {}", a, op, b);
            assert_eq!(stack.current, 1);
        }
    }
}

#[test]
fn greater_than_code() {
    let (code, _, _) = expr_code(&binary(">", lit(3), lit(3), Type::Bool));
    assert_eq!(
        code,
        vec![
            Instruction::bipush(3),
            Instruction::bipush(3),
            Instruction::isub,
            Instruction::bipush(1),
            Instruction::isub,
            Instruction::ifge(8, 3),
            Instruction::bipush(0),
            Instruction::goto(5, 2),
            Instruction::bipush(1),
        ]
    );
    assert_eq!(run(&code), vec![0]);
}

#[test]
fn logical_operators_compute_java_results() {
    for a in [false, true].iter() {
        for b in [false, true].iter() {
            let (code, _, _) = expr_code(&binary("&&", boolean(*a), boolean(*b), Type::Bool));
            assert_eq!(run(&code), vec![(*a && *b) as i32]);
            let (code, _, _) = expr_code(&binary("||", boolean(*a), boolean(*b), Type::Bool));
            assert_eq!(run(&code), vec![(*a || *b) as i32]);
        }
    }
}

#[test]
fn arithmetic_and_negation() {
    let e = binary("-", lit(2), binary("*", lit(3), lit(4), Type::Int), Type::Int);
    let (code, stack, _) = expr_code(&e);
    assert_eq!(run(&code), vec![-10]);
    assert_eq!((stack.current, stack.max), (1, 3));
    let neg = Expr::TypedExpr(Box::new(Expr::Unary("-".to_string(), Box::new(lit(5)))), Type::Int);
    assert_eq!(run(&expr_code(&neg).0), vec![-5]);
    let not = Expr::TypedExpr(Box::new(Expr::Unary("!".to_string(), Box::new(boolean(false)))), Type::Bool);
    assert_eq!(run(&expr_code(&not).0), vec![1]);
}

#[test]
fn field_read_leaves_one_value() {
    let e = Expr::TypedExpr(Box::new(Expr::FieldVar("x".to_string())), Type::Int);
    let (code, stack, _) = expr_code(&e);
    assert_eq!(code.len(), 2);
    assert_eq!(code[0], Instruction::aload_0);
    assert_eq!((stack.current, stack.max), (1, 1));
}

#[test]
fn new_leaves_one_reference() {
    let mut stack = StackSize::new();
    let mut cp = ConstantPool::new("C".to_string());
    let mut lvp = LocalVarPool(vec![]);
    let se = StmtExpr::TypedStmtExpr(
        Box::new(StmtExpr::New(Type::Class("D".to_string()), vec![])),
        Type::Class("D".to_string()),
    );
    let code = generate_code_stmt_expr(&se, &mut stack, &mut cp, &mut lvp, "C").unwrap();
    assert_eq!(code.len(), 3);
    assert_eq!(code[1], Instruction::dup);
    assert_eq!((stack.current, stack.max), (1, 2));
}

#[test]
fn call_descriptor_concatenates_arguments() {
    let mut stack = StackSize::new();
    let mut cp = ConstantPool::new("C".to_string());
    let mut lvp = LocalVarPool(vec![]);
    let se = StmtExpr::TypedStmtExpr(
        Box::new(StmtExpr::MethodCall(
            Expr::TypedExpr(Box::new(Expr::This), Type::Class("C".to_string())),
            "add".to_string(),
            vec![lit(1), lit(2)],
        )),
        Type::Int,
    );
    generate_code_stmt_expr(&se, &mut stack, &mut cp, &mut lvp, "C").unwrap();
    assert_eq!((stack.current, stack.max), (1, 3));
    assert!(cp.index_of(&Constant::Utf8("(II)I".to_string())).is_some());
    assert!(cp.index_of(&Constant::Utf8("(I,I)I".to_string())).is_none());
}

#[test]
fn while_exit_lands_past_the_back_jump() {
    let mut stack = StackSize::new();
    let mut cp = ConstantPool::new("C".to_string());
    let mut lvp = LocalVarPool(vec![]);
    let body = Stmt::TypedStmt(Box::new(Stmt::Block(vec![])), Type::Void);
    let s = Stmt::TypedStmt(Box::new(Stmt::While(boolean(false), Box::new(body))), Type::Void);
    let code = generate_code_stmt(&s, &mut stack, &mut cp, &mut lvp, "C", false).unwrap();
    assert_eq!(code, vec![Instruction::bipush(0), Instruction::ifeq(6, 2), Instruction::goto(-5, -2)]);
}

#[test]
fn if_else_keeps_the_jump_over_the_else_branch() {
    let mut stack = StackSize::new();
    let mut cp = ConstantPool::new("C".to_string());
    let mut lvp = LocalVarPool(vec!["x".to_string()]);
    let assign = |v: i32| {
        Stmt::TypedStmt(
            Box::new(Stmt::StmtExprStmt(StmtExpr::TypedStmtExpr(
                Box::new(StmtExpr::Assign(
                    Expr::TypedExpr(Box::new(Expr::LocalVar("x".to_string())), Type::Int),
                    lit(v),
                )),
                Type::Int,
            ))),
            Type::Int,
        )
    };
    let s = Stmt::TypedStmt(
        Box::new(Stmt::If(boolean(true), Box::new(assign(1)), Some(Box::new(assign(2))))),
        Type::Int,
    );
    let code = generate_code_stmt(&s, &mut stack, &mut cp, &mut lvp, "C", true).unwrap();
    assert!(code.iter().any(|i| matches!(i, Instruction::goto(_, _))));
}

#[test]
fn pool_index_zero_is_no_entry() {
    let cp = ConstantPool::new("C".to_string());
    assert!(cp.get(0).is_none());
    assert!(cp.get(1).is_some());
}

#[test]
fn void_descriptor() {
    assert_eq!(Type::Void.to_ir_string(), "V");
}

#[test]
fn chop_frame_bytes() {
    assert_eq!(StackMapFrame::CHOP(249, 3).as_bytes().unwrap(), vec![249, 0, 3]);
}

/// Runs code with local variable slots until it returns.
fn run_to_return(code: &[Instruction], slots: &mut Vec<i32>) -> Option<i32> {
    let mut stack: Vec<i32> = vec![];
    let mut pc: usize = 0;
    while pc < code.len() {
        let mut next = pc + 1;
        match &code[pc] {
            Instruction::bipush(b) => stack.push(*b as i32),
            Instruction::sipush(v) => stack.push(*v as i32),
            Instruction::iload(k) => stack.push(slots[*k as usize]),
            Instruction::istore(k) => {
                let v = stack.pop().unwrap();
                slots[*k as usize] = v;
            }
            Instruction::iadd | Instruction::isub | Instruction::imul => {
                let b = stack.pop().unwrap();
                let a = stack.pop().unwrap();
                stack.push(match &code[pc] {
                    Instruction::iadd => a.wrapping_add(b),
                    Instruction::isub => a.wrapping_sub(b),
                    _ => a.wrapping_mul(b),
                });
            }
            Instruction::ireturn => return stack.pop(),
            Instruction::ifeq(_, d) | Instruction::ifne(_, d) | Instruction::iflt(_, d) | Instruction::ifge(_, d) => {
                let v = stack.pop().unwrap();
                let taken = match &code[pc] {
                    Instruction::ifeq(_, _) => v == 0,
                    Instruction::ifne(_, _) => v != 0,
                    Instruction::iflt(_, _) => v < 0,
                    _ => v >= 0,
                };
                if taken {
                    next = (pc as i64 + *d as i64) as usize;
                }
            }
            Instruction::goto(_, d) => next = (pc as i64 + *d as i64) as usize,
            other => panic!("not run here: {:?}", other),
        }
        pc = next;
    }
    None
}

fn method_code(src: &str) -> Vec<Instruction> {
    let program = parse_programm(src).unwrap();
    let mut tc = TypeChecker::new(program).unwrap();
    tc.check_program().unwrap();
    let m = &tc.typed_classes[0].methods[0];
    let mut lvp = LocalVarPool(m.params.iter().map(|p| p.1.clone()).collect());
    generate_code_stmt(&m.body, &mut StackSize::new(), &mut ConstantPool::new("A".to_string()), &mut lvp, "A", true)
        .unwrap()
}

#[test]
fn statement_code_runs_as_java() {
    let code = method_code(
        "class A { int f(int p) { int a; a = p * 2; if (a > 5) { a = a - 1; } else { a = 0; } return a; } }",
    );
    assert_eq!(run_to_return(&code, &mut vec![0, 3, 0]), Some(5));
    assert_eq!(run_to_return(&code, &mut vec![0, 2, 0]), Some(0));
}

#[test]
fn nested_return_in_then_branch_skips_the_else_branch() {
    let code = method_code(
        "class A { int f(boolean c, boolean d) { int a; a = 1; if (c) { if (d) { return 7; } } else { a = 2; } return a; } }",
    );
    assert_eq!(run_to_return(&code, &mut vec![0, 1, 1, 0]), Some(7));
    assert_eq!(run_to_return(&code, &mut vec![0, 1, 0, 0]), Some(1));
    assert_eq!(run_to_return(&code, &mut vec![0, 0, 0, 0]), Some(2));
}

#[test]
fn char_literals_push_their_code() {
    let (code, _, _) = expr_code(&Expr::TypedExpr(Box::new(Expr::Char('a')), Type::Char));
    assert_eq!(code, vec![Instruction::bipush(97)]);
    let (code, _, _) = expr_code(&Expr::TypedExpr(Box::new(Expr::Char('é')), Type::Char));
    assert_eq!(code, vec![Instruction::sipush(233)]);
    assert_eq!(run(&code), vec![233]);
}

#[test]
fn stack_map_has_one_frame_per_jump_target() {
    let code = vec![
        Instruction::iload(1),
        Instruction::ifeq(6, 3),
        Instruction::bipush(1),
        Instruction::ireturn,
        Instruction::bipush(0),
        Instruction::ireturn,
    ];
    let mut cp = ConstantPool::new("C".to_string());
    let table = StackMapTable::new(&code, &[(Type::Int, "p".to_string())], &mut cp).unwrap();
    assert_eq!(table.frames.len(), 1);
    assert!(matches!(table.frames[0], StackMapFrame::SAME(8)));
}

#[test]
fn loop_code_runs_as_java() {
    let code = method_code(
        "class A { int f(int n) { int s; s = 0; while (n > 0) { s = s + n; n = n - 1; } return s; } }",
    );
    assert_eq!(run_to_return(&code, &mut vec![0, 4, 0]), Some(10));
    assert_eq!(run_to_return(&code, &mut vec![0, 0, 0]), Some(0));
}
