#![allow(non_camel_case_types)]

use vstd::prelude::*;
use crate::typechecker::spec::always_returns;
use crate::types::{ExprV, StmtExprV, StmtV, TypeV, BinaryOp, UnaryOp, binary_op_of, unary_op_of, ir_string, has_ir_string};
use super::constant_pool::{ConstantV, NameAndTypeV, add_index, pool_add, has_room, init_name, init_descriptor};
use super::instruction::{Instruction, instrs_len};

verus! {

/// What code generation threads through a method body: the constant pool,
/// the operand stack depth (current and largest) and the local variables.
pub struct GenState {
    pub pool: Seq<ConstantV>,
    pub cur: u16,
    pub max: u16,
    pub locals: Seq<Seq<char>>,
}

/// `Some` of a value that fits a signed 16-bit operand; `None` where the
/// arithmetic that produced it overflows.
pub open spec fn chk(x: int) -> Option<i16> {
    if i16::MIN <= x <= i16::MAX {
        Some(x as i16)
    } else {
        None
    }
}

/// The byte length of a sequence of instructions as a signed jump operand;
/// `None` where the length does not fit one.
pub open spec fn len_i16(s: Seq<Instruction>) -> Option<i16> {
    if instrs_len(s) <= i16::MAX {
        Some(instrs_len(s) as i16)
    } else {
        None
    }
}

/// The number of instructions as a signed jump operand.
pub open spec fn count_i16(s: Seq<Instruction>) -> i16 {
    s.len() as i16
}

pub open spec fn st_inc(st: GenState, k: int) -> Option<GenState> {
    if st.cur + k > u16::MAX {
        None
    } else {
        let c = (st.cur + k) as u16;
        Some(GenState { pool: st.pool, cur: c, max: if c > st.max { c } else { st.max }, locals: st.locals })
    }
}

pub open spec fn st_dec(st: GenState, k: int) -> Option<GenState> {
    if st.cur < k {
        None
    } else {
        Some(GenState { pool: st.pool, cur: (st.cur - k) as u16, max: st.max, locals: st.locals })
    }
}

pub open spec fn st_set(st: GenState, v: u16) -> GenState {
    GenState { pool: st.pool, cur: v, max: if v > st.max { v } else { st.max }, locals: st.locals }
}

pub open spec fn st_add(st: GenState, c: ConstantV) -> Option<(u16, GenState)> {
    if has_room(st.pool) {
        Some(
            (
                add_index(st.pool, c),
                GenState { pool: pool_add(st.pool, c), cur: st.cur, max: st.max, locals: st.locals },
            ),
        )
    } else {
        None
    }
}

/// The position of the first local variable named `n`, or -1.
pub open spec fn name_index(s: Seq<Seq<char>>, n: Seq<char>) -> int
    decreases s.len(),
{
    if s.len() == 0 {
        -1
    } else {
        let f = name_index(s.drop_last(), n);
        if f >= 0 {
            f
        } else if s.last() == n {
            s.len() - 1
        } else {
            -1
        }
    }
}

/// The slot of a local variable: slot 0 holds `this`, so the variable at
/// position `i` lives in slot `i + 1`. `None` where the name is unknown or
/// the slot does not fit in a byte.
pub open spec fn local_index(s: Seq<Seq<char>>, n: Seq<char>) -> Option<u8> {
    let f = name_index(s, n);
    if f < 0 || f >= 255 {
        None
    } else {
        Some((f + 1) as u8)
    }
}

/// The field reference of field `name` with type `ty` in class `cls`.
pub open spec fn field_ref(cls: Seq<char>, name: Seq<char>, ty: TypeV) -> ConstantV {
    ConstantV::FieldRef(cls, NameAndTypeV { name, descriptor: ir_string(ty) })
}

/// One instruction that pushes `k` values.
pub open spec fn emit(st: GenState, i: Instruction, k: int) -> Option<(Seq<Instruction>, GenState)> {
    match st_inc(st, k) {
        Some(s2) => Some((seq![i], s2)),
        None => None,
    }
}

/// The instructions that produce a boolean 0 or 1 from a conditional jump.
pub open spec fn flag_tail(jump: Instruction, first: i8, second: i8) -> Seq<Instruction> {
    seq![jump, Instruction::bipush(first), Instruction::goto(5, 2), Instruction::bipush(second)]
}

/// The code of a binary operation, given the code of its operands. A
/// comparison subtracts the operands and tests the difference: `a > b` as
/// `a - b - 1 >= 0`, `a <= b` as `a - b - 1 < 0`; it leaves 1 where the
/// comparison holds and 0 where not.
pub open spec fn binop_code(op: BinaryOp, lc: Seq<Instruction>, rc: Seq<Instruction>) -> Option<
    Seq<Instruction>,
> {
    match op {
        BinaryOp::Add => Some(lc + rc + seq![Instruction::iadd]),
        BinaryOp::Sub => Some(lc + rc + seq![Instruction::isub]),
        BinaryOp::Mul => Some(lc + rc + seq![Instruction::imul]),
        BinaryOp::Div => Some(lc + rc + seq![Instruction::idiv]),
        BinaryOp::Mod => Some(lc + rc + seq![Instruction::irem]),
        BinaryOp::And => match len_i16(rc) {
            Some(rl) => match (chk(11 + rl), chk(4 + count_i16(rc))) {
                (Some(a), Some(b)) => Some(
                    lc + seq![Instruction::ifeq(a, b)] + rc + flag_tail(Instruction::ifeq(8, 3), 1, 0),
                ),
                _ => None,
            },
            None => None,
        },
        BinaryOp::Or => match len_i16(rc) {
            Some(rl) => match (chk(11 + rl), chk(4 + count_i16(rc))) {
                (Some(a), Some(b)) => Some(
                    lc + seq![Instruction::ifne(a, b)] + rc + flag_tail(Instruction::ifne(8, 3), 0, 1),
                ),
                _ => None,
            },
            None => None,
        },
        BinaryOp::Le => Some(
            lc + rc + seq![Instruction::isub, Instruction::bipush(1), Instruction::isub]
                + flag_tail(Instruction::iflt(8, 3), 0, 1),
        ),
        BinaryOp::Ge => Some(lc + rc + seq![Instruction::isub] + flag_tail(Instruction::ifge(8, 3), 0, 1)),
        BinaryOp::Lt => Some(lc + rc + seq![Instruction::isub] + flag_tail(Instruction::iflt(8, 3), 0, 1)),
        BinaryOp::Gt => Some(
            lc + rc + seq![Instruction::isub, Instruction::bipush(1), Instruction::isub]
                + flag_tail(Instruction::ifge(8, 3), 0, 1),
        ),
        BinaryOp::Eq => Some(lc + rc + seq![Instruction::isub] + flag_tail(Instruction::ifeq(8, 3), 0, 1)),
        BinaryOp::Ne => Some(lc + rc + seq![Instruction::isub] + flag_tail(Instruction::ifeq(8, 3), 1, 0)),
    }
}

/// The code of a unary operation, given the code of its operand.
pub open spec fn unop_code(op: UnaryOp, c: Seq<Instruction>) -> Seq<Instruction> {
    match op {
        UnaryOp::Not => c + flag_tail(Instruction::ifne(8, 3), 1, 0),
        UnaryOp::Neg => c + seq![Instruction::ineg],
        UnaryOp::Pos => c,
    }
}

/// The code of `this.f` where the receiver of `f` is itself an expression
/// `obj` with type `t2`; the field has type `ty`.
pub open spec fn gen_inst_var(
    obj: ExprV,
    t2: TypeV,
    name: Seq<char>,
    ty: TypeV,
    st: GenState,
    cls: Seq<char>,
) -> Option<(Seq<Instruction>, GenState)> {
    let first = match obj {
        ExprV::This => match st_inc(st, 1) {
            Some(s1) => Some((seq![Instruction::aload(0)], s1)),
            None => None,
        },
        ExprV::LocalVar(n) => match local_index(st.locals, n) {
            Some(idx) => if has_ir_string(t2) {
                match st_add(st, field_ref(cls, n, t2)) {
                    Some((f, s1)) => match st_inc(s1, 1) {
                        Some(s2) => Some((seq![Instruction::aload(idx), Instruction::getfield(f)], s2)),
                        None => None,
                    },
                    None => None,
                }
            } else {
                None
            },
            None => None,
        },
        ExprV::FieldVar(n) => if has_ir_string(t2) {
            match st_add(st, field_ref(cls, n, t2)) {
                Some((f, s1)) => match st_inc(s1, 1) {
                    Some(s2) => Some((seq![Instruction::aload_0, Instruction::getfield(f)], s2)),
                    None => None,
                },
                None => None,
            }
        } else {
            None
        },
        _ => None,
    };
    match first {
        Some((c1, s1)) => if has_ir_string(ty) {
            match st_add(s1, field_ref(cls, name, ty)) {
                Some((f, s2)) => Some((c1.push(Instruction::getfield(f)), s2)),
                None => None,
            }
        } else {
            None
        },
        None => None,
    }
}

/// The code of an integer literal: a push instruction where the value fits
/// one, else a load from the constant pool, whose one-byte index must reach
/// the constant.
pub open spec fn gen_int(i: i32, st: GenState) -> Option<(Seq<Instruction>, GenState)> {
    if -128 <= i && i <= 127 {
        emit(st, Instruction::bipush(i as i8), 1)
    } else if -32768 <= i && i <= 32767 {
        emit(st, Instruction::sipush(i as i16), 1)
    } else {
        match st_add(st, ConstantV::Integer(i)) {
            Some((idx, s1)) => if idx <= 255 {
                emit(s1, Instruction::ldc(idx as u8), 1)
            } else {
                None
            },
            None => None,
        }
    }
}

/// The expressions whose code does not contain the code of a subexpression.
pub open spec fn is_leaf(e: ExprV) -> bool {
    !(e is Binary) && !(e is Unary) && !(e is StmtExprExpr)
}

/// The code of a typed expression `inner` of type `ty` that has no
/// subexpression code in it.
pub open spec fn gen_leaf(inner: ExprV, ty: TypeV, st: GenState, cls: Seq<char>) -> Option<
    (Seq<Instruction>, GenState),
> {
    match inner {
        ExprV::Integer(i) => gen_int(i, st),
        ExprV::Bool(b) => emit(st, Instruction::bipush(if b { 1 } else { 0 }), 1),
        ExprV::Char(c) => gen_int((c as u32) as i32, st),
        ExprV::String(s) => match st_add(st, ConstantV::String(s)) {
            Some((idx, s1)) => if idx <= 255 {
                emit(s1, Instruction::ldc(idx as u8), 1)
            } else {
                None
            },
            None => None,
        },
        ExprV::Jnull => emit(st, Instruction::aconst_null, 1),
        ExprV::This => emit(st, Instruction::aload(0), 1),
        ExprV::InstVar(obj, name) => match *obj {
            ExprV::TypedExpr(o, t2) => gen_inst_var(*o, t2, name, ty, st, cls),
            _ => None,
        },
        ExprV::LocalVar(name) => match st_inc(st, 1) {
            Some(s1) => match local_index(s1.locals, name) {
                Some(idx) => match ty {
                    TypeV::Int | TypeV::Bool | TypeV::Char => Some((seq![Instruction::iload(idx)], s1)),
                    TypeV::String | TypeV::Class(_) | TypeV::Null => Some((seq![Instruction::aload(idx)], s1)),
                    _ => None,
                },
                None => None,
            },
            None => None,
        },
        ExprV::FieldVar(name) => if has_ir_string(ty) {
            match st_add(st, field_ref(cls, name, ty)) {
                Some((idx, s1)) => match st_inc(s1, 1) {
                    Some(s2) => Some((seq![Instruction::aload_0, Instruction::getfield(idx)], s2)),
                    None => None,
                },
                None => None,
            }
        } else {
            None
        },
        _ => None,
    }
}

/// The code of a binary operation on the code of its operands.
pub open spec fn gen_binary_tail(
    op: Seq<char>,
    lc: Seq<Instruction>,
    rc: Seq<Instruction>,
    s2: GenState,
) -> Option<(Seq<Instruction>, GenState)> {
    match binary_op_of(op) {
        Some(bop) => match binop_code(bop, lc, rc) {
            Some(code) => match st_dec(s2, 1) {
                Some(s3) => Some((code, s3)),
                None => None,
            },
            None => None,
        },
        None => None,
    }
}

/// The code of a typed expression, and the state after it; `None` where
/// code generation fails.
pub open spec fn gen_expr(e: ExprV, st: GenState, cls: Seq<char>) -> Option<
    (Seq<Instruction>, GenState),
>
    decreases e,
{
    match e {
        ExprV::TypedExpr(inner, ty) => if is_leaf(*inner) {
            gen_leaf(*inner, ty, st, cls)
        } else {
            match *inner {
                ExprV::Binary(op, l, r) => match gen_expr(*l, st, cls) {
                    Some((lc, s1)) => match gen_expr(*r, s1, cls) {
                        Some((rc, s2)) => gen_binary_tail(op, lc, rc, s2),
                        None => None,
                    },
                    None => None,
                },
                ExprV::Unary(op, x) => match gen_expr(*x, st, cls) {
                    Some((c, s1)) => match unary_op_of(op) {
                        Some(uop) => Some((unop_code(uop, c), s1)),
                        None => None,
                    },
                    None => None,
                },
                ExprV::StmtExprExpr(se) => gen_stmt_expr(*se, st, cls),
                _ => None,
            }
        },
        _ => None,
    }
}

/// The code of a list of expressions, left to right.
pub open spec fn gen_exprs(s: Seq<ExprV>, st: GenState, cls: Seq<char>) -> Option<
    (Seq<Instruction>, GenState),
>
    decreases s,
{
    if s.len() == 0 {
        Some((Seq::empty(), st))
    } else {
        match gen_exprs(s.drop_last(), st, cls) {
            Some((c, s1)) => match gen_expr(s.last(), s1, cls) {
                Some((c2, s2)) => Some((c + c2, s2)),
                None => None,
            },
            None => None,
        }
    }
}

/// The descriptor of one argument: the JVM descriptor of its type.
pub open spec fn arg_desc(a: ExprV) -> Option<Seq<char>> {
    match a {
        ExprV::TypedExpr(_, t) => if has_ir_string(t) {
            Some(ir_string(t))
        } else {
            None
        },
        _ => None,
    }
}

/// The argument descriptors, one after the other.
pub open spec fn args_desc(s: Seq<ExprV>) -> Option<Seq<char>>
    decreases s.len(),
{
    if s.len() == 0 {
        Some(Seq::empty())
    } else if s.len() == 1 {
        arg_desc(s[0])
    } else {
        match (args_desc(s.drop_last()), arg_desc(s.last())) {
            (Some(a), Some(b)) => Some(a + b),
            _ => None,
        }
    }
}

/// The descriptor of a called method: `(` arguments `)` return type.
pub open spec fn call_desc(args: Seq<ExprV>, ret: TypeV) -> Option<Seq<char>> {
    match args_desc(args) {
        Some(a) => if has_ir_string(ret) {
            Some(seq!['('] + a + seq![')'] + ir_string(ret))
        } else {
            None
        },
        None => None,
    }
}

/// The code that stores the value `ec` computed into the variable `var`.
pub open spec fn gen_assign_to(
    var: ExprV,
    ec: Seq<Instruction>,
    s1: GenState,
    cls: Seq<char>,
) -> Option<(Seq<Instruction>, GenState)>
    decreases var,
{
    match var {
        ExprV::TypedExpr(v, t) => match *v {
            ExprV::LocalVar(name) => match local_index(s1.locals, name) {
                Some(idx) => {
                    let store = match t {
                        TypeV::Class(_) | TypeV::String | TypeV::Null => Some(Instruction::astore(idx)),
                        _ => Some(Instruction::istore(idx)),
                    };
                    match store {
                        Some(ins) => match st_dec(s1, 1) {
                            Some(s2) => Some((ec.push(ins), s2)),
                            None => None,
                        },
                        None => None,
                    }
                },
                None => None,
            },
            ExprV::FieldVar(name) => if has_ir_string(t) {
                match st_add(s1, field_ref(cls, name, t)) {
                    Some((idx, s2)) => match st_inc(s2, 1) {
                        Some(s3) => match st_dec(s3, 2) {
                            Some(s4) => match st_inc(s4, 1) {
                                Some(s5) => Some(
                                    (
                                        seq![Instruction::aload_0] + ec + seq![
                                            Instruction::putfield(idx),
                                            Instruction::aload_0,
                                            Instruction::getfield(idx),
                                        ],
                                        s5,
                                    ),
                                ),
                                None => None,
                            },
                            None => None,
                        },
                        None => None,
                    },
                    None => None,
                }
            } else {
                None
            },
            ExprV::InstVar(obj, name) => if has_ir_string(t) {
                match st_add(s1, field_ref(cls, name, t)) {
                    Some((idx, s2)) => match gen_expr(*obj, s2, cls) {
                        Some((oc, s3)) => match st_dec(s3, 2) {
                            Some(s4) => Some((oc + ec.push(Instruction::putfield(idx)), s4)),
                            None => None,
                        },
                        None => None,
                    },
                    None => None,
                }
            } else {
                None
            },
            _ => None,
        },
        _ => None,
    }
}

/// The code of `new ty()`; the arguments are not evaluated. `new` and `dup`
/// push two references, the constructor call takes one: one is left.
pub open spec fn gen_new(ty: TypeV, st: GenState) -> Option<(Seq<Instruction>, GenState)> {
    if has_ir_string(ty) {
        match st_add(st, ConstantV::Class(ir_string(ty))) {
            Some((ci, s1)) => match st_add(
                s1,
                ConstantV::MethodRef(
                    ir_string(ty),
                    NameAndTypeV { name: init_name(), descriptor: init_descriptor() },
                ),
            ) {
                Some((mi, s2)) => match st_inc(s2, 2) {
                    Some(s3) => match st_dec(s3, 1) {
                        Some(s4) => Some(
                            (
                                seq![Instruction::new(ci), Instruction::dup, Instruction::invokespecial(mi)],
                                s4,
                            ),
                        ),
                        None => None,
                    },
                    None => None,
                },
                None => None,
            },
            None => None,
        }
    } else {
        None
    }
}

/// The call itself once the arguments are on the stack: `this`, the
/// arguments and the call; the call takes `this` and the arguments and
/// leaves the result, where the method returns one.
pub open spec fn gen_call_tail(
    name: Seq<char>,
    args: Seq<ExprV>,
    ety: TypeV,
    ac: Seq<Instruction>,
    s1: GenState,
    cls: Seq<char>,
) -> Option<(Seq<Instruction>, GenState)> {
    match call_desc(args, ety) {
        Some(desc) => match st_add(s1, ConstantV::MethodRef(cls, NameAndTypeV { name, descriptor: desc })) {
            Some((mi, s2)) => match st_inc(s2, 1) {
                Some(s3) => match st_dec(s3, args.len() as int + 1) {
                    Some(s4) => {
                        let code = seq![Instruction::aload_0] + ac + seq![Instruction::invokespecial(mi)];
                        if ety is Void {
                            Some((code, s4))
                        } else {
                            match st_inc(s4, 1) {
                                Some(s5) => Some((code, s5)),
                                None => None,
                            }
                        }
                    },
                    None => None,
                },
                None => None,
            },
            None => None,
        },
        None => None,
    }
}

/// The code of a typed statement expression, and the state after it.
pub open spec fn gen_stmt_expr(se: StmtExprV, st: GenState, cls: Seq<char>) -> Option<
    (Seq<Instruction>, GenState),
>
    decreases se,
{
    match se {
        StmtExprV::TypedStmtExpr(inner, ety) => match *inner {
            StmtExprV::Assign(var, expr) => match gen_expr(expr, st, cls) {
                Some((ec, s1)) => gen_assign_to(var, ec, s1, cls),
                None => None,
            },
            StmtExprV::New(ty, _) => gen_new(ty, st),
            StmtExprV::MethodCall(_, name, args) => match gen_exprs(args, st, cls) {
                Some((ac, s1)) => gen_call_tail(name, args, ety, ac, s1, cls),
                None => None,
            },
            _ => None,
        },
        _ => None,
    }
}

/// The code of a `return`: the value, then the return instruction its type
/// calls for.
pub open spec fn gen_return(expr: ExprV, st: GenState, cls: Seq<char>) -> Option<(Seq<Instruction>, GenState)> {
    match expr {
        ExprV::TypedExpr(_, t) => {
            let r = match t {
                TypeV::Int | TypeV::Bool | TypeV::Char => match gen_expr(expr, st, cls) {
                    Some((c, s1)) => Some((c.push(Instruction::ireturn), s1)),
                    None => None,
                },
                TypeV::Void => Some((seq![Instruction::return_void], st)),
                TypeV::String | TypeV::Class(_) => match gen_expr(expr, st, cls) {
                    Some((c, s1)) => Some((c.push(Instruction::areturn), s1)),
                    None => None,
                },
                TypeV::Null => Some((seq![Instruction::aconst_null, Instruction::areturn], st)),
            };
            match r {
                Some((c, s1)) => Some((c, st_set(s1, 0))),
                None => None,
            }
        },
        _ => None,
    }
}

/// The code of a `while` loop from the code of its condition and body: the
/// condition, a jump past the loop where it is false, the body, and a jump
/// back to the condition.
pub open spec fn while_code(cc: Seq<Instruction>, bc: Seq<Instruction>) -> Option<Seq<Instruction>> {
    match (len_i16(cc), len_i16(bc)) {
        (Some(cl), Some(bl)) => match (
            chk(6 + bl),
            chk(count_i16(bc) + 2),
            chk(-3 - bl - cl),
            chk(-count_i16(bc) - 1 - count_i16(cc)),
        ) {
            (Some(a), Some(b), Some(g), Some(h)) => Some(
                cc + seq![Instruction::ifeq(a, b)] + bc + seq![Instruction::goto(g, h)],
            ),
            _ => None,
        },
        _ => None,
    }
}

/// The code of an `if` from the code of its condition and branches: the
/// condition, a jump to the else-branch where it is false, the then-branch
/// followed (where there is an else-branch and the then-branch does not
/// return on every path) by a jump past the else-branch, and the
/// else-branch.
pub open spec fn if_code(
    cc: Seq<Instruction>,
    ic: Seq<Instruction>,
    ec: Seq<Instruction>,
    has_else: bool,
    then_returns: bool,
) -> Option<Seq<Instruction>> {
    let then_code = if has_else && !then_returns {
        match len_i16(ec) {
            Some(el) => match (chk(3 + el), chk(1 + count_i16(ec))) {
                (Some(a), Some(b)) => Some(ic.push(Instruction::goto(a, b))),
                _ => None,
            },
            None => None,
        }
    } else {
        Some(ic)
    };
    match then_code {
        Some(tc) => match len_i16(tc) {
            Some(tl) => match (chk(3 + tl), chk(1 + count_i16(tc))) {
                (Some(a), Some(b)) => Some(cc + seq![Instruction::ifeq(a, b)] + tc + ec),
                _ => None,
            },
            None => None,
        },
        None => None,
    }
}

/// The code of a typed statement, and the state after it. `is_last` says
/// whether nothing follows the statement in the method.
pub open spec fn gen_stmt(s: StmtV, st: GenState, cls: Seq<char>, is_last: bool) -> Option<
    (Seq<Instruction>, GenState),
>
    decreases s, 0nat,
{
    match s {
        StmtV::TypedStmt(inner, _) => match *inner {
            StmtV::Block(stmts) => gen_block(stmts, stmts.len(), st, cls, is_last),
            StmtV::Return(expr) => gen_return(expr, st, cls),
            StmtV::While(c, body) => match gen_expr(c, st, cls) {
                Some((cc, s1)) => match st_dec(s1, 1) {
                    Some(s2) => match gen_stmt(*body, s2, cls, is_last) {
                        Some((bc, s3)) => match while_code(cc, bc) {
                            Some(code) => Some((code, s3)),
                            None => None,
                        },
                        None => None,
                    },
                    None => None,
                },
                None => None,
            },
            StmtV::LocalVarDecl(_, name) => {
                let s1 = GenState { pool: st.pool, cur: st.cur, max: st.max, locals: st.locals.push(name) };
                match st_inc(s1, 1) {
                    Some(s2) => Some((Seq::empty(), s2)),
                    None => None,
                }
            },
            StmtV::If(c, t, e) => match gen_expr(c, st, cls) {
                Some((cc, s1)) => match st_dec(s1, 1) {
                    Some(s2) => match gen_stmt(*t, s2, cls, is_last) {
                        Some((ic, s3)) => {
                            let else_part = match e {
                                Some(eb) => gen_stmt(*eb, s3, cls, is_last),
                                None => Some((Seq::empty(), s3)),
                            };
                            match else_part {
                                Some((ec, s4)) => match if_code(cc, ic, ec, e is Some, always_returns(*t)) {
                                    Some(code) => Some((code, s4)),
                                    None => None,
                                },
                                None => None,
                            }
                        },
                        None => None,
                    },
                    None => None,
                },
                None => None,
            },
            StmtV::StmtExprStmt(se) => gen_stmt_expr(se, st, cls),
            StmtV::TypedStmt(..) => None,
        },
        _ => None,
    }
}

/// The code of the first `k` statements of a block; the last one of the
/// block inherits `is_last`.
pub open spec fn gen_block(
    stmts: Seq<StmtV>,
    k: nat,
    st: GenState,
    cls: Seq<char>,
    is_last: bool,
) -> Option<(Seq<Instruction>, GenState)>
    decreases stmts, k,
{
    if k == 0 || k > stmts.len() {
        Some((Seq::empty(), st))
    } else {
        match gen_block(stmts, (k - 1) as nat, st, cls, is_last) {
            Some((c, s1)) => match gen_stmt(stmts[k - 1], s1, cls, is_last && k == stmts.len()) {
                Some((c2, s2)) => Some((c + c2, s2)),
                None => None,
            },
            None => None,
        }
    }
}

/// The slot of a local variable is one more than the position of its first
/// declaration (slot 0 holds `this`), where that fits in a byte; a name
/// never declared has no slot.
pub proof fn law_local_slots(s: Seq<Seq<char>>, n: Seq<char>, i: int)
    ensures
        0 <= i < s.len() && s[i] == n && (forall|j: int| 0 <= j < i ==> s[j] != n) && i < 255 ==> local_index(s, n)
            == Some((i + 1) as u8),
        (forall|j: int| 0 <= j < s.len() ==> s[j] != n) ==> local_index(s, n) is None,
{
    super::ir::lemma_name_index(s, n);
    if 0 <= i < s.len() && s[i] == n && (forall|j: int| 0 <= j < i ==> s[j] != n) {
        let f = name_index(s, n);
        if f >= 0 && f < i {
            assert(s[f] == n);
        }
    }
}

} // verus!
