#![allow(non_camel_case_types)]

use vstd::prelude::*;
use crate::types::{
    Expr, Stmt, StmtExpr, Type, TypeV, ExprV, StmtExprV, StmtV, BinaryOp, UnaryOp, binary_op_of, unary_op_of,
    ir_string, has_ir_string, lemma_exprs_view, lemma_stmts_view, exprs_view, stmts_view,
};
use super::constant_pool::{
    Constant, ConstantPool, ConstantV, FieldRef, MethodRef, NameAndType, NameAndTypeV,
    string_of, init_name, init_descriptor, lemma_pool_add,
};
use super::instruction::{Instruction, get_instructions_length, instrs_len};
use super::stack::StackSize;
use super::gen_spec::{
    GenState, chk, len_i16, count_i16, st_inc, st_dec, st_set, st_add, name_index, local_index,
    field_ref, emit, flag_tail, binop_code, unop_code, gen_inst_var, gen_expr, gen_exprs, arg_desc,
    args_desc, call_desc, gen_stmt_expr, gen_assign_to, gen_new, gen_call_tail, gen_leaf, is_leaf, gen_binary_tail, gen_int, gen_return, while_code, if_code, gen_stmt, gen_block,
};

verus! {

/// The local variables of the method being generated, in slot order; slot
/// 0, `this`, is not held here.
#[derive(Debug)]
pub struct LocalVarPool(pub Vec<String>);

impl View for LocalVarPool {
    type V = Seq<Seq<char>>;

    open spec fn view(&self) -> Seq<Seq<char>> {
        self.0@.map_values(|s: String| s@)
    }
}

pub proof fn lemma_name_index(s: Seq<Seq<char>>, n: Seq<char>)
    ensures
        -1 <= name_index(s, n) < s.len(),
        name_index(s, n) >= 0 ==> s[name_index(s, n)] == n,
        name_index(s, n) >= 0 ==> forall|j: int| 0 <= j < name_index(s, n) ==> s[j] != n,
        name_index(s, n) < 0 ==> forall|j: int| 0 <= j < s.len() ==> s[j] != n,
    decreases s.len(),
{
    if s.len() > 0 {
        lemma_name_index(s.drop_last(), n);
        assert forall|j: int| 0 <= j < s.len() - 1 implies s[j] == s.drop_last()[j] by {}
    }
}

impl LocalVarPool {
    /// Adds a local variable; returns its number of variables, truncated to
    /// a byte.
    pub fn add(&mut self, name: String) -> (r: u8)
        ensures
            final(self)@ == old(self)@.push(name@),
            r == (final(self)@.len() as u8),
    {
        self.0.push(name);
        assert(self@ =~= old(self)@.push(self.0@.last()@));
        self.0.len() as u8
    }

    /// The slot of the first local variable named `name`; the variable must
    /// have been added, at one of the first 255 positions (slot 0 holds
    /// `this`).
    pub fn get_index(&self, name: &String) -> (r: u8)
        requires
            local_index(self@, name@) is Some,
        ensures
            local_index(self@, name@) == Some(r),
    {
        match self.slot(name) {
            Some(k) => k,
            None => 0,
        }
    }

    /// The slot of the first local variable named `name`; `None` where
    /// there is none or it does not fit in a byte.
    fn slot(&self, name: &String) -> (r: Option<u8>)
        ensures
            r == local_index(self@, name@),
    {
        let mut i: usize = 0;
        while i < self.0.len()
            invariant
                i <= self.0@.len(),
                forall|j: int| 0 <= j < i ==> self@[j] != name@,
            decreases self.0@.len() - i,
        {
            assert(self@[i as int] == self.0@[i as int]@);
            if self.0[i] == *name {
                proof {
                    lemma_name_index(self@, name@);
                }
                if i >= 255 {
                    return None;
                }
                return Some(i as u8 + 1);
            }
            i = i + 1;
        }
        proof {
            lemma_name_index(self@, name@);
        }
        None
    }
}

/// The state that code generation threads, read off the three structures.
pub open spec fn state_of(stack: StackSize, pool: ConstantPool, locals: LocalVarPool) -> GenState {
    GenState { pool: pool@, cur: stack.current, max: stack.max, locals: locals@ }
}

/// Pushes `k` values where that fits; `false` where it overflows.
pub(crate) fn try_inc(stack: &mut StackSize, k: u16) -> (ok: bool)
    ensures
        ok == (old(stack).current + k <= u16::MAX),
        ok ==> final(stack).current == old(stack).current + k,
        ok ==> final(stack).max == (if old(stack).current + k > old(stack).max {
            (old(stack).current + k) as u16
        } else {
            old(stack).max
        }),
{
    if stack.current > u16::MAX - k {
        return false;
    }
    stack.inc(k);
    true
}

/// Pops `k` values where there are that many; `false` otherwise.
pub(crate) fn try_dec(stack: &mut StackSize, k: u16) -> (ok: bool)
    ensures
        ok == (old(stack).current >= k),
        ok ==> final(stack).current == old(stack).current - k,
        ok ==> final(stack).max == old(stack).max,
{
    if stack.current < k {
        return false;
    }
    stack.dec(k);
    true
}

/// The byte length of code as a signed jump operand.
fn code_len_i16(code: &Vec<Instruction>) -> (r: Option<i16>)
    ensures
        r == len_i16(code@),
{
    match get_instructions_length(code.as_slice()) {
        Some(n) => if n <= 32767 {
            Some(n as i16)
        } else {
            None
        },
        None => None,
    }
}

/// A value as a signed 16-bit operand where it fits.
fn checked(x: i32) -> (r: Option<i16>)
    ensures
        r == chk(x as int),
{
    if -32768 <= x && x <= 32767 {
        Some(x as i16)
    } else {
        None
    }
}

/// The field reference of field `name` with type `ty` in class `class_name`.
pub(crate) fn make_field_ref(class_name: &str, name: &String, ty: &Type) -> (c: Constant)
    requires
        has_ir_string(ty@),
    ensures
        c@ == field_ref(class_name@, name@, ty@),
{
    Constant::FieldRef(
        FieldRef {
            class: string_of(class_name),
            field: NameAndType { name: name.clone(), descriptor: string_of(ty.to_ir_string()) },
        },
    )
}

/// A sequence of one instruction.
pub(crate) fn one(i: Instruction) -> (v: Vec<Instruction>)
    ensures
        v@ == seq![i],
{
    let mut v = Vec::new();
    v.push(i);
    assert(v@ =~= seq![i]);
    v
}

/// A sequence of two instructions.
pub(crate) fn two(i: Instruction, j: Instruction) -> (v: Vec<Instruction>)
    ensures
        v@ == seq![i, j],
{
    let mut v = Vec::new();
    v.push(i);
    v.push(j);
    assert(v@ =~= seq![i, j]);
    v
}

/// Appends `b` to `a`.
pub(crate) fn concat(a: Vec<Instruction>, b: Vec<Instruction>) -> (r: Vec<Instruction>)
    ensures
        r@ == a@ + b@,
{
    let mut a = a;
    let mut b = b;
    a.append(&mut b);
    a
}

/// The conditional-jump tail that leaves 0 or 1 on the stack.
fn push_flag_tail(code: &mut Vec<Instruction>, jump: Instruction, first: i8, second: i8)
    ensures
        final(code)@ == old(code)@ + flag_tail(jump, first, second),
{
    code.push(jump);
    code.push(Instruction::bipush(first));
    code.push(Instruction::goto(5, 2));
    code.push(Instruction::bipush(second));
    assert(final(code)@ =~= old(code)@ + flag_tail(jump, first, second));
}

/// The code of a binary operation from the code of its operands.
fn binary_code(op: BinaryOp, lc: Vec<Instruction>, rc: Vec<Instruction>) -> (r: Option<Vec<Instruction>>)
    ensures
        match binop_code(op, lc@, rc@) {
            Some(c) => r matches Some(v) && v@ == c,
            None => r is None,
        },
{
    let ghost l0 = lc@;
    let ghost r0 = rc@;
    match op {
        BinaryOp::Add | BinaryOp::Sub | BinaryOp::Mul | BinaryOp::Div | BinaryOp::Mod => {
            let mut code = concat(lc, rc);
            let ins = match op {
                BinaryOp::Add => Instruction::iadd,
                BinaryOp::Sub => Instruction::isub,
                BinaryOp::Mul => Instruction::imul,
                BinaryOp::Div => Instruction::idiv,
                _ => Instruction::irem,
            };
            code.push(ins);
            Some(code)
        },
        BinaryOp::And | BinaryOp::Or => {
            let rl = match code_len_i16(&rc) {
                Some(x) => x,
                None => return None,
            };
            let a = match checked(11 + rl as i32) {
                Some(x) => x,
                None => return None,
            };
            let b = match checked(4 + (rc.len() as i16) as i32) {
                Some(x) => x,
                None => return None,
            };
            let mut code = lc;
            let is_and = match op {
                BinaryOp::And => true,
                _ => false,
            };
            if is_and {
                code.push(Instruction::ifeq(a, b));
            } else {
                code.push(Instruction::ifne(a, b));
            }
            let mut code = concat(code, rc);
            if is_and {
                push_flag_tail(&mut code, Instruction::ifeq(8, 3), 1, 0);
            } else {
                push_flag_tail(&mut code, Instruction::ifne(8, 3), 0, 1);
            }
            assert(code@ =~= binop_code(op, l0, r0).unwrap());
            Some(code)
        },
        BinaryOp::Ne => {
            let mut code = concat(lc, rc);
            code.push(Instruction::isub);
            push_flag_tail(&mut code, Instruction::ifeq(8, 3), 1, 0);
            assert(code@ =~= binop_code(op, l0, r0).unwrap());
            Some(code)
        },
        _ => {
            let mut code = concat(lc, rc);
            code.push(Instruction::isub);
            match op {
                BinaryOp::Le => {
                    code.push(Instruction::bipush(1));
                    code.push(Instruction::isub);
                    push_flag_tail(&mut code, Instruction::iflt(8, 3), 0, 1);
                },
                BinaryOp::Ge => {
                    push_flag_tail(&mut code, Instruction::ifge(8, 3), 0, 1);
                },
                BinaryOp::Lt => {
                    push_flag_tail(&mut code, Instruction::iflt(8, 3), 0, 1);
                },
                BinaryOp::Gt => {
                    code.push(Instruction::bipush(1));
                    code.push(Instruction::isub);
                    push_flag_tail(&mut code, Instruction::ifge(8, 3), 0, 1);
                },
                _ => {
                    push_flag_tail(&mut code, Instruction::ifeq(8, 3), 0, 1);
                },
            }
            assert(code@ =~= binop_code(op, l0, r0).unwrap());
            Some(code)
        },
    }
}

/// The result a code generator promises: where the specification gives
/// code and a state, the code comes out and the structures hold that state;
/// where it fails, `None` comes out.
pub open spec fn gen_matches(
    spec: Option<(Seq<Instruction>, GenState)>,
    r: Option<Vec<Instruction>>,
    after: GenState,
) -> bool {
    match spec {
        Some((c, st)) => r matches Some(v) && v@ == c && after == st,
        None => r is None,
    }
}

/// Adds a constant where there is room; `None` where the pool is full.
pub(crate) fn try_add(constant_pool: &mut ConstantPool, c: Constant) -> (r: Option<u16>)
    requires
        old(constant_pool)@.len() < 65535,
    ensures
        final(constant_pool).1 == old(constant_pool).1,
        final(constant_pool)@.len() < 65535,
        match st_add(GenState { pool: old(constant_pool)@, cur: 0, max: 0, locals: Seq::empty() }, c@) {
            Some((i, st)) => r == Some(i) && final(constant_pool)@ == st.pool,
            None => r is None,
        },
{
    if !constant_pool.has_room() {
        return None;
    }
    proof {
        lemma_pool_add(old(constant_pool)@, c@);
    }
    Some(constant_pool.add(c))
}

/// Generates the code of `this.f` where the receiver `o` has type `t2` and
/// the field has type `ty`.
fn generate_inst_var(
    o: &Expr,
    t2: &Type,
    name: &String,
    ty: &Type,
    stack: &mut StackSize,
    constant_pool: &mut ConstantPool,
    local_var_pool: &LocalVarPool,
    class_name: &str,
) -> (r: Option<Vec<Instruction>>)
    requires
        old(constant_pool)@.len() < 65535,
    ensures
        final(constant_pool).1 == old(constant_pool).1,
        final(constant_pool)@.len() < 65535,
        gen_matches(
            gen_inst_var(o@, t2@, name@, ty@, state_of(*old(stack), *old(constant_pool), *local_var_pool), class_name@),
            r,
            state_of(*final(stack), *final(constant_pool), *local_var_pool),
        ),
{
    let mut result: Vec<Instruction> = Vec::new();
    match o {
        Expr::This => {
            if !try_inc(stack, 1) {
                return None;
            }
            result.push(Instruction::aload(0));
            assert(result@ =~= seq![Instruction::aload(0)]);
        },
        Expr::LocalVar(n) => {
            let idx = match local_var_pool.slot(n) {
                Some(idx) => idx,
                None => return None,
            };
            if !t2.has_ir_string() {
                return None;
            }
            let f = match try_add(constant_pool, make_field_ref(class_name, n, t2)) {
                Some(f) => f,
                None => return None,
            };
            if !try_inc(stack, 1) {
                return None;
            }
            result.push(Instruction::aload(idx));
            result.push(Instruction::getfield(f));
            assert(result@ =~= seq![Instruction::aload(idx), Instruction::getfield(f)]);
        },
        Expr::FieldVar(n) => {
            if !t2.has_ir_string() {
                return None;
            }
            let f = match try_add(constant_pool, make_field_ref(class_name, n, t2)) {
                Some(f) => f,
                None => return None,
            };
            if !try_inc(stack, 1) {
                return None;
            }
            result.push(Instruction::aload_0);
            result.push(Instruction::getfield(f));
            assert(result@ =~= seq![Instruction::aload_0, Instruction::getfield(f)]);
        },
        _ => return None,
    }
    if !ty.has_ir_string() {
        return None;
    }
    let f = match try_add(constant_pool, make_field_ref(class_name, name, ty)) {
        Some(f) => f,
        None => return None,
    };
    let ghost before = result@;
    result.push(Instruction::getfield(f));
    assert(result@ == before.push(Instruction::getfield(f)));
    Some(result)
}

/// Generates the code of an integer literal.
fn generate_integer(
    i: i32,
    stack: &mut StackSize,
    constant_pool: &mut ConstantPool,
    local_var_pool: &LocalVarPool,
) -> (r: Option<Vec<Instruction>>)
    requires
        old(constant_pool)@.len() < 65535,
    ensures
        final(constant_pool).1 == old(constant_pool).1,
        final(constant_pool)@.len() < 65535,
        gen_matches(
            gen_int(i, state_of(*old(stack), *old(constant_pool), *local_var_pool)),
            r,
            state_of(*final(stack), *final(constant_pool), *local_var_pool),
        ),
{
    let ghost st0 = state_of(*stack, *constant_pool, *local_var_pool);
    if -128 <= i && i <= 127 {
        let ins = Instruction::bipush(i as i8);
        assert(gen_int(i, st0) == emit(st0, ins, 1));
        if !try_inc(stack, 1) {
            return None;
        }
        assert(st_inc(st0, 1) == Some(state_of(*stack, *constant_pool, *local_var_pool)));
        return Some(one(ins));
    }
    if -32768 <= i && i <= 32767 {
        let ins = Instruction::sipush(i as i16);
        assert(gen_int(i, st0) == emit(st0, ins, 1));
        if !try_inc(stack, 1) {
            return None;
        }
        assert(st_inc(st0, 1) == Some(state_of(*stack, *constant_pool, *local_var_pool)));
        return Some(one(ins));
    }
    let idx = match try_add(constant_pool, Constant::Integer(i)) {
        Some(idx) => idx,
        None => return None,
    };
    let ghost st1 = state_of(*stack, *constant_pool, *local_var_pool);
    assert(st_add(st0, ConstantV::Integer(i)) == Some((idx, st1)));
    if idx > 255 {
        return None;
    }
    let ins = Instruction::ldc(idx as u8);
    assert(gen_int(i, st0) == emit(st1, ins, 1));
    if !try_inc(stack, 1) {
        return None;
    }
    assert(st_inc(st1, 1) == Some(state_of(*stack, *constant_pool, *local_var_pool)));
    Some(one(ins))
}

/// Generates the code of a typed expression without subexpression code.
fn generate_leaf(
    inner: &Expr,
    ty: &Type,
    stack: &mut StackSize,
    constant_pool: &mut ConstantPool,
    local_var_pool: &LocalVarPool,
    class_name: &str,
) -> (r: Option<Vec<Instruction>>)
    requires
        old(constant_pool)@.len() < 65535,
    ensures
        final(constant_pool).1 == old(constant_pool).1,
        final(constant_pool)@.len() < 65535,
        gen_matches(
            gen_leaf(inner@, ty@, state_of(*old(stack), *old(constant_pool), *local_var_pool), class_name@),
            r,
            state_of(*final(stack), *final(constant_pool), *local_var_pool),
        ),
{
    let ghost st0 = state_of(*stack, *constant_pool, *local_var_pool);
    let ghost cls = class_name@;
    match inner {
        Expr::Integer(i) => {
            assert(inner@ == ExprV::Integer(*i));
            assert(gen_leaf(inner@, ty@, st0, cls) == gen_int(*i, st0));
            generate_integer(*i, stack, constant_pool, local_var_pool)
        },
        Expr::Bool(b) => {
            let ins = Instruction::bipush(if *b { 1 } else { 0 });
            assert(inner@ == ExprV::Bool(*b));
            assert(gen_leaf(inner@, ty@, st0, cls) == emit(st0, ins, 1));
            if !try_inc(stack, 1) {
                return None;
            }
            assert(st_inc(st0, 1) == Some(state_of(*stack, *constant_pool, *local_var_pool)));
            Some(one(ins))
        },
        Expr::Char(c) => {
            assert(inner@ == ExprV::Char(*c));
            let code = (*c as u32) as i32;
            assert(gen_leaf(inner@, ty@, st0, cls) == gen_int(code, st0));
            generate_integer(code, stack, constant_pool, local_var_pool)
        },
        Expr::String(s) => {
            assert(inner@ == ExprV::String(s@));
            let idx = match try_add(constant_pool, Constant::String(s.clone())) {
                Some(idx) => idx,
                None => return None,
            };
            let ghost st1 = state_of(*stack, *constant_pool, *local_var_pool);
            assert(st_add(st0, ConstantV::String(s@)) == Some((idx, st1)));
            if idx > 255 {
                return None;
            }
            let ins = Instruction::ldc(idx as u8);
            assert(gen_leaf(inner@, ty@, st0, cls) == emit(st1, ins, 1));
            if !try_inc(stack, 1) {
                return None;
            }
            assert(st_inc(st1, 1) == Some(state_of(*stack, *constant_pool, *local_var_pool)));
            Some(one(ins))
        },
        Expr::Jnull => {
            let ins = Instruction::aconst_null;
            assert(inner@ == ExprV::Jnull);
            assert(gen_leaf(inner@, ty@, st0, cls) == emit(st0, ins, 1));
            if !try_inc(stack, 1) {
                return None;
            }
            assert(st_inc(st0, 1) == Some(state_of(*stack, *constant_pool, *local_var_pool)));
            Some(one(ins))
        },
        Expr::This => {
            let ins = Instruction::aload(0);
            assert(inner@ == ExprV::This);
            assert(gen_leaf(inner@, ty@, st0, cls) == emit(st0, ins, 1));
            if !try_inc(stack, 1) {
                return None;
            }
            assert(st_inc(st0, 1) == Some(state_of(*stack, *constant_pool, *local_var_pool)));
            Some(one(ins))
        },
        Expr::InstVar(obj, name) => {
            assert(inner@ == ExprV::InstVar(Box::new((**obj)@), name@));
            match &**obj {
                Expr::TypedExpr(o, t2) => {
                    assert((**obj)@ == ExprV::TypedExpr(Box::new((**o)@), t2@));
                    assert(gen_leaf(inner@, ty@, st0, cls) == gen_inst_var((**o)@, t2@, name@, ty@, st0, cls));
                    generate_inst_var(&**o, t2, name, ty, stack, constant_pool, local_var_pool, class_name)
                },
                _ => None,
            }
        },
        Expr::LocalVar(name) => {
            assert(inner@ == ExprV::LocalVar(name@));
            if !try_inc(stack, 1) {
                return None;
            }
            let ghost st1 = state_of(*stack, *constant_pool, *local_var_pool);
            assert(st_inc(st0, 1) == Some(st1));
            let idx = match local_var_pool.slot(name) {
                Some(idx) => idx,
                None => return None,
            };
            match ty {
                Type::Int | Type::Bool | Type::Char => {
                    assert(gen_leaf(inner@, ty@, st0, cls) == Some((seq![Instruction::iload(idx)], st1)));
                    Some(one(Instruction::iload(idx)))
                },
                Type::String | Type::Class(_) | Type::Null => {
                    assert(gen_leaf(inner@, ty@, st0, cls) == Some((seq![Instruction::aload(idx)], st1)));
                    Some(one(Instruction::aload(idx)))
                },
                _ => None,
            }
        },
        Expr::FieldVar(name) => {
            assert(inner@ == ExprV::FieldVar(name@));
            if !ty.has_ir_string() {
                return None;
            }
            let idx = match try_add(constant_pool, make_field_ref(class_name, name, ty)) {
                Some(idx) => idx,
                None => return None,
            };
            let ghost st1 = state_of(*stack, *constant_pool, *local_var_pool);
            assert(st_add(st0, field_ref(cls, name@, ty@)) == Some((idx, st1)));
            if !try_inc(stack, 1) {
                return None;
            }
            assert(st_inc(st1, 1) == Some(state_of(*stack, *constant_pool, *local_var_pool)));
            Some(two(Instruction::aload_0, Instruction::getfield(idx)))
        },
        _ => None,
    }
}

/// Generates the code of a typed expression. `None` where generation fails:
/// an expression without its type, an unknown operator or local variable,
/// a type without a descriptor, or a stack or pool that overflows.
pub fn generate_code_expr(
    expr: &Expr,
    stack: &mut StackSize,
    constant_pool: &mut ConstantPool,
    local_var_pool: &mut LocalVarPool,
    class_name: &str,
) -> (r: Option<Vec<Instruction>>)
    requires
        old(constant_pool)@.len() < 65535,
    ensures
        final(constant_pool).1 == old(constant_pool).1,
        final(constant_pool)@.len() < 65535,
        gen_matches(
            gen_expr(expr@, state_of(*old(stack), *old(constant_pool), *old(local_var_pool)), class_name@),
            r,
            state_of(*final(stack), *final(constant_pool), *final(local_var_pool)),
        ),
    decreases expr,
{
    match expr {
        Expr::TypedExpr(inner, ty) => {
            assert(expr@ == ExprV::TypedExpr(Box::new((**inner)@), ty@));
            let leaf = match &**inner {
                Expr::Binary(..) | Expr::Unary(..) | Expr::StmtExprExpr(..) => false,
                _ => true,
            };
            assert(is_leaf((**inner)@) == leaf);
            if leaf {
                return generate_leaf(&**inner, ty, stack, constant_pool, local_var_pool, class_name);
            }
            match &**inner {
                Expr::Binary(op, left, right) => {
                    assert((**inner)@ == ExprV::Binary(op@, Box::new((**left)@), Box::new((**right)@)));
                    let lc = match generate_code_expr(&**left, stack, constant_pool, local_var_pool, class_name) {
                        Some(c) => c,
                        None => return None,
                    };
                    let rc = match generate_code_expr(&**right, stack, constant_pool, local_var_pool, class_name) {
                        Some(c) => c,
                        None => return None,
                    };
                    let bop = match BinaryOp::from_op(op.as_str()) {
                        Some(b) => b,
                        None => return None,
                    };
                    let ghost lv = lc@;
                    let ghost rv = rc@;
                    let ghost s2 = state_of(*stack, *constant_pool, *local_var_pool);
                    let code = match binary_code(bop, lc, rc) {
                        Some(c) => c,
                        None => return None,
                    };
                    if !try_dec(stack, 1) {
                        return None;
                    }
                    assert(st_dec(s2, 1) == Some(state_of(*stack, *constant_pool, *local_var_pool)));
                    assert(gen_binary_tail(op@, lv, rv, s2) == Some((code@, state_of(*stack, *constant_pool, *local_var_pool))));
                    Some(code)
                },
                Expr::Unary(op, x) => {
                    assert((**inner)@ == ExprV::Unary(op@, Box::new((**x)@)));
                    let c = match generate_code_expr(&**x, stack, constant_pool, local_var_pool, class_name) {
                        Some(c) => c,
                        None => return None,
                    };
                    let uop = match UnaryOp::from_op(op.as_str()) {
                        Some(u) => u,
                        None => return None,
                    };
                    let ghost cv = c@;
                    let mut code = c;
                    match uop {
                        UnaryOp::Not => {
                            push_flag_tail(&mut code, Instruction::ifne(8, 3), 1, 0);
                        },
                        UnaryOp::Neg => {
                            code.push(Instruction::ineg);
                        },
                        UnaryOp::Pos => {},
                    }
                    assert(code@ == unop_code(uop, cv));
                    Some(code)
                },
                Expr::StmtExprExpr(se) => {
                    assert((**inner)@ == ExprV::StmtExprExpr(Box::new((**se)@)));
                    generate_code_stmt_expr(&**se, stack, constant_pool, local_var_pool, class_name)
                },
                _ => None,
            }
        },
        _ => None,
    }
}

/// Generates the code that stores the value computed by `ec` into `var`.
fn generate_assign_to(
    var: &Expr,
    ec: Vec<Instruction>,
    stack: &mut StackSize,
    constant_pool: &mut ConstantPool,
    local_var_pool: &mut LocalVarPool,
    class_name: &str,
) -> (r: Option<Vec<Instruction>>)
    requires
        old(constant_pool)@.len() < 65535,
    ensures
        final(constant_pool).1 == old(constant_pool).1,
        final(constant_pool)@.len() < 65535,
        gen_matches(
            gen_assign_to(var@, ec@, state_of(*old(stack), *old(constant_pool), *old(local_var_pool)), class_name@),
            r,
            state_of(*final(stack), *final(constant_pool), *final(local_var_pool)),
        ),
    decreases var,
{
    let ghost st0 = state_of(*stack, *constant_pool, *local_var_pool);
    let ghost cls = class_name@;
    let ghost e0 = ec@;
    let (v, t) = match var {
        Expr::TypedExpr(v, t) => (v, t),
        _ => return None,
    };
    assert(var@ == ExprV::TypedExpr(Box::new((**v)@), t@));
    match &**v {
        Expr::LocalVar(name) => {
            assert((**v)@ == ExprV::LocalVar(name@));
            let idx = match local_var_pool.slot(name) {
                Some(idx) => idx,
                None => return None,
            };
            let store = match t {
                Type::Class(_) | Type::String | Type::Null => Instruction::astore(idx),
                _ => Instruction::istore(idx),
            };
            if !try_dec(stack, 1) {
                return None;
            }
            assert(st_dec(st0, 1) == Some(state_of(*stack, *constant_pool, *local_var_pool)));
            let mut code = ec;
            code.push(store);
            assert(gen_assign_to(var@, e0, st0, cls) == Some((code@, state_of(*stack, *constant_pool, *local_var_pool))));
            Some(code)
        },
        Expr::FieldVar(name) => {
            assert((**v)@ == ExprV::FieldVar(name@));
            if !t.has_ir_string() {
                return None;
            }
            let idx = match try_add(constant_pool, make_field_ref(class_name, name, t)) {
                Some(idx) => idx,
                None => return None,
            };
            let ghost s2 = state_of(*stack, *constant_pool, *local_var_pool);
            assert(st_add(st0, field_ref(cls, name@, t@)) == Some((idx, s2)));
            if !try_inc(stack, 1) {
                return None;
            }
            let ghost s3 = state_of(*stack, *constant_pool, *local_var_pool);
            assert(st_inc(s2, 1) == Some(s3));
            if !try_dec(stack, 2) {
                return None;
            }
            let ghost s4 = state_of(*stack, *constant_pool, *local_var_pool);
            assert(st_dec(s3, 2) == Some(s4));
            if !try_inc(stack, 1) {
                return None;
            }
            assert(st_inc(s4, 1) == Some(state_of(*stack, *constant_pool, *local_var_pool)));
            let mut code = one(Instruction::aload_0);
            let mut code = concat(code, ec);
            code.push(Instruction::putfield(idx));
            code.push(Instruction::aload_0);
            code.push(Instruction::getfield(idx));
            assert(code@ =~= seq![Instruction::aload_0] + e0 + seq![
                Instruction::putfield(idx),
                Instruction::aload_0,
                Instruction::getfield(idx),
            ]);
            Some(code)
        },
        Expr::InstVar(obj, name) => {
            assert((**v)@ == ExprV::InstVar(Box::new((**obj)@), name@));
            if !t.has_ir_string() {
                return None;
            }
            let idx = match try_add(constant_pool, make_field_ref(class_name, name, t)) {
                Some(idx) => idx,
                None => return None,
            };
            let ghost s2 = state_of(*stack, *constant_pool, *local_var_pool);
            assert(st_add(st0, field_ref(cls, name@, t@)) == Some((idx, s2)));
            let oc = match generate_code_expr(&**obj, stack, constant_pool, local_var_pool, class_name) {
                Some(c) => c,
                None => return None,
            };
            let ghost s3 = state_of(*stack, *constant_pool, *local_var_pool);
            if !try_dec(stack, 2) {
                return None;
            }
            assert(st_dec(s3, 2) == Some(state_of(*stack, *constant_pool, *local_var_pool)));
            let mut tail = ec;
            tail.push(Instruction::putfield(idx));
            let code = concat(oc, tail);
            Some(code)
        },
        _ => None,
    }
}

/// Where a prefix of the arguments fails, all of them fail.
proof fn lemma_gen_exprs_prefix_none(s: Seq<ExprV>, k: int, st: GenState, cls: Seq<char>)
    requires
        0 <= k <= s.len(),
        gen_exprs(s.take(k), st, cls) is None,
    ensures
        gen_exprs(s, st, cls) is None,
    decreases s.len() - k,
{
    if k < s.len() {
        assert(s.take(k + 1).drop_last() =~= s.take(k));
        lemma_gen_exprs_prefix_none(s, k + 1, st, cls);
    } else {
        assert(s.take(k) =~= s);
    }
}

/// Where the descriptor of a prefix of the arguments fails, that of all of
/// them fails.
proof fn lemma_args_desc_prefix_none(s: Seq<ExprV>, k: int)
    requires
        1 <= k <= s.len(),
        args_desc(s.take(k)) is None,
    ensures
        args_desc(s) is None,
    decreases s.len() - k,
{
    if k < s.len() {
        assert(s.take(k + 1).drop_last() =~= s.take(k));
        lemma_args_desc_prefix_none(s, k + 1);
    } else {
        assert(s.take(k) =~= s);
    }
}

/// Generates the code of a list of expressions, left to right.
fn generate_code_exprs(
    args: &Vec<Expr>,
    stack: &mut StackSize,
    constant_pool: &mut ConstantPool,
    local_var_pool: &mut LocalVarPool,
    class_name: &str,
) -> (r: Option<Vec<Instruction>>)
    requires
        old(constant_pool)@.len() < 65535,
    ensures
        final(constant_pool).1 == old(constant_pool).1,
        final(constant_pool)@.len() < 65535,
        gen_matches(
            gen_exprs(exprs_view(args@), state_of(*old(stack), *old(constant_pool), *old(local_var_pool)), class_name@),
            r,
            state_of(*final(stack), *final(constant_pool), *final(local_var_pool)),
        ),
    decreases args,
{
    let ghost st0 = state_of(*stack, *constant_pool, *local_var_pool);
    let ghost cls = class_name@;
    let ghost av = exprs_view(args@);
    proof {
        lemma_exprs_view(args@);
    }
    let mut code: Vec<Instruction> = Vec::new();
    let mut i: usize = 0;
    assert(av.take(0) =~= Seq::<ExprV>::empty());
    while i < args.len()
        invariant
            i <= args@.len(),
            av == exprs_view(args@),
            cls == class_name@,
            st0 == state_of(*old(stack), *old(constant_pool), *old(local_var_pool)),
            av.len() == args@.len(),
            forall|k: int| 0 <= k < args@.len() ==> #[trigger] av[k] == args@[k]@,
            constant_pool.1 == old(constant_pool).1,
            constant_pool@.len() < 65535,
            gen_exprs(av.take(i as int), st0, cls) == Some((code@, state_of(*stack, *constant_pool, *local_var_pool))),
        decreases args@.len() - i,
    {
        let ghost si = state_of(*stack, *constant_pool, *local_var_pool);
        let ghost ci = code@;
        let c = match generate_code_expr(&args[i], stack, constant_pool, local_var_pool, class_name) {
            Some(c) => c,
            None => {
                proof {
                    assert(av.take(i + 1).drop_last() =~= av.take(i as int));
                    assert(av.take(i + 1).last() == args@[i as int]@);
                    assert(gen_exprs(av.take(i + 1), st0, cls) is None);
                    lemma_gen_exprs_prefix_none(av, (i + 1) as int, st0, cls);
                }
                return None;
            },
        };
        assert(gen_expr(args@[i as int]@, si, cls) == Some((c@, state_of(*stack, *constant_pool, *local_var_pool))));
        proof {
            let t = av.take(i + 1);
            assert(t.drop_last() =~= av.take(i as int));
            assert(t.last() == args@[i as int]@);
            assert(t.len() != 0);
            assert(gen_exprs(t, st0, cls) == (match gen_exprs(t.drop_last(), st0, cls) {
                Some((c0, s1)) => match gen_expr(t.last(), s1, cls) {
                    Some((c2, s2)) => Some((c0 + c2, s2)),
                    None => None,
                },
                None => None,
            }));
            assert(gen_exprs(av.take(i + 1), st0, cls) == Some((ci + c@, state_of(*stack, *constant_pool, *local_var_pool))));
        }
        code = concat(code, c);
        i = i + 1;
    }
    assert(av.take(i as int) =~= av);
    Some(code)
}

/// The descriptor of a called method from its arguments and return type.
fn call_descriptor(args: &Vec<Expr>, ret: &Type) -> (r: Option<String>)
    ensures
        match call_desc(exprs_view(args@), ret@) {
            Some(d) => r matches Some(s) && s@ == d,
            None => r is None,
        },
{
    let ghost av = exprs_view(args@);
    proof {
        lemma_exprs_view(args@);
        reveal_strlit("(");
        reveal_strlit(")");
    }
    let mut list = String::new();
    let mut i: usize = 0;
    while i < args.len()
        invariant
            i <= args@.len(),
            av == exprs_view(args@),
            av.len() == args@.len(),
            forall|k: int| 0 <= k < args@.len() ==> #[trigger] av[k] == args@[k]@,
            args_desc(av.take(i as int)) == Some(list@),
        decreases args@.len() - i,
    {
        assert(av.take(i + 1).drop_last() =~= av.take(i as int));
        assert(av.take(i + 1).last() == args@[i as int]@);
        let ghost before = list@;
        let t = match &args[i] {
            Expr::TypedExpr(_, t) => t,
            _ => {
                proof {
                    assert(arg_desc(av[i as int]) is None);
                    if i == 0 {
                        assert(av.take(1) =~= seq![av[0]]);
                    }
                    assert(args_desc(av.take(i + 1)) is None);
                    lemma_args_desc_prefix_none(av, (i + 1) as int);
                }
                return None;
            },
        };
        assert(args@[i as int]@ == ExprV::TypedExpr(Box::new(match args@[i as int] { Expr::TypedExpr(b, _) => (*b)@, _ => ExprV::This }), t@));
        if !t.has_ir_string() {
            proof {
                assert(arg_desc(av[i as int]) is None);
                if i == 0 {
                    assert(av.take(1) =~= seq![av[0]]);
                }
                assert(args_desc(av.take(i + 1)) is None);
                lemma_args_desc_prefix_none(av, (i + 1) as int);
            }
            return None;
        }
        list.append(t.to_ir_string());
        proof {
            if i == 0 {
                assert(av.take(1) =~= seq![av[0]]);
                assert(list@ =~= ir_string(t@));
            } else {
                assert(list@ =~= before + ir_string(t@));
                assert(arg_desc(av[i as int]) == Some(ir_string(t@)));
            }
        }
        i = i + 1;
    }
    assert(av.take(i as int) =~= av);
    if !ret.has_ir_string() {
        return None;
    }
    proof {
        reveal_strlit("(");
        reveal_strlit(")");
    }
    let mut s = String::new();
    s.append("(");
    s.append(list.as_str());
    s.append(")");
    s.append(ret.to_ir_string());
    assert(s@ =~= seq!['('] + list@ + seq![')'] + ir_string(ret@));
    Some(s)
}

/// Generates the code of `new ty()`.
fn generate_new(
    ty: &Type,
    stack: &mut StackSize,
    constant_pool: &mut ConstantPool,
    local_var_pool: &LocalVarPool,
) -> (r: Option<Vec<Instruction>>)
    requires
        old(constant_pool)@.len() < 65535,
    ensures
        final(constant_pool).1 == old(constant_pool).1,
        final(constant_pool)@.len() < 65535,
        gen_matches(
            gen_new(ty@, state_of(*old(stack), *old(constant_pool), *local_var_pool)),
            r,
            state_of(*final(stack), *final(constant_pool), *local_var_pool),
        ),
{
    let ghost st0 = state_of(*stack, *constant_pool, *local_var_pool);
    if !ty.has_ir_string() {
        return None;
    }
    let ci = match try_add(constant_pool, Constant::Class(string_of(ty.to_ir_string()))) {
        Some(i) => i,
        None => return None,
    };
    let ghost s1 = state_of(*stack, *constant_pool, *local_var_pool);
    assert(st_add(st0, ConstantV::Class(ir_string(ty@))) == Some((ci, s1)));
    let m = Constant::MethodRef(
        MethodRef {
            class: string_of(ty.to_ir_string()),
            method: NameAndType { name: string_of("<init>"), descriptor: string_of("()V") },
        },
    );
    let mi = match try_add(constant_pool, m) {
        Some(i) => i,
        None => return None,
    };
    let ghost s2 = state_of(*stack, *constant_pool, *local_var_pool);
    assert(st_add(s1, ConstantV::MethodRef(
                    ir_string(ty@),
                    NameAndTypeV { name: init_name(), descriptor: init_descriptor() },
                )) == Some((mi, s2)));
    if !try_inc(stack, 2) {
        return None;
    }
    let ghost s3 = state_of(*stack, *constant_pool, *local_var_pool);
    assert(st_inc(s2, 2) == Some(s3));
    if !try_dec(stack, 1) {
        return None;
    }
    assert(st_dec(s3, 1) == Some(state_of(*stack, *constant_pool, *local_var_pool)));
    let mut code = two(Instruction::new(ci), Instruction::dup);
    code.push(Instruction::invokespecial(mi));
    assert(code@ =~= seq![Instruction::new(ci), Instruction::dup, Instruction::invokespecial(mi)]);
    Some(code)
}

/// Generates the code of a typed statement expression.
pub fn generate_code_stmt_expr(
    stmt_expr: &StmtExpr,
    stack: &mut StackSize,
    constant_pool: &mut ConstantPool,
    local_var_pool: &mut LocalVarPool,
    class_name: &str,
) -> (r: Option<Vec<Instruction>>)
    requires
        old(constant_pool)@.len() < 65535,
    ensures
        final(constant_pool).1 == old(constant_pool).1,
        final(constant_pool)@.len() < 65535,
        gen_matches(
            gen_stmt_expr(stmt_expr@, state_of(*old(stack), *old(constant_pool), *old(local_var_pool)), class_name@),
            r,
            state_of(*final(stack), *final(constant_pool), *final(local_var_pool)),
        ),
    decreases stmt_expr,
{
    let ghost st0 = state_of(*stack, *constant_pool, *local_var_pool);
    let ghost cls = class_name@;
    let (inner, ety) = match stmt_expr {
        StmtExpr::TypedStmtExpr(inner, ety) => (inner, ety),
        _ => return None,
    };
    assert(stmt_expr@ == StmtExprV::TypedStmtExpr(Box::new((**inner)@), ety@));
    match &**inner {
        StmtExpr::Assign(var, e) => {
            assert((**inner)@ == StmtExprV::Assign(var@, e@));
            let ec = match generate_code_expr(e, stack, constant_pool, local_var_pool, class_name) {
                Some(c) => c,
                None => return None,
            };
            generate_assign_to(var, ec, stack, constant_pool, local_var_pool, class_name)
        },
        StmtExpr::New(ty, args) => {
            assert((**inner)@ == StmtExprV::New(ty@, exprs_view(args@)));
            generate_new(ty, stack, constant_pool, local_var_pool)
        },
        StmtExpr::MethodCall(recv, name, args) => {
            assert((**inner)@ == StmtExprV::MethodCall(recv@, name@, exprs_view(args@)));
            let ac = match generate_code_exprs(args, stack, constant_pool, local_var_pool, class_name) {
                Some(c) => c,
                None => return None,
            };
            let ghost s1 = state_of(*stack, *constant_pool, *local_var_pool);
            let ghost acv = ac@;
            let desc = match call_descriptor(args, ety) {
                Some(d) => d,
                None => return None,
            };
            let m = Constant::MethodRef(
                MethodRef {
                    class: string_of(class_name),
                    method: NameAndType { name: name.clone(), descriptor: desc },
                },
            );
            let mi = match try_add(constant_pool, m) {
                Some(i) => i,
                None => return None,
            };
            let ghost s2 = state_of(*stack, *constant_pool, *local_var_pool);
            let ghost mref = ConstantV::MethodRef(class_name@, NameAndTypeV { name: name@, descriptor: desc@ });
            assert(m@ == mref);
            assert(st_add(s1, mref) == Some((mi, s2)));
            let ghost av = exprs_view(args@);
            proof {
                lemma_exprs_view(args@);
            }
            if !try_inc(stack, 1) {
                return None;
            }
            let ghost s3 = state_of(*stack, *constant_pool, *local_var_pool);
            assert(st_inc(s2, 1) == Some(s3));
            if args.len() >= 65535 {
                assert(st_dec(s3, av.len() as int + 1) is None);
                assert(gen_call_tail(name@, av, ety@, acv, s1, class_name@) is None);
                return None;
            }
            if !try_dec(stack, (args.len() + 1) as u16) {
                assert(gen_call_tail(name@, av, ety@, acv, s1, class_name@) is None);
                return None;
            }
            let ghost s4 = state_of(*stack, *constant_pool, *local_var_pool);
            assert(st_dec(s3, av.len() as int + 1) == Some(s4));
            let is_void = match ety {
                Type::Void => true,
                _ => false,
            };
            if !is_void {
                if !try_inc(stack, 1) {
                    return None;
                }
                assert(st_inc(s4, 1) == Some(state_of(*stack, *constant_pool, *local_var_pool)));
            }
            let code = concat(one(Instruction::aload_0), ac);
            let mut code = code;
            code.push(Instruction::invokespecial(mi));
            assert(code@ =~= seq![Instruction::aload_0] + acv + seq![Instruction::invokespecial(mi)]);
            Some(code)
        },
        _ => None,
    }
}

/// Generates the code of a `return`.
fn generate_return(
    expr: &Expr,
    stack: &mut StackSize,
    constant_pool: &mut ConstantPool,
    local_var_pool: &mut LocalVarPool,
    class_name: &str,
) -> (r: Option<Vec<Instruction>>)
    requires
        old(constant_pool)@.len() < 65535,
    ensures
        final(constant_pool).1 == old(constant_pool).1,
        final(constant_pool)@.len() < 65535,
        gen_matches(
            gen_return(expr@, state_of(*old(stack), *old(constant_pool), *old(local_var_pool)), class_name@),
            r,
            state_of(*final(stack), *final(constant_pool), *final(local_var_pool)),
        ),
{
    let ghost st0 = state_of(*stack, *constant_pool, *local_var_pool);
    let t = match expr {
        Expr::TypedExpr(_, t) => t,
        _ => return None,
    };
    assert(expr@ matches ExprV::TypedExpr(_, tv) && tv == t@);
    let code = match t {
        Type::Int | Type::Bool | Type::Char => {
            let mut c = match generate_code_expr(expr, stack, constant_pool, local_var_pool, class_name) {
                Some(c) => c,
                None => return None,
            };
            c.push(Instruction::ireturn);
            c
        },
        Type::Void => one(Instruction::return_void),
        Type::String | Type::Class(_) => {
            let mut c = match generate_code_expr(expr, stack, constant_pool, local_var_pool, class_name) {
                Some(c) => c,
                None => return None,
            };
            c.push(Instruction::areturn);
            c
        },
        Type::Null => two(Instruction::aconst_null, Instruction::areturn),
    };
    let ghost s1 = state_of(*stack, *constant_pool, *local_var_pool);
    stack.set(0);
    assert(st_set(s1, 0) == state_of(*stack, *constant_pool, *local_var_pool));
    Some(code)
}

/// The code of a `while` loop from the code of its condition and body.
fn while_instrs(cc: Vec<Instruction>, bc: Vec<Instruction>) -> (r: Option<Vec<Instruction>>)
    ensures
        match while_code(cc@, bc@) {
            Some(c) => r matches Some(v) && v@ == c,
            None => r is None,
        },
{
    let cl = match code_len_i16(&cc) {
        Some(x) => x,
        None => return None,
    };
    let bl = match code_len_i16(&bc) {
        Some(x) => x,
        None => return None,
    };
    let n = bc.len() as i16;
    let m = cc.len() as i16;
    let a = match checked(6 + bl as i32) {
        Some(x) => x,
        None => return None,
    };
    let b = match checked(n as i32 + 2) {
        Some(x) => x,
        None => return None,
    };
    let g2 = match checked(-3 - bl as i32 - cl as i32) {
        Some(x) => x,
        None => return None,
    };
    let h2 = match checked(-(n as i32) - 1 - m as i32) {
        Some(x) => x,
        None => return None,
    };
    let ghost cv = cc@;
    let ghost bv = bc@;
    let mut code = cc;
    code.push(Instruction::ifeq(a, b));
    let mut code = concat(code, bc);
    code.push(Instruction::goto(g2, h2));
    assert(code@ =~= cv + seq![Instruction::ifeq(a, b)] + bv + seq![Instruction::goto(g2, h2)]);
    Some(code)
}

/// The code of an `if` from the code of its condition and branches.
fn if_instrs(
    cc: Vec<Instruction>,
    ic: Vec<Instruction>,
    ec: Vec<Instruction>,
    has_else: bool,
    then_returns: bool,
) -> (r: Option<Vec<Instruction>>)
    ensures
        match if_code(cc@, ic@, ec@, has_else, then_returns) {
            Some(c) => r matches Some(v) && v@ == c,
            None => r is None,
        },
{
    let ghost cv = cc@;
    let ghost iv = ic@;
    let ghost ev = ec@;
    let mut tc = ic;
    if has_else && !then_returns {
        let el = match code_len_i16(&ec) {
            Some(x) => x,
            None => return None,
        };
        let a = match checked(3 + el as i32) {
            Some(x) => x,
            None => return None,
        };
        let b = match checked(1 + (ec.len() as i16) as i32) {
            Some(x) => x,
            None => return None,
        };
        tc.push(Instruction::goto(a, b));
    }
    let ghost tv = tc@;
    let tl = match code_len_i16(&tc) {
        Some(x) => x,
        None => return None,
    };
    let a = match checked(3 + tl as i32) {
        Some(x) => x,
        None => return None,
    };
    let b = match checked(1 + (tc.len() as i16) as i32) {
        Some(x) => x,
        None => return None,
    };
    let mut code = cc;
    code.push(Instruction::ifeq(a, b));
    let code = concat(code, tc);
    let code = concat(code, ec);
    assert(code@ =~= cv + seq![Instruction::ifeq(a, b)] + tv + ev);
    Some(code)
}

/// Generates the code of the statements of a block in order.
fn generate_block(
    stmts: &Vec<Stmt>,
    stack: &mut StackSize,
    constant_pool: &mut ConstantPool,
    local_var_pool: &mut LocalVarPool,
    class_name: &str,
    is_last_instr: bool,
) -> (r: Option<Vec<Instruction>>)
    requires
        old(constant_pool)@.len() < 65535,
    ensures
        final(constant_pool).1 == old(constant_pool).1,
        final(constant_pool)@.len() < 65535,
        gen_matches(
            gen_block(stmts_view(stmts@), stmts@.len(), state_of(*old(stack), *old(constant_pool), *old(local_var_pool)), class_name@, is_last_instr),
            r,
            state_of(*final(stack), *final(constant_pool), *final(local_var_pool)),
        ),
    decreases stmts, 1nat,
{
    let ghost st0 = state_of(*stack, *constant_pool, *local_var_pool);
    let ghost cls = class_name@;
    let ghost sv = stmts_view(stmts@);
    proof {
        lemma_stmts_view(stmts@);
    }
    let mut code: Vec<Instruction> = Vec::new();
    let mut i: usize = 0;
    while i < stmts.len()
        invariant
            i <= stmts@.len(),
            sv == stmts_view(stmts@),
            cls == class_name@,
            st0 == state_of(*old(stack), *old(constant_pool), *old(local_var_pool)),
            sv.len() == stmts@.len(),
            forall|k: int| 0 <= k < stmts@.len() ==> #[trigger] sv[k] == stmts@[k]@,
            constant_pool.1 == old(constant_pool).1,
            constant_pool@.len() < 65535,
            gen_block(sv, i as nat, st0, cls, is_last_instr) == Some((code@, state_of(*stack, *constant_pool, *local_var_pool))),
        decreases stmts@.len() - i,
    {
        let ghost si = state_of(*stack, *constant_pool, *local_var_pool);
        let ghost ci = code@;
        let last = is_last_instr && i + 1 == stmts.len();
        let c = match generate_code_stmt(&stmts[i], stack, constant_pool, local_var_pool, class_name, last) {
            Some(c) => c,
            None => {
                proof {
                    assert(gen_block(sv, (i + 1) as nat, st0, cls, is_last_instr) is None);
                    lemma_gen_block_prefix_none(sv, (i + 1) as nat, st0, cls, is_last_instr);
                }
                return None;
            },
        };
        assert(gen_block(sv, (i + 1) as nat, st0, cls, is_last_instr) == Some((ci + c@, state_of(*stack, *constant_pool, *local_var_pool))));
        code = concat(code, c);
        i = i + 1;
    }
    Some(code)
}

/// Where the first `k` statements of a block fail, the whole block fails.
proof fn lemma_gen_block_prefix_none(s: Seq<StmtV>, k: nat, st: GenState, cls: Seq<char>, is_last: bool)
    requires
        1 <= k <= s.len(),
        gen_block(s, k, st, cls, is_last) is None,
    ensures
        gen_block(s, s.len(), st, cls, is_last) is None,
    decreases s.len() - k,
{
    if k < s.len() {
        lemma_gen_block_prefix_none(s, k + 1, st, cls, is_last);
    }
}

/// Generates the code of a typed statement. `is_last_instr` says whether
/// nothing follows the statement in its method.
pub fn generate_code_stmt(
    stmt: &Stmt,
    stack: &mut StackSize,
    constant_pool: &mut ConstantPool,
    local_var_pool: &mut LocalVarPool,
    class_name: &str,
    is_last_instr: bool,
) -> (r: Option<Vec<Instruction>>)
    requires
        old(constant_pool)@.len() < 65535,
    ensures
        final(constant_pool).1 == old(constant_pool).1,
        final(constant_pool)@.len() < 65535,
        gen_matches(
            gen_stmt(stmt@, state_of(*old(stack), *old(constant_pool), *old(local_var_pool)), class_name@, is_last_instr),
            r,
            state_of(*final(stack), *final(constant_pool), *final(local_var_pool)),
        ),
    decreases stmt, 0nat,
{
    let ghost st0 = state_of(*stack, *constant_pool, *local_var_pool);
    let ghost cls = class_name@;
    let inner = match stmt {
        Stmt::TypedStmt(inner, _) => inner,
        _ => return None,
    };
    assert(stmt@ matches StmtV::TypedStmt(b, _) && *b == (**inner)@);
    match &**inner {
        Stmt::Block(stmts) => {
            assert((**inner)@ == StmtV::Block(stmts_view(stmts@)));
            proof {
                lemma_stmts_view(stmts@);
            }
            generate_block(stmts, stack, constant_pool, local_var_pool, class_name, is_last_instr)
        },
        Stmt::Return(expr) => {
            assert((**inner)@ == StmtV::Return(expr@));
            generate_return(expr, stack, constant_pool, local_var_pool, class_name)
        },
        Stmt::While(cond, body) => {
            assert((**inner)@ == StmtV::While(cond@, Box::new((**body)@)));
            let cc = match generate_code_expr(cond, stack, constant_pool, local_var_pool, class_name) {
                Some(c) => c,
                None => return None,
            };
            let ghost s1 = state_of(*stack, *constant_pool, *local_var_pool);
            if !try_dec(stack, 1) {
                return None;
            }
            assert(st_dec(s1, 1) == Some(state_of(*stack, *constant_pool, *local_var_pool)));
            let bc = match generate_code_stmt(&**body, stack, constant_pool, local_var_pool, class_name, is_last_instr) {
                Some(c) => c,
                None => return None,
            };
            while_instrs(cc, bc)
        },
        Stmt::LocalVarDecl(_, name) => {
            assert((**inner)@ matches StmtV::LocalVarDecl(_, n) && n == name@);
            local_var_pool.add(name.clone());
            let ghost s1 = state_of(*stack, *constant_pool, *local_var_pool);
            if !try_inc(stack, 1) {
                return None;
            }
            assert(st_inc(s1, 1) == Some(state_of(*stack, *constant_pool, *local_var_pool)));
            Some(Vec::new())
        },
        Stmt::If(cond, then_branch, else_branch) => {
            let cc = match generate_code_expr(cond, stack, constant_pool, local_var_pool, class_name) {
                Some(c) => c,
                None => return None,
            };
            let ghost s1 = state_of(*stack, *constant_pool, *local_var_pool);
            if !try_dec(stack, 1) {
                return None;
            }
            assert(st_dec(s1, 1) == Some(state_of(*stack, *constant_pool, *local_var_pool)));
            let ic = match generate_code_stmt(&**then_branch, stack, constant_pool, local_var_pool, class_name, is_last_instr) {
                Some(c) => c,
                None => return None,
            };
            let ec = match else_branch {
                Some(eb) => match generate_code_stmt(&**eb, stack, constant_pool, local_var_pool, class_name, is_last_instr) {
                    Some(c) => c,
                    None => return None,
                },
                None => Vec::new(),
            };
            let then_returns = crate::typechecker::typechecker::always_returns_x(&**then_branch);
            if_instrs(cc, ic, ec, else_branch.is_some(), then_returns)
        },
        Stmt::StmtExprStmt(se) => {
            assert((**inner)@ == StmtV::StmtExprStmt(se@));
            generate_code_stmt_expr(se, stack, constant_pool, local_var_pool, class_name)
        },
        Stmt::TypedStmt(..) => None,
    }
}

} // verus!
