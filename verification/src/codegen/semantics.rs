use vstd::prelude::*;
use vstd::arithmetic::div_mod::{lemma_mod_add_multiples_vanish, lemma_mod_sub_multiples_vanish, lemma_small_mod};
use crate::types::{ExprV, BinaryOp, UnaryOp, binary_op_of, unary_op_of};
use super::constant_pool::{ConstantV, pool_add, law_add_then_index_of, lemma_pool_add};
use super::gen_spec::{GenState, gen_expr, gen_int, binop_code, flag_tail, count_i16, chk, len_i16, st_dec, local_index};
use super::instruction::{Instruction, instrs_len, lemma_instr_len_bounds, lemma_instrs_len_append};

verus! {

// ---------------------------------------------------------------------------
// Java's integer arithmetic.
// ---------------------------------------------------------------------------

/// A value of Java's `int`.
pub open spec fn in_i32(x: int) -> bool {
    i32::MIN <= x <= i32::MAX
}

/// The two's-complement wrap of an integer into the range of `int`.
pub open spec fn wrap(x: int) -> int {
    if in_i32(x) {
        x
    } else {
        (x - i32::MIN) % 0x1_0000_0000 + i32::MIN
    }
}

pub open spec fn abs_int(x: int) -> int {
    if x < 0 {
        -x
    } else {
        x
    }
}

/// The quotient rounded toward zero.
pub open spec fn trunc_quot(a: int, b: int) -> int {
    if (a < 0) == (b < 0) {
        abs_int(a) / abs_int(b)
    } else {
        -(abs_int(a) / abs_int(b))
    }
}

/// Java's `a / b` on `int`: the quotient rounded toward zero, wrapped.
pub open spec fn java_div(a: int, b: int) -> int {
    wrap(trunc_quot(a, b))
}

/// Java's `a % b` on `int`: what is left after the division toward zero.
pub open spec fn java_rem(a: int, b: int) -> int {
    wrap(a - trunc_quot(a, b) * b)
}

/// A boolean as the JVM holds it.
pub open spec fn flag(b: bool) -> int {
    if b {
        1
    } else {
        0
    }
}

/// What a binary operator of Java gives on the values of its operands,
/// booleans taken as 1 and 0.
pub open spec fn java_binary(op: BinaryOp, a: int, b: int) -> int {
    match op {
        BinaryOp::Add => wrap(a + b),
        BinaryOp::Sub => wrap(a - b),
        BinaryOp::Mul => wrap(a * b),
        BinaryOp::Div => java_div(a, b),
        BinaryOp::Mod => java_rem(a, b),
        BinaryOp::And => flag(a != 0 && b != 0),
        BinaryOp::Or => flag(a != 0 || b != 0),
        BinaryOp::Le => flag(a <= b),
        BinaryOp::Ge => flag(a >= b),
        BinaryOp::Lt => flag(a < b),
        BinaryOp::Gt => flag(a > b),
        BinaryOp::Eq => flag(a == b),
        BinaryOp::Ne => flag(a != b),
    }
}

/// What a unary operator of Java gives on the value of its operand.
pub open spec fn java_unary(op: UnaryOp, a: int) -> int {
    match op {
        UnaryOp::Not => flag(a == 0),
        UnaryOp::Neg => wrap(-a),
        UnaryOp::Pos => a,
    }
}

// ---------------------------------------------------------------------------
// Expressions over integers and booleans, and their values.
// ---------------------------------------------------------------------------

/// A typed expression built from integer, boolean and character literals, local
/// variables of type `int`, `boolean` or `char`, and unary and binary
/// operators.
pub open spec fn simple_expr(e: ExprV) -> bool
    decreases e,
{
    match e {
        ExprV::TypedExpr(inner, ty) => match *inner {
            ExprV::Integer(_) => true,
            ExprV::Bool(_) => true,
            ExprV::Char(_) => true,
            ExprV::LocalVar(_) => ty is Int || ty is Bool || ty is Char,
            ExprV::Binary(op, l, r) => binary_op_of(op) is Some && simple_expr(*l) && simple_expr(*r),
            ExprV::Unary(op, x) => unary_op_of(op) is Some && simple_expr(*x),
            _ => false,
        },
        _ => false,
    }
}

/// The value of a simple expression in Java, where the local variables have
/// the values `vals`.
pub open spec fn java_value(e: ExprV, vals: Map<Seq<char>, int>) -> int
    decreases e,
{
    match e {
        ExprV::TypedExpr(inner, _) => match *inner {
            ExprV::Integer(i) => i as int,
            ExprV::Bool(b) => flag(b),
            ExprV::Char(c) => c as u32 as int,
            ExprV::LocalVar(n) => if vals.contains_key(n) {
                vals[n]
            } else {
                0
            },
            ExprV::Binary(op, l, r) => match binary_op_of(op) {
                Some(bop) => if bop is And && java_value(*l, vals) == 0 {
                    0
                } else if bop is Or && java_value(*l, vals) != 0 {
                    1
                } else {
                    java_binary(bop, java_value(*l, vals), java_value(*r, vals))
                },
                None => 0,
            },
            ExprV::Unary(op, x) => match unary_op_of(op) {
                Some(uop) => java_unary(uop, java_value(*x, vals)),
                None => 0,
            },
            _ => 0,
        },
        _ => 0,
    }
}

/// The operands on which the comparison code, which tests the difference of
/// the operands, gives Java's answer: `<` and `>=` need `a - b` to be an
/// `int`, `<=` and `>` also `a - b - 1`; a division needs a divisor other
/// than zero.
pub open spec fn binary_defined(op: BinaryOp, a: int, b: int) -> bool {
    match op {
        BinaryOp::Div | BinaryOp::Mod => b != 0,
        BinaryOp::Lt | BinaryOp::Ge => in_i32(a - b),
        BinaryOp::Le | BinaryOp::Gt => in_i32(a - b) && in_i32(a - b - 1),
        _ => true,
    }
}

/// The evaluation of a simple expression meets no division by zero and no
/// comparison outside `binary_defined`, and reads only variables that have
/// a value; the right operand of `&&` and `||` counts only where Java
/// evaluates it.
pub open spec fn java_defined(e: ExprV, vals: Map<Seq<char>, int>) -> bool
    decreases e,
{
    match e {
        ExprV::TypedExpr(inner, _) => match *inner {
            ExprV::Integer(_) => true,
            ExprV::Bool(_) => true,
            ExprV::Char(_) => true,
            ExprV::LocalVar(n) => vals.contains_key(n),
            ExprV::Binary(op, l, r) => match binary_op_of(op) {
                Some(bop) => java_defined(*l, vals) && (if bop is And && java_value(*l, vals) == 0 {
                    true
                } else if bop is Or && java_value(*l, vals) != 0 {
                    true
                } else {
                    java_defined(*r, vals) && binary_defined(bop, java_value(*l, vals), java_value(*r, vals))
                }),
                None => false,
            },
            ExprV::Unary(op, x) => java_defined(*x, vals),
            _ => false,
        },
        _ => false,
    }
}

// ---------------------------------------------------------------------------
// Running instructions.
// ---------------------------------------------------------------------------

/// What an arithmetic instruction gives on its two operands; `None` where
/// it throws (a division by zero) or is no arithmetic instruction.
pub open spec fn arith(i: Instruction, a: int, b: int) -> Option<int> {
    match i {
        Instruction::iadd => Some(wrap(a + b)),
        Instruction::isub => Some(wrap(a - b)),
        Instruction::imul => Some(wrap(a * b)),
        Instruction::idiv => if b == 0 {
            None
        } else {
            Some(java_div(a, b))
        },
        Instruction::irem => if b == 0 {
            None
        } else {
            Some(java_rem(a, b))
        },
        _ => None,
    }
}

/// A conditional jump: pops the top of the stack and moves by `d`
/// instructions where `taken`, else to the next one.
pub open spec fn branch(s: Seq<int>, taken: bool, d: i16) -> Option<(int, Seq<int>)> {
    if s.len() >= 1 {
        Some((if taken { d as int } else { 1 }, s.drop_last()))
    } else {
        None
    }
}

/// One instruction run on the operand stack `s`, with the constant pool
/// `pool` and the local variable slots `slots`: how many instructions
/// forward control goes, and the stack afterwards. A jump moves by its
/// instruction offset. `None` for an instruction that cannot run here.
pub open spec fn step(i: Instruction, pool: Seq<ConstantV>, slots: Map<int, int>, s: Seq<int>) -> Option<
    (int, Seq<int>),
> {
    match i {
        Instruction::bipush(b) => Some((1, s.push(b as int))),
        Instruction::sipush(v) => Some((1, s.push(v as int))),
        Instruction::ldc(k) => if 1 <= k <= pool.len() {
            match pool[k - 1] {
                ConstantV::Integer(v) => Some((1, s.push(v as int))),
                _ => None,
            }
        } else {
            None
        },
        Instruction::iload(k) => if slots.contains_key(k as int) {
            Some((1, s.push(slots[k as int])))
        } else {
            None
        },
        Instruction::iadd | Instruction::isub | Instruction::imul | Instruction::idiv | Instruction::irem => {
            if s.len() >= 2 {
                match arith(i, s[s.len() - 2], s.last()) {
                    Some(v) => Some((1, s.drop_last().drop_last().push(v))),
                    None => None,
                }
            } else {
                None
            }
        },
        Instruction::ineg => if s.len() >= 1 {
            Some((1, s.drop_last().push(wrap(-s.last()))))
        } else {
            None
        },
        Instruction::ifeq(_, d) => branch(s, s.last() == 0, d),
        Instruction::ifne(_, d) => branch(s, s.last() != 0, d),
        Instruction::iflt(_, d) => branch(s, s.last() < 0, d),
        Instruction::ifge(_, d) => branch(s, s.last() >= 0, d),
        Instruction::goto(_, d) => Some((d as int, s)),
        _ => None,
    }
}

/// The byte offset and the instruction offset of a jump.
pub open spec fn jump_offsets(i: Instruction) -> Option<(i16, i16)> {
    match i {
        Instruction::ifeq(b, d) | Instruction::ifne(b, d) | Instruction::iflt(b, d) | Instruction::ifge(b, d)
        | Instruction::goto(b, d) => Some((b, d)),
        _ => None,
    }
}

/// A jump at `pc` goes forward within the code, and its byte offset spans
/// exactly the bytes of the instructions it passes, so that the JVM, which
/// follows the byte offset, lands where the instruction offset says.
pub open spec fn jump_bytes_ok(code: Seq<Instruction>, pc: int) -> bool {
    match jump_offsets(code[pc]) {
        Some((b, d)) => 0 < d && pc + d <= code.len() && b as int == instrs_len(code.subrange(pc, pc + d)),
        None => true,
    }
}

/// Runs `code` from instruction `pc` with the operand stack `s` until
/// control leaves at the end: the stack then. Control goes forward only; a
/// backward jump, a jump past the end, a jump whose byte offset disagrees
/// with its instruction offset, or an instruction that cannot run gives
/// `None`.
pub open spec fn run(code: Seq<Instruction>, pool: Seq<ConstantV>, slots: Map<int, int>, pc: int, s: Seq<int>) -> Option<
    Seq<int>,
>
    decreases code.len() - pc,
{
    if pc < 0 || pc > code.len() {
        None
    } else if pc == code.len() {
        Some(s)
    } else {
        match step(code[pc], pool, slots, s) {
            Some((d, s2)) => if d > 0 && pc + d <= code.len() && jump_bytes_ok(code, pc) {
                run(code, pool, slots, pc + d, s2)
            } else {
                None
            },
            None => None,
        }
    }
}

/// Running code that reaches its end, followed by more code, goes on with
/// the code that follows from the stack that the first part left.
pub proof fn lemma_run_prefix(
    a: Seq<Instruction>,
    b: Seq<Instruction>,
    pool: Seq<ConstantV>,
    slots: Map<int, int>,
    pc: int,
    s: Seq<int>,
)
    requires
        0 <= pc <= a.len(),
        run(a, pool, slots, pc, s) is Some,
    ensures
        run(a + b, pool, slots, pc, s) == run(a + b, pool, slots, a.len() as int, run(a, pool, slots, pc, s)->Some_0),
    decreases a.len() - pc,
{
    if pc < a.len() {
        assert((a + b)[pc] == a[pc]);
        let (d, s2) = step(a[pc], pool, slots, s)->Some_0;
        if let Some((_, e)) = jump_offsets(a[pc]) {
            assert((a + b).subrange(pc, pc + e) =~= a.subrange(pc, pc + e));
        }
        lemma_run_prefix(a, b, pool, slots, pc + d, s2);
    }
}

/// Running the second part of a concatenation is running it alone.
pub proof fn lemma_run_suffix(
    a: Seq<Instruction>,
    b: Seq<Instruction>,
    pool: Seq<ConstantV>,
    slots: Map<int, int>,
    pc: int,
    s: Seq<int>,
)
    requires
        0 <= pc <= b.len(),
    ensures
        run(a + b, pool, slots, a.len() + pc, s) == run(b, pool, slots, pc, s),
    decreases b.len() - pc,
{
    if pc < b.len() {
        assert((a + b)[a.len() + pc] == b[pc]);
        match step(b[pc], pool, slots, s) {
            Some((d, s2)) => {
                if let Some((_, e)) = jump_offsets(b[pc]) {
                    if 0 < e && pc + e <= b.len() {
                        assert((a + b).subrange(a.len() + pc, a.len() + pc + e) =~= b.subrange(pc, pc + e));
                    }
                }
                if d > 0 && pc + d <= b.len() {
                    lemma_run_suffix(a, b, pool, slots, pc + d, s2);
                }
            },
            None => {},
        }
    }
}

/// Running a concatenation from its start: the first part, then the second.
pub proof fn lemma_run_seq(
    a: Seq<Instruction>,
    b: Seq<Instruction>,
    pool: Seq<ConstantV>,
    slots: Map<int, int>,
    s: Seq<int>,
)
    requires
        run(a, pool, slots, 0, s) is Some,
    ensures
        run(a + b, pool, slots, 0, s) == run(b, pool, slots, 0, run(a, pool, slots, 0, s)->Some_0),
{
    lemma_run_prefix(a, b, pool, slots, 0, s);
    lemma_run_suffix(a, b, pool, slots, 0, run(a, pool, slots, 0, s)->Some_0);
}

// ---------------------------------------------------------------------------
// What the code of an expression computes.
// ---------------------------------------------------------------------------

/// Pool `q` keeps every entry of pool `p` at its index.
pub open spec fn extends(p: Seq<ConstantV>, q: Seq<ConstantV>) -> bool {
    p.len() <= q.len() && q.subrange(0, p.len() as int) == p
}

/// Each variable with a value and a slot holds its value in its slot.
pub open spec fn slots_hold(locals: Seq<Seq<char>>, vals: Map<Seq<char>, int>, slots: Map<int, int>) -> bool {
    forall|n: Seq<char>|
        #[trigger] vals.contains_key(n) && local_index(locals, n) is Some ==> slots.contains_key(
            local_index(locals, n)->0 as int,
        ) && slots[local_index(locals, n)->0 as int] == vals[n]
}

/// Every variable holds an `int`.
pub open spec fn vals_in_i32(vals: Map<Seq<char>, int>) -> bool {
    forall|n: Seq<char>| #[trigger] vals.contains_key(n) ==> in_i32(vals[n])
}

pub proof fn lemma_extends_trans(p: Seq<ConstantV>, q: Seq<ConstantV>, r: Seq<ConstantV>)
    requires
        extends(p, q),
        extends(q, r),
    ensures
        extends(p, r),
{
    assert(r.subrange(0, p.len() as int) =~= r.subrange(0, q.len() as int).subrange(0, p.len() as int));
}

proof fn lemma_wrap_in_i32(x: int)
    ensures
        in_i32(wrap(x)),
{
    if !in_i32(x) {
        assert(0 <= (x - i32::MIN) % 0x1_0000_0000 < 0x1_0000_0000);
    }
}

/// Wrapping a difference of two `int` values gives zero only for zero.
proof fn lemma_wrap_zero(x: int)
    requires
        -0xFFFF_FFFF <= x <= 0xFFFF_FFFF,
    ensures
        (wrap(x) == 0) == (x == 0),
{
    let m: int = 0x1_0000_0000;
    if x > i32::MAX {
        let r = x - i32::MIN - m;
        lemma_mod_add_multiples_vanish(r, m);
        lemma_small_mod(r as nat, m as nat);
        assert(m + r == x - i32::MIN);
    } else if x < i32::MIN {
        let r = x - i32::MIN + m;
        lemma_mod_sub_multiples_vanish(r, m);
        lemma_small_mod(r as nat, m as nat);
        assert(-m + r == x - i32::MIN);
    }
}

pub proof fn lemma_value_in_i32(e: ExprV, vals: Map<Seq<char>, int>)
    requires
        simple_expr(e),
        vals_in_i32(vals),
    ensures
        in_i32(java_value(e, vals)),
    decreases e,
{
    if let ExprV::TypedExpr(inner, ty) = e {
        match *inner {
            ExprV::Binary(op, l, r) => {
                lemma_value_in_i32(*l, vals);
                lemma_value_in_i32(*r, vals);
                let (a, b) = (java_value(*l, vals), java_value(*r, vals));
                lemma_wrap_in_i32(a + b);
                lemma_wrap_in_i32(a - b);
                lemma_wrap_in_i32(a * b);
                lemma_wrap_in_i32(trunc_quot(a, b));
                lemma_wrap_in_i32(a - trunc_quot(a, b) * b);
            },
            ExprV::Unary(op, x) => {
                lemma_value_in_i32(*x, vals);
                lemma_wrap_in_i32(-java_value(*x, vals));
            },
            _ => {},
        }
    }
}

pub proof fn lemma_len_le_instrs_len(s: Seq<Instruction>)
    ensures
        s.len() <= instrs_len(s),
    decreases s.len(),
{
    if s.len() > 0 {
        lemma_len_le_instrs_len(s.drop_last());
        lemma_instr_len_bounds(s.last());
    }
}

/// Generating the code of a simple expression raises the stack depth by
/// one, keeps the local variables and keeps every pool entry.
pub proof fn lemma_gen_simple_frame(e: ExprV, st: GenState, cls: Seq<char>)
    requires
        simple_expr(e),
        gen_expr(e, st, cls) is Some,
    ensures
        gen_expr(e, st, cls)->Some_0.1.cur == st.cur + 1,
        gen_expr(e, st, cls)->Some_0.1.locals == st.locals,
        extends(st.pool, gen_expr(e, st, cls)->Some_0.1.pool),
    decreases e,
{
    assert(st.pool.subrange(0, st.pool.len() as int) =~= st.pool);
    if let ExprV::TypedExpr(inner, ty) = e {
        match *inner {
            ExprV::Integer(i) => {
                if !(-32768 <= i && i <= 32767) {
                    lemma_pool_add(st.pool, ConstantV::Integer(i));
                }
            },
            ExprV::Char(ch) => {
                let i = (ch as u32) as i32;
                if !(-32768 <= i && i <= 32767) {
                    lemma_pool_add(st.pool, ConstantV::Integer(i));
                }
            },
            ExprV::Binary(op, l, r) => {
                let (lc, s1) = gen_expr(*l, st, cls)->Some_0;
                lemma_gen_simple_frame(*l, st, cls);
                lemma_gen_simple_frame(*r, s1, cls);
                let s2 = gen_expr(*r, s1, cls)->Some_0.1;
                lemma_extends_trans(st.pool, s1.pool, s2.pool);
            },
            ExprV::Unary(op, x) => {
                lemma_gen_simple_frame(*x, st, cls);
            },
            _ => {},
        }
    }
}

/// Whether a conditional jump is taken on the value `v`.
pub open spec fn jump_taken(j: Instruction, v: int) -> bool {
    match j {
        Instruction::ifeq(_, _) => v == 0,
        Instruction::ifne(_, _) => v != 0,
        Instruction::iflt(_, _) => v < 0,
        _ => v >= 0,
    }
}

/// The first three instructions of the tail span eight bytes.
proof fn lemma_flag_tail_len(j: Instruction, first: i8, second: i8)
    requires
        j == Instruction::ifeq(8, 3) || j == Instruction::ifne(8, 3) || j == Instruction::iflt(8, 3) || j
            == Instruction::ifge(8, 3),
    ensures
        instrs_len(flag_tail(j, first, second).take(3)) == 8,
{
    let h = seq![j, Instruction::bipush(first), Instruction::goto(5, 2)];
    assert(flag_tail(j, first, second).take(3) =~= h);
    reveal_with_fuel(instrs_len, 4);
    assert(h.drop_last() =~= seq![j, Instruction::bipush(first)]);
    assert(h.drop_last().drop_last() =~= seq![j]);
    assert(seq![j].drop_last() =~= Seq::<Instruction>::empty());
}

/// The jump over the right operand of `&&` or `||` spans the bytes it
/// passes.
proof fn lemma_logic_jump_bytes(
    lc: Seq<Instruction>,
    rc: Seq<Instruction>,
    jmp: Instruction,
    ft: Seq<Instruction>,
    a: i16,
    b: i16,
)
    requires
        ft.len() == 4,
        instrs_len(ft.take(3)) == 8,
        jump_offsets(jmp) == Some((a, b)),
        a as int == 11 + instrs_len(rc),
        b as int == 4 + rc.len(),
    ensures
        jump_bytes_ok(lc + seq![jmp] + rc + ft, lc.len() as int),
{
    let code = lc + seq![jmp] + rc + ft;
    let n = lc.len() as int;
    assert(code[n] == jmp);
    assert(code.subrange(n, n + b) =~= (seq![jmp] + rc) + ft.take(3));
    lemma_instrs_len_append(seq![jmp] + rc, ft.take(3));
    lemma_instrs_len_append(seq![jmp], rc);
    reveal_with_fuel(instrs_len, 2);
    assert(seq![jmp].drop_last() =~= Seq::<Instruction>::empty());
}

/// The tail that turns a test into 0 or 1 pushes `second` where the jump is
/// taken and `first` where not.
proof fn lemma_flag_tail(j: Instruction, first: i8, second: i8, pool: Seq<ConstantV>, slots: Map<int, int>, s: Seq<int>, v: int)
    requires
        j == Instruction::ifeq(8, 3) || j == Instruction::ifne(8, 3) || j == Instruction::iflt(8, 3) || j
            == Instruction::ifge(8, 3),
    ensures
        run(flag_tail(j, first, second), pool, slots, 0, s.push(v)) == Some(
            s.push(if jump_taken(j, v) { second as int } else { first as int }),
        ),
{
    let t = flag_tail(j, first, second);
    assert(s.push(v).drop_last() =~= s);
    lemma_flag_tail_len(j, first, second);
    reveal_with_fuel(instrs_len, 4);
    assert(t.subrange(0, 3) =~= seq![j, Instruction::bipush(first), Instruction::goto(5, 2)]);
    assert(t.subrange(2, 4) =~= seq![Instruction::goto(5, 2), Instruction::bipush(second)]);
    assert(seq![j, Instruction::bipush(first), Instruction::goto(5, 2)].drop_last().drop_last() =~= seq![j]);
    assert(seq![j, Instruction::bipush(first), Instruction::goto(5, 2)].drop_last() =~= seq![j, Instruction::bipush(first)]);
    assert(seq![Instruction::goto(5, 2), Instruction::bipush(second)].drop_last() =~= seq![Instruction::goto(5, 2)]);
    assert(seq![j].drop_last() =~= Seq::<Instruction>::empty());
    assert(seq![Instruction::goto(5, 2)].drop_last() =~= Seq::<Instruction>::empty());
    assert(instrs_len(t.subrange(0, 3)) == 8);
    assert(instrs_len(t.subrange(2, 4)) == 5);
    if jump_taken(j, v) {
        assert(run(t, pool, slots, 3, s) == run(t, pool, slots, 4, s.push(second as int)));
    } else {
        assert(run(t, pool, slots, 2, s.push(first as int)) == run(t, pool, slots, 4, s.push(first as int)));
        assert(run(t, pool, slots, 1, s) == run(t, pool, slots, 2, s.push(first as int)));
    }
}

/// One arithmetic instruction on two values.
proof fn lemma_run_arith(i: Instruction, pool: Seq<ConstantV>, slots: Map<int, int>, s: Seq<int>, a: int, b: int)
    requires
        arith(i, a, b) is Some,
    ensures
        run(seq![i], pool, slots, 0, s.push(a).push(b)) == Some(s.push(arith(i, a, b)->Some_0)),
{
    let t = s.push(a).push(b);
    assert(t[t.len() - 2] == a);
    assert(t.drop_last().drop_last() =~= s);
    assert(run(seq![i], pool, slots, 1, s.push(arith(i, a, b)->Some_0)) == Some(s.push(arith(i, a, b)->Some_0)));
}

/// The arithmetic instruction of an arithmetic operator.
pub open spec fn arith_instr(op: BinaryOp) -> Instruction {
    match op {
        BinaryOp::Add => Instruction::iadd,
        BinaryOp::Sub => Instruction::isub,
        BinaryOp::Mul => Instruction::imul,
        BinaryOp::Div => Instruction::idiv,
        _ => Instruction::irem,
    }
}

/// `a - b - 1` as the comparison code computes it.
proof fn lemma_run_sub_one(pool: Seq<ConstantV>, slots: Map<int, int>, s: Seq<int>, a: int, b: int)
    ensures
        run(seq![Instruction::isub, Instruction::bipush(1), Instruction::isub], pool, slots, 0, s.push(a).push(b))
            == Some(s.push(wrap(wrap(a - b) - 1))),
{
    let w = wrap(a - b);
    let one = seq![Instruction::bipush(1)];
    let last = seq![Instruction::isub];
    assert(seq![Instruction::isub, Instruction::bipush(1), Instruction::isub] =~= seq![Instruction::isub] + (one
        + last));
    lemma_run_arith(Instruction::isub, pool, slots, s, a, b);
    lemma_run_seq(seq![Instruction::isub], one + last, pool, slots, s.push(a).push(b));
    assert(run(one, pool, slots, 1, s.push(w).push(1)) == Some(s.push(w).push(1)));
    lemma_run_seq(one, last, pool, slots, s.push(w));
    lemma_run_arith(Instruction::isub, pool, slots, s, w, 1);
}

/// The code of a binary operation leaves Java's value of the operation,
/// given what the code of each operand leaves; one lemma per kind of operator.
proof fn lemma_arith_run(
    bop: BinaryOp,
    lc: Seq<Instruction>,
    rc: Seq<Instruction>,
    code: Seq<Instruction>,
    pool: Seq<ConstantV>,
    slots: Map<int, int>,
    s: Seq<int>,
    vl: int,
    vr: int,
)
    requires
        binop_code(bop, lc, rc) == Some(code),
        run(lc, pool, slots, 0, s) == Some(s.push(vl)),
        in_i32(vl),
        in_i32(vr),
        bop is Add || bop is Sub || bop is Mul || bop is Div || bop is Mod,
        run(rc, pool, slots, 0, s.push(vl)) == Some(s.push(vl).push(vr)),
        binary_defined(bop, vl, vr),
    ensures
        run(code, pool, slots, 0, s) == Some(s.push(java_binary(bop, vl, vr))),
{
    let t = s.push(vl).push(vr);
    let isub = Instruction::isub;
    let i = arith_instr(bop);
    assert(code =~= lc + (rc + seq![i]));
    lemma_run_seq(lc, rc + seq![i], pool, slots, s);
    lemma_run_seq(rc, seq![i], pool, slots, s.push(vl));
    lemma_run_arith(i, pool, slots, s, vl, vr);
}

proof fn lemma_compare_run(
    bop: BinaryOp,
    lc: Seq<Instruction>,
    rc: Seq<Instruction>,
    code: Seq<Instruction>,
    pool: Seq<ConstantV>,
    slots: Map<int, int>,
    s: Seq<int>,
    vl: int,
    vr: int,
)
    requires
        binop_code(bop, lc, rc) == Some(code),
        run(lc, pool, slots, 0, s) == Some(s.push(vl)),
        in_i32(vl),
        in_i32(vr),
        bop is Lt || bop is Ge || bop is Eq || bop is Ne,
        run(rc, pool, slots, 0, s.push(vl)) == Some(s.push(vl).push(vr)),
        binary_defined(bop, vl, vr),
    ensures
        run(code, pool, slots, 0, s) == Some(s.push(java_binary(bop, vl, vr))),
{
    let t = s.push(vl).push(vr);
    let isub = Instruction::isub;
    let j = if bop is Lt {
        Instruction::iflt(8, 3)
    } else if bop is Ge {
        Instruction::ifge(8, 3)
    } else {
        Instruction::ifeq(8, 3)
    };
    let ft = if bop is Ne {
        flag_tail(j, 1, 0)
    } else {
        flag_tail(j, 0, 1)
    };
    assert(code =~= lc + (rc + (seq![isub] + ft)));
    lemma_run_seq(lc, rc + (seq![isub] + ft), pool, slots, s);
    lemma_run_seq(rc, seq![isub] + ft, pool, slots, s.push(vl));
    lemma_run_arith(isub, pool, slots, s, vl, vr);
    lemma_run_seq(seq![isub], ft, pool, slots, t);
    lemma_wrap_zero(vl - vr);
    if bop is Ne {
        lemma_flag_tail(j, 1, 0, pool, slots, s, wrap(vl - vr));
    } else {
        lemma_flag_tail(j, 0, 1, pool, slots, s, wrap(vl - vr));
    }}

proof fn lemma_compare_one_run(
    bop: BinaryOp,
    lc: Seq<Instruction>,
    rc: Seq<Instruction>,
    code: Seq<Instruction>,
    pool: Seq<ConstantV>,
    slots: Map<int, int>,
    s: Seq<int>,
    vl: int,
    vr: int,
)
    requires
        binop_code(bop, lc, rc) == Some(code),
        run(lc, pool, slots, 0, s) == Some(s.push(vl)),
        in_i32(vl),
        in_i32(vr),
        bop is Le || bop is Gt,
        run(rc, pool, slots, 0, s.push(vl)) == Some(s.push(vl).push(vr)),
        binary_defined(bop, vl, vr),
    ensures
        run(code, pool, slots, 0, s) == Some(s.push(java_binary(bop, vl, vr))),
{
    let t = s.push(vl).push(vr);
    let isub = Instruction::isub;
    let j = if bop is Le {
        Instruction::iflt(8, 3)
    } else {
        Instruction::ifge(8, 3)
    };
    let ft = flag_tail(j, 0, 1);
    let mid = seq![isub, Instruction::bipush(1), isub];
    assert(code =~= lc + (rc + (mid + ft)));
    lemma_run_seq(lc, rc + (mid + ft), pool, slots, s);
    lemma_run_seq(rc, mid + ft, pool, slots, s.push(vl));
    lemma_run_sub_one(pool, slots, s, vl, vr);
    lemma_run_seq(mid, ft, pool, slots, t);
    lemma_flag_tail(j, 0, 1, pool, slots, s, wrap(wrap(vl - vr) - 1));
}

proof fn lemma_logic_run(
    bop: BinaryOp,
    lc: Seq<Instruction>,
    rc: Seq<Instruction>,
    code: Seq<Instruction>,
    pool: Seq<ConstantV>,
    slots: Map<int, int>,
    s: Seq<int>,
    vl: int,
    vr: int,
)
    requires
        binop_code(bop, lc, rc) == Some(code),
        run(lc, pool, slots, 0, s) == Some(s.push(vl)),
        in_i32(vl),
        in_i32(vr),
        bop is And || bop is Or,
        (bop is And && vl == 0) || (bop is Or && vl != 0) || run(rc, pool, slots, 0, s) == Some(s.push(vr)),
    ensures
        run(code, pool, slots, 0, s) == Some(
            s.push(
                if bop is And && vl == 0 {
                    0
                } else if bop is Or && vl != 0 {
                    1
                } else {
                    java_binary(bop, vl, vr)
                },
            ),
        ),
{
    let t = s.push(vl).push(vr);
    let isub = Instruction::isub;
    let rl = len_i16(rc)->Some_0;
    let a = chk(11 + rl)->Some_0;
    let b = chk(4 + count_i16(rc))->Some_0;
    let jmp = if bop is And {
        Instruction::ifeq(a, b)
    } else {
        Instruction::ifne(a, b)
    };
    let tj = if bop is And {
        Instruction::ifeq(8, 3)
    } else {
        Instruction::ifne(8, 3)
    };
    let ft = if bop is And {
        flag_tail(tj, 1, 0)
    } else {
        flag_tail(tj, 0, 1)
    };
    lemma_len_le_instrs_len(rc);
    assert(b as int == 4 + rc.len());
    lemma_flag_tail_len(tj, if bop is And { 1 } else { 0 }, if bop is And { 0 } else { 1 });
    lemma_logic_jump_bytes(lc, rc, jmp, ft, a, b);
    let rest = seq![jmp] + rc + ft;
    assert(code =~= lc + rest);
    lemma_run_prefix(lc, rest, pool, slots, 0, s);
    let n = lc.len() as int;
    assert(code[n] == jmp);
    assert(s.push(vl).drop_last() =~= s);
    if (bop is And && vl == 0) || (bop is Or && vl != 0) {
        assert(code[n + b] == ft[3]);
        let k: int = if bop is And {
            0
        } else {
            1
        };
        assert(run(code, pool, slots, n + b + 1, s.push(k)) == Some(s.push(k)));
        assert(run(code, pool, slots, n + b, s) == Some(s.push(k)));
        assert(run(code, pool, slots, n, s.push(vl)) == run(code, pool, slots, n + b, s));
    } else {
        assert(run(code, pool, slots, n, s.push(vl)) == run(code, pool, slots, n + 1, s));
        assert(code =~= (lc + seq![jmp]) + (rc + ft));
        lemma_run_suffix(lc + seq![jmp], rc + ft, pool, slots, 0, s);
        lemma_run_seq(rc, ft, pool, slots, s);
        if bop is And {
            lemma_flag_tail(tj, 1, 0, pool, slots, s, vr);
        } else {
            lemma_flag_tail(tj, 0, 1, pool, slots, s, vr);
        }
    }}

/// The code of an integer literal pushes it.
proof fn lemma_gen_int_run(i: i32, st: GenState, pool: Seq<ConstantV>, slots: Map<int, int>, s: Seq<int>)
    requires
        gen_int(i, st) is Some,
        extends(gen_int(i, st)->Some_0.1.pool, pool),
    ensures
        run(gen_int(i, st)->Some_0.0, pool, slots, 0, s) == Some(s.push(i as int)),
{
    let code = gen_int(i, st)->Some_0.0;
    if -128 <= i && i <= 127 {
        assert(code == seq![Instruction::bipush(i as i8)]);
        assert((i as i8) as int == i as int);
    } else if -32768 <= i && i <= 32767 {
        assert(code == seq![Instruction::sipush(i as i16)]);
        assert((i as i16) as int == i as int);
    } else {
        let c = ConstantV::Integer(i);
        lemma_pool_add(st.pool, c);
        law_add_then_index_of(st.pool, c);
        let p2 = pool_add(st.pool, c);
        let k = super::constant_pool::add_index(st.pool, c);
        assert(code == seq![Instruction::ldc(k as u8)]);
        assert(pool.subrange(0, p2.len() as int)[k - 1] == pool[k - 1]);
        assert(pool[k - 1] == c);
    }
    assert(run(code, pool, slots, 1, s.push(i as int)) == Some(s.push(i as int)));
}

/// The code generated for a simple expression computes its Java value:
/// run from any operand stack, with each variable's value in its slot and a
/// constant pool that keeps what generation added, it leaves the stack with
/// exactly that value pushed, wherever Java evaluates the expression without
/// a division by zero and the comparisons stay within `binary_defined`.
pub proof fn law_expr_code_computes_value(
    e: ExprV,
    st: GenState,
    cls: Seq<char>,
    pool: Seq<ConstantV>,
    slots: Map<int, int>,
    vals: Map<Seq<char>, int>,
    s: Seq<int>,
)
    requires
        simple_expr(e),
        gen_expr(e, st, cls) is Some,
        java_defined(e, vals),
        vals_in_i32(vals),
        slots_hold(st.locals, vals, slots),
        extends(gen_expr(e, st, cls)->Some_0.1.pool, pool),
    ensures
        run(gen_expr(e, st, cls)->Some_0.0, pool, slots, 0, s) == Some(s.push(java_value(e, vals))),
        gen_expr(e, st, cls)->Some_0.1.cur == st.cur + 1,
    decreases e,
{
    lemma_gen_simple_frame(e, st, cls);
    let code = gen_expr(e, st, cls)->Some_0.0;
    if let ExprV::TypedExpr(inner, ty) = e {
        match *inner {
            ExprV::Integer(i) => {
                lemma_gen_int_run(i, st, pool, slots, s);
            },
            ExprV::Char(ch) => {
                let i = (ch as u32) as i32;
                assert(i as int == ch as u32 as int);
                lemma_gen_int_run(i, st, pool, slots, s);
            },
            ExprV::Bool(b) => {
                assert(run(code, pool, slots, 1, s.push(flag(b))) == Some(s.push(flag(b))));
                assert(run(code, pool, slots, 0, s) == Some(s.push(java_value(e, vals))));
            },
            ExprV::LocalVar(n) => {
                assert(vals.contains_key(n));
                assert(run(code, pool, slots, 1, s.push(vals[n])) == Some(s.push(vals[n])));
                assert(run(code, pool, slots, 0, s) == Some(s.push(java_value(e, vals))));
            },
            ExprV::Binary(op, l, r) => {
                let (lc, s1) = gen_expr(*l, st, cls)->Some_0;
                let (rc, s2) = gen_expr(*r, s1, cls)->Some_0;
                lemma_gen_simple_frame(*l, st, cls);
                lemma_gen_simple_frame(*r, s1, cls);
                lemma_extends_trans(s1.pool, s2.pool, pool);
                law_expr_code_computes_value(*l, st, cls, pool, slots, vals, s);
                let vl = java_value(*l, vals);
                let vr = java_value(*r, vals);
                lemma_value_in_i32(*l, vals);
                lemma_value_in_i32(*r, vals);
                let bop = binary_op_of(op)->Some_0;
                if !((bop is And && vl == 0) || (bop is Or && vl != 0)) {
                    law_expr_code_computes_value(*r, s1, cls, pool, slots, vals, s.push(vl));
                    law_expr_code_computes_value(*r, s1, cls, pool, slots, vals, s);
                }
                if bop is And || bop is Or {
                    lemma_logic_run(bop, lc, rc, code, pool, slots, s, vl, vr);
                } else if bop is Le || bop is Gt {
                    lemma_compare_one_run(bop, lc, rc, code, pool, slots, s, vl, vr);
                } else if bop is Lt || bop is Ge || bop is Eq || bop is Ne {
                    lemma_compare_run(bop, lc, rc, code, pool, slots, s, vl, vr);
                } else {
                    lemma_arith_run(bop, lc, rc, code, pool, slots, s, vl, vr);
                }
                assert(run(code, pool, slots, 0, s) == Some(s.push(java_value(e, vals))));
            },
            ExprV::Unary(op, x) => {
                let (c, s1) = gen_expr(*x, st, cls)->Some_0;
                law_expr_code_computes_value(*x, st, cls, pool, slots, vals, s);
                let v = java_value(*x, vals);
                lemma_value_in_i32(*x, vals);
                match unary_op_of(op)->Some_0 {
                    UnaryOp::Not => {
                        let ft = flag_tail(Instruction::ifne(8, 3), 1, 0);
                        lemma_run_seq(c, ft, pool, slots, s);
                        lemma_flag_tail(Instruction::ifne(8, 3), 1, 0, pool, slots, s, v);
                    },
                    UnaryOp::Neg => {
                        lemma_run_seq(c, seq![Instruction::ineg], pool, slots, s);
                        assert(s.push(v).drop_last() =~= s);
                        assert(run(seq![Instruction::ineg], pool, slots, 1, s.push(wrap(-v))) == Some(
                            s.push(wrap(-v)),
                        ));
                    },
                    UnaryOp::Pos => {},
                }
                assert(run(code, pool, slots, 0, s) == Some(s.push(java_value(e, vals))));
            },
            _ => {},
        }
    }
}

} // verus!
