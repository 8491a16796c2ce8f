use vstd::prelude::*;
use crate::types::{ExprV, StmtV};
use super::constant_pool::ConstantV;
use super::gen_spec::{GenState, gen_expr, gen_stmt, while_code, chk, len_i16, count_i16, st_dec};
use super::instruction::{Instruction, instrs_len, lemma_instrs_len_append};
use super::semantics::{
    step, jump_bytes_ok, jump_offsets, simple_expr, java_value, java_defined, extends, slots_hold, vals_in_i32,
    lemma_gen_simple_frame, lemma_extends_trans, lemma_len_le_instrs_len,
};
use super::stmt_semantics::{
    Outcome, JavaOutcome, exec, simple_stmt, java_exec, stmt_defined, vals_named, runs_as, prefix_of,
    law_stmt_code_runs_as_java, lemma_gen_stmt_frame, lemma_expr_exec,
};

verus! {

// ---------------------------------------------------------------------------
// Running code with jumps in both directions.
// ---------------------------------------------------------------------------

/// A jump at `pc` stays within the code, and its byte offset spans exactly
/// the bytes between the jump and its target: forward, the instructions it
/// passes; backward, the instructions from the target up to the jump,
/// negated.
pub open spec fn jump_ok(code: Seq<Instruction>, pc: int) -> bool {
    match jump_offsets(code[pc]) {
        Some((b, d)) => 0 <= pc + d <= code.len() && if d >= 0 {
            b as int == instrs_len(code.subrange(pc, pc + d))
        } else {
            b as int == -instrs_len(code.subrange(pc + d, pc))
        },
        None => true,
    }
}

/// Runs `code` from instruction `pc` for at most `n` instructions, as
/// `exec` does but following jumps backward too: how the run ends and the
/// instructions left to run. `None` where the run does not end within `n`
/// instructions or an instruction cannot run.
pub open spec fn exec_fuel(
    code: Seq<Instruction>,
    pool: Seq<ConstantV>,
    pc: int,
    s: Seq<int>,
    slots: Map<int, int>,
    n: nat,
) -> Option<(Outcome, nat)>
    decreases n,
{
    if pc < 0 || pc > code.len() {
        None
    } else if pc == code.len() {
        Some((Outcome::Normal(s, slots), n))
    } else if n == 0 {
        None
    } else {
        match code[pc] {
            Instruction::istore(k) => if s.len() >= 1 {
                exec_fuel(code, pool, pc + 1, s.drop_last(), slots.insert(k as int, s.last()), (n - 1) as nat)
            } else {
                None
            },
            Instruction::ireturn => if s.len() >= 1 {
                Some((Outcome::Returned(s.last()), (n - 1) as nat))
            } else {
                None
            },
            _ => match step(code[pc], pool, slots, s) {
                Some((d, s2)) => if 0 <= pc + d <= code.len() && jump_ok(code, pc) {
                    exec_fuel(code, pool, pc + d, s2, slots, (n - 1) as nat)
                } else {
                    None
                },
                None => None,
            },
        }
    }
}

/// How many instructions `exec` runs.
pub open spec fn exec_steps(code: Seq<Instruction>, pool: Seq<ConstantV>, pc: int, s: Seq<int>, slots: Map<int, int>) -> nat
    decreases code.len() - pc,
{
    if pc < 0 || pc >= code.len() {
        0
    } else {
        match code[pc] {
            Instruction::istore(k) => if s.len() >= 1 {
                1 + exec_steps(code, pool, pc + 1, s.drop_last(), slots.insert(k as int, s.last()))
            } else {
                0
            },
            Instruction::ireturn => 1,
            _ => match step(code[pc], pool, slots, s) {
                Some((d, s2)) => if d > 0 && pc + d <= code.len() {
                    1 + exec_steps(code, pool, pc + d, s2, slots)
                } else {
                    0
                },
                None => 0,
            },
        }
    }
}

/// Code that `exec` runs to an end, standing at offset `a.len()` inside
/// `a + x + b`, runs the same way there with enough instructions to spare.
proof fn lemma_exec_embed(
    a: Seq<Instruction>,
    x: Seq<Instruction>,
    b: Seq<Instruction>,
    pool: Seq<ConstantV>,
    pc: int,
    s: Seq<int>,
    slots: Map<int, int>,
    n: nat,
)
    requires
        0 <= pc <= x.len(),
        exec(x, pool, pc, s, slots) is Some,
        n >= exec_steps(x, pool, pc, s, slots),
    ensures
        match exec(x, pool, pc, s, slots)->Some_0 {
            Outcome::Normal(s2, sl2) => exec_fuel(a + x + b, pool, a.len() + pc, s, slots, n) == exec_fuel(
                a + x + b,
                pool,
                (a.len() + x.len()) as int,
                s2,
                sl2,
                (n - exec_steps(x, pool, pc, s, slots)) as nat,
            ),
            Outcome::Returned(v) => exec_fuel(a + x + b, pool, a.len() + pc, s, slots, n) == Some(
                (Outcome::Returned(v), (n - exec_steps(x, pool, pc, s, slots)) as nat),
            ),
        },
    decreases x.len() - pc,
{
    let w = a + x + b;
    if pc < x.len() {
        assert(w[a.len() + pc] == x[pc]);
        match x[pc] {
            Instruction::istore(k) => {
                lemma_exec_embed(a, x, b, pool, pc + 1, s.drop_last(), slots.insert(k as int, s.last()), (n - 1) as nat);
            },
            Instruction::ireturn => {},
            _ => {
                let (d, s2) = step(x[pc], pool, slots, s)->Some_0;
                if let Some((_, e)) = jump_offsets(x[pc]) {
                    assert(w.subrange(a.len() + pc, a.len() + pc + e) =~= x.subrange(pc, pc + e));
                }
                assert(jump_ok(w, a.len() + pc));
                lemma_exec_embed(a, x, b, pool, pc + d, s2, slots, (n - 1) as nat);
            },
        }
    }
}

// ---------------------------------------------------------------------------
// `while` loops.
// ---------------------------------------------------------------------------

/// What a `while` loop does in Java, running its body at most `f` times:
/// `None` where it runs longer.
pub open spec fn java_while(c: ExprV, body: StmtV, vals: Map<Seq<char>, int>, f: nat) -> Option<JavaOutcome>
    decreases f,
{
    if java_value(c, vals) == 0 {
        Some(JavaOutcome::Normal(vals))
    } else if f == 0 {
        None
    } else {
        match java_exec(body, vals) {
            JavaOutcome::Normal(v2) => java_while(c, body, v2, (f - 1) as nat),
            JavaOutcome::Returned(r) => Some(JavaOutcome::Returned(r)),
        }
    }
}

/// Every expression that Java evaluates while running the loop at most `f`
/// times is `java_defined`.
pub open spec fn while_defined(c: ExprV, body: StmtV, vals: Map<Seq<char>, int>, f: nat) -> bool
    decreases f,
{
    java_defined(c, vals) && (java_value(c, vals) != 0 ==> f > 0 && stmt_defined(body, vals) && match java_exec(
        body,
        vals,
    ) {
        JavaOutcome::Normal(v2) => while_defined(c, body, v2, (f - 1) as nat),
        JavaOutcome::Returned(_) => true,
    })
}

/// How a run with spare instructions ends, as Java's statement does.
pub open spec fn fuel_runs_as(r: Option<(Outcome, nat)>, locals_after: Seq<Seq<char>>, stk: Seq<int>, j: JavaOutcome) -> bool {
    match j {
        JavaOutcome::Normal(v2) => r matches Some((Outcome::Normal(s2, sl2), _)) && s2 == stk && slots_hold(
            locals_after,
            v2,
            sl2,
        ) && vals_named(locals_after, v2) && vals_in_i32(v2),
        JavaOutcome::Returned(v) => r matches Some((Outcome::Returned(w), _)) && w == v,
    }
}

/// The parts of a loop and of its code.
pub open spec fn loop_parts(s: StmtV, st: GenState, cls: Seq<char>, is_last: bool) -> (
    ExprV,
    StmtV,
    Seq<Instruction>,
    GenState,
    Seq<Instruction>,
    GenState,
) {
    let inner = s->TypedStmt_0;
    let c = inner->While_0;
    let body = *inner->While_1;
    let (cc, s1) = gen_expr(c, st, cls)->Some_0;
    let s2 = st_dec(s1, 1)->Some_0;
    let (bc, s3) = gen_stmt(body, s2, cls, is_last)->Some_0;
    (c, body, cc, s2, bc, s3)
}

/// The exit jump and the jump back of a loop's code.
pub open spec fn loop_jumps(cc: Seq<Instruction>, bc: Seq<Instruction>) -> (Instruction, Instruction) {
    let cl = len_i16(cc)->Some_0;
    let bl = len_i16(bc)->Some_0;
    (
        Instruction::ifeq(chk(6 + bl)->Some_0, chk(count_i16(bc) + 2)->Some_0),
        Instruction::goto(chk(-3 - bl - cl)->Some_0, chk(-count_i16(bc) - 1 - count_i16(cc))->Some_0),
    )
}

/// The code of a loop: the condition, the exit jump past the loop, the body
/// and the jump back to the condition, each jump with its byte offset.
proof fn lemma_loop_shape(s: StmtV, st: GenState, cls: Seq<char>, is_last: bool)
    requires
        s matches StmtV::TypedStmt(inner, _) && *inner is While,
        gen_stmt(s, st, cls, is_last) is Some,
    ensures
        ({
            let (c, body, cc, s2, bc, s3) = loop_parts(s, st, cls, is_last);
            let (jz, back) = loop_jumps(cc, bc);
            let code = gen_stmt(s, st, cls, is_last)->Some_0.0;
            &&& gen_expr(c, st, cls) is Some
            &&& st_dec(gen_expr(c, st, cls)->Some_0.1, 1) is Some
            &&& gen_stmt(body, s2, cls, is_last) is Some
            &&& gen_stmt(s, st, cls, is_last)->Some_0.1 == s3
            &&& code == cc + seq![jz] + bc + seq![back]
            &&& jz matches Instruction::ifeq(_, d) && d == bc.len() + 2
            &&& back matches Instruction::goto(_, d) && d == -(cc.len() + 1 + bc.len())
            &&& jump_ok(code, cc.len() as int)
            &&& jump_ok(code, (cc.len() + 1 + bc.len()) as int)
        }),
{
    let (c, body, cc, s2, bc, s3) = loop_parts(s, st, cls, is_last);
    let (jz, back) = loop_jumps(cc, bc);
    let code = gen_stmt(s, st, cls, is_last)->Some_0.0;
    lemma_len_le_instrs_len(cc);
    lemma_len_le_instrs_len(bc);
    let pj = cc.len() as int;
    let pg = (cc.len() + 1 + bc.len()) as int;
    assert(code[pj] == jz);
    assert(code.subrange(pj, pj + bc.len() + 2) =~= seq![jz] + bc + seq![back]);
    lemma_instrs_len_append(seq![jz] + bc, seq![back]);
    lemma_instrs_len_append(seq![jz], bc);
    assert(code[pg] == back);
    assert(code.subrange(0, pg) =~= (cc + seq![jz]) + bc);
    lemma_instrs_len_append(cc + seq![jz], bc);
    lemma_instrs_len_append(cc, seq![jz]);
    reveal_with_fuel(instrs_len, 2);
    assert(seq![jz].drop_last() =~= Seq::<Instruction>::empty());
    assert(seq![back].drop_last() =~= Seq::<Instruction>::empty());
}

/// Running a loop's code once round: the condition, then past the loop
/// where it is 0, else the body and back to the start.
proof fn lemma_loop_round(
    cc: Seq<Instruction>,
    bc: Seq<Instruction>,
    jz: Instruction,
    back: Instruction,
    pool: Seq<ConstantV>,
    stk: Seq<int>,
    slots: Map<int, int>,
    vc: int,
    k: nat,
)
    requires
        jz matches Instruction::ifeq(_, d) && d == bc.len() + 2,
        back matches Instruction::goto(_, d) && d == -(cc.len() + 1 + bc.len()),
        jump_ok(cc + seq![jz] + bc + seq![back], cc.len() as int),
        jump_ok(cc + seq![jz] + bc + seq![back], (cc.len() + 1 + bc.len()) as int),
        exec(cc, pool, 0, stk, slots) == Some(Outcome::Normal(stk.push(vc), slots)),
        vc != 0 ==> exec(bc, pool, 0, stk, slots) is Some,
    ensures
        ({
            let code = cc + seq![jz] + bc + seq![back];
            let ec = exec_steps(cc, pool, 0, stk, slots);
            let eb = exec_steps(bc, pool, 0, stk, slots);
            &&& vc == 0 ==> exec_fuel(code, pool, 0, stk, slots, ec + 1 + k) == Some(
                (Outcome::Normal(stk, slots), k),
            )
            &&& vc != 0 ==> match exec(bc, pool, 0, stk, slots)->Some_0 {
                Outcome::Normal(s2, sl2) => exec_fuel(code, pool, 0, stk, slots, ec + 1 + eb + 1 + k)
                    == exec_fuel(code, pool, 0, s2, sl2, k),
                Outcome::Returned(v) => exec_fuel(code, pool, 0, stk, slots, ec + 1 + eb + k) == Some(
                    (Outcome::Returned(v), k),
                ),
            }
        }),
{
    let code = cc + seq![jz] + bc + seq![back];
    let ec = exec_steps(cc, pool, 0, stk, slots);
    let eb = exec_steps(bc, pool, 0, stk, slots);
    let pj = cc.len() as int;
    let pg = (cc.len() + 1 + bc.len()) as int;
    let rest = seq![jz] + bc + seq![back];
    assert(code =~= Seq::<Instruction>::empty() + cc + rest);
    assert(code[pj] == jz);
    assert(stk.push(vc).drop_last() =~= stk);
    if vc == 0 {
        lemma_exec_embed(Seq::empty(), cc, rest, pool, 0, stk, slots, ec + 1 + k);
        assert(exec_fuel(code, pool, pj, stk.push(vc), slots, 1 + k) == exec_fuel(
            code,
            pool,
            code.len() as int,
            stk,
            slots,
            k,
        ));
    } else {
        assert(code =~= (cc + seq![jz]) + bc + seq![back]);
        assert(code[pg] == back);
        match exec(bc, pool, 0, stk, slots)->Some_0 {
            Outcome::Normal(s2, sl2) => {
                lemma_exec_embed(Seq::empty(), cc, rest, pool, 0, stk, slots, ec + 1 + eb + 1 + k);
                lemma_exec_embed(cc + seq![jz], bc, seq![back], pool, 0, stk, slots, eb + 1 + k);
                assert(exec_fuel(code, pool, pj, stk.push(vc), slots, 1 + eb + 1 + k) == exec_fuel(
                    code,
                    pool,
                    pj + 1,
                    stk,
                    slots,
                    eb + 1 + k,
                ));
                assert(exec_fuel(code, pool, pg, s2, sl2, 1 + k) == exec_fuel(code, pool, 0, s2, sl2, k));
            },
            Outcome::Returned(v) => {
                lemma_exec_embed(Seq::empty(), cc, rest, pool, 0, stk, slots, ec + 1 + eb + k);
                lemma_exec_embed(cc + seq![jz], bc, seq![back], pool, 0, stk, slots, eb + k);
                assert(exec_fuel(code, pool, pj, stk.push(vc), slots, 1 + eb + k) == exec_fuel(
                    code,
                    pool,
                    pj + 1,
                    stk,
                    slots,
                    eb + k,
                ));
            },
        }
    }
}

/// The code of a simple `while` loop whose body adds no local variable does
/// what Java does: wherever Java's loop ends within `f` runs of its body,
/// with the expressions it evaluates `java_defined`, the code, run from any
/// operand stack with each variable that has a value in its slot and a pool
/// that keeps what generation added, ends in some number of instructions as
/// Java's loop does: it returns the same value, or it ends with the operand
/// stack as it was and each variable holding, in its slot, Java's value.
pub proof fn law_while_code_runs_as_java(
    s: StmtV,
    st: GenState,
    cls: Seq<char>,
    is_last: bool,
    pool: Seq<ConstantV>,
    slots: Map<int, int>,
    vals: Map<Seq<char>, int>,
    stk: Seq<int>,
    f: nat,
)
    requires
        s matches StmtV::TypedStmt(inner, _) && *inner is While,
        gen_stmt(s, st, cls, is_last) is Some,
        simple_expr(loop_parts(s, st, cls, is_last).0),
        simple_stmt(loop_parts(s, st, cls, is_last).1),
        loop_parts(s, st, cls, is_last).5.locals == st.locals,
        java_while(loop_parts(s, st, cls, is_last).0, loop_parts(s, st, cls, is_last).1, vals, f) is Some,
        while_defined(loop_parts(s, st, cls, is_last).0, loop_parts(s, st, cls, is_last).1, vals, f),
        vals_in_i32(vals),
        slots_hold(st.locals, vals, slots),
        vals_named(st.locals, vals),
        extends(gen_stmt(s, st, cls, is_last)->Some_0.1.pool, pool),
    ensures
        exists|n: nat|
            fuel_runs_as(
                #[trigger] exec_fuel(gen_stmt(s, st, cls, is_last)->Some_0.0, pool, 0, stk, slots, n),
                gen_stmt(s, st, cls, is_last)->Some_0.1.locals,
                stk,
                java_while(loop_parts(s, st, cls, is_last).0, loop_parts(s, st, cls, is_last).1, vals, f)->Some_0,
            ),
    decreases f,
{
    let (c, body, cc, s2, bc, s3) = loop_parts(s, st, cls, is_last);
    let (jz, back) = loop_jumps(cc, bc);
    lemma_loop_shape(s, st, cls, is_last);
    let (code, st2) = gen_stmt(s, st, cls, is_last)->Some_0;
    lemma_gen_simple_frame(c, st, cls);
    lemma_gen_stmt_frame(body, s2, cls, is_last);
    lemma_extends_trans(s2.pool, s3.pool, pool);
    lemma_expr_exec(c, st, cls, pool, slots, vals, stk);
    let vc = java_value(c, vals);
    let ec = exec_steps(cc, pool, 0, stk, slots);
    let j = java_while(c, body, vals, f)->Some_0;
    if vc == 0 {
        lemma_loop_round(cc, bc, jz, back, pool, stk, slots, vc, 0);
        assert(fuel_runs_as(exec_fuel(code, pool, 0, stk, slots, ec + 1), st2.locals, stk, j));
    } else {
        law_stmt_code_runs_as_java(body, s2, cls, is_last, pool, slots, vals, stk);
        let eb = exec_steps(bc, pool, 0, stk, slots);
        match java_exec(body, vals) {
            JavaOutcome::Returned(r) => {
                lemma_loop_round(cc, bc, jz, back, pool, stk, slots, vc, 0);
                assert(fuel_runs_as(exec_fuel(code, pool, 0, stk, slots, ec + 1 + eb), st2.locals, stk, j));
            },
            JavaOutcome::Normal(v2) => {
                let sl2 = exec(bc, pool, 0, stk, slots)->Some_0->Normal_1;
                law_while_code_runs_as_java(s, st, cls, is_last, pool, sl2, v2, stk, (f - 1) as nat);
                let m = choose|m: nat|
                    fuel_runs_as(
                        #[trigger] exec_fuel(code, pool, 0, stk, sl2, m),
                        st2.locals,
                        stk,
                        java_while(c, body, v2, (f - 1) as nat)->Some_0,
                    );
                lemma_loop_round(cc, bc, jz, back, pool, stk, slots, vc, m);
                assert(fuel_runs_as(exec_fuel(code, pool, 0, stk, slots, ec + 1 + eb + 1 + m), st2.locals, stk, j));
            },
        }
    }
}

} // verus!
