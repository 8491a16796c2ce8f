use vstd::prelude::*;
use crate::types::{ExprV, StmtExprV, StmtV, TypeV};
use crate::typechecker::spec::{always_returns, last_returns};
use super::constant_pool::ConstantV;
use super::gen_spec::{GenState, gen_expr, gen_stmt, gen_block, chk, len_i16, count_i16, st_dec, name_index, local_index};
use super::instruction::{Instruction, instrs_len, lemma_instrs_len_append};
use super::ir::lemma_name_index;
use super::semantics::{
    step, run, jump_bytes_ok, jump_offsets, simple_expr, java_value, java_defined, in_i32, extends, slots_hold,
    vals_in_i32, law_expr_code_computes_value, lemma_gen_simple_frame, lemma_value_in_i32, lemma_extends_trans,
    lemma_len_le_instrs_len,
};

verus! {

// ---------------------------------------------------------------------------
// Running statements: stores into local variable slots and returns.
// ---------------------------------------------------------------------------

/// How running code ends: control leaves at the end with an operand stack
/// and local variable slots, or a return instruction hands back a value.
pub enum Outcome {
    Normal(Seq<int>, Map<int, int>),
    Returned(int),
}

/// Runs `code` from instruction `pc` as `run` does, where `istore` also
/// writes a local variable slot and `ireturn` ends the run with the value
/// on top of the stack.
pub open spec fn exec(code: Seq<Instruction>, pool: Seq<ConstantV>, pc: int, s: Seq<int>, slots: Map<int, int>) -> Option<
    Outcome,
>
    decreases code.len() - pc,
{
    if pc < 0 || pc > code.len() {
        None
    } else if pc == code.len() {
        Some(Outcome::Normal(s, slots))
    } else {
        match code[pc] {
            Instruction::istore(k) => if s.len() >= 1 {
                exec(code, pool, pc + 1, s.drop_last(), slots.insert(k as int, s.last()))
            } else {
                None
            },
            Instruction::ireturn => if s.len() >= 1 {
                Some(Outcome::Returned(s.last()))
            } else {
                None
            },
            _ => match step(code[pc], pool, slots, s) {
                Some((d, s2)) => if d > 0 && pc + d <= code.len() && jump_bytes_ok(code, pc) {
                    exec(code, pool, pc + d, s2, slots)
                } else {
                    None
                },
                None => None,
            },
        }
    }
}

/// What running a first part and then a second gives, from how the first
/// part ends.
pub open spec fn then_exec(first: Outcome, b: Seq<Instruction>, pool: Seq<ConstantV>) -> Option<Outcome> {
    match first {
        Outcome::Normal(s, slots) => exec(b, pool, 0, s, slots),
        Outcome::Returned(v) => Some(Outcome::Returned(v)),
    }
}

proof fn lemma_exec_prefix(
    a: Seq<Instruction>,
    b: Seq<Instruction>,
    pool: Seq<ConstantV>,
    pc: int,
    s: Seq<int>,
    slots: Map<int, int>,
)
    requires
        0 <= pc <= a.len(),
        exec(a, pool, pc, s, slots) is Some,
    ensures
        exec(a + b, pool, pc, s, slots) == match exec(a, pool, pc, s, slots)->Some_0 {
            Outcome::Normal(s2, sl2) => exec(a + b, pool, a.len() as int, s2, sl2),
            Outcome::Returned(v) => Some(Outcome::Returned(v)),
        },
    decreases a.len() - pc,
{
    if pc < a.len() {
        assert((a + b)[pc] == a[pc]);
        match a[pc] {
            Instruction::istore(k) => {
                lemma_exec_prefix(a, b, pool, pc + 1, s.drop_last(), slots.insert(k as int, s.last()));
            },
            Instruction::ireturn => {},
            _ => {
                let (d, s2) = step(a[pc], pool, slots, s)->Some_0;
                if let Some((_, e)) = jump_offsets(a[pc]) {
                    assert((a + b).subrange(pc, pc + e) =~= a.subrange(pc, pc + e));
                }
                lemma_exec_prefix(a, b, pool, pc + d, s2, slots);
            },
        }
    }
}

proof fn lemma_exec_suffix(
    a: Seq<Instruction>,
    b: Seq<Instruction>,
    pool: Seq<ConstantV>,
    pc: int,
    s: Seq<int>,
    slots: Map<int, int>,
)
    requires
        0 <= pc <= b.len(),
    ensures
        exec(a + b, pool, a.len() + pc, s, slots) == exec(b, pool, pc, s, slots),
    decreases b.len() - pc,
{
    if pc < b.len() {
        assert((a + b)[a.len() + pc] == b[pc]);
        match b[pc] {
            Instruction::istore(k) => {
                lemma_exec_suffix(a, b, pool, pc + 1, s.drop_last(), slots.insert(k as int, s.last()));
            },
            Instruction::ireturn => {},
            _ => {
                match step(b[pc], pool, slots, s) {
                    Some((d, s2)) => {
                        if let Some((_, e)) = jump_offsets(b[pc]) {
                            if 0 < e && pc + e <= b.len() {
                                assert((a + b).subrange(a.len() + pc, a.len() + pc + e) =~= b.subrange(pc, pc + e));
                            }
                        }
                        if d > 0 && pc + d <= b.len() {
                            lemma_exec_suffix(a, b, pool, pc + d, s2, slots);
                        }
                    },
                    None => {},
                }
            },
        }
    }
}

/// Running a concatenation: the first part, then the second from where the
/// first left off, unless the first returned.
pub proof fn lemma_exec_seq(a: Seq<Instruction>, b: Seq<Instruction>, pool: Seq<ConstantV>, s: Seq<int>, slots: Map<int, int>)
    requires
        exec(a, pool, 0, s, slots) is Some,
    ensures
        exec(a + b, pool, 0, s, slots) == then_exec(exec(a, pool, 0, s, slots)->Some_0, b, pool),
{
    lemma_exec_prefix(a, b, pool, 0, s, slots);
    if let Outcome::Normal(s2, sl2) = exec(a, pool, 0, s, slots)->Some_0 {
        lemma_exec_suffix(a, b, pool, 0, s2, sl2);
    }
}

/// Code that runs to its end without stores runs the same way here.
proof fn lemma_run_exec(a: Seq<Instruction>, pool: Seq<ConstantV>, pc: int, s: Seq<int>, slots: Map<int, int>)
    requires
        0 <= pc <= a.len(),
        run(a, pool, slots, pc, s) is Some,
    ensures
        exec(a, pool, pc, s, slots) == Some(Outcome::Normal(run(a, pool, slots, pc, s)->Some_0, slots)),
    decreases a.len() - pc,
{
    if pc < a.len() {
        let (d, s2) = step(a[pc], pool, slots, s)->Some_0;
        lemma_run_exec(a, pool, pc + d, s2, slots);
    }
}

// ---------------------------------------------------------------------------
// Statements over integer and boolean local variables, and what Java does.
// ---------------------------------------------------------------------------

/// A local variable type held in an `int` slot.
pub open spec fn int_like(t: TypeV) -> bool {
    t is Int || t is Bool || t is Char
}

/// A typed statement built from blocks, declarations of `int`, `boolean` or
/// `char` local variables, assignments of simple expressions to them,
/// `if` with or without `else`, and `return` of a simple expression.
pub open spec fn simple_stmt(s: StmtV) -> bool
    decreases s, 1nat,
{
    match s {
        StmtV::TypedStmt(inner, _) => match *inner {
            StmtV::Block(ss) => simple_stmts(ss, ss.len()),
            StmtV::LocalVarDecl(t, _) => int_like(t),
            StmtV::Return(e) => simple_expr(e) && (e matches ExprV::TypedExpr(_, t) && int_like(t)),
            StmtV::If(c, t, e) => simple_expr(c) && simple_stmt(*t) && match e {
                Some(x) => simple_stmt(*x),
                None => true,
            },
            StmtV::StmtExprStmt(se) => match se {
                StmtExprV::TypedStmtExpr(a, _) => match *a {
                    StmtExprV::Assign(v, x) => simple_expr(x) && match v {
                        ExprV::TypedExpr(n, t) => (*n is LocalVar) && int_like(t),
                        _ => false,
                    },
                    _ => false,
                },
                _ => false,
            },
            _ => false,
        },
        _ => false,
    }
}

/// The first `k` statements are simple.
pub open spec fn simple_stmts(ss: Seq<StmtV>, k: nat) -> bool
    decreases ss, k,
{
    if k == 0 || k > ss.len() {
        true
    } else {
        simple_stmts(ss, (k - 1) as nat) && simple_stmt(ss[k - 1])
    }
}

/// How a statement ends in Java: normally with the local variables'
/// values, or by returning a value.
pub enum JavaOutcome {
    Normal(Map<Seq<char>, int>),
    Returned(int),
}

/// The variable that a simple assignment writes, and its value expression.
pub open spec fn assign_parts(se: StmtExprV) -> (Seq<char>, ExprV) {
    match se {
        StmtExprV::TypedStmtExpr(a, _) => match *a {
            StmtExprV::Assign(v, x) => match v {
                ExprV::TypedExpr(n, _) => match *n {
                    ExprV::LocalVar(name) => (name, x),
                    _ => (Seq::empty(), x),
                },
                _ => (Seq::empty(), x),
            },
            _ => (Seq::empty(), ExprV::Jnull),
        },
        _ => (Seq::empty(), ExprV::Jnull),
    }
}

/// What a simple statement does in Java, from the values `vals` of the
/// local variables: a declaration leaves its variable without a value, an
/// assignment gives it one, `if` runs one branch, a block runs its
/// statements in order until one returns.
pub open spec fn java_exec(s: StmtV, vals: Map<Seq<char>, int>) -> JavaOutcome
    decreases s, 1nat,
{
    match s {
        StmtV::TypedStmt(inner, _) => match *inner {
            StmtV::Block(ss) => java_exec_block(ss, ss.len(), vals),
            StmtV::LocalVarDecl(_, n) => JavaOutcome::Normal(vals.remove(n)),
            StmtV::Return(e) => JavaOutcome::Returned(java_value(e, vals)),
            StmtV::If(c, t, e) => if java_value(c, vals) != 0 {
                java_exec(*t, vals)
            } else {
                match e {
                    Some(x) => java_exec(*x, vals),
                    None => JavaOutcome::Normal(vals),
                }
            },
            StmtV::StmtExprStmt(se) => JavaOutcome::Normal(
                vals.insert(assign_parts(se).0, java_value(assign_parts(se).1, vals)),
            ),
            _ => JavaOutcome::Normal(vals),
        },
        _ => JavaOutcome::Normal(vals),
    }
}

/// The first `k` statements of a block run in order until one returns.
pub open spec fn java_exec_block(ss: Seq<StmtV>, k: nat, vals: Map<Seq<char>, int>) -> JavaOutcome
    decreases ss, k,
{
    if k == 0 || k > ss.len() {
        JavaOutcome::Normal(vals)
    } else {
        match java_exec_block(ss, (k - 1) as nat, vals) {
            JavaOutcome::Normal(v1) => java_exec(ss[k - 1], v1),
            JavaOutcome::Returned(r) => JavaOutcome::Returned(r),
        }
    }
}

/// Every expression that Java evaluates while running the statement is
/// `java_defined`.
pub open spec fn stmt_defined(s: StmtV, vals: Map<Seq<char>, int>) -> bool
    decreases s, 1nat,
{
    match s {
        StmtV::TypedStmt(inner, _) => match *inner {
            StmtV::Block(ss) => block_defined(ss, ss.len(), vals),
            StmtV::Return(e) => java_defined(e, vals),
            StmtV::If(c, t, e) => java_defined(c, vals) && if java_value(c, vals) != 0 {
                stmt_defined(*t, vals)
            } else {
                match e {
                    Some(x) => stmt_defined(*x, vals),
                    None => true,
                }
            },
            StmtV::StmtExprStmt(se) => java_defined(assign_parts(se).1, vals),
            _ => true,
        },
        _ => true,
    }
}

/// The statements of a block that run are `stmt_defined`.
pub open spec fn block_defined(ss: Seq<StmtV>, k: nat, vals: Map<Seq<char>, int>) -> bool
    decreases ss, k,
{
    if k == 0 || k > ss.len() {
        true
    } else {
        block_defined(ss, (k - 1) as nat, vals) && match java_exec_block(ss, (k - 1) as nat, vals) {
            JavaOutcome::Normal(v1) => stmt_defined(ss[k - 1], v1),
            JavaOutcome::Returned(_) => true,
        }
    }
}

/// Every variable with a value has a slot.
pub open spec fn vals_named(locals: Seq<Seq<char>>, vals: Map<Seq<char>, int>) -> bool {
    forall|n: Seq<char>| #[trigger] vals.contains_key(n) ==> local_index(locals, n) is Some
}

/// `p` is a prefix of `q`.
pub open spec fn prefix_of(p: Seq<Seq<char>>, q: Seq<Seq<char>>) -> bool {
    p.len() <= q.len() && q.subrange(0, p.len() as int) == p
}

proof fn lemma_name_index_prefix(p: Seq<Seq<char>>, q: Seq<Seq<char>>, n: Seq<char>)
    requires
        prefix_of(p, q),
        name_index(p, n) >= 0,
    ensures
        name_index(q, n) == name_index(p, n),
{
    lemma_name_index(p, n);
    lemma_name_index(q, n);
    let i = name_index(p, n);
    assert(q[i] == p[i]);
    if name_index(q, n) < i {
        assert(q[name_index(q, n)] == p[name_index(q, n)]);
    }
}

/// The slots of the variables with values stay where the local variables
/// grow.
proof fn lemma_slots_grow(p: Seq<Seq<char>>, q: Seq<Seq<char>>, vals: Map<Seq<char>, int>, slots: Map<int, int>)
    requires
        prefix_of(p, q),
        slots_hold(p, vals, slots),
        vals_named(p, vals),
    ensures
        slots_hold(q, vals, slots),
        vals_named(q, vals),
{
    assert forall|n: Seq<char>| #[trigger] vals.contains_key(n) implies local_index(q, n) == local_index(p, n) by {
        lemma_name_index_prefix(p, q, n);
    }
}

proof fn lemma_prefix_trans(p: Seq<Seq<char>>, q: Seq<Seq<char>>, r: Seq<Seq<char>>)
    requires
        prefix_of(p, q),
        prefix_of(q, r),
    ensures
        prefix_of(p, r),
{
    assert(r.subrange(0, p.len() as int) =~= r.subrange(0, q.len() as int).subrange(0, p.len() as int));
}

/// A statement that returns on every path returns in Java.
proof fn lemma_always_returns(s: StmtV, vals: Map<Seq<char>, int>)
    requires
        simple_stmt(s),
        always_returns(s),
    ensures
        java_exec(s, vals) is Returned,
    decreases s, 1nat,
{
    reveal_with_fuel(always_returns, 3);
    if let StmtV::TypedStmt(inner, _) = s {
        match *inner {
            StmtV::Block(ss) => {
                assert(last_returns(ss));
                lemma_simple_stmts(ss, ss.len(), (ss.len() - 1) as nat);
                if let JavaOutcome::Normal(v1) = java_exec_block(ss, (ss.len() - 1) as nat, vals) {
                    lemma_always_returns(ss[ss.len() - 1], v1);
                }
                assert(java_exec(s, vals) == java_exec_block(ss, ss.len(), vals));
            },
            StmtV::If(c, t, e) => {
                assert(always_returns(*inner));
                lemma_always_returns(*t, vals);
                if let Some(x) = e {
                    lemma_always_returns(*x, vals);
                }
            },
            StmtV::Return(e) => {},
            _ => {
                assert(!always_returns(*inner));
            },
            _ => {},
        }
    }
}

proof fn lemma_simple_stmts(ss: Seq<StmtV>, k: nat, i: nat)
    requires
        simple_stmts(ss, k),
        i < k <= ss.len(),
    ensures
        simple_stmt(ss[i as int]),
        simple_stmts(ss, i),
    decreases k,
{
    if i < k - 1 {
        lemma_simple_stmts(ss, (k - 1) as nat, i);
    }
}

// ---------------------------------------------------------------------------
// What the code of a statement does.
// ---------------------------------------------------------------------------

proof fn lemma_prefix_refl(p: Seq<Seq<char>>)
    ensures
        prefix_of(p, p),
{
    assert(p.subrange(0, p.len() as int) =~= p);
}

proof fn lemma_extends_refl(p: Seq<ConstantV>)
    ensures
        extends(p, p),
{
    assert(p.subrange(0, p.len() as int) =~= p);
}

/// Generating the code of a simple statement only adds local variables and
/// pool entries.
pub proof fn lemma_gen_stmt_frame(s: StmtV, st: GenState, cls: Seq<char>, is_last: bool)
    requires
        simple_stmt(s),
        gen_stmt(s, st, cls, is_last) is Some,
    ensures
        prefix_of(st.locals, gen_stmt(s, st, cls, is_last)->Some_0.1.locals),
        extends(st.pool, gen_stmt(s, st, cls, is_last)->Some_0.1.pool),
    decreases s, 1nat,
{
    lemma_prefix_refl(st.locals);
    lemma_extends_refl(st.pool);
    if let StmtV::TypedStmt(inner, _) = s {
        match *inner {
            StmtV::Block(ss) => {
                lemma_gen_block_frame(ss, ss.len(), st, cls, is_last);
            },
            StmtV::LocalVarDecl(_, n) => {
                assert(st.locals.push(n).subrange(0, st.locals.len() as int) =~= st.locals);
            },
            StmtV::Return(e) => {
                lemma_gen_simple_frame(e, st, cls);
            },
            StmtV::If(c, t, e) => {
                lemma_gen_simple_frame(c, st, cls);
                let s1 = gen_expr(c, st, cls)->Some_0.1;
                let s2 = st_dec(s1, 1)->Some_0;
                lemma_gen_stmt_frame(*t, s2, cls, is_last);
                let s3 = gen_stmt(*t, s2, cls, is_last)->Some_0.1;
                lemma_extends_trans(st.pool, s2.pool, s3.pool);
                if let Some(x) = e {
                    lemma_gen_stmt_frame(*x, s3, cls, is_last);
                    let s4 = gen_stmt(*x, s3, cls, is_last)->Some_0.1;
                    lemma_extends_trans(st.pool, s3.pool, s4.pool);
                    lemma_prefix_trans(st.locals, s3.locals, s4.locals);
                }
            },
            StmtV::StmtExprStmt(se) => {
                let (_, x) = assign_parts(se);
                lemma_gen_simple_frame(x, st, cls);
            },
            _ => {},
        }
    }
}

proof fn lemma_gen_block_frame(ss: Seq<StmtV>, k: nat, st: GenState, cls: Seq<char>, is_last: bool)
    requires
        simple_stmts(ss, k),
        gen_block(ss, k, st, cls, is_last) is Some,
    ensures
        prefix_of(st.locals, gen_block(ss, k, st, cls, is_last)->Some_0.1.locals),
        extends(st.pool, gen_block(ss, k, st, cls, is_last)->Some_0.1.pool),
    decreases ss, k,
{
    lemma_prefix_refl(st.locals);
    lemma_extends_refl(st.pool);
    if k > 0 && k <= ss.len() {
        lemma_gen_block_frame(ss, (k - 1) as nat, st, cls, is_last);
        let s1 = gen_block(ss, (k - 1) as nat, st, cls, is_last)->Some_0.1;
        lemma_gen_stmt_frame(ss[k - 1], s1, cls, is_last && k == ss.len());
        let s2 = gen_stmt(ss[k - 1], s1, cls, is_last && k == ss.len())->Some_0.1;
        lemma_extends_trans(st.pool, s1.pool, s2.pool);
        lemma_prefix_trans(st.locals, s1.locals, s2.locals);
    }
}

/// Running `code` ends as Java's statement does: normally with the operand
/// stack as it was and each variable with a value in its slot, or by
/// returning the same value.
pub open spec fn runs_as(
    code: Seq<Instruction>,
    locals_after: Seq<Seq<char>>,
    pool: Seq<ConstantV>,
    slots: Map<int, int>,
    stk: Seq<int>,
    j: JavaOutcome,
) -> bool {
    match j {
        JavaOutcome::Normal(v2) => exec(code, pool, 0, stk, slots) matches Some(Outcome::Normal(s2, sl2)) && s2
            == stk && slots_hold(locals_after, v2, sl2) && vals_named(locals_after, v2) && vals_in_i32(v2),
        JavaOutcome::Returned(r) => exec(code, pool, 0, stk, slots) == Some(Outcome::Returned(r)),
    }
}

/// The code of a simple expression, run here, leaves its value.
pub proof fn lemma_expr_exec(
    e: ExprV,
    st: GenState,
    cls: Seq<char>,
    pool: Seq<ConstantV>,
    slots: Map<int, int>,
    vals: Map<Seq<char>, int>,
    stk: Seq<int>,
)
    requires
        simple_expr(e),
        gen_expr(e, st, cls) is Some,
        java_defined(e, vals),
        vals_in_i32(vals),
        slots_hold(st.locals, vals, slots),
        extends(gen_expr(e, st, cls)->Some_0.1.pool, pool),
    ensures
        exec(gen_expr(e, st, cls)->Some_0.0, pool, 0, stk, slots) == Some(
            Outcome::Normal(stk.push(java_value(e, vals)), slots),
        ),
        in_i32(java_value(e, vals)),
{
    law_expr_code_computes_value(e, st, cls, pool, slots, vals, stk);
    lemma_run_exec(gen_expr(e, st, cls)->Some_0.0, pool, 0, stk, slots);
    lemma_value_in_i32(e, vals);
}

/// A jump at the start of `[j] + rest` that passes `n` instructions of
/// `rest` spans their bytes.
proof fn lemma_first_jump_bytes(j: Instruction, rest: Seq<Instruction>, n: int, a: i16, b: i16)
    requires
        jump_offsets(j) == Some((a, b)),
        0 <= n <= rest.len(),
        b as int == 1 + n,
        a as int == 3 + instrs_len(rest.subrange(0, n)),
    ensures
        jump_bytes_ok(seq![j] + rest, 0),
{
    let code = seq![j] + rest;
    assert(code.subrange(0, b as int) =~= seq![j] + rest.subrange(0, n));
    lemma_instrs_len_append(seq![j], rest.subrange(0, n));
    reveal_with_fuel(instrs_len, 2);
    assert(seq![j].drop_last() =~= Seq::<Instruction>::empty());
}

/// A value that fits and the count of a code whose bytes fit.
proof fn lemma_offsets(c: Seq<Instruction>)
    requires
        len_i16(c) is Some,
    ensures
        count_i16(c) as int == c.len(),
        len_i16(c)->Some_0 as int == instrs_len(c),
{
    lemma_len_le_instrs_len(c);
}

/// The code of a simple statement does what Java does: run from any operand
/// stack, with each variable that has a value in its slot and a constant
/// pool that keeps what generation added, it either returns the value that
/// Java returns, or ends with the operand stack as it was and each variable
/// holding, in its slot, the value that Java gives it; wherever the
/// expressions Java evaluates are `java_defined`.
pub proof fn law_stmt_code_runs_as_java(
    s: StmtV,
    st: GenState,
    cls: Seq<char>,
    is_last: bool,
    pool: Seq<ConstantV>,
    slots: Map<int, int>,
    vals: Map<Seq<char>, int>,
    stk: Seq<int>,
)
    requires
        simple_stmt(s),
        gen_stmt(s, st, cls, is_last) is Some,
        stmt_defined(s, vals),
        vals_in_i32(vals),
        slots_hold(st.locals, vals, slots),
        vals_named(st.locals, vals),
        extends(gen_stmt(s, st, cls, is_last)->Some_0.1.pool, pool),
    ensures
        runs_as(
            gen_stmt(s, st, cls, is_last)->Some_0.0,
            gen_stmt(s, st, cls, is_last)->Some_0.1.locals,
            pool,
            slots,
            stk,
            java_exec(s, vals),
        ),
    decreases s, 1nat,
{
    let (code, st2) = gen_stmt(s, st, cls, is_last)->Some_0;
    if let StmtV::TypedStmt(inner, _) = s {
        match *inner {
            StmtV::Block(ss) => {
                lemma_block_runs_as_java(ss, ss.len(), st, cls, is_last, pool, slots, vals, stk);
            },
            StmtV::LocalVarDecl(_, n) => {
                let l2 = st.locals.push(n);
                assert(l2.subrange(0, st.locals.len() as int) =~= st.locals);
                let v2 = vals.remove(n);
                assert forall|m: Seq<char>| #[trigger] v2.contains_key(m) implies local_index(l2, m) == local_index(
                    st.locals,
                    m,
                ) by {
                    lemma_name_index_prefix(st.locals, l2, m);
                }
            },
            StmtV::Return(e) => {
                let (c, s1) = gen_expr(e, st, cls)->Some_0;
                lemma_expr_exec(e, st, cls, pool, slots, vals, stk);
                assert(code =~= c + seq![Instruction::ireturn]);
                lemma_exec_seq(c, seq![Instruction::ireturn], pool, stk, slots);
            },
            StmtV::StmtExprStmt(se) => {
                let (n, x) = assign_parts(se);
                let (ec, s1) = gen_expr(x, st, cls)->Some_0;
                lemma_gen_simple_frame(x, st, cls);
                lemma_expr_exec(x, st, cls, pool, slots, vals, stk);
                let v = java_value(x, vals);
                let idx = local_index(s1.locals, n)->Some_0;
                assert(code =~= ec + seq![Instruction::istore(idx)]);
                lemma_exec_seq(ec, seq![Instruction::istore(idx)], pool, stk, slots);
                assert(stk.push(v).drop_last() =~= stk);
                let sl2 = slots.insert(idx as int, v);
                assert(exec(seq![Instruction::istore(idx)], pool, 1, stk, sl2) == Some(Outcome::Normal(stk, sl2)));
                let v2 = vals.insert(n, v);
                lemma_name_index(st.locals, n);
                assert forall|m: Seq<char>| #[trigger] v2.contains_key(m) && local_index(st.locals, m) is Some implies sl2.contains_key(
                    local_index(st.locals, m)->Some_0 as int,
                ) && sl2[local_index(st.locals, m)->Some_0 as int] == v2[m] by {
                    if m != n {
                        lemma_name_index(st.locals, m);
                        assert(name_index(st.locals, m) != name_index(st.locals, n));
                    }
                }
            },
            StmtV::If(c, t, e) => {
                lemma_if_runs_as_java(s, st, cls, is_last, pool, slots, vals, stk);
            },
            _ => {},
        }
    }
}

/// The first `k` statements of a block run as Java runs them.
proof fn lemma_block_runs_as_java(
    ss: Seq<StmtV>,
    k: nat,
    st: GenState,
    cls: Seq<char>,
    is_last: bool,
    pool: Seq<ConstantV>,
    slots: Map<int, int>,
    vals: Map<Seq<char>, int>,
    stk: Seq<int>,
)
    requires
        simple_stmts(ss, k),
        gen_block(ss, k, st, cls, is_last) is Some,
        block_defined(ss, k, vals),
        vals_in_i32(vals),
        slots_hold(st.locals, vals, slots),
        vals_named(st.locals, vals),
        extends(gen_block(ss, k, st, cls, is_last)->Some_0.1.pool, pool),
    ensures
        runs_as(
            gen_block(ss, k, st, cls, is_last)->Some_0.0,
            gen_block(ss, k, st, cls, is_last)->Some_0.1.locals,
            pool,
            slots,
            stk,
            java_exec_block(ss, k, vals),
        ),
    decreases ss, k,
{
    if k > 0 && k <= ss.len() {
        let (c, s1) = gen_block(ss, (k - 1) as nat, st, cls, is_last)->Some_0;
        let last = is_last && k == ss.len();
        let (c2, s2) = gen_stmt(ss[k - 1], s1, cls, last)->Some_0;
        lemma_gen_stmt_frame(ss[k - 1], s1, cls, last);
        lemma_extends_trans(s1.pool, s2.pool, pool);
        lemma_block_runs_as_java(ss, (k - 1) as nat, st, cls, is_last, pool, slots, vals, stk);
        lemma_exec_seq(c, c2, pool, stk, slots);
        match java_exec_block(ss, (k - 1) as nat, vals) {
            JavaOutcome::Normal(v1) => {
                let sl1 = exec(c, pool, 0, stk, slots)->Some_0->Normal_1;
                law_stmt_code_runs_as_java(ss[k - 1], s1, cls, last, pool, sl1, v1, stk);
            },
            JavaOutcome::Returned(_) => {},
        }
    } else {
        lemma_prefix_refl(st.locals);
    }
}

/// The code of an `if`: after the condition, the else-part runs where the
/// condition is 0, else the then-part and what follows it.
proof fn lemma_if_exec(
    cc: Seq<Instruction>,
    tc: Seq<Instruction>,
    ec: Seq<Instruction>,
    a: i16,
    b: i16,
    pool: Seq<ConstantV>,
    slots: Map<int, int>,
    stk: Seq<int>,
    vc: int,
)
    requires
        exec(cc, pool, 0, stk, slots) == Some(Outcome::Normal(stk.push(vc), slots)),
        a as int == 3 + instrs_len(tc),
        b as int == 1 + tc.len(),
    ensures
        exec(cc + seq![Instruction::ifeq(a, b)] + tc + ec, pool, 0, stk, slots) == if vc == 0 {
            exec(ec, pool, 0, stk, slots)
        } else {
            exec(tc + ec, pool, 0, stk, slots)
        },
{
    let j = Instruction::ifeq(a, b);
    let rest = seq![j] + (tc + ec);
    assert(cc + seq![j] + tc + ec =~= cc + rest);
    lemma_exec_seq(cc, rest, pool, stk, slots);
    assert((tc + ec).subrange(0, tc.len() as int) =~= tc);
    lemma_first_jump_bytes(j, tc + ec, tc.len() as int, a, b);
    assert(stk.push(vc).drop_last() =~= stk);
    if vc == 0 {
        assert(exec(rest, pool, 0, stk.push(vc), slots) == exec(rest, pool, b as int, stk, slots));
        assert(rest =~= (seq![j] + tc) + ec);
        lemma_exec_suffix(seq![j] + tc, ec, pool, 0, stk, slots);
    } else {
        assert(exec(rest, pool, 0, stk.push(vc), slots) == exec(rest, pool, 1, stk, slots));
        lemma_exec_suffix(seq![j], tc + ec, pool, 0, stk, slots);
    }
}

/// A then-part followed by a jump past the else-part ends as the branch
/// does.
proof fn lemma_then_goto(
    ic: Seq<Instruction>,
    ec: Seq<Instruction>,
    ga: i16,
    gb: i16,
    pool: Seq<ConstantV>,
    slots: Map<int, int>,
    stk: Seq<int>,
)
    requires
        exec(ic, pool, 0, stk, slots) is Some,
        ga as int == 3 + instrs_len(ec),
        gb as int == 1 + ec.len(),
    ensures
        exec(ic.push(Instruction::goto(ga, gb)) + ec, pool, 0, stk, slots) == exec(ic, pool, 0, stk, slots),
{
    let g = Instruction::goto(ga, gb);
    assert(ic.push(g) + ec =~= ic + (seq![g] + ec));
    lemma_exec_seq(ic, seq![g] + ec, pool, stk, slots);
    assert(ec.subrange(0, ec.len() as int) =~= ec);
    lemma_first_jump_bytes(g, ec, ec.len() as int, ga, gb);
    if let Outcome::Normal(s2, sl2) = exec(ic, pool, 0, stk, slots)->Some_0 {
        assert(exec(seq![g] + ec, pool, 0, s2, sl2) == exec(seq![g] + ec, pool, 1 + ec.len() as int, s2, sl2));
    }
}

/// The pieces of the code of an `if`.
proof fn lemma_if_parts(s: StmtV, st: GenState, cls: Seq<char>, is_last: bool)
    requires
        s matches StmtV::TypedStmt(inner, _) && *inner is If,
        gen_stmt(s, st, cls, is_last) is Some,
    ensures
        ({
            let inner = s->TypedStmt_0;
            let c = inner->If_0;
            let t = *inner->If_1;
            let e = inner->If_2;
            let (cc, s1) = gen_expr(c, st, cls)->Some_0;
            let s2 = st_dec(s1, 1)->Some_0;
            let (ic, s3) = gen_stmt(t, s2, cls, is_last)->Some_0;
            let ec = match e {
                Some(x) => gen_stmt(*x, s3, cls, is_last)->Some_0.0,
                None => Seq::<Instruction>::empty(),
            };
            let tc = if e is Some && !always_returns(t) {
                ic.push(Instruction::goto(chk(3 + len_i16(ec)->Some_0)->Some_0, chk(1 + count_i16(ec))->Some_0))
            } else {
                ic
            };
            &&& gen_expr(c, st, cls) is Some
            &&& st_dec(s1, 1) is Some
            &&& gen_stmt(t, s2, cls, is_last) is Some
            &&& (e matches Some(x) ==> gen_stmt(*x, s3, cls, is_last) is Some)
            &&& gen_stmt(s, st, cls, is_last)->Some_0.1 == match e {
                Some(x) => gen_stmt(*x, s3, cls, is_last)->Some_0.1,
                None => s3,
            }
            &&& (e is Some && !always_returns(t) ==> len_i16(ec) is Some && chk(3 + len_i16(ec)->Some_0) is Some
                && chk(1 + count_i16(ec)) is Some && chk(3 + len_i16(ec)->Some_0)->Some_0 as int == 3 + instrs_len(ec)
                && chk(1 + count_i16(ec))->Some_0 as int == 1 + ec.len())
            &&& len_i16(tc) is Some
            &&& chk(3 + len_i16(tc)->Some_0) is Some
            &&& chk(1 + count_i16(tc)) is Some
            &&& chk(3 + len_i16(tc)->Some_0)->Some_0 as int == 3 + instrs_len(tc)
            &&& chk(1 + count_i16(tc))->Some_0 as int == 1 + tc.len()
            &&& gen_stmt(s, st, cls, is_last)->Some_0.0 == cc + seq![
                Instruction::ifeq(chk(3 + len_i16(tc)->Some_0)->Some_0, chk(1 + count_i16(tc))->Some_0),
            ] + tc + ec
        }),
{
    let inner = s->TypedStmt_0;
    let e = inner->If_2;
    let (cc, s1) = gen_expr(inner->If_0, st, cls)->Some_0;
    let s2 = st_dec(s1, 1)->Some_0;
    let (ic, s3) = gen_stmt(*inner->If_1, s2, cls, is_last)->Some_0;
    let ec = match e {
        Some(x) => gen_stmt(*x, s3, cls, is_last)->Some_0.0,
        None => Seq::<Instruction>::empty(),
    };
    if e is Some && !always_returns(*inner->If_1) {
        lemma_offsets(ec);
    }
    let tc = if e is Some && !always_returns(*inner->If_1) {
        ic.push(Instruction::goto(chk(3 + len_i16(ec)->Some_0)->Some_0, chk(1 + count_i16(ec))->Some_0))
    } else {
        ic
    };
    lemma_offsets(tc);
}

/// An `if` runs as Java runs it.
proof fn lemma_if_runs_as_java(
    s: StmtV,
    st: GenState,
    cls: Seq<char>,
    is_last: bool,
    pool: Seq<ConstantV>,
    slots: Map<int, int>,
    vals: Map<Seq<char>, int>,
    stk: Seq<int>,
)
    requires
        simple_stmt(s),
        s matches StmtV::TypedStmt(inner, _) && *inner is If,
        gen_stmt(s, st, cls, is_last) is Some,
        stmt_defined(s, vals),
        vals_in_i32(vals),
        slots_hold(st.locals, vals, slots),
        vals_named(st.locals, vals),
        extends(gen_stmt(s, st, cls, is_last)->Some_0.1.pool, pool),
    ensures
        runs_as(
            gen_stmt(s, st, cls, is_last)->Some_0.0,
            gen_stmt(s, st, cls, is_last)->Some_0.1.locals,
            pool,
            slots,
            stk,
            java_exec(s, vals),
        ),
    decreases s, 0nat,
{
    lemma_if_parts(s, st, cls, is_last);
    let (code, st4) = gen_stmt(s, st, cls, is_last)->Some_0;
    let inner = s->TypedStmt_0;
    let c = inner->If_0;
    let t = *inner->If_1;
    let e = inner->If_2;
    let (cc, s1) = gen_expr(c, st, cls)->Some_0;
    let s2 = st_dec(s1, 1)->Some_0;
    let (ic, s3) = gen_stmt(t, s2, cls, is_last)->Some_0;
    let ec = match e {
        Some(x) => gen_stmt(*x, s3, cls, is_last)->Some_0.0,
        None => Seq::<Instruction>::empty(),
    };
    let ar = always_returns(t);
    let tc = if e is Some && !ar {
        ic.push(Instruction::goto(chk(3 + len_i16(ec)->Some_0)->Some_0, chk(1 + count_i16(ec))->Some_0))
    } else {
        ic
    };
    lemma_gen_simple_frame(c, st, cls);
    lemma_gen_stmt_frame(t, s2, cls, is_last);
    if let Some(x) = e {
        lemma_gen_stmt_frame(*x, s3, cls, is_last);
    } else {
        lemma_extends_refl(s3.pool);
        lemma_prefix_refl(s3.locals);
    }
    lemma_extends_trans(s3.pool, st4.pool, pool);
    lemma_extends_trans(s2.pool, s3.pool, pool);
    lemma_prefix_trans(st.locals, s3.locals, st4.locals);
    lemma_expr_exec(c, st, cls, pool, slots, vals, stk);
    let vc = java_value(c, vals);
    lemma_if_exec(cc, tc, ec, chk(3 + len_i16(tc)->Some_0)->Some_0, chk(1 + count_i16(tc))->Some_0, pool, slots, stk, vc);
    lemma_slots_grow(st.locals, s3.locals, vals, slots);
    lemma_slots_grow(st.locals, st4.locals, vals, slots);
    if vc == 0 {
        if let Some(x) = e {
            law_stmt_code_runs_as_java(*x, s3, cls, is_last, pool, slots, vals, stk);
        }
    } else {
        law_stmt_code_runs_as_java(t, s2, cls, is_last, pool, slots, vals, stk);
        if e is Some && !ar {
            lemma_then_goto(ic, ec, chk(3 + len_i16(ec)->Some_0)->Some_0, chk(1 + count_i16(ec))->Some_0, pool, slots, stk);
            if let JavaOutcome::Normal(v2) = java_exec(t, vals) {
                let sl2 = exec(ic, pool, 0, stk, slots)->Some_0->Normal_1;
                lemma_slots_grow(s3.locals, st4.locals, v2, sl2);
            }
        } else if e is Some {
            lemma_always_returns(t, vals);
            lemma_exec_seq(ic, ec, pool, stk, slots);
        } else {
            assert(tc + ec =~= ic);
        }
    }
}

} // verus!
