use vstd::prelude::*;
use crate::types::{ExprV, StmtExprV, TypeV, ir_string};
use super::constant_pool::{ConstantV, NameAndTypeV, init_name, init_descriptor, lemma_pool_add, law_add_then_index_of};
use super::gen_spec::{GenState, gen_expr, gen_stmt_expr, gen_exprs, call_desc, st_add, st_inc, st_dec};
use super::instruction::Instruction;
use super::semantics::extends;

verus! {

/// Pool `p` holds constant `c` at the 1-based index `k`.
pub open spec fn holds_at(p: Seq<ConstantV>, k: u16, c: ConstantV) -> bool {
    1 <= k <= p.len() && p[k - 1] == c
}

/// Adding a constant gives the index at which the pool after holds it, and
/// keeps the pool before.
proof fn lemma_st_add(st: GenState, c: ConstantV)
    requires
        st_add(st, c) is Some,
    ensures
        holds_at(st_add(st, c)->Some_0.1.pool, st_add(st, c)->Some_0.0, c),
        extends(st.pool, st_add(st, c)->Some_0.1.pool),
{
    lemma_pool_add(st.pool, c);
    law_add_then_index_of(st.pool, c);
}

proof fn lemma_holds_extends(p: Seq<ConstantV>, q: Seq<ConstantV>, k: u16, c: ConstantV)
    requires
        holds_at(p, k, c),
        extends(p, q),
    ensures
        holds_at(q, k, c),
{
    assert(q.subrange(0, p.len() as int)[k - 1] == q[k - 1]);
}

/// The field reference of field `name` of class `cls` with type `ty`.
pub open spec fn field_ref_of(cls: Seq<char>, name: Seq<char>, ty: TypeV) -> ConstantV {
    ConstantV::FieldRef(cls, NameAndTypeV { name, descriptor: ir_string(ty) })
}

/// Reading field `name` of the current object loads `this` and gets the
/// field through a reference, held in the pool after, to that field of the
/// class with the descriptor of the field's type; it leaves one value.
pub proof fn law_field_read_refers_to_the_field(name: Seq<char>, ty: TypeV, st: GenState, cls: Seq<char>)
    ensures
        gen_expr(ExprV::TypedExpr(Box::new(ExprV::FieldVar(name)), ty), st, cls) matches Some((code, st2)) ==> (
        code.len() == 2 && code[0] == Instruction::aload_0 && code[1] is getfield && holds_at(
            st2.pool,
            code[1]->getfield_0,
            field_ref_of(cls, name, ty),
        ) && st2.cur == st.cur + 1),
{
    if let Some((code, st2)) = gen_expr(ExprV::TypedExpr(Box::new(ExprV::FieldVar(name)), ty), st, cls) {
        lemma_st_add(st, field_ref_of(cls, name, ty));
    }
}

/// `new ty()` creates an object of the class named by a `Class` entry of
/// the type, duplicates it and calls that class's `<init>()V` through a
/// method reference; both entries are held in the pool after.
pub proof fn law_new_refers_to_the_class(ty: TypeV, args: Seq<ExprV>, ety: TypeV, st: GenState, cls: Seq<char>)
    ensures
        gen_stmt_expr(StmtExprV::TypedStmtExpr(Box::new(StmtExprV::New(ty, args)), ety), st, cls) matches Some(
            (code, st2),
        ) ==> (code.len() == 3 && code[0] is new && code[1] == Instruction::dup && code[2] is invokespecial
            && holds_at(st2.pool, code[0]->new_0, ConstantV::Class(ir_string(ty))) && holds_at(
            st2.pool,
            code[2]->invokespecial_0,
            ConstantV::MethodRef(ir_string(ty), NameAndTypeV { name: init_name(), descriptor: init_descriptor() }),
        )),
{
    if let Some((code, st2)) = gen_stmt_expr(StmtExprV::TypedStmtExpr(Box::new(StmtExprV::New(ty, args)), ety), st, cls) {
        let c = ConstantV::Class(ir_string(ty));
        let m = ConstantV::MethodRef(ir_string(ty), NameAndTypeV { name: init_name(), descriptor: init_descriptor() });
        lemma_st_add(st, c);
        let (ci, s1) = st_add(st, c)->Some_0;
        lemma_st_add(s1, m);
        let s2 = st_add(s1, m)->Some_0.1;
        lemma_holds_extends(s1.pool, s2.pool, ci, c);
    }
}

/// A call `name(args)` on the current object loads `this`, the arguments,
/// and calls through a method reference, held in the pool after, to the
/// method `name` of the class with the call's descriptor.
pub proof fn law_call_refers_to_the_method(
    recv: ExprV,
    name: Seq<char>,
    args: Seq<ExprV>,
    ety: TypeV,
    st: GenState,
    cls: Seq<char>,
)
    ensures
        gen_stmt_expr(StmtExprV::TypedStmtExpr(Box::new(StmtExprV::MethodCall(recv, name, args)), ety), st, cls) matches Some(
            (code, st2),
        ) ==> (call_desc(args, ety) is Some && code.len() >= 2 && code[0] == Instruction::aload_0
            && code.last() is invokespecial && holds_at(
            st2.pool,
            code.last()->invokespecial_0,
            ConstantV::MethodRef(cls, NameAndTypeV { name, descriptor: call_desc(args, ety)->Some_0 }),
        )),
{
    if let Some((code, st2)) = gen_stmt_expr(
        StmtExprV::TypedStmtExpr(Box::new(StmtExprV::MethodCall(recv, name, args)), ety),
        st,
        cls,
    ) {
        let (ac, s1) = gen_exprs(args, st, cls)->Some_0;
        let desc = call_desc(args, ety)->Some_0;
        let m = ConstantV::MethodRef(cls, NameAndTypeV { name, descriptor: desc });
        lemma_st_add(s1, m);
    }
}

/// Assigning the value of `x` to field `name` of the current object loads
/// `this`, computes the value and puts it into the field through a
/// reference, held in the pool after, to that field of the class with the
/// descriptor of the field's type; the value is then read back from the
/// field as the value of the assignment.
pub proof fn law_field_write_refers_to_the_field(
    name: Seq<char>,
    ty: TypeV,
    x: ExprV,
    ety: TypeV,
    st: GenState,
    cls: Seq<char>,
)
    ensures
        gen_stmt_expr(
            StmtExprV::TypedStmtExpr(
                Box::new(StmtExprV::Assign(ExprV::TypedExpr(Box::new(ExprV::FieldVar(name)), ty), x)),
                ety,
            ),
            st,
            cls,
        ) matches Some((code, st2)) ==> (gen_expr(x, st, cls) is Some && code.len() == gen_expr(x, st, cls)->Some_0.0.len()
            + 4 && code[0] == Instruction::aload_0 && code.subrange(1, code.len() - 3) == gen_expr(x, st, cls)->Some_0.0
            && code[code.len() - 3] is putfield && code[code.len() - 2] == Instruction::aload_0
            && code[code.len() - 1] == Instruction::getfield(code[code.len() - 3]->putfield_0) && holds_at(
            st2.pool,
            code[code.len() - 3]->putfield_0,
            field_ref_of(cls, name, ty),
        )),
{
    if let Some((code, st2)) = gen_stmt_expr(
        StmtExprV::TypedStmtExpr(
            Box::new(StmtExprV::Assign(ExprV::TypedExpr(Box::new(ExprV::FieldVar(name)), ty), x)),
            ety,
        ),
        st,
        cls,
    ) {
        let (ec, s1) = gen_expr(x, st, cls)->Some_0;
        lemma_st_add(s1, field_ref_of(cls, name, ty));
        let idx = st_add(s1, field_ref_of(cls, name, ty))->Some_0.0;
        assert(code == seq![Instruction::aload_0] + ec + seq![
            Instruction::putfield(idx),
            Instruction::aload_0,
            Instruction::getfield(idx),
        ]);
        assert(code.subrange(1, code.len() - 3) =~= ec);
    }
}

} // verus!
