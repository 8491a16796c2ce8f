use vstd::prelude::*;
use crate::typechecker::spec::{
    Env, check_class, check_classes, check_method, check_methods, first_duplicate, first_named,
    put_class, type_cond, type_expr, type_exprs, type_stmt, type_stmt_expr, type_stmts,
};
use crate::typechecker::typechecker::lemma_first_named;
use crate::types::{ClassV, ExprV, MethodDeclV, StmtExprV, StmtV, TypeV};

verus! {

// What remains of a typed program once its type annotations are dropped:
// the typed wrappers go, and the resolved names (local variable or field)
// become plain names again. On what the parser gives, erasing changes
// nothing.

pub open spec fn erase_expr(e: ExprV) -> ExprV
    decreases e,
{
    match e {
        ExprV::TypedExpr(x, _) => erase_expr(*x),
        ExprV::LocalVar(n) => ExprV::LocalOrFieldVar(n),
        ExprV::FieldVar(n) => ExprV::LocalOrFieldVar(n),
        ExprV::InstVar(x, n) => ExprV::InstVar(Box::new(erase_expr(*x)), n),
        ExprV::Unary(s, x) => ExprV::Unary(s, Box::new(erase_expr(*x))),
        ExprV::Binary(s, l, r) => ExprV::Binary(
            s,
            Box::new(erase_expr(*l)),
            Box::new(erase_expr(*r)),
        ),
        ExprV::StmtExprExpr(se) => ExprV::StmtExprExpr(Box::new(erase_stmt_expr(*se))),
        _ => e,
    }
}

pub open spec fn erase_exprs(s: Seq<ExprV>) -> Seq<ExprV>
    decreases s,
{
    if s.len() == 0 {
        Seq::empty()
    } else {
        erase_exprs(s.drop_last()).push(erase_expr(s.last()))
    }
}

pub open spec fn erase_stmt_expr(se: StmtExprV) -> StmtExprV
    decreases se,
{
    match se {
        StmtExprV::Assign(v, x) => StmtExprV::Assign(erase_expr(v), erase_expr(x)),
        StmtExprV::New(t, a) => StmtExprV::New(t, erase_exprs(a)),
        StmtExprV::MethodCall(r, n, a) => StmtExprV::MethodCall(erase_expr(r), n, erase_exprs(a)),
        StmtExprV::TypedStmtExpr(x, _) => erase_stmt_expr(*x),
    }
}

pub open spec fn erase_stmt(s: StmtV) -> StmtV
    decreases s,
{
    match s {
        StmtV::TypedStmt(x, _) => erase_stmt(*x),
        StmtV::Block(ss) => StmtV::Block(erase_stmts(ss)),
        StmtV::Return(x) => StmtV::Return(erase_expr(x)),
        StmtV::While(c, b) => StmtV::While(erase_expr(c), Box::new(erase_stmt(*b))),
        StmtV::LocalVarDecl(t, n) => StmtV::LocalVarDecl(t, n),
        StmtV::If(c, a, b) => StmtV::If(
            erase_expr(c),
            Box::new(erase_stmt(*a)),
            match b {
                Some(x) => Some(Box::new(erase_stmt(*x))),
                None => None,
            },
        ),
        StmtV::StmtExprStmt(se) => StmtV::StmtExprStmt(erase_stmt_expr(se)),
    }
}

pub open spec fn erase_stmts(ss: Seq<StmtV>) -> Seq<StmtV>
    decreases ss,
{
    if ss.len() == 0 {
        Seq::empty()
    } else {
        erase_stmts(ss.drop_last()).push(erase_stmt(ss.last()))
    }
}

pub open spec fn erase_method(m: MethodDeclV) -> MethodDeclV {
    MethodDeclV { ret_type: m.ret_type, name: m.name, params: m.params, body: erase_stmt(m.body) }
}

pub open spec fn erase_methods(ms: Seq<MethodDeclV>) -> Seq<MethodDeclV> {
    ms.map_values(|m: MethodDeclV| erase_method(m))
}

pub open spec fn erase_class(c: ClassV) -> ClassV {
    ClassV { name: c.name, fields: c.fields, methods: erase_methods(c.methods) }
}

/// Typing an expression only adds annotations: erased, the typed expression
/// is the expression.
pub proof fn law_type_expr_erases(e: ExprV, env: Env)
    ensures
        type_expr(e, env) matches Ok(t) ==> erase_expr(t) == erase_expr(e),
    decreases e,
{
    reveal_with_fuel(erase_expr, 2);
    match e {
        ExprV::InstVar(x, _) => law_type_expr_erases(*x, env),
        ExprV::Unary(_, x) => law_type_expr_erases(*x, env),
        ExprV::Binary(_, l, r) => {
            law_type_expr_erases(*l, env);
            law_type_expr_erases(*r, env);
        },
        ExprV::StmtExprExpr(se) => law_type_stmt_expr_erases(*se, env),
        ExprV::TypedExpr(x, _) => law_type_expr_erases(*x, env),
        _ => {},
    }
}

/// Typing a list of expressions only adds annotations.
pub proof fn law_type_exprs_erases(s: Seq<ExprV>, env: Env)
    ensures
        type_exprs(s, env) matches Ok(a) ==> erase_exprs(a) == erase_exprs(s),
    decreases s,
{
    if s.len() > 0 {
        law_type_exprs_erases(s.drop_last(), env);
        law_type_expr_erases(s.last(), env);
        if let Ok(a) = type_exprs(s, env) {
            let a0 = type_exprs(s.drop_last(), env)->Ok_0;
            assert(a.drop_last() =~= a0);
        }
    }
}

/// Typing a statement expression only adds annotations.
pub proof fn law_type_stmt_expr_erases(se: StmtExprV, env: Env)
    ensures
        type_stmt_expr(se, env) matches Ok(t) ==> erase_stmt_expr(t) == erase_stmt_expr(se),
    decreases se,
{
    reveal_with_fuel(erase_stmt_expr, 2);
    match se {
        StmtExprV::Assign(v, x) => {
            law_type_expr_erases(v, env);
            law_type_expr_erases(x, env);
        },
        StmtExprV::New(_, a) => law_type_exprs_erases(a, env),
        StmtExprV::MethodCall(r, _, a) => {
            law_type_expr_erases(r, env);
            law_type_exprs_erases(a, env);
        },
        StmtExprV::TypedStmtExpr(_, _) => {},
    }
}

/// Typing a statement only adds annotations.
#[verifier::rlimit(40)]
pub proof fn law_type_stmt_erases(s: StmtV, env: Env)
    ensures
        type_stmt(s, env) matches Ok((t, _)) ==> erase_stmt(t) == erase_stmt(s),
    decreases s, 0nat,
{
    reveal_with_fuel(erase_stmt, 2);
    match s {
        StmtV::Block(ss) => {
            if ss.len() > 0 {
                law_type_stmts_erases(ss, ss.len(), env);
                assert(ss.take(ss.len() as int) =~= ss);
                if let Ok((t, _)) = type_stmt(s, env) {
                    let ts = type_stmts(ss, ss.len(), env)->Ok_0.0;
                    assert(erase_stmts(ts) == erase_stmts(ss));
                    assert(erase_stmt(t) == StmtV::Block(erase_stmts(ts)));
                }
            } else {
                assert(erase_stmts(ss) =~= Seq::empty());
                assert(erase_stmts(Seq::<StmtV>::empty()) =~= Seq::empty());
            }
        },
        StmtV::Return(x) => law_type_expr_erases(x, env),
        StmtV::While(c, b) => {
            law_type_expr_erases(c, env);
            law_type_stmt_erases(*b, env);
        },
        StmtV::If(c, a, b) => {
            law_type_expr_erases(c, env);
            law_type_stmt_erases(*a, env);
            if let Some(x) = b {
                if let Ok((_, l1)) = type_stmt(*a, env) {
                    law_type_stmt_erases(*x, Env { has_cls: env.has_cls, cls: env.cls, locals: l1, checked: env.checked });
                }
            }
        },
        StmtV::StmtExprStmt(se) => law_type_stmt_expr_erases(se, env),
        StmtV::TypedStmt(x, _) => law_type_stmt_erases(*x, env),
        StmtV::LocalVarDecl(_, _) => {},
    }
}

/// Typing the first `k` statements of a block only adds annotations.
pub proof fn law_type_stmts_erases(ss: Seq<StmtV>, k: nat, env: Env)
    ensures
        type_stmts(ss, k, env) matches Ok((a, _)) ==> k <= ss.len() ==> erase_stmts(a)
            == erase_stmts(ss.take(k as int)),
    decreases ss, k,
{
    if k == 0 || k > ss.len() {
        assert(erase_stmts(ss.take(0)) =~= Seq::empty());
    } else {
        law_type_stmts_erases(ss, (k - 1) as nat, env);
        if let Ok((a0, l1)) = type_stmts(ss, (k - 1) as nat, env) {
            law_type_stmt_erases(ss[k - 1], Env { has_cls: env.has_cls, cls: env.cls, locals: l1, checked: env.checked });
            if let Ok((a, _)) = type_stmts(ss, k, env) {
                assert(a.drop_last() =~= a0);
                assert(ss.take(k as int).drop_last() =~= ss.take(k - 1));
            }
        }
    }
}

/// A checked method is the method with its body typed: erased, it is the
/// method.
pub proof fn law_check_method_erases(
    c: ClassV,
    checked: Seq<MethodDeclV>,
    locals: Map<Seq<char>, TypeV>,
    m: MethodDeclV,
)
    ensures
        check_method(c, checked, locals, m) matches Ok(tm) ==> erase_method(tm) == erase_method(m),
{
    let l1 = crate::typechecker::spec::insert_params(locals, m.params);
    law_type_stmt_erases(m.body, Env { has_cls: true, cls: c, locals: l1, checked });
}

/// The first `k` methods of a class, checked and erased, are its first `k`
/// methods erased.
pub proof fn law_check_methods_erases(c: ClassV, k: nat, l0: Map<Seq<char>, TypeV>)
    ensures
        check_methods(c, k, l0) matches Ok(ms) ==> k <= c.methods.len() ==> erase_methods(ms)
            == erase_methods(c.methods.take(k as int)),
    decreases k,
{
    if k == 0 || k > c.methods.len() {
        assert(erase_methods(c.methods.take(0)) =~= Seq::empty());
        if let Ok(ms) = check_methods(c, k, l0) {
            assert(erase_methods(ms) =~= Seq::empty());
        }
    } else {
        law_check_methods_erases(c, (k - 1) as nat, l0);
        law_check_method_erases(
            c,
            c.methods.take(k - 1),
            if k == 1 { l0 } else { Map::empty() },
            c.methods[k - 1],
        );
        if let Ok(ms) = check_methods(c, k, l0) {
            let a = check_methods(c, (k - 1) as nat, l0)->Ok_0;
            assert(ms =~= a.push(ms.last()));
            assert(erase_methods(ms) =~= erase_methods(a).push(erase_method(ms.last())));
            assert(erase_methods(c.methods.take(k as int)) =~= erase_methods(c.methods.take(k - 1)).push(
                erase_method(c.methods[k - 1]),
            ));
        }
    }
}

/// Checking a class keeps its name and fields and types its methods:
/// erased, the methods of the typed class are the class's own methods.
pub proof fn law_check_class_erases(cs: Seq<ClassV>, c: ClassV, l0: Map<Seq<char>, TypeV>)
    ensures
        check_class(cs, c, l0) matches Ok((tc, _)) ==> tc.name == c.name && tc.fields == c.fields
            && erase_methods(tc.methods) == erase_methods(c.methods),
{
    law_check_methods_erases(c, c.methods.len(), l0);
    assert(c.methods.take(c.methods.len() as int) =~= c.methods);
}

/// Type checking a program of one class, from a fresh checker, gives one
/// typed class which, erased, is the class erased.
pub proof fn law_check_single_class_erases(c: ClassV)
    ensures
        check_classes(seq![c], 1, Seq::empty(), Seq::empty(), Map::empty()) matches Ok((ts, _, _))
            ==> ts.len() == 1 && erase_class(ts[0]) == erase_class(c),
{
    let cs = seq![c];
    reveal_with_fuel(check_classes, 2);
    law_check_class_erases(cs, c, Map::empty());
    if let Ok((ts, _, _)) = check_classes(cs, 1, Seq::empty(), Seq::empty(), Map::empty()) {
        let tc = check_class(cs, c, Map::empty())->Ok_0.0;
        assert(first_named(Seq::<ClassV>::empty(), tc.name) == -1);
        assert(ts =~= seq![tc]);
    }
}

/// Every name is resolved: no `LocalOrFieldVar` is left, at any depth.
pub open spec fn resolved_expr(e: ExprV) -> bool
    decreases e,
{
    match e {
        ExprV::LocalOrFieldVar(_) => false,
        ExprV::TypedExpr(x, _) => resolved_expr(*x),
        ExprV::InstVar(x, _) => resolved_expr(*x),
        ExprV::Unary(_, x) => resolved_expr(*x),
        ExprV::Binary(_, l, r) => resolved_expr(*l) && resolved_expr(*r),
        ExprV::StmtExprExpr(se) => resolved_stmt_expr(*se),
        _ => true,
    }
}

pub open spec fn resolved_exprs(s: Seq<ExprV>) -> bool
    decreases s,
{
    if s.len() == 0 {
        true
    } else {
        resolved_exprs(s.drop_last()) && resolved_expr(s.last())
    }
}

pub open spec fn resolved_stmt_expr(se: StmtExprV) -> bool
    decreases se,
{
    match se {
        StmtExprV::Assign(v, x) => resolved_expr(v) && resolved_expr(x),
        StmtExprV::New(_, a) => resolved_exprs(a),
        StmtExprV::MethodCall(r, _, a) => resolved_expr(r) && resolved_exprs(a),
        StmtExprV::TypedStmtExpr(x, _) => resolved_stmt_expr(*x),
    }
}

/// Typing an expression gives an expression that carries its type, with
/// every name resolved to a local variable or a field.
pub proof fn law_type_expr_resolves(e: ExprV, env: Env)
    ensures
        type_expr(e, env) matches Ok(t) ==> t is TypedExpr && resolved_expr(t),
    decreases e,
{
    reveal_with_fuel(resolved_expr, 2);
    match e {
        ExprV::InstVar(x, _) => law_type_expr_resolves(*x, env),
        ExprV::Unary(_, x) => law_type_expr_resolves(*x, env),
        ExprV::Binary(_, l, r) => {
            law_type_expr_resolves(*l, env);
            law_type_expr_resolves(*r, env);
        },
        ExprV::StmtExprExpr(se) => law_type_stmt_expr_resolves(*se, env),
        ExprV::TypedExpr(x, _) => law_type_expr_resolves(*x, env),
        _ => {},
    }
}

/// Typing a list of expressions resolves every name in it.
pub proof fn law_type_exprs_resolves(s: Seq<ExprV>, env: Env)
    ensures
        type_exprs(s, env) matches Ok(a) ==> resolved_exprs(a),
    decreases s,
{
    if s.len() > 0 {
        law_type_exprs_resolves(s.drop_last(), env);
        law_type_expr_resolves(s.last(), env);
        if let Ok(a) = type_exprs(s, env) {
            let a0 = type_exprs(s.drop_last(), env)->Ok_0;
            assert(a.drop_last() =~= a0);
        }
    }
}

/// Typing a statement expression gives one that carries its type, with
/// every name resolved.
pub proof fn law_type_stmt_expr_resolves(se: StmtExprV, env: Env)
    ensures
        type_stmt_expr(se, env) matches Ok(t) ==> t is TypedStmtExpr && resolved_stmt_expr(t),
    decreases se,
{
    reveal_with_fuel(resolved_stmt_expr, 2);
    match se {
        StmtExprV::Assign(v, x) => {
            law_type_expr_resolves(v, env);
            law_type_expr_resolves(x, env);
        },
        StmtExprV::New(_, a) => law_type_exprs_resolves(a, env),
        StmtExprV::MethodCall(r, _, a) => {
            law_type_expr_resolves(r, env);
            law_type_exprs_resolves(a, env);
        },
        StmtExprV::TypedStmtExpr(_, _) => {},
    }
}

pub open spec fn resolved_stmt(s: StmtV) -> bool
    decreases s,
{
    match s {
        StmtV::TypedStmt(x, _) => resolved_stmt(*x),
        StmtV::Block(ss) => resolved_stmts(ss),
        StmtV::Return(x) => resolved_expr(x),
        StmtV::While(c, b) => resolved_expr(c) && resolved_stmt(*b),
        StmtV::LocalVarDecl(_, _) => true,
        StmtV::If(c, a, b) => resolved_expr(c) && resolved_stmt(*a) && match b {
            Some(x) => resolved_stmt(*x),
            None => true,
        },
        StmtV::StmtExprStmt(se) => resolved_stmt_expr(se),
    }
}

pub open spec fn resolved_stmts(ss: Seq<StmtV>) -> bool
    decreases ss,
{
    if ss.len() == 0 {
        true
    } else {
        resolved_stmts(ss.drop_last()) && resolved_stmt(ss.last())
    }
}

/// Typing a statement gives a statement that carries its type, with every
/// name in it resolved to a local variable or a field.
#[verifier::rlimit(40)]
pub proof fn law_type_stmt_resolves(s: StmtV, env: Env)
    ensures
        type_stmt(s, env) matches Ok((t, _)) ==> t is TypedStmt && resolved_stmt(t),
    decreases s, 0nat,
{
    reveal_with_fuel(resolved_stmt, 2);
    match s {
        StmtV::Block(ss) => {
            if ss.len() > 0 {
                law_type_stmts_resolves(ss, ss.len(), env);
                if let Ok((t, _)) = type_stmt(s, env) {
                    let ts = type_stmts(ss, ss.len(), env)->Ok_0.0;
                    assert(resolved_stmts(ts));
                    assert(resolved_stmt(t) == resolved_stmts(ts));
                }
            } else {
                assert(resolved_stmts(Seq::<StmtV>::empty()));
            }
        },
        StmtV::Return(x) => law_type_expr_resolves(x, env),
        StmtV::While(c, b) => {
            law_type_expr_resolves(c, env);
            law_type_stmt_resolves(*b, env);
        },
        StmtV::If(c, a, b) => {
            law_type_expr_resolves(c, env);
            law_type_stmt_resolves(*a, env);
            if let Some(x) = b {
                if let Ok((_, l1)) = type_stmt(*a, env) {
                    law_type_stmt_resolves(*x, Env { has_cls: env.has_cls, cls: env.cls, locals: l1, checked: env.checked });
                }
            }
        },
        StmtV::StmtExprStmt(se) => law_type_stmt_expr_resolves(se, env),
        StmtV::TypedStmt(x, _) => law_type_stmt_resolves(*x, env),
        StmtV::LocalVarDecl(_, _) => {},
    }
}

/// Typing the statements of a block resolves every name in them.
pub proof fn law_type_stmts_resolves(ss: Seq<StmtV>, k: nat, env: Env)
    ensures
        type_stmts(ss, k, env) matches Ok((a, _)) ==> resolved_stmts(a),
    decreases ss, k,
{
    if k == 0 || k > ss.len() {
        assert(resolved_stmts(Seq::<StmtV>::empty()));
    } else {
        law_type_stmts_resolves(ss, (k - 1) as nat, env);
        if let Ok((a0, l1)) = type_stmts(ss, (k - 1) as nat, env) {
            law_type_stmt_resolves(ss[k - 1], Env { has_cls: env.has_cls, cls: env.cls, locals: l1, checked: env.checked });
            if let Ok((a, _)) = type_stmts(ss, k, env) {
                assert(a.drop_last() =~= a0);
            }
        }
    }
}

/// The body of a checked method carries its type and has every name
/// resolved.
pub proof fn law_check_method_resolves(
    c: ClassV,
    checked: Seq<MethodDeclV>,
    locals: Map<Seq<char>, TypeV>,
    m: MethodDeclV,
)
    ensures
        check_method(c, checked, locals, m) matches Ok(tm) ==> tm.body is TypedStmt && resolved_stmt(
            tm.body,
        ),
{
    let l1 = crate::typechecker::spec::insert_params(locals, m.params);
    law_type_stmt_resolves(m.body, Env { has_cls: true, cls: c, locals: l1, checked });
}

/// Checking the first `k` classes of a program without repeated class
/// names, from a checker with no typed classes yet, gives one typed class
/// per class, in order, with its name, its fields and, erased, its own
/// methods.
pub proof fn law_check_classes_erases(cs: Seq<ClassV>, k: nat, b: Seq<MethodDeclV>, l0: Map<Seq<char>, TypeV>)
    requires
        k <= cs.len(),
        first_duplicate(cs, k) is None,
    ensures
        check_classes(cs, k, Seq::empty(), b, l0) matches Ok((ts, _, _)) ==> (ts.len()
            == k && forall|i: int|
            0 <= i < k ==> #[trigger] ts[i].name == cs[i].name && ts[i].fields == cs[i].fields
                && erase_methods(ts[i].methods) == erase_methods(cs[i].methods)),
    decreases k,
{
    if k > 0 {
        law_check_classes_erases(cs, (k - 1) as nat, b, l0);
        if let Ok((t1, b1, l1)) = check_classes(cs, (k - 1) as nat, Seq::empty(), b, l0) {
            law_check_class_erases(cs, cs[k - 1], l1);
            if let Ok((c, _)) = check_class(cs, cs[k - 1], l1) {
                lemma_first_named(t1, c.name);
                assert forall|j: int| 0 <= j < t1.len() implies t1[j].name != c.name by {
                    assert(t1[j].name == cs[j].name);
                }
                assert(first_named(t1, c.name) == -1);
                let ts = put_class(t1, c);
                assert(ts == t1.push(c));
                assert forall|i: int| 0 <= i < k implies #[trigger] ts[i].name == cs[i].name
                    && ts[i].fields == cs[i].fields && erase_methods(ts[i].methods) == erase_methods(
                    cs[i].methods,
                ) by {
                    if i < k - 1 {
                        assert(ts[i] == t1[i]);
                    }
                }
            }
        }
    }
}

/// A class checked as part of a program without repeated class names,
/// erased, is the class erased: typing only adds annotations.
pub proof fn law_check_program_erases(cs: Seq<ClassV>, b: Seq<MethodDeclV>, l0: Map<Seq<char>, TypeV>, i: int)
    requires
        first_duplicate(cs, cs.len()) is None,
        0 <= i < cs.len(),
    ensures
        check_classes(cs, cs.len(), Seq::empty(), b, l0) matches Ok((ts, _, _)) ==> ts.len()
            == cs.len() && erase_class(ts[i]) == erase_class(cs[i]),
{
    law_check_classes_erases(cs, cs.len(), b, l0);
}

} // verus!
