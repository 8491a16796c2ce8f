use vstd::prelude::*;
use crate::typechecker::spec::{Env, expr_type, methods_fitting, type_stmt_expr};
use crate::types::{ExprV, MethodDeclV, StmtExprV};

verus! {

/// Each method that a call fits is a method of the class with the call's
/// name, as many parameters as the call has arguments, and each parameter of
/// the type of the argument in its place.
proof fn lemma_fitting_method(ms: Seq<MethodDeclV>, n: Seq<char>, args: Seq<ExprV>, k: int)
    requires
        0 <= k < methods_fitting(ms, n, args).len(),
    ensures
        exists|j: int| 0 <= j < ms.len() && #[trigger] ms[j] == methods_fitting(ms, n, args)[k],
        methods_fitting(ms, n, args)[k].name == n,
        methods_fitting(ms, n, args)[k].params.len() == args.len(),
        forall|i: int|
            0 <= i < args.len() ==> expr_type(#[trigger] args[i]) == methods_fitting(ms, n, args)[k].params[i].0,
    decreases ms.len(),
{
    let r = methods_fitting(ms.drop_last(), n, args);
    if k < r.len() {
        lemma_fitting_method(ms.drop_last(), n, args, k);
        let j = choose|j: int| 0 <= j < ms.drop_last().len() && #[trigger] ms.drop_last()[j] == r[k];
        assert(ms[j] == ms.drop_last()[j]);
    } else {
        assert(ms[ms.len() - 1] == ms.last());
    }
}

/// A call that type checks is typed with the return type of a method of the
/// class that has the call's name, exactly as many parameters as the call
/// has arguments, and in each place a parameter of the type of the typed
/// argument there.
pub proof fn law_typed_call_fits_its_method(recv: ExprV, name: Seq<char>, args: Seq<ExprV>, env: Env)
    ensures
        type_stmt_expr(StmtExprV::MethodCall(recv, name, args), env) matches Ok(typed) ==> (typed matches StmtExprV::TypedStmtExpr(
            call,
            t,
        ) && *call matches StmtExprV::MethodCall(_, called, ta) && called == name && exists|j: int|
            0 <= j < env.cls.methods.len() && #[trigger] env.cls.methods[j].name == name
                && env.cls.methods[j].ret_type == t && env.cls.methods[j].params.len() == ta.len() && forall|i: int|
                0 <= i < ta.len() ==> expr_type(#[trigger] ta[i]) == env.cls.methods[j].params[i].0),
{
    if let Ok(typed) = type_stmt_expr(StmtExprV::MethodCall(recv, name, args), env) {
        let ta = crate::typechecker::spec::type_exprs(args, env)->Ok_0;
        let ms = methods_fitting(env.cls.methods, name, ta);
        lemma_fitting_method(env.cls.methods, name, ta, 0);
        let j = choose|j: int| 0 <= j < env.cls.methods.len() && #[trigger] env.cls.methods[j] == ms[0];
        assert(env.cls.methods[j].name == name);
    }
}

} // verus!
