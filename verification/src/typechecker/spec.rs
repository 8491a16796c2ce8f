use vstd::prelude::*;
use crate::types::{
    TypeV, ExprV, StmtExprV, StmtV, FieldDeclV, MethodDeclV, ClassV, UnaryOp, BinaryOp, unary_op_of,
    binary_op_of,
};

verus! {

/// The errors of the type checker.
pub enum TypeErrorV {
    DuplicateClass(Seq<char>),
    FieldValueMismatch(Seq<char>),
    DuplicateField(Seq<char>),
    DuplicateMethod(Seq<char>),
    DuplicateLocalVar(Seq<char>),
    UnknownVariable(Seq<char>),
    NoCurrentClass,
    MismatchedReturnTypes,
    ConditionNotBool,
    TypeMismatch,
    InvalidOperator(Seq<char>),
    MethodNotFound(Seq<char>),
    AmbiguousMethodCall(Seq<char>),
    UnexpectedTyped,
    UnexpectedVariable(Seq<char>),
    UnassignedVariable(Seq<char>),
    ReturnTypeMismatch(Seq<char>),
}

/// What typing reads: whether a class is being checked and which, the
/// local variables in scope with their types, and the methods of the class
/// checked so far.
pub struct Env {
    pub has_cls: bool,
    pub cls: ClassV,
    pub locals: Map<Seq<char>, TypeV>,
    pub checked: Seq<MethodDeclV>,
}

/// The type a typed expression carries.
pub open spec fn expr_type(e: ExprV) -> TypeV {
    match e {
        ExprV::TypedExpr(_, t) => t,
        _ => TypeV::Void,
    }
}

/// The type a typed statement expression carries.
pub open spec fn stmt_expr_type(se: StmtExprV) -> TypeV {
    match se {
        StmtExprV::TypedStmtExpr(_, t) => t,
        _ => TypeV::Void,
    }
}

/// The type a typed statement carries.
pub open spec fn stmt_type(s: StmtV) -> TypeV {
    match s {
        StmtV::TypedStmt(_, t) => t,
        _ => TypeV::Void,
    }
}

/// The type of the first field named `n`.
pub open spec fn field_type_of(fs: Seq<FieldDeclV>, n: Seq<char>) -> Option<TypeV>
    decreases fs.len(),
{
    if fs.len() == 0 {
        None
    } else {
        match field_type_of(fs.drop_last(), n) {
            Some(t) => Some(t),
            None => if fs.last().name == n {
                Some(fs.last().field_type)
            } else {
                None
            },
        }
    }
}

/// The methods named `n` whose parameters the typed arguments `args` fit.
pub open spec fn methods_fitting(ms: Seq<MethodDeclV>, n: Seq<char>, args: Seq<ExprV>) -> Seq<
    MethodDeclV,
>
    decreases ms.len(),
{
    if ms.len() == 0 {
        Seq::empty()
    } else {
        let r = methods_fitting(ms.drop_last(), n, args);
        if ms.last().name == n && args_match(args, ms.last().params) {
            r.push(ms.last())
        } else {
            r
        }
    }
}

/// Whether the typed arguments match the parameters: as many, each of the
/// parameter's type.
pub open spec fn args_match(args: Seq<ExprV>, ps: Seq<(TypeV, Seq<char>)>) -> bool {
    args.len() == ps.len() && forall|i: int| 0 <= i < args.len() ==> expr_type(#[trigger] args[i]) == ps[i].0
}

/// Two methods have the same signature: the same name and the same
/// parameter types.
pub open spec fn same_signature(a: MethodDeclV, b: MethodDeclV) -> bool {
    a.name == b.name && a.params.len() == b.params.len() && forall|i: int|
        0 <= i < a.params.len() ==> #[trigger] a.params[i].0 == b.params[i].0
}

/// Some method of `ms` has the signature of `m`.
pub open spec fn signature_taken(ms: Seq<MethodDeclV>, m: MethodDeclV) -> bool {
    exists|j: int| 0 <= j < ms.len() && same_signature(#[trigger] ms[j], m)
}

/// The typed form of an expression: every subexpression wrapped with its
/// type, names resolved to local variables (first) or fields.
pub open spec fn type_expr(e: ExprV, env: Env) -> Result<ExprV, TypeErrorV>
    decreases e,
{
    match e {
        ExprV::This => if !env.has_cls {
            Err(TypeErrorV::NoCurrentClass)
        } else {
            Ok(ExprV::TypedExpr(Box::new(ExprV::This), TypeV::Class(env.cls.name)))
        },
        ExprV::LocalOrFieldVar(n) => {
            if env.locals.dom().contains(n) {
                Ok(ExprV::TypedExpr(Box::new(ExprV::LocalVar(n)), env.locals[n]))
            } else if !env.has_cls {
                Err(TypeErrorV::NoCurrentClass)
            } else {
                match field_type_of(env.cls.fields, n) {
                    Some(t) => Ok(ExprV::TypedExpr(Box::new(ExprV::FieldVar(n)), t)),
                    None => Err(TypeErrorV::UnknownVariable(n)),
                }
            }
        },
        ExprV::InstVar(x, n) => match type_expr(*x, env) {
            Ok(tx) => if !env.has_cls {
                Err(TypeErrorV::NoCurrentClass)
            } else if expr_type(tx) == TypeV::Class(env.cls.name) {
                match field_type_of(env.cls.fields, n) {
                    Some(t) => Ok(ExprV::TypedExpr(Box::new(ExprV::InstVar(Box::new(tx), n)), t)),
                    None => Err(TypeErrorV::UnknownVariable(n)),
                }
            } else {
                Err(TypeErrorV::UnknownVariable(n))
            },
            Err(err) => Err(err),
        },
        ExprV::Unary(s, x) => match type_expr(*x, env) {
            Ok(tx) => {
                let t = expr_type(tx);
                match unary_op_of(s) {
                    Some(op) => {
                        let ok = match op {
                            UnaryOp::Pos | UnaryOp::Neg => t == TypeV::Int,
                            UnaryOp::Not => t == TypeV::Bool,
                        };
                        if ok {
                            Ok(ExprV::TypedExpr(Box::new(ExprV::Unary(s, Box::new(tx))), t))
                        } else {
                            Err(TypeErrorV::TypeMismatch)
                        }
                    },
                    None => Err(TypeErrorV::InvalidOperator(s)),
                }
            },
            Err(err) => Err(err),
        },
        ExprV::Binary(s, l, r) => match binary_op_of(s) {
            None => Err(TypeErrorV::InvalidOperator(s)),
            Some(op) => match type_expr(*l, env) {
                Err(err) => Err(err),
                Ok(tl) => match type_expr(*r, env) {
                    Err(err) => Err(err),
                    Ok(tr) => {
                        let t1 = expr_type(tl);
                        let t2 = expr_type(tr);
                        let ok = match op {
                            BinaryOp::And | BinaryOp::Or => t1 == TypeV::Bool && t2 == TypeV::Bool,
                            _ => t1 == t2,
                        };
                        if !ok {
                            Err(TypeErrorV::TypeMismatch)
                        } else {
                            let t = match op {
                                BinaryOp::Add | BinaryOp::Sub | BinaryOp::Mul | BinaryOp::Div
                                | BinaryOp::Mod => t1,
                                _ => TypeV::Bool,
                            };
                            Ok(ExprV::TypedExpr(Box::new(ExprV::Binary(s, Box::new(tl), Box::new(tr))), t))
                        }
                    },
                },
            },
        },
        ExprV::Integer(i) => Ok(ExprV::TypedExpr(Box::new(ExprV::Integer(i)), TypeV::Int)),
        ExprV::Bool(b) => Ok(ExprV::TypedExpr(Box::new(ExprV::Bool(b)), TypeV::Bool)),
        ExprV::Char(c) => Ok(ExprV::TypedExpr(Box::new(ExprV::Char(c)), TypeV::Char)),
        ExprV::String(s) => Ok(ExprV::TypedExpr(Box::new(ExprV::String(s)), TypeV::String)),
        ExprV::Jnull => Ok(ExprV::TypedExpr(Box::new(ExprV::Jnull), TypeV::Null)),
        ExprV::StmtExprExpr(se) => match type_stmt_expr(*se, env) {
            Ok(tse) => Ok(ExprV::TypedExpr(Box::new(ExprV::StmtExprExpr(Box::new(tse))), stmt_expr_type(tse))),
            Err(err) => Err(err),
        },
        ExprV::TypedExpr(x, t) => match type_expr(*x, env) {
            Ok(tx) => Ok(ExprV::TypedExpr(Box::new(tx), t)),
            Err(err) => Err(err),
        },
        ExprV::LocalVar(n) => Err(TypeErrorV::UnexpectedVariable(n)),
        ExprV::FieldVar(n) => Err(TypeErrorV::UnexpectedVariable(n)),
    }
}

/// The typed forms of a list of expressions, left to right.
pub open spec fn type_exprs(s: Seq<ExprV>, env: Env) -> Result<Seq<ExprV>, TypeErrorV>
    decreases s,
{
    if s.len() == 0 {
        Ok(Seq::empty())
    } else {
        match type_exprs(s.drop_last(), env) {
            Ok(a) => match type_expr(s.last(), env) {
                Ok(t) => Ok(a.push(t)),
                Err(err) => Err(err),
            },
            Err(err) => Err(err),
        }
    }
}

/// The typed form of a statement expression. An assignment has the type
/// of its value; a `new` the class it makes; a call the return type of the
/// one method of the class of that name whose parameters the arguments fit.
pub open spec fn type_stmt_expr(se: StmtExprV, env: Env) -> Result<StmtExprV, TypeErrorV>
    decreases se,
{
    match se {
        StmtExprV::Assign(var, x) => match type_expr(x, env) {
            Err(err) => Err(err),
            Ok(tx) => match type_expr(var, env) {
                Err(err) => Err(err),
                Ok(tv) => Ok(StmtExprV::TypedStmtExpr(Box::new(StmtExprV::Assign(tv, tx)), expr_type(tx))),
            },
        },
        StmtExprV::TypedStmtExpr(_, _) => Err(TypeErrorV::UnexpectedTyped),
        StmtExprV::New(t, args) => match type_exprs(args, env) {
            Ok(ta) => Ok(StmtExprV::TypedStmtExpr(Box::new(StmtExprV::New(t, ta)), t)),
            Err(err) => Err(err),
        },
        StmtExprV::MethodCall(recv, name, args) => match type_exprs(args, env) {
            Err(err) => Err(err),
            Ok(ta) => {
                let ms = methods_fitting(env.cls.methods, name, ta);
                if !env.has_cls {
                    Err(TypeErrorV::NoCurrentClass)
                } else if ms.len() == 0 {
                    Err(TypeErrorV::MethodNotFound(name))
                } else if ms.len() > 1 {
                    Err(TypeErrorV::AmbiguousMethodCall(name))
                } else {
                    match type_expr(recv, env) {
                        Err(err) => Err(err),
                        Ok(tr) => Ok(
                            StmtExprV::TypedStmtExpr(
                                Box::new(StmtExprV::MethodCall(tr, name, ta)),
                                ms[0].ret_type,
                            ),
                        ),
                    }
                }
            },
        },
    }
}

/// The types of the `return` statements in a typed statement, also those
/// nested in blocks, branches and loops, in order.
pub open spec fn stmt_returns(s: StmtV) -> Seq<TypeV>
    decreases s, 1nat,
{
    match s {
        StmtV::TypedStmt(b, t) => match *b {
            StmtV::Return(_) => seq![t],
            StmtV::Block(ss) => stmts_returns(ss, ss.len()),
            StmtV::If(_, s1, s2) => stmt_returns(*s1) + match s2 {
                Some(e) => stmt_returns(*e),
                None => Seq::empty(),
            },
            StmtV::While(_, body) => stmt_returns(*body),
            _ => Seq::empty(),
        },
        _ => Seq::empty(),
    }
}

/// The types of the `return` statements in the first `k` typed statements.
pub open spec fn stmts_returns(ss: Seq<StmtV>, k: nat) -> Seq<TypeV>
    decreases ss, k,
{
    if k == 0 || k > ss.len() {
        Seq::empty()
    } else {
        stmts_returns(ss, (k - 1) as nat) + stmt_returns(ss[k - 1])
    }
}

/// The types of the `return` statements in typed statements.
pub open spec fn return_types(s: Seq<StmtV>) -> Seq<TypeV> {
    stmts_returns(s, s.len())
}

/// The type of a block: that of the `return` statements in it, nested ones
/// included, which must all agree; `void` where it has none.
pub open spec fn block_type(s: Seq<StmtV>) -> Result<TypeV, TypeErrorV> {
    let rs = return_types(s);
    if rs.len() == 0 {
        Ok(TypeV::Void)
    } else if forall|i: int| 0 <= i < rs.len() ==> #[trigger] rs[i] == rs[0] {
        Ok(rs[0])
    } else {
        Err(TypeErrorV::MismatchedReturnTypes)
    }
}

/// A condition must have type `boolean`.
pub open spec fn type_cond(c: ExprV, env: Env) -> Result<ExprV, TypeErrorV> {
    match type_expr(c, env) {
        Ok(tc) => if expr_type(tc) == TypeV::Bool {
            Ok(tc)
        } else {
            Err(TypeErrorV::ConditionNotBool)
        },
        Err(err) => Err(err),
    }
}

/// The typed form of a statement and the local variables after it: a
/// declaration adds its variable, and must not repeat one in scope.
pub open spec fn type_stmt(s: StmtV, env: Env) -> Result<(StmtV, Map<Seq<char>, TypeV>), TypeErrorV>
    decreases s, 0nat,
{
    match s {
        StmtV::Block(stmts) => if stmts.len() == 0 {
            Ok((StmtV::TypedStmt(Box::new(StmtV::Block(Seq::empty())), TypeV::Void), env.locals))
        } else {
            match type_stmts(stmts, stmts.len(), env) {
                Err(err) => Err(err),
                Ok((ts, l2)) => match block_type(ts) {
                    Ok(t) => Ok((StmtV::TypedStmt(Box::new(StmtV::Block(ts)), t), l2)),
                    Err(err) => Err(err),
                },
            }
        },
        StmtV::Return(x) => match type_expr(x, env) {
            Ok(tx) => Ok((StmtV::TypedStmt(Box::new(StmtV::Return(tx)), expr_type(tx)), env.locals)),
            Err(err) => Err(err),
        },
        StmtV::While(c, body) => match type_cond(c, env) {
            Err(err) => Err(err),
            Ok(tc) => match type_stmt(*body, env) {
                Err(err) => Err(err),
                Ok((tb, l2)) => Ok((StmtV::TypedStmt(Box::new(StmtV::While(tc, Box::new(tb))), stmt_type(tb)), l2)),
            },
        },
        StmtV::LocalVarDecl(t, n) => if env.locals.dom().contains(n) {
            Err(TypeErrorV::DuplicateLocalVar(n))
        } else {
            Ok((StmtV::TypedStmt(Box::new(StmtV::LocalVarDecl(t, n)), t), env.locals.insert(n, t)))
        },
        StmtV::If(c, s1, s2) => match type_cond(c, env) {
            Err(err) => Err(err),
            Ok(tc) => match type_stmt(*s1, env) {
                Err(err) => Err(err),
                Ok((t1, l1)) => match s2 {
                    Some(e) => match type_stmt(*e, Env { has_cls: env.has_cls, cls: env.cls, locals: l1, checked: env.checked }) {
                        Err(err) => Err(err),
                        Ok((t2, l2)) => Ok(
                            (
                                StmtV::TypedStmt(Box::new(StmtV::If(tc, Box::new(t1), Some(Box::new(t2)))), stmt_type(t1)),
                                l2,
                            ),
                        ),
                    },
                    None => Ok((StmtV::TypedStmt(Box::new(StmtV::If(tc, Box::new(t1), None)), stmt_type(t1)), l1)),
                },
            },
        },
        StmtV::StmtExprStmt(se) => match type_stmt_expr(se, env) {
            Ok(tse) => Ok((StmtV::TypedStmt(Box::new(StmtV::StmtExprStmt(tse)), stmt_expr_type(tse)), env.locals)),
            Err(err) => Err(err),
        },
        StmtV::TypedStmt(x, t) => match type_stmt(*x, env) {
            Ok((tx, l2)) => Ok((StmtV::TypedStmt(Box::new(tx), t), l2)),
            Err(err) => Err(err),
        },
    }
}

/// The typed forms of the first `k` statements of a block, in order, with
/// the local variables threaded through.
pub open spec fn type_stmts(stmts: Seq<StmtV>, k: nat, env: Env) -> Result<(Seq<StmtV>, Map<Seq<char>, TypeV>), TypeErrorV>
    decreases stmts, k,
{
    if k == 0 || k > stmts.len() {
        Ok((Seq::empty(), env.locals))
    } else {
        match type_stmts(stmts, (k - 1) as nat, env) {
            Err(err) => Err(err),
            Ok((a, l1)) => match type_stmt(stmts[k - 1], Env { has_cls: env.has_cls, cls: env.cls, locals: l1, checked: env.checked }) {
                Err(err) => Err(err),
                Ok((t, l2)) => Ok((a.push(t), l2)),
            },
        }
    }
}


// ---------------------------------------------------------------------------
// Checks of untyped statements and expressions.
// ---------------------------------------------------------------------------

/// Some field of the class is named `n`.
pub open spec fn has_field(c: ClassV, n: Seq<char>) -> bool {
    exists|i: int| 0 <= i < c.fields.len() && #[trigger] c.fields[i].name == n
}

/// Reading local variable `n`: it must be in scope and definitely assigned.
pub open spec fn check_local_read(n: Seq<char>, locals: Map<Seq<char>, TypeV>, init: Set<Seq<char>>) -> Result<
    Set<Seq<char>>,
    TypeErrorV,
> {
    if !locals.dom().contains(n) {
        Err(TypeErrorV::UnknownVariable(n))
    } else if !init.contains(n) {
        Err(TypeErrorV::UnassignedVariable(n))
    } else {
        Ok(init)
    }
}

/// Checks an expression of a method body, typed or not, from left to
/// right: each name it reads is a local variable in scope that is
/// definitely assigned (`init`), or a field of the class. Gives the local
/// variables definitely assigned afterwards.
pub open spec fn check_expr(e: ExprV, c: ClassV, locals: Map<Seq<char>, TypeV>, init: Set<Seq<char>>) -> Result<
    Set<Seq<char>>,
    TypeErrorV,
>
    decreases e,
{
    match e {
        ExprV::LocalOrFieldVar(n) => if locals.dom().contains(n) {
            check_local_read(n, locals, init)
        } else if has_field(c, n) {
            Ok(init)
        } else {
            Err(TypeErrorV::UnknownVariable(n))
        },
        ExprV::LocalVar(n) => check_local_read(n, locals, init),
        ExprV::FieldVar(n) => if has_field(c, n) {
            Ok(init)
        } else {
            Err(TypeErrorV::UnknownVariable(n))
        },
        ExprV::Binary(_, l, r) => match check_expr(*l, c, locals, init) {
            Ok(i1) => check_expr(*r, c, locals, i1),
            Err(err) => Err(err),
        },
        ExprV::StmtExprExpr(se) => check_stmt_expr(*se, c, locals, init),
        ExprV::InstVar(x, _) => check_expr(*x, c, locals, init),
        ExprV::Unary(_, x) => check_expr(*x, c, locals, init),
        ExprV::TypedExpr(x, _) => check_expr(*x, c, locals, init),
        _ => Ok(init),
    }
}

/// The first `k` expressions of a list checked from left to right.
pub open spec fn check_exprs(s: Seq<ExprV>, k: nat, c: ClassV, locals: Map<Seq<char>, TypeV>, init: Set<Seq<char>>) -> Result<
    Set<Seq<char>>,
    TypeErrorV,
>
    decreases s, k,
{
    if k == 0 || k > s.len() {
        Ok(init)
    } else {
        match check_exprs(s, (k - 1) as nat, c, locals, init) {
            Ok(i1) => check_expr(s[k - 1], c, locals, i1),
            Err(err) => Err(err),
        }
    }
}

/// The target of an assignment: a local variable in scope, which is
/// assigned from then on, or a field.
pub open spec fn check_target(v: ExprV, c: ClassV, locals: Map<Seq<char>, TypeV>, init: Set<Seq<char>>) -> Result<
    Set<Seq<char>>,
    TypeErrorV,
>
    decreases v,
{
    match v {
        ExprV::LocalVar(n) => if locals.dom().contains(n) {
            Ok(init.insert(n))
        } else {
            Err(TypeErrorV::UnknownVariable(n))
        },
        ExprV::LocalOrFieldVar(n) => if locals.dom().contains(n) {
            Ok(init.insert(n))
        } else if has_field(c, n) {
            Ok(init)
        } else {
            Err(TypeErrorV::UnknownVariable(n))
        },
        ExprV::FieldVar(n) => if has_field(c, n) {
            Ok(init)
        } else {
            Err(TypeErrorV::UnknownVariable(n))
        },
        ExprV::InstVar(o, _) => check_expr(*o, c, locals, init),
        ExprV::TypedExpr(x, _) => check_target(*x, c, locals, init),
        _ => Err(TypeErrorV::UnknownVariable(Seq::empty())),
    }
}

/// Checks a statement expression: an assignment evaluates its value, then
/// assigns its target.
pub open spec fn check_stmt_expr(se: StmtExprV, c: ClassV, locals: Map<Seq<char>, TypeV>, init: Set<Seq<char>>) -> Result<
    Set<Seq<char>>,
    TypeErrorV,
>
    decreases se,
{
    match se {
        StmtExprV::Assign(v, x) => match check_expr(x, c, locals, init) {
            Ok(i1) => check_target(v, c, locals, i1),
            Err(err) => Err(err),
        },
        StmtExprV::New(_, args) => check_exprs(args, args.len(), c, locals, init),
        StmtExprV::MethodCall(r, _, args) => match check_expr(r, c, locals, init) {
            Ok(i1) => check_exprs(args, args.len(), c, locals, i1),
            Err(err) => Err(err),
        },
        StmtExprV::TypedStmtExpr(x, _) => check_stmt_expr(*x, c, locals, init),
    }
}

/// A statement that cannot complete normally: it returns on every path.
pub open spec fn always_returns(s: StmtV) -> bool
    decreases s, 1nat,
{
    match s {
        StmtV::Return(_) => true,
        StmtV::Block(stmts) => last_returns(stmts),
        StmtV::If(_, s1, Some(s2)) => always_returns(*s1) && always_returns(*s2),
        StmtV::TypedStmt(x, _) => always_returns(*x),
        _ => false,
    }
}

/// The last statement of a block returns on every path.
pub open spec fn last_returns(stmts: Seq<StmtV>) -> bool
    decreases stmts, 0nat,
{
    stmts.len() > 0 && always_returns(stmts[stmts.len() - 1])
}

/// The local variables definitely assigned after an `if` with an `else`:
/// those assigned on both branches; where one branch always returns, those
/// of the other.
pub open spec fn join_init(s1: StmtV, a1: Set<Seq<char>>, s2: StmtV, a2: Set<Seq<char>>) -> Set<Seq<char>> {
    if always_returns(s1) {
        a2
    } else if always_returns(s2) {
        a1
    } else {
        a1.intersect(a2)
    }
}

/// Checks a statement of a method body, typed or not: declarations must not
/// repeat a local variable in scope and bring theirs into scope, unassigned;
/// names are read as `check_expr` says. Gives the local variables in scope
/// and those definitely assigned afterwards; the body of a loop may not run,
/// so it assigns nothing for what follows.
pub open spec fn check_stmt(s: StmtV, c: ClassV, locals: Map<Seq<char>, TypeV>, init: Set<Seq<char>>) -> Result<
    (Map<Seq<char>, TypeV>, Set<Seq<char>>),
    TypeErrorV,
>
    decreases s, 0nat,
{
    match s {
        StmtV::Return(x) => match check_expr(x, c, locals, init) {
            Ok(i1) => Ok((locals, i1)),
            Err(err) => Err(err),
        },
        StmtV::While(x, b) => match check_expr(x, c, locals, init) {
            Ok(i1) => match check_stmt(*b, c, locals, i1) {
                Ok((l2, _)) => Ok((l2, i1)),
                Err(err) => Err(err),
            },
            Err(err) => Err(err),
        },
        StmtV::If(x, s1, s2) => match check_expr(x, c, locals, init) {
            Err(err) => Err(err),
            Ok(i1) => match check_stmt(*s1, c, locals, i1) {
                Err(err) => Err(err),
                Ok((l1, a1)) => match s2 {
                    Some(e) => match check_stmt(*e, c, l1, i1) {
                        Ok((l2, a2)) => Ok((l2, join_init(*s1, a1, *e, a2))),
                        Err(err) => Err(err),
                    },
                    None => Ok((l1, i1)),
                },
            },
        },
        StmtV::Block(stmts) => check_stmts(stmts, stmts.len(), c, locals, init),
        StmtV::LocalVarDecl(t, n) => if locals.dom().contains(n) {
            Err(TypeErrorV::DuplicateLocalVar(n))
        } else {
            Ok((locals.insert(n, t), init))
        },
        StmtV::StmtExprStmt(se) => match check_stmt_expr(se, c, locals, init) {
            Ok(i1) => Ok((locals, i1)),
            Err(err) => Err(err),
        },
        StmtV::TypedStmt(x, _) => check_stmt(*x, c, locals, init),
    }
}

/// Checks the first `k` statements of a block in order.
pub open spec fn check_stmts(stmts: Seq<StmtV>, k: nat, c: ClassV, locals: Map<Seq<char>, TypeV>, init: Set<Seq<char>>) -> Result<
    (Map<Seq<char>, TypeV>, Set<Seq<char>>),
    TypeErrorV,
>
    decreases stmts, k,
{
    if k == 0 || k > stmts.len() {
        Ok((locals, init))
    } else {
        match check_stmts(stmts, (k - 1) as nat, c, locals, init) {
            Ok((l1, i1)) => check_stmt(stmts[k - 1], c, l1, i1),
            Err(err) => Err(err),
        }
    }
}

// ---------------------------------------------------------------------------
// Fields, methods, classes, programs.
// ---------------------------------------------------------------------------

/// Some class of the program is named `n`.
pub open spec fn has_class_named(cs: Seq<ClassV>, n: Seq<char>) -> bool {
    exists|i: int| 0 <= i < cs.len() && #[trigger] cs[i].name == n
}

/// The initial value of a field fits its type: a literal of the type for
/// `int`, `boolean` and `char`, anything for `String`, nothing for `void`
/// and the null type, and a class of the program for a class type.
pub open spec fn field_val_ok(t: TypeV, val: Option<ExprV>, cs: Seq<ClassV>) -> bool {
    match val {
        None => true,
        Some(v) => match t {
            TypeV::Int => v is Integer,
            TypeV::Bool => v is Bool,
            TypeV::Char => v is Char,
            TypeV::String => true,
            TypeV::Void | TypeV::Null => false,
            TypeV::Class(n) => has_class_named(cs, n),
        },
    }
}

/// Checks the first `k` fields: each initial value fits, and no name
/// repeats an earlier field's.
pub open spec fn check_fields(fs: Seq<FieldDeclV>, k: nat, cs: Seq<ClassV>) -> Result<(), TypeErrorV>
    decreases k,
{
    if k == 0 || k > fs.len() {
        Ok(())
    } else {
        match check_fields(fs, (k - 1) as nat, cs) {
            Err(err) => Err(err),
            Ok(_) => {
                let f = fs[k - 1];
                if !field_val_ok(f.field_type, f.val, cs) {
                    Err(TypeErrorV::FieldValueMismatch(f.name))
                } else if exists|j: int| 0 <= j < k - 1 && #[trigger] fs[j].name == f.name {
                    Err(TypeErrorV::DuplicateField(f.name))
                } else {
                    Ok(())
                }
            },
        }
    }
}

/// The local variables with the parameters added, in order.
pub open spec fn insert_params(l: Map<Seq<char>, TypeV>, ps: Seq<(TypeV, Seq<char>)>) -> Map<Seq<char>, TypeV>
    decreases ps.len(),
{
    if ps.len() == 0 {
        l
    } else {
        insert_params(l, ps.drop_last()).insert(ps.last().1, ps.last().0)
    }
}

/// A body of type `body` fits a method declared to return `ret`: the same
/// type, or `null` where a reference is returned. A body without `return`
/// has type `void`.
pub open spec fn return_fits(body: TypeV, ret: TypeV) -> bool {
    body == ret || (body is Null && (ret is String || ret is Class))
}

/// The typed form of a method of class `c`: its body typed with the
/// parameters in scope; the typed body checked from the scope at the start
/// of the method, where every variable in scope holds a value; its type
/// fitting the declared return type; and its signature new among the
/// methods checked so far.
pub open spec fn check_method(c: ClassV, checked: Seq<MethodDeclV>, locals: Map<Seq<char>, TypeV>, m: MethodDeclV) -> Result<
    MethodDeclV,
    TypeErrorV,
> {
    let l1 = insert_params(locals, m.params);
    match type_stmt(m.body, Env { has_cls: true, cls: c, locals: l1, checked }) {
        Err(err) => Err(err),
        Ok((tb, _)) => if !return_fits(stmt_type(tb), m.ret_type) {
            Err(TypeErrorV::ReturnTypeMismatch(m.name))
        } else {
            match check_stmt(tb, c, l1, l1.dom()) {
                Err(err) => Err(err),
                Ok(_) => if signature_taken(checked, m) {
                    Err(TypeErrorV::DuplicateMethod(m.name))
                } else {
                    Ok(MethodDeclV { ret_type: m.ret_type, name: m.name, params: m.params, body: tb })
                },
            }
        },
    }
}

/// The typed forms of the first `k` methods of class `c`, each checked
/// against the methods before it. The first sees the local variables `l0`
/// left in scope before; the scope is cleared after each method.
pub open spec fn check_methods(c: ClassV, k: nat, l0: Map<Seq<char>, TypeV>) -> Result<Seq<MethodDeclV>, TypeErrorV>
    decreases k,
{
    if k == 0 || k > c.methods.len() {
        Ok(Seq::empty())
    } else {
        match check_methods(c, (k - 1) as nat, l0) {
            Err(err) => Err(err),
            Ok(a) => match check_method(
                c,
                c.methods.take(k - 1),
                if k == 1 { l0 } else { Map::empty() },
                c.methods[k - 1],
            ) {
                Ok(m) => Ok(a.push(m)),
                Err(err) => Err(err),
            },
        }
    }
}

/// The typed form of class `c` of program `cs`: its fields as declared and
/// its typed methods; and the local variables afterwards.
pub open spec fn check_class(cs: Seq<ClassV>, c: ClassV, l0: Map<Seq<char>, TypeV>) -> Result<
    (ClassV, Map<Seq<char>, TypeV>),
    TypeErrorV,
> {
    match check_fields(c.fields, c.fields.len(), cs) {
        Err(err) => Err(err),
        Ok(_) => match check_methods(c, c.methods.len(), l0) {
            Err(err) => Err(err),
            Ok(ms) => Ok(
                (
                    ClassV { name: c.name, fields: c.fields, methods: ms },
                    if c.methods.len() > 0 { Map::empty() } else { l0 },
                ),
            ),
        },
    }
}

/// The position of the first class named `n`, or -1.
pub open spec fn first_named(ts: Seq<ClassV>, n: Seq<char>) -> int
    decreases ts.len(),
{
    if ts.len() == 0 {
        -1
    } else {
        let f = first_named(ts.drop_last(), n);
        if f >= 0 {
            f
        } else if ts.last().name == n {
            ts.len() - 1
        } else {
            -1
        }
    }
}

/// Adds a typed class under its name, replacing the first of that name.
pub open spec fn put_class(ts: Seq<ClassV>, c: ClassV) -> Seq<ClassV> {
    let i = first_named(ts, c.name);
    if i >= 0 {
        ts.update(i, c)
    } else {
        ts.push(c)
    }
}

/// Checks the first `k` classes in order, from the typed classes `ts`, the
/// typed methods `before` of the class typed last and the local variables
/// `l0`; gives all three afterwards.
pub open spec fn check_classes(
    cs: Seq<ClassV>,
    k: nat,
    ts: Seq<ClassV>,
    before: Seq<MethodDeclV>,
    l0: Map<Seq<char>, TypeV>,
) -> Result<(Seq<ClassV>, Seq<MethodDeclV>, Map<Seq<char>, TypeV>), TypeErrorV>
    decreases k,
{
    if k == 0 || k > cs.len() {
        Ok((ts, before, l0))
    } else {
        match check_classes(cs, (k - 1) as nat, ts, before, l0) {
            Err(err) => Err(err),
            Ok((t1, b1, l1)) => match check_class(cs, cs[k - 1], l1) {
                Ok((c, l2)) => Ok((put_class(t1, c), c.methods, l2)),
                Err(err) => Err(err),
            },
        }
    }
}

/// The name of the first class that repeats an earlier class's name.
pub open spec fn first_duplicate(cs: Seq<ClassV>, k: nat) -> Option<Seq<char>>
    decreases k,
{
    if k == 0 || k > cs.len() {
        None
    } else {
        match first_duplicate(cs, (k - 1) as nat) {
            Some(n) => Some(n),
            None => if exists|j: int| 0 <= j < k - 1 && #[trigger] cs[j].name == cs[k - 1].name {
                Some(cs[k - 1].name)
            } else {
                None
            },
        }
    }
}

} // verus!
