use vstd::prelude::*;
use crate::typechecker::spec::{Env, expr_type, field_type_of, type_expr};
use crate::types::{BinaryOp, ExprV, FieldDeclV, StmtV, TypeV, UnaryOp, binary_op_of, unary_op_of};

verus! {

/// Each operator symbol denotes the operator of its name.
pub proof fn law_operator_symbols()
    ensures
        binary_op_of(seq!['+']) == Some(BinaryOp::Add),
        binary_op_of(seq!['-']) == Some(BinaryOp::Sub),
        binary_op_of(seq!['*']) == Some(BinaryOp::Mul),
        binary_op_of(seq!['/']) == Some(BinaryOp::Div),
        binary_op_of(seq!['%']) == Some(BinaryOp::Mod),
        binary_op_of(seq!['&', '&']) == Some(BinaryOp::And),
        binary_op_of(seq!['|', '|']) == Some(BinaryOp::Or),
        binary_op_of(seq!['<', '=']) == Some(BinaryOp::Le),
        binary_op_of(seq!['>', '=']) == Some(BinaryOp::Ge),
        binary_op_of(seq!['<']) == Some(BinaryOp::Lt),
        binary_op_of(seq!['>']) == Some(BinaryOp::Gt),
        binary_op_of(seq!['=', '=']) == Some(BinaryOp::Eq),
        binary_op_of(seq!['!', '=']) == Some(BinaryOp::Ne),
        unary_op_of(seq!['+']) == Some(UnaryOp::Pos),
        unary_op_of(seq!['-']) == Some(UnaryOp::Neg),
        unary_op_of(seq!['!']) == Some(UnaryOp::Not),
{
    let cs = seq!['+', '-', '*', '/', '%', '<', '>', '!', '&', '|', '='];
    assert(seq!['<'].len() == 1 && seq!['>'].len() == 1);
    assert(seq!['&', '&'].len() == 2 && seq!['|', '|'].len() == 2 && seq!['<', '='].len() == 2
        && seq!['>', '='].len() == 2);
    assert(seq!['<'] != seq!['&', '&'] && seq!['<'] != seq!['|', '|'] && seq!['<'] != seq!['<', '=']
        && seq!['<'] != seq!['>', '=']);
    assert(seq!['>'] != seq!['&', '&'] && seq!['>'] != seq!['|', '|'] && seq!['>'] != seq!['<', '=']
        && seq!['>'] != seq!['>', '=']);
    assert(forall|i: int, j: int| 0 <= i < j < cs.len() ==> cs[i] != cs[j]);
    assert(seq!['-'][0] != seq!['+'][0]);
    assert(seq!['*'][0] != seq!['+'][0] && seq!['*'][0] != seq!['-'][0]);
    assert(seq!['/'][0] != seq!['+'][0] && seq!['/'][0] != seq!['-'][0] && seq!['/'][0] != seq!['*'][0]);
    assert(seq!['%'][0] != seq!['+'][0] && seq!['%'][0] != seq!['-'][0] && seq!['%'][0] != seq!['*'][0]
        && seq!['%'][0] != seq!['/'][0]);
    assert(seq!['!'][0] != seq!['+'][0] && seq!['!'][0] != seq!['-'][0]);
    assert(seq!['<'][0] != seq!['+'][0] && seq!['<'][0] != seq!['-'][0] && seq!['<'][0] != seq!['*'][0]
        && seq!['<'][0] != seq!['/'][0] && seq!['<'][0] != seq!['%'][0]);
    assert(seq!['>'][0] != seq!['+'][0] && seq!['>'][0] != seq!['-'][0] && seq!['>'][0] != seq!['*'][0]
        && seq!['>'][0] != seq!['/'][0] && seq!['>'][0] != seq!['%'][0] && seq!['>'][0] != seq!['<'][0]);
    assert(seq!['|', '|'][0] != seq!['&', '&'][0]);
    assert(seq!['<', '='][0] != seq!['&', '&'][0] && seq!['<', '='][0] != seq!['|', '|'][0]);
    assert(seq!['>', '='][0] != seq!['&', '&'][0] && seq!['>', '='][0] != seq!['|', '|'][0]
        && seq!['>', '='][0] != seq!['<', '='][0]);
    assert(seq!['=', '='][0] != seq!['&', '&'][0] && seq!['=', '='][0] != seq!['|', '|'][0]
        && seq!['=', '='][0] != seq!['<', '='][0] && seq!['=', '='][0] != seq!['>', '='][0]);
    assert(seq!['!', '='][0] != seq!['&', '&'][0] && seq!['!', '='][0] != seq!['|', '|'][0]
        && seq!['!', '='][0] != seq!['<', '='][0] && seq!['!', '='][0] != seq!['>', '='][0]
        && seq!['!', '='][0] != seq!['=', '='][0]);
}

/// An arithmetic operator.
pub open spec fn arithmetic(op: BinaryOp) -> bool {
    op is Add || op is Sub || op is Mul || op is Div || op is Mod
}

/// The typing rule of a binary operation `s`, held by its typed form `te`:
/// `&&` and `||` take and give booleans; an arithmetic operator takes two
/// operands of one type and gives that type; a comparison takes two
/// operands of one type and gives a boolean.
pub open spec fn binary_rule(s: Seq<char>, te: ExprV) -> bool {
    match te {
        ExprV::TypedExpr(inner, t) => match *inner {
            ExprV::Binary(s2, tl, tr) => s2 == s && match binary_op_of(s) {
                Some(op) => if op is And || op is Or {
                    t == TypeV::Bool && expr_type(*tl) == TypeV::Bool && expr_type(*tr) == TypeV::Bool
                } else if arithmetic(op) {
                    t == expr_type(*tl) && expr_type(*tl) == expr_type(*tr)
                } else {
                    t == TypeV::Bool && expr_type(*tl) == expr_type(*tr)
                },
                None => false,
            },
            _ => false,
        },
        _ => false,
    }
}

/// Every typed binary operation keeps its typing rule.
pub proof fn law_binary_typing(s: Seq<char>, l: ExprV, r: ExprV, env: Env)
    ensures
        type_expr(ExprV::Binary(s, Box::new(l), Box::new(r)), env) matches Ok(te) ==> binary_rule(s, te),
{
}

/// The typing rule of a unary operation `s`: `!` takes and gives a
/// boolean, `-` and `+` an integer.
pub open spec fn unary_rule(s: Seq<char>, te: ExprV) -> bool {
    match te {
        ExprV::TypedExpr(inner, t) => match *inner {
            ExprV::Unary(s2, tx) => s2 == s && t == expr_type(*tx) && match unary_op_of(s) {
                Some(op) => if op is Not {
                    t == TypeV::Bool
                } else {
                    t == TypeV::Int
                },
                None => false,
            },
            _ => false,
        },
        _ => false,
    }
}

/// Every typed unary operation keeps its typing rule.
pub proof fn law_unary_typing(s: Seq<char>, x: ExprV, env: Env)
    ensures
        type_expr(ExprV::Unary(s, Box::new(x)), env) matches Ok(te) ==> unary_rule(s, te),
{
}

proof fn lemma_field_type_of(fs: Seq<FieldDeclV>, n: Seq<char>)
    ensures
        field_type_of(fs, n) matches Some(t) ==> exists|i: int|
            0 <= i < fs.len() && #[trigger] fs[i].name == n && fs[i].field_type == t,
        field_type_of(fs, n) is None ==> forall|i: int| 0 <= i < fs.len() ==> #[trigger] fs[i].name != n,
    decreases fs.len(),
{
    if fs.len() > 0 {
        lemma_field_type_of(fs.drop_last(), n);
        if let Some(t) = field_type_of(fs.drop_last(), n) {
            let i = choose|i: int| 0 <= i < fs.drop_last().len() && #[trigger] fs.drop_last()[i].name == n
                && fs.drop_last()[i].field_type == t;
            assert(fs[i] == fs.drop_last()[i]);
        } else {
            assert forall|i: int| 0 <= i < fs.len() - 1 implies #[trigger] fs[i].name != n by {
                assert(fs[i] == fs.drop_last()[i]);
            }
            assert(fs[fs.len() - 1] == fs.last());
        }
    }
}

/// A name is read as the local variable in scope of that name, with its
/// type; where there is none, as a field of the class of that name, with the
/// field's declared type.
pub proof fn law_name_resolution(n: Seq<char>, env: Env)
    ensures
        type_expr(ExprV::LocalOrFieldVar(n), env) matches Ok(te) ==> if env.locals.dom().contains(n) {
            te == ExprV::TypedExpr(Box::new(ExprV::LocalVar(n)), env.locals[n])
        } else {
            te matches ExprV::TypedExpr(inner, t) && *inner == ExprV::FieldVar(n) && exists|i: int|
                0 <= i < env.cls.fields.len() && #[trigger] env.cls.fields[i].name == n
                    && env.cls.fields[i].field_type == t
        },
        !env.locals.dom().contains(n) && env.has_cls && (forall|i: int|
            0 <= i < env.cls.fields.len() ==> #[trigger] env.cls.fields[i].name != n) ==> type_expr(
            ExprV::LocalOrFieldVar(n),
            env,
        ) is Err,
{
    lemma_field_type_of(env.cls.fields, n);
    if let Some(t) = field_type_of(env.cls.fields, n) {
        let i = choose|i: int| 0 <= i < env.cls.fields.len() && #[trigger] env.cls.fields[i].name == n
            && env.cls.fields[i].field_type == t;
    }
}

/// Literals have their own types.
pub proof fn law_literal_types(i: i32, b: bool, c: char, s: Seq<char>, env: Env)
    ensures
        type_expr(ExprV::Integer(i), env) == Ok::<ExprV, crate::typechecker::spec::TypeErrorV>(
            ExprV::TypedExpr(Box::new(ExprV::Integer(i)), TypeV::Int),
        ),
        type_expr(ExprV::Bool(b), env) == Ok::<ExprV, crate::typechecker::spec::TypeErrorV>(
            ExprV::TypedExpr(Box::new(ExprV::Bool(b)), TypeV::Bool),
        ),
        type_expr(ExprV::Char(c), env) == Ok::<ExprV, crate::typechecker::spec::TypeErrorV>(
            ExprV::TypedExpr(Box::new(ExprV::Char(c)), TypeV::Char),
        ),
        type_expr(ExprV::String(s), env) == Ok::<ExprV, crate::typechecker::spec::TypeErrorV>(
            ExprV::TypedExpr(Box::new(ExprV::String(s)), TypeV::String),
        ),
{
}

/// A method that checks returns its declared type: its typed body has that
/// type, or `null` where the method returns a reference; a body that never
/// returns has type `void`. The typed method keeps its name, parameters and
/// return type.
pub proof fn law_checked_method_returns_its_type(
    c: crate::types::ClassV,
    checked: Seq<crate::types::MethodDeclV>,
    locals: Map<Seq<char>, TypeV>,
    m: crate::types::MethodDeclV,
)
    ensures
        crate::typechecker::spec::check_method(c, checked, locals, m) matches Ok(tm) ==> tm.name == m.name
            && tm.params == m.params && tm.ret_type == m.ret_type && (tm.body matches StmtV::TypedStmt(_, t) && (t
            == m.ret_type || (t == TypeV::Null && (m.ret_type is String || m.ret_type is Class)))),
{
    let l1 = crate::typechecker::spec::insert_params(locals, m.params);
    crate::typechecker::erase::law_type_stmt_resolves(
        m.body,
        Env { has_cls: true, cls: c, locals: l1, checked },
    );
}

/// The fields of a class that checks have distinct names, and each initial
/// value of an `int`, `boolean` or `char` field is a literal of that type.
pub proof fn law_checked_fields(fs: Seq<FieldDeclV>, k: nat, cs: Seq<crate::types::ClassV>)
    requires
        k <= fs.len(),
    ensures
        crate::typechecker::spec::check_fields(fs, k, cs) is Ok ==> (forall|i: int, j: int|
            0 <= i < j < k ==> #[trigger] fs[i].name != #[trigger] fs[j].name) && (forall|i: int|
            0 <= i < k ==> (#[trigger] fs[i].val matches Some(v) ==> (fs[i].field_type == TypeV::Int ==> v is Integer)
                && (fs[i].field_type == TypeV::Bool ==> v is Bool) && (fs[i].field_type == TypeV::Char ==> v is Char))),
    decreases k,
{
    if k > 0 {
        law_checked_fields(fs, (k - 1) as nat, cs);
    }
}

/// No two methods of a class that checks share a name and the types of
/// their parameters, in order.
pub proof fn law_checked_methods_distinct(c: crate::types::ClassV, k: nat, l0: Map<Seq<char>, TypeV>)
    requires
        k <= c.methods.len(),
    ensures
        crate::typechecker::spec::check_methods(c, k, l0) is Ok ==> forall|i: int, j: int|
            0 <= i < j < k ==> !(#[trigger] c.methods[i].name == #[trigger] c.methods[j].name && c.methods[i].params.len()
                == c.methods[j].params.len() && forall|q: int|
                0 <= q < c.methods[i].params.len() ==> c.methods[i].params[q].0 == c.methods[j].params[q].0),
    decreases k,
{
    if k > 0 {
        law_checked_methods_distinct(c, (k - 1) as nat, l0);
        if crate::typechecker::spec::check_methods(c, k, l0) is Ok {
            let before = c.methods.take(k - 1);
            assert forall|i: int, j: int|
                0 <= i < j < k implies !(#[trigger] c.methods[i].name == #[trigger] c.methods[j].name
                    && c.methods[i].params.len() == c.methods[j].params.len() && forall|q: int|
                    0 <= q < c.methods[i].params.len() ==> c.methods[i].params[q].0 == c.methods[j].params[q].0) by {
                if j == k - 1 {
                    assert(before[i] == c.methods[i]);
                    assert(!crate::typechecker::spec::same_signature(before[i], c.methods[j]));
                }
            }
        }
    }
}

/// The condition of a typed `if` or `while` has type `boolean`.
pub open spec fn condition_rule(ts: StmtV) -> bool {
    match ts {
        StmtV::TypedStmt(inner, _) => match *inner {
            StmtV::If(c, _, _) => expr_type(c) == TypeV::Bool,
            StmtV::While(c, _) => expr_type(c) == TypeV::Bool,
            _ => false,
        },
        _ => false,
    }
}

/// Every `if` and `while` that types has a boolean condition.
pub proof fn law_conditions_are_boolean(c: ExprV, s1: StmtV, s2: Option<Box<StmtV>>, env: Env)
    ensures
        crate::typechecker::spec::type_stmt(StmtV::If(c, Box::new(s1), s2), env) matches Ok((ts, _))
            ==> condition_rule(ts),
        crate::typechecker::spec::type_stmt(StmtV::While(c, Box::new(s1)), env) matches Ok((ts, _))
            ==> condition_rule(ts),
{
}

/// A typed `return` carries the type of its value.
pub proof fn law_return_typing(x: ExprV, env: Env)
    ensures
        crate::typechecker::spec::type_stmt(StmtV::Return(x), env) matches Ok((ts, l)) ==> l == env.locals
            && type_expr(x, env) is Ok && ts == StmtV::TypedStmt(
            Box::new(StmtV::Return(type_expr(x, env)->Ok_0)),
            expr_type(type_expr(x, env)->Ok_0),
        ),
{
}

/// A declaration brings its variable into scope with its declared type,
/// and only where no local variable of that name is in scope.
pub proof fn law_declaration_scope(t: TypeV, n: Seq<char>, env: Env)
    ensures
        crate::typechecker::spec::type_stmt(StmtV::LocalVarDecl(t, n), env) matches Ok((_, l)) ==> !env.locals.dom().contains(
            n,
        ) && l == env.locals.insert(n, t),
        env.locals.dom().contains(n) ==> crate::typechecker::spec::type_stmt(StmtV::LocalVarDecl(t, n), env) is Err,
{
}

} // verus!
