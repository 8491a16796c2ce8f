use vstd::prelude::*;
use crate::types::{
    Type, TypeV, Expr, ExprV, Stmt, StmtV, StmtExpr, StmtExprV, FieldDecl, FieldDeclV, MethodDecl,
    MethodDeclV, Class, ClassV, UnaryOp, BinaryOp, unary_op_of, binary_op_of, exprs_view, stmts_view,
    fields_view, methods_view, lemma_exprs_view, lemma_stmts_view, copy_exprs, copy_params,
};
use super::erase::{
    erase_expr, erase_stmt_expr, erase_stmt, erase_class, resolved_expr, resolved_stmt_expr, resolved_stmt,
    law_type_expr_erases, law_type_expr_resolves, law_type_stmt_expr_erases, law_type_stmt_expr_resolves,
    law_type_stmt_erases, law_type_stmt_resolves, law_check_program_erases,
};
use super::spec::{
    TypeErrorV, Env, expr_type, stmt_expr_type, stmt_type, return_fits, field_type_of, methods_fitting, args_match, same_signature, signature_taken,
    type_expr, type_exprs, type_stmt_expr, return_types, stmt_returns, stmts_returns, block_type, type_cond, type_stmt, type_stmts,
    has_field, check_local_read, check_expr, check_exprs, check_target, check_stmt_expr, check_stmt, check_stmts,
    always_returns,
    has_class_named, field_val_ok, check_fields, insert_params, check_method, check_methods, check_class,
    put_class, check_classes, first_duplicate, first_named,
};

verus! {

/// Why a program does not type check.
#[derive(Debug)]
pub enum TypeError {
    DuplicateClass(String),
    FieldValueMismatch(String),
    DuplicateField(String),
    DuplicateMethod(String),
    DuplicateLocalVar(String),
    UnknownVariable(String),
    NoCurrentClass,
    MismatchedReturnTypes,
    ConditionNotBool,
    TypeMismatch,
    InvalidOperator(String),
    MethodNotFound(String),
    AmbiguousMethodCall(String),
    UnexpectedTyped,
    UnexpectedVariable(String),
    UnassignedVariable(String),
    ReturnTypeMismatch(String),
}

impl View for TypeError {
    type V = TypeErrorV;

    open spec fn view(&self) -> TypeErrorV {
        match *self {
            TypeError::DuplicateClass(s) => TypeErrorV::DuplicateClass(s@),
            TypeError::FieldValueMismatch(s) => TypeErrorV::FieldValueMismatch(s@),
            TypeError::DuplicateField(s) => TypeErrorV::DuplicateField(s@),
            TypeError::DuplicateMethod(s) => TypeErrorV::DuplicateMethod(s@),
            TypeError::DuplicateLocalVar(s) => TypeErrorV::DuplicateLocalVar(s@),
            TypeError::UnknownVariable(s) => TypeErrorV::UnknownVariable(s@),
            TypeError::NoCurrentClass => TypeErrorV::NoCurrentClass,
            TypeError::MismatchedReturnTypes => TypeErrorV::MismatchedReturnTypes,
            TypeError::ConditionNotBool => TypeErrorV::ConditionNotBool,
            TypeError::TypeMismatch => TypeErrorV::TypeMismatch,
            TypeError::InvalidOperator(s) => TypeErrorV::InvalidOperator(s@),
            TypeError::MethodNotFound(s) => TypeErrorV::MethodNotFound(s@),
            TypeError::AmbiguousMethodCall(s) => TypeErrorV::AmbiguousMethodCall(s@),
            TypeError::UnexpectedTyped => TypeErrorV::UnexpectedTyped,
            TypeError::UnexpectedVariable(s) => TypeErrorV::UnexpectedVariable(s@),
            TypeError::UnassignedVariable(s) => TypeErrorV::UnassignedVariable(s@),
            TypeError::ReturnTypeMismatch(s) => TypeErrorV::ReturnTypeMismatch(s@),
        }
    }
}

/// The result of typing matches the spec's: the same value or the same error.
pub open spec fn res_matches<A, B: View<V = A>>(spec: Result<A, TypeErrorV>, r: Result<B, TypeError>) -> bool {
    match spec {
        Ok(a) => r matches Ok(b) && b@ == a,
        Err(e) => r matches Err(x) && x@ == e,
    }
}

/// The local variables as a map: a later entry for a name overrides an
/// earlier one.
pub open spec fn assoc(s: Seq<(String, Type)>) -> Map<Seq<char>, TypeV>
    decreases s.len(),
{
    if s.len() == 0 {
        Map::empty()
    } else {
        assoc(s.drop_last()).insert(s.last().0@, s.last().1@)
    }
}

/// The type checker: the classes of the program, the classes typed so far
/// and the state of the class and method being checked.
pub struct TypeChecker {
    pub classes: Vec<Class>,
    pub typed_classes: Vec<Class>,
    pub current_class: Option<usize>,
    pub current_typed_class: Class,
    pub fields: Vec<FieldDecl>,
    pub current_local_vars: Vec<(String, Type)>,
    pub methods: Vec<MethodDecl>,
}

impl TypeChecker {
    /// The class being checked is one of the program's.
    pub open spec fn has_class(&self) -> bool {
        self.current_class matches Some(i) && i < self.classes@.len()
    }

    /// What typing reads from the checker's state.
    pub open spec fn env(&self) -> Env {
        Env {
            has_cls: self.has_class(),
            cls: self.classes@[self.current_class.unwrap() as int]@,
            locals: assoc(self.current_local_vars@),
            checked: methods_view(self.methods@),
        }
    }

    /// The class being checked, where one is set.
    fn current(&self) -> (r: Option<&Class>)
        ensures
            r is Some == self.has_class(),
            r matches Some(c) ==> c@ == self.env().cls,
    {
        match self.current_class {
            Some(i) => if i < self.classes.len() {
                Some(&self.classes[i])
            } else {
                None
            },
            None => None,
        }
    }

    /// The type of local variable `name`, where it is in scope.
    fn lookup_local(&self, name: &String) -> (r: Option<Type>)
        ensures
            r matches Some(t) ==> assoc(self.current_local_vars@).dom().contains(name@) && t@ == assoc(self.current_local_vars@)[name@],
            r is None ==> !assoc(self.current_local_vars@).dom().contains(name@),
    {
        let ghost s = self.current_local_vars@;
        let mut i: usize = self.current_local_vars.len();
        assert(s.take(i as int) =~= s);
        while i > 0
            invariant
                i <= s.len(),
                s == self.current_local_vars@,
                assoc(s.take(i as int)).dom().contains(name@) ==> assoc(s)[name@] == assoc(s.take(i as int))[name@],
                assoc(s.take(i as int)).dom().contains(name@) <==> assoc(s).dom().contains(name@),
            decreases i,
        {
            let ghost t = s.take(i as int);
            assert(t.drop_last() =~= s.take(i - 1));
            if self.current_local_vars[i - 1].0 == *name {
                return Some(self.current_local_vars[i - 1].1.copy_type());
            }
            i = i - 1;
        }
        assert(s.take(0) =~= Seq::<(String, Type)>::empty());
        None
    }

    /// Whether local variable `name` is in scope.
    fn has_local(&self, name: &String) -> (b: bool)
        ensures
            b == assoc(self.current_local_vars@).dom().contains(name@),
    {
        match self.lookup_local(name) {
            Some(_) => true,
            None => false,
        }
    }

    /// Brings `name` into scope with type `t`.
    fn insert_local(&mut self, name: String, t: Type)
        ensures
            assoc(final(self).current_local_vars@) == assoc(old(self).current_local_vars@).insert(name@, t@),
            final(self).classes == old(self).classes,
            final(self).typed_classes == old(self).typed_classes,
            final(self).current_class == old(self).current_class,
            final(self).current_typed_class == old(self).current_typed_class,
            final(self).fields == old(self).fields,
            final(self).methods == old(self).methods,
    {
        let ghost s = self.current_local_vars@;
        self.current_local_vars.push((name, t));
        assert(self.current_local_vars@.drop_last() =~= s);
    }
}


/// The type of the first field named `n`, as `field_type_of` gives it.
fn find_field_type(fields: &Vec<FieldDecl>, n: &String) -> (r: Option<Type>)
    ensures
        match field_type_of(fields_view(fields@), n@) {
            Some(t) => r matches Some(x) && x@ == t,
            None => r is None,
        },
{
    let ghost fs = fields_view(fields@);
    let mut i: usize = 0;
    while i < fields.len()
        invariant
            i <= fields@.len(),
            fs == fields_view(fields@),
            field_type_of(fs.take(i as int), n@) is None,
        decreases fields@.len() - i,
    {
        assert(fs.take(i + 1).drop_last() =~= fs.take(i as int));
        assert(fs.take(i + 1).last() == fields@[i as int]@);
        if fields[i].name == *n {
            proof {
                lemma_field_type_of_prefix(fs, i as int + 1, n@);
            }
            return Some(fields[i].field_type.copy_type());
        }
        i = i + 1;
    }
    assert(fs.take(i as int) =~= fs);
    None
}

/// A name found in a prefix of the fields is found there in the whole list.
proof fn lemma_field_type_of_prefix(fs: Seq<FieldDeclV>, k: int, n: Seq<char>)
    requires
        0 <= k <= fs.len(),
        field_type_of(fs.take(k), n) is Some,
    ensures
        field_type_of(fs, n) == field_type_of(fs.take(k), n),
    decreases fs.len() - k,
{
    if k < fs.len() {
        assert(fs.take(k + 1).drop_last() =~= fs.take(k));
        lemma_field_type_of_prefix(fs, k + 1, n);
    } else {
        assert(fs.take(k) =~= fs);
    }
}

/// How many methods named `n` the typed arguments `args` fit, and the
/// first of them.
fn count_fitting(methods: &Vec<MethodDecl>, n: &String, args: &Vec<Expr>) -> (r: (usize, usize))
    ensures
        r.0 == methods_fitting(methods_view(methods@), n@, exprs_view(args@)).len(),
        r.0 > 0 ==> r.1 < methods@.len() && methods_fitting(methods_view(methods@), n@, exprs_view(args@))[0]
            == methods@[r.1 as int]@,
{
    let ghost ms = methods_view(methods@);
    let ghost av = exprs_view(args@);
    let mut count: usize = 0;
    let mut first: usize = 0;
    let mut i: usize = 0;
    while i < methods.len()
        invariant
            i <= methods@.len(),
            ms == methods_view(methods@),
            av == exprs_view(args@),
            count == methods_fitting(ms.take(i as int), n@, av).len(),
            count <= i,
            count > 0 ==> first < i && methods_fitting(ms.take(i as int), n@, av)[0] == methods@[first as int]@,
        decreases methods@.len() - i,
    {
        assert(ms.take(i + 1).drop_last() =~= ms.take(i as int));
        assert(ms.take(i + 1).last() == methods@[i as int]@);
        if methods[i].name == *n && check_args(args, &methods[i].params) {
            if count == 0 {
                first = i;
            }
            count = count + 1;
        }
        i = i + 1;
    }
    assert(ms.take(i as int) =~= ms);
    (count, first)
}

/// Whether two methods have the same name and parameter types.
fn same_signature_x(a: &MethodDecl, b: &MethodDecl) -> (r: bool)
    ensures
        r == same_signature(a@, b@),
{
    if a.name != b.name || a.params.len() != b.params.len() {
        return false;
    }
    let ghost ap = crate::types::params_view(a.params@);
    let ghost bp = crate::types::params_view(b.params@);
    let mut i: usize = 0;
    while i < a.params.len()
        invariant
            i <= a.params@.len(),
            a.params@.len() == b.params@.len(),
            ap == crate::types::params_view(a.params@),
            bp == crate::types::params_view(b.params@),
            forall|k: int| 0 <= k < i ==> #[trigger] ap[k].0 == bp[k].0,
        decreases a.params@.len() - i,
    {
        if !a.params[i].0.same_as(&b.params[i].0) {
            assert(ap[i as int].0 != bp[i as int].0);
            return false;
        }
        i = i + 1;
    }
    true
}

/// Whether some method of `ms` has the signature of `m`.
fn signature_taken_x(ms: &Vec<MethodDecl>, m: &MethodDecl) -> (r: bool)
    ensures
        r == signature_taken(methods_view(ms@), m@),
{
    let ghost mv = methods_view(ms@);
    let mut i: usize = 0;
    while i < ms.len()
        invariant
            i <= ms@.len(),
            mv == methods_view(ms@),
            forall|k: int| 0 <= k < i ==> !same_signature(#[trigger] mv[k], m@),
        decreases ms@.len() - i,
    {
        assert(mv[i as int] == ms@[i as int]@);
        if same_signature_x(&ms[i], m) {
            return true;
        }
        i = i + 1;
    }
    false
}

/// Whether the typed arguments match the parameters in number and type.
fn check_args(args: &Vec<Expr>, params: &Vec<(Type, String)>) -> (b: bool)
    ensures
        b == args_match(exprs_view(args@), crate::types::params_view(params@)),
{
    let ghost av = exprs_view(args@);
    let ghost pv = crate::types::params_view(params@);
    proof {
        lemma_exprs_view(args@);
    }
    if args.len() != params.len() {
        return false;
    }
    let mut i: usize = 0;
    while i < args.len() && i < params.len()
        invariant
            av == exprs_view(args@),
            pv == crate::types::params_view(params@),
            av.len() == args@.len(),
            forall|k: int| 0 <= k < args@.len() ==> #[trigger] av[k] == args@[k]@,
            i <= args@.len(),
            forall|k: int| 0 <= k < i && k < pv.len() ==> expr_type(#[trigger] av[k]) == pv[k].0,
        decreases args@.len() - i,
    {
        let t = match &args[i] {
            Expr::TypedExpr(_, t) => t,
            _ => {
                assert(expr_type(av[i as int]) == TypeV::Void);
                if params[i].0.same_as(&Type::Void) {
                    i = i + 1;
                    continue;
                }
                return false;
            },
        };
        if !t.same_as(&params[i].0) {
            return false;
        }
        i = i + 1;
    }
    true
}


/// The type a typed expression carries.
fn type_of(e: &Expr) -> (t: Type)
    ensures
        t@ == expr_type(e@),
{
    match e {
        Expr::TypedExpr(_, t) => t.copy_type(),
        _ => Type::Void,
    }
}

impl TypeChecker {
    /// The typed form of an expression, as `type_expr` gives it. An unknown
    /// variable, operands of the wrong types and a call that fits no method
    /// are refused with their errors, the errors this type checker reports;
    /// a class is needed only where the expression reads one.
    fn type_expr(&self, expr: &Expr) -> (r: Result<Expr, TypeError>)
        ensures
            res_matches(type_expr(expr@, self.env()), r),
            r matches Ok(t) ==> t@ is TypedExpr && resolved_expr(t@) && erase_expr(t@) == erase_expr(expr@),
        decreases expr,
    {
        proof {
            law_type_expr_erases(expr@, self.env());
            law_type_expr_resolves(expr@, self.env());
        }
        proof {
            reveal_with_fuel(crate::types::expr_view, 3);
            reveal_with_fuel(crate::types::stmt_expr_view, 3);
        }
        match expr {
            Expr::This => {
                let class = match self.current() {
                    Some(c) => c,
                    None => return Err(TypeError::NoCurrentClass),
                };
                Ok(Expr::TypedExpr(Box::new(Expr::This), Type::Class(class.name.clone())))
            },
            Expr::LocalOrFieldVar(name) => {
                assert(expr@ == ExprV::LocalOrFieldVar(name@));
                match self.lookup_local(name) {
                    Some(t) => Ok(Expr::TypedExpr(Box::new(Expr::LocalVar(name.clone())), t)),
                    None => {
                        let class = match self.current() {
                            Some(c) => c,
                            None => return Err(TypeError::NoCurrentClass),
                        };
                        match find_field_type(&class.fields, name) {
                            Some(t) => Ok(Expr::TypedExpr(Box::new(Expr::FieldVar(name.clone())), t)),
                            None => Err(TypeError::UnknownVariable(name.clone())),
                        }
                    },
                }
            },
            Expr::InstVar(x, name) => {
                assert(expr@ == ExprV::InstVar(Box::new((**x)@), name@));
                let tx = match self.type_expr(&**x) {
                    Ok(v) => v,
                    Err(e) => return Err(e),
                };
                let tt = type_of(&tx);
                let class = match self.current() {
                    Some(c) => c,
                    None => return Err(TypeError::NoCurrentClass),
                };
                let is_this_class = match &tt {
                    Type::Class(n) => *n == class.name,
                    _ => false,
                };
                if !is_this_class {
                    return Err(TypeError::UnknownVariable(name.clone()));
                }
                match find_field_type(&class.fields, name) {
                    Some(t) => Ok(Expr::TypedExpr(Box::new(Expr::InstVar(Box::new(tx), name.clone())), t)),
                    None => Err(TypeError::UnknownVariable(name.clone())),
                }
            },
            Expr::Unary(s, x) => {
                assert(expr@ == ExprV::Unary(s@, Box::new((**x)@)));
                let tx = match self.type_expr(&**x) {
                    Ok(v) => v,
                    Err(e) => return Err(e),
                };
                let t = type_of(&tx);
                let op = match UnaryOp::from_op(s.as_str()) {
                    Some(op) => op,
                    None => return Err(TypeError::InvalidOperator(s.clone())),
                };
                let ok = match op {
                    UnaryOp::Pos | UnaryOp::Neg => t.same_as(&Type::Int),
                    UnaryOp::Not => t.same_as(&Type::Bool),
                };
                if !ok {
                    return Err(TypeError::TypeMismatch);
                }
                Ok(Expr::TypedExpr(Box::new(Expr::Unary(s.clone(), Box::new(tx))), t))
            },
            Expr::Binary(s, l, r) => {
                assert(expr@ == ExprV::Binary(s@, Box::new((**l)@), Box::new((**r)@)));
                let op = match BinaryOp::from_op(s.as_str()) {
                    Some(op) => op,
                    None => return Err(TypeError::InvalidOperator(s.clone())),
                };
                let tl = match self.type_expr(&**l) {
                    Ok(v) => v,
                    Err(e) => return Err(e),
                };
                let tr = match self.type_expr(&**r) {
                    Ok(v) => v,
                    Err(e) => return Err(e),
                };
                let t1 = type_of(&tl);
                let t2 = type_of(&tr);
                let ok = match op {
                    BinaryOp::And | BinaryOp::Or => t1.same_as(&Type::Bool) && t2.same_as(&Type::Bool),
                    _ => t1.same_as(&t2),
                };
                if !ok {
                    return Err(TypeError::TypeMismatch);
                }
                let t = match op {
                    BinaryOp::Add | BinaryOp::Sub | BinaryOp::Mul | BinaryOp::Div | BinaryOp::Mod => t1,
                    _ => Type::Bool,
                };
                Ok(Expr::TypedExpr(Box::new(Expr::Binary(s.clone(), Box::new(tl), Box::new(tr))), t))
            },
            Expr::Integer(i) => Ok(Expr::TypedExpr(Box::new(Expr::Integer(*i)), Type::Int)),
            Expr::Bool(b) => Ok(Expr::TypedExpr(Box::new(Expr::Bool(*b)), Type::Bool)),
            Expr::Char(c) => Ok(Expr::TypedExpr(Box::new(Expr::Char(*c)), Type::Char)),
            Expr::String(s) => Ok(Expr::TypedExpr(Box::new(Expr::String(s.clone())), Type::String)),
            Expr::Jnull => Ok(Expr::TypedExpr(Box::new(Expr::Jnull), Type::Null)),
            Expr::StmtExprExpr(se) => {
                assert(expr@ == ExprV::StmtExprExpr(Box::new((**se)@)));
                let tse = match self.type_stmt_expr(&**se) {
                    Ok(v) => v,
                    Err(e) => return Err(e),
                };
                let t = match &tse {
                    StmtExpr::TypedStmtExpr(_, t) => t.copy_type(),
                    _ => Type::Void,
                };
                Ok(Expr::TypedExpr(Box::new(Expr::StmtExprExpr(Box::new(tse))), t))
            },
            Expr::TypedExpr(x, t) => {
                assert(expr@ == ExprV::TypedExpr(Box::new((**x)@), t@));
                let tx = match self.type_expr(&**x) {
                    Ok(v) => v,
                    Err(e) => return Err(e),
                };
                Ok(Expr::TypedExpr(Box::new(tx), t.copy_type()))
            },
            Expr::LocalVar(n) => Err(TypeError::UnexpectedVariable(n.clone())),
            Expr::FieldVar(n) => Err(TypeError::UnexpectedVariable(n.clone())),
        }
    }

    /// The typed forms of a list of expressions, as `type_exprs` gives them.
    fn type_exprs(&self, args: &Vec<Expr>) -> (r: Result<Vec<Expr>, TypeError>)
        ensures
            match type_exprs(exprs_view(args@), self.env()) {
                Ok(a) => r matches Ok(v) && exprs_view(v@) == a,
                Err(e) => r matches Err(x) && x@ == e,
            },
        decreases args, 0nat,
    {
        let ghost av = exprs_view(args@);
        let ghost env = self.env();
        proof {
            lemma_exprs_view(args@);
        }
        let mut out: Vec<Expr> = Vec::new();
        let mut i: usize = 0;
        assert(av.take(0) =~= Seq::<ExprV>::empty());
        while i < args.len()
            invariant
                i <= args@.len(),
                av == exprs_view(args@),
                env == self.env(),
                av.len() == args@.len(),
                forall|k: int| 0 <= k < args@.len() ==> #[trigger] av[k] == args@[k]@,
                type_exprs(av.take(i as int), env) == Ok::<Seq<ExprV>, TypeErrorV>(exprs_view(out@)),
            decreases args@.len() - i,
        {
            proof {
                assert(decreases_to!(args => args@[i as int]));
            }
            let ghost t = av.take(i + 1);
            assert(t.drop_last() =~= av.take(i as int));
            assert(t.last() == args@[i as int]@);
            let e = match self.type_expr(&args[i]) {
                Ok(e) => e,
                Err(err) => {
                    proof {
                        lemma_type_exprs_prefix_err(av, i as int + 1, env);
                    }
                    return Err(err);
                },
            };
            let ghost o0 = out@;
            out.push(e);
            assert(out@.drop_last() =~= o0);
            i = i + 1;
        }
        assert(av.take(i as int) =~= av);
        Ok(out)
    }

    /// The typed form of a statement expression, as `type_stmt_expr` gives it.
    /// A call whose arguments, in number or types, fit no method of the class
    /// is refused with `MethodNotFound`, one that fits several with
    /// `AmbiguousMethodCall`.
    fn type_stmt_expr(&self, stmt_expr: &StmtExpr) -> (r: Result<StmtExpr, TypeError>)
        ensures
            res_matches(type_stmt_expr(stmt_expr@, self.env()), r),
            r matches Ok(t) ==> t@ is TypedStmtExpr && resolved_stmt_expr(t@) && erase_stmt_expr(t@)
                == erase_stmt_expr(stmt_expr@),
        decreases stmt_expr,
    {
        proof {
            law_type_stmt_expr_erases(stmt_expr@, self.env());
            law_type_stmt_expr_resolves(stmt_expr@, self.env());
        }
        proof {
            reveal_with_fuel(crate::types::expr_view, 3);
            reveal_with_fuel(crate::types::stmt_expr_view, 3);
        }
        match stmt_expr {
            StmtExpr::Assign(var, x) => {
                assert(stmt_expr@ == StmtExprV::Assign(var@, x@));
                let tx = match self.type_expr(x) {
                    Ok(v) => v,
                    Err(e) => return Err(e),
                };
                let tv = match self.type_expr(var) {
                    Ok(v) => v,
                    Err(e) => return Err(e),
                };
                let t = type_of(&tx);
                Ok(StmtExpr::TypedStmtExpr(Box::new(StmtExpr::Assign(tv, tx)), t))
            },
            StmtExpr::TypedStmtExpr(_, _) => Err(TypeError::UnexpectedTyped),
            StmtExpr::New(t, args) => {
                assert(stmt_expr@ == StmtExprV::New(t@, exprs_view(args@)));
                let ta = match self.type_exprs(args) {
                    Ok(v) => v,
                    Err(e) => return Err(e),
                };
                Ok(StmtExpr::TypedStmtExpr(Box::new(StmtExpr::New(t.copy_type(), ta)), t.copy_type()))
            },
            StmtExpr::MethodCall(recv, name, args) => {
                assert(stmt_expr@ == StmtExprV::MethodCall(recv@, name@, exprs_view(args@)));
                let ta = match self.type_exprs(args) {
                    Ok(v) => v,
                    Err(e) => return Err(e),
                };
                let class = match self.current() {
                    Some(c) => c,
                    None => return Err(TypeError::NoCurrentClass),
                };
                let (count, first) = count_fitting(&class.methods, name, &ta);
                if count == 0 {
                    return Err(TypeError::MethodNotFound(name.clone()));
                }
                if count > 1 {
                    return Err(TypeError::AmbiguousMethodCall(name.clone()));
                }
                let m = &class.methods[first];
                let tr = match self.type_expr(recv) {
                    Ok(v) => v,
                    Err(e) => return Err(e),
                };
                Ok(StmtExpr::TypedStmtExpr(Box::new(StmtExpr::MethodCall(tr, name.clone(), ta)), m.ret_type.copy_type()))
            },
        }
    }
}

/// Where a prefix of a list fails to type, the whole list fails with the
/// same error.
proof fn lemma_type_exprs_prefix_err(s: Seq<ExprV>, k: int, env: Env)
    requires
        1 <= k <= s.len(),
        type_exprs(s.take(k), env) is Err,
    ensures
        type_exprs(s, env) == type_exprs(s.take(k), env),
    decreases s.len() - k,
{
    if k < s.len() {
        assert(s.take(k + 1).drop_last() =~= s.take(k));
        lemma_type_exprs_prefix_err(s, k + 1, env);
    } else {
        assert(s.take(k) =~= s);
    }
}


/// The types as values.
pub open spec fn types_view(v: Seq<Type>) -> Seq<TypeV> {
    v.map_values(|t: Type| t@)
}

proof fn lemma_types_view_push(v: Seq<Type>, t: Type)
    ensures
        types_view(v.push(t)) == types_view(v).push(t@),
{
    assert(types_view(v.push(t)) =~= types_view(v).push(t@));
}

/// Appends the types of the `return` statements in a typed statement, as
/// `stmt_returns` gives them.
fn collect_returns(s: &Stmt, out: &mut Vec<Type>)
    ensures
        types_view(final(out)@) == types_view(old(out)@) + stmt_returns(s@),
    decreases s,
{
    proof {
        reveal_with_fuel(crate::types::stmt_view, 3);
    }
    let ghost o = types_view(out@);
    match s {
        Stmt::TypedStmt(b, t) => {
            match &**b {
                Stmt::Return(x) => {
                    assert(s@ == StmtV::TypedStmt(Box::new(StmtV::Return(x@)), t@));
                    proof {
                        lemma_types_view_push(out@, *t);
                    }
                    out.push(t.copy_type());
                    assert(o.push(t@) =~= o + seq![t@]);
                },
                Stmt::Block(ss) => {
                    assert(s@ == StmtV::TypedStmt(Box::new(StmtV::Block(stmts_view(ss@))), t@));
                    proof {
                        lemma_stmts_view(ss@);
                    }
                    collect_returns_all(ss, out);
                },
                Stmt::If(x, s1, s2) => {
                    assert(s@ == StmtV::TypedStmt(Box::new(StmtV::If(x@, Box::new((**s1)@), match s2 {
                        Some(e) => Some(Box::new((**e)@)),
                        None => None,
                    })), t@));
                    collect_returns(&**s1, out);
                    let ghost o1 = types_view(out@);
                    match s2 {
                        Some(e) => {
                            collect_returns(&**e, out);
                            assert(types_view(out@) =~= o + (stmt_returns((**s1)@) + stmt_returns((**e)@)));
                        },
                        None => {
                            assert(types_view(out@) =~= o + (stmt_returns((**s1)@) + Seq::<TypeV>::empty()));
                        },
                    }
                },
                Stmt::While(x, body) => {
                    assert(s@ == StmtV::TypedStmt(Box::new(StmtV::While(x@, Box::new((**body)@))), t@));
                    collect_returns(&**body, out);
                },
                _ => {
                    assert(stmt_returns(s@) =~= Seq::<TypeV>::empty());
                    assert(o + Seq::<TypeV>::empty() =~= o);
                },
            }
        },
        _ => {
            assert(stmt_returns(s@) =~= Seq::<TypeV>::empty());
            assert(o + Seq::<TypeV>::empty() =~= o);
        },
    }
}

/// Appends the types of the `return` statements in typed statements, as
/// `stmts_returns` gives them.
fn collect_returns_all(ss: &Vec<Stmt>, out: &mut Vec<Type>)
    ensures
        types_view(final(out)@) == types_view(old(out)@) + stmts_returns(stmts_view(ss@), ss@.len()),
    decreases ss@, 0nat,
{
    let ghost sv = stmts_view(ss@);
    let ghost o = types_view(out@);
    proof {
        lemma_stmts_view(ss@);
    }
    let mut i: usize = 0;
    assert(o + Seq::<TypeV>::empty() =~= o);
    while i < ss.len()
        invariant
            i <= ss@.len(),
            sv == stmts_view(ss@),
            sv.len() == ss@.len(),
            forall|k: int| 0 <= k < ss@.len() ==> #[trigger] sv[k] == ss@[k]@,
            o == types_view(old(out)@),
            types_view(out@) == o + stmts_returns(sv, i as nat),
        decreases ss@.len() - i,
    {
        proof {
            assert(decreases_to!(ss@ => ss@[i as int]));
        }
        collect_returns(&ss[i], out);
        assert(types_view(out@) =~= o + stmts_returns(sv, i as nat + 1));
        i = i + 1;
    }
    assert(stmts_returns(sv, sv.len()) == stmts_returns(sv, i as nat));
}

/// The type of a block of typed statements, as `block_type` gives it.
fn block_type_of(typed: &Vec<Stmt>) -> (r: Result<Type, TypeError>)
    ensures
        res_matches(block_type(stmts_view(typed@)), r),
{
    let ghost sv = stmts_view(typed@);
    proof {
        lemma_stmts_view(typed@);
    }
    let mut rts: Vec<Type> = Vec::new();
    collect_returns_all(typed, &mut rts);
    assert(types_view(Seq::<Type>::empty()) =~= Seq::<TypeV>::empty());
    assert(types_view(rts@) =~= return_types(sv));
    let ghost rs = return_types(sv);
    if rts.len() == 0 {
        return Ok(Type::Void);
    }
    let mut k: usize = 1;
    while k < rts.len()
        invariant
            1 <= k <= rts@.len(),
            sv == stmts_view(typed@),
            rs == return_types(sv),
            types_view(rts@) == rs,
            forall|j: int| 0 <= j < k ==> #[trigger] rs[j] == rs[0],
        decreases rts@.len() - k,
    {
        if !rts[k].same_as(&rts[0]) {
            assert(rs[k as int] != rs[0]);
            assert(!(forall|j: int| 0 <= j < rs.len() ==> #[trigger] rs[j] == rs[0]));
            assert(block_type(sv) == Err::<TypeV, TypeErrorV>(TypeErrorV::MismatchedReturnTypes));
            return Err(TypeError::MismatchedReturnTypes);
        }
        k = k + 1;
    }
    Ok(rts[0].copy_type())
}

/// Where a prefix of a block fails to type, the block fails with the same
/// error.
proof fn lemma_type_stmts_prefix_err(s: Seq<StmtV>, k: nat, env: Env)
    requires
        1 <= k <= s.len(),
        type_stmts(s, k, env) is Err,
    ensures
        type_stmts(s, s.len(), env) == type_stmts(s, k, env),
    decreases s.len() - k,
{
    if k < s.len() {
        lemma_type_stmts_prefix_err(s, k + 1, env);
    }
}

impl TypeChecker {
    /// The state other than the local variables is unchanged.
    pub open spec fn same_but_locals(&self, other: &TypeChecker) -> bool {
        &&& self.classes == other.classes
        &&& self.typed_classes == other.typed_classes
        &&& self.current_class == other.current_class
        &&& self.current_typed_class == other.current_typed_class
        &&& self.fields == other.fields
        &&& self.methods == other.methods
    }

    /// A condition, which must have type `boolean`, as `type_cond` gives it.
    fn type_cond(&self, c: &Expr) -> (r: Result<Expr, TypeError>)
        ensures
            res_matches(type_cond(c@, self.env()), r),
    {
        let tc = match self.type_expr(c) {
            Ok(v) => v,
            Err(e) => return Err(e),
        };
        if !type_of(&tc).same_as(&Type::Bool) {
            return Err(TypeError::ConditionNotBool);
        }
        Ok(tc)
    }

    /// The typed statements of a block, in order, as `type_stmts` gives them.
    fn type_block(&mut self, stmts: &Vec<Stmt>) -> (r: Result<Vec<Stmt>, TypeError>)
        ensures
            final(self).same_but_locals(old(self)),
            match type_stmts(stmts_view(stmts@), stmts@.len(), old(self).env()) {
                Ok((ts, l2)) => r matches Ok(v) && stmts_view(v@) == ts && assoc(final(self).current_local_vars@) == l2,
                Err(e) => r matches Err(x) && x@ == e,
            },
        decreases stmts@, 0nat,
    {
        let ghost env0 = self.env();
        let ghost sv = stmts_view(stmts@);
        proof {
            lemma_stmts_view(stmts@);
        }
        let mut typed: Vec<Stmt> = Vec::new();
        let mut i: usize = 0;
        while i < stmts.len()
            invariant
                i <= stmts@.len(),
                sv == stmts_view(stmts@),
                sv.len() == stmts@.len(),
                forall|k: int| 0 <= k < stmts@.len() ==> #[trigger] sv[k] == stmts@[k]@,
                self.same_but_locals(old(self)),
                env0 == old(self).env(),
                type_stmts(sv, i as nat, env0) matches Ok((a, l)) && stmts_view(typed@) == a
                    && assoc(self.current_local_vars@) == l,
            decreases stmts@.len() - i,
        {
            proof {
                assert(decreases_to!(stmts@ => stmts@[i as int]));
            }
            assert(self.env() == (Env { has_cls: env0.has_cls, cls: env0.cls, locals: assoc(self.current_local_vars@), checked: env0.checked }));
            let t = match self.type_stmt(&stmts[i]) {
                Ok(t) => t,
                Err(e) => {
                    proof {
                        lemma_type_stmts_prefix_err(sv, i as nat + 1, env0);
                    }
                    return Err(e);
                },
            };
            let ghost o0 = typed@;
            typed.push(t);
            assert(typed@.drop_last() =~= o0);
            i = i + 1;
        }
        Ok(typed)
    }

    /// The typed form of a statement, as `type_stmt` gives it; declarations
    /// bring their variables into scope. A condition that is not a boolean
    /// and a second declaration of a local variable are refused with their
    /// errors, the errors this type checker reports.
    fn type_stmt(&mut self, stmt: &Stmt) -> (r: Result<Stmt, TypeError>)
        ensures
            final(self).same_but_locals(old(self)),
            match type_stmt(stmt@, old(self).env()) {
                Ok((ts, l2)) => r matches Ok(v) && v@ == ts && assoc(final(self).current_local_vars@) == l2,
                Err(e) => r matches Err(x) && x@ == e,
            },
            r matches Ok(t) ==> t@ is TypedStmt && resolved_stmt(t@) && erase_stmt(t@) == erase_stmt(stmt@),
        decreases stmt,
    {
        proof {
            law_type_stmt_erases(stmt@, old(self).env());
            law_type_stmt_resolves(stmt@, old(self).env());
        }
        proof {
            reveal_with_fuel(crate::types::stmt_view, 3);
            reveal_with_fuel(crate::types::expr_view, 2);
        }
        let ghost env0 = self.env();
        match stmt {
            Stmt::Block(stmts) => {
                assert(stmt@ == StmtV::Block(stmts_view(stmts@)));
                let ghost sv = stmts_view(stmts@);
                proof {
                    lemma_stmts_view(stmts@);
                }
                if stmts.len() == 0 {
                    return Ok(Stmt::TypedStmt(Box::new(Stmt::Block(Vec::new())), Type::Void));
                }
                let typed = match self.type_block(stmts) {
                    Ok(v) => v,
                    Err(e) => return Err(e),
                };
                let bt = match block_type_of(&typed) {
                    Ok(t) => t,
                    Err(e) => return Err(e),
                };
                Ok(Stmt::TypedStmt(Box::new(Stmt::Block(typed)), bt))
            },
            Stmt::Return(x) => {
                assert(stmt@ == StmtV::Return(x@));
                let tx = match self.type_expr(x) {
                    Ok(v) => v,
                    Err(e) => return Err(e),
                };
                let t = type_of(&tx);
                Ok(Stmt::TypedStmt(Box::new(Stmt::Return(tx)), t))
            },
            Stmt::While(c, body) => {
                assert(stmt@ == StmtV::While(c@, Box::new((**body)@)));
                let tc = match self.type_cond(c) {
                    Ok(v) => v,
                    Err(e) => return Err(e),
                };
                let tb = match self.type_stmt(&**body) {
                    Ok(v) => v,
                    Err(e) => return Err(e),
                };
                let t = match &tb {
                    Stmt::TypedStmt(_, t) => t.copy_type(),
                    _ => Type::Void,
                };
                Ok(Stmt::TypedStmt(Box::new(Stmt::While(tc, Box::new(tb))), t))
            },
            Stmt::LocalVarDecl(t, n) => {
                assert(stmt@ == StmtV::LocalVarDecl(t@, n@));
                if self.has_local(n) {
                    return Err(TypeError::DuplicateLocalVar(n.clone()));
                }
                self.insert_local(n.clone(), t.copy_type());
                Ok(Stmt::TypedStmt(Box::new(Stmt::LocalVarDecl(t.copy_type(), n.clone())), t.copy_type()))
            },
            Stmt::If(c, s1, s2) => {
                assert(stmt@ == StmtV::If(c@, Box::new((**s1)@), match s2 {
                    Some(b) => Some(Box::new((**b)@)),
                    None => None,
                }));
                let tc = match self.type_cond(c) {
                    Ok(v) => v,
                    Err(e) => return Err(e),
                };
                let t1 = match self.type_stmt(&**s1) {
                    Ok(v) => v,
                    Err(e) => return Err(e),
                };
                let ty = match &t1 {
                    Stmt::TypedStmt(_, t) => t.copy_type(),
                    _ => Type::Void,
                };
                match s2 {
                    Some(e) => {
                        assert(self.env() == (Env { has_cls: env0.has_cls, cls: env0.cls, locals: assoc(self.current_local_vars@), checked: env0.checked }));
                        let t2 = match self.type_stmt(&**e) {
                            Ok(v) => v,
                            Err(err) => return Err(err),
                        };
                        Ok(Stmt::TypedStmt(Box::new(Stmt::If(tc, Box::new(t1), Some(Box::new(t2)))), ty))
                    },
                    None => Ok(Stmt::TypedStmt(Box::new(Stmt::If(tc, Box::new(t1), None)), ty)),
                }
            },
            Stmt::StmtExprStmt(se) => {
                assert(stmt@ == StmtV::StmtExprStmt(se@));
                let tse = match self.type_stmt_expr(se) {
                    Ok(v) => v,
                    Err(e) => return Err(e),
                };
                let t = match &tse {
                    StmtExpr::TypedStmtExpr(_, t) => t.copy_type(),
                    _ => Type::Void,
                };
                Ok(Stmt::TypedStmt(Box::new(Stmt::StmtExprStmt(tse)), t))
            },
            Stmt::TypedStmt(x, t) => {
                assert(stmt@ == StmtV::TypedStmt(Box::new((**x)@), t@));
                let tx = match self.type_stmt(&**x) {
                    Ok(v) => v,
                    Err(e) => return Err(e),
                };
                Ok(Stmt::TypedStmt(Box::new(tx), t.copy_type()))
            },
        }
    }
}


/// Whether some field is named `n`.
fn any_field_named(fields: &Vec<FieldDecl>, n: &String) -> (b: bool)
    ensures
        b == (exists|i: int| 0 <= i < fields@.len() && #[trigger] fields@[i]@.name == n@),
{
    let mut i: usize = 0;
    while i < fields.len()
        invariant
            i <= fields@.len(),
            forall|j: int| 0 <= j < i ==> #[trigger] fields@[j]@.name != n@,
        decreases fields@.len() - i,
    {
        if fields[i].name == *n {
            assert(fields@[i as int]@.name == n@);
            return true;
        }
        i = i + 1;
    }
    false
}

/// The names in a list, as a set.
pub open spec fn name_set(v: Seq<String>) -> Set<Seq<char>> {
    Set::new(|n: Seq<char>| exists|i: int| 0 <= i < v.len() && #[trigger] v[i]@ == n)
}

proof fn lemma_name_set_push(v: Seq<String>, s: String)
    ensures
        name_set(v.push(s)) == name_set(v).insert(s@),
{
    let w = v.push(s);
    assert forall|n: Seq<char>| name_set(w).contains(n) <==> name_set(v).insert(s@).contains(n) by {
        if name_set(v).contains(n) && n != s@ {
            let i = choose|i: int| 0 <= i < v.len() && #[trigger] v[i]@ == n;
            assert(w[i]@ == n);
        }
        if n == s@ {
            assert(w[v.len() as int]@ == n);
        }
        if name_set(w).contains(n) {
            let i = choose|i: int| 0 <= i < w.len() && #[trigger] w[i]@ == n;
            if i < v.len() {
                assert(v[i]@ == n);
            }
        }
    }
    assert(name_set(w) =~= name_set(v).insert(s@));
}

/// Whether a name is in the list.
fn contains_name(v: &Vec<String>, n: &String) -> (b: bool)
    ensures
        b == name_set(v@).contains(n@),
{
    let mut i: usize = 0;
    while i < v.len()
        invariant
            i <= v@.len(),
            forall|j: int| 0 <= j < i ==> #[trigger] v@[j]@ != n@,
        decreases v@.len() - i,
    {
        if v[i] == *n {
            assert(v@[i as int]@ == n@);
            return true;
        }
        i = i + 1;
    }
    false
}

/// Adds a name to the list.
fn add_name(v: &mut Vec<String>, n: String)
    ensures
        name_set(final(v)@) == name_set(old(v)@).insert(n@),
{
    proof {
        lemma_name_set_push(v@, n);
    }
    v.push(n);
}

/// A copy of a list of names.
fn copy_names(v: &Vec<String>) -> (r: Vec<String>)
    ensures
        name_set(r@) == name_set(v@),
{
    let mut r: Vec<String> = Vec::new();
    let mut i: usize = 0;
    while i < v.len()
        invariant
            i <= v@.len(),
            name_set(r@) == name_set(v@.take(i as int)),
        decreases v@.len() - i,
    {
        proof {
            lemma_name_set_push(r@, v@[i as int]);
            lemma_name_set_push(v@.take(i as int), v@[i as int]);
            assert(v@.take(i + 1) =~= v@.take(i as int).push(v@[i as int]));
        }
        r.push(v[i].clone());
        i = i + 1;
    }
    assert(v@.take(i as int) =~= v@);
    r
}

/// The names in both lists.
fn intersect_names(a: &Vec<String>, b: &Vec<String>) -> (r: Vec<String>)
    ensures
        name_set(r@) == name_set(a@).intersect(name_set(b@)),
{
    let mut r: Vec<String> = Vec::new();
    let mut i: usize = 0;
    assert(name_set(r@) =~= name_set(a@.take(0)).intersect(name_set(b@)));
    while i < a.len()
        invariant
            i <= a@.len(),
            name_set(r@) == name_set(a@.take(i as int)).intersect(name_set(b@)),
        decreases a@.len() - i,
    {
        proof {
            lemma_name_set_push(r@, a@[i as int]);
            lemma_name_set_push(a@.take(i as int), a@[i as int]);
            assert(a@.take(i + 1) =~= a@.take(i as int).push(a@[i as int]));
        }
        if contains_name(b, &a[i]) {
            r.push(a[i].clone());
            assert(name_set(r@) =~= name_set(a@.take(i + 1)).intersect(name_set(b@)));
        } else {
            assert(name_set(r@) =~= name_set(a@.take(i + 1)).intersect(name_set(b@)));
        }
        i = i + 1;
    }
    assert(a@.take(i as int) =~= a@);
    r
}

/// The names of the local variables in scope.
fn local_names(v: &Vec<(String, Type)>) -> (r: Vec<String>)
    ensures
        name_set(r@) == assoc(v@).dom(),
{
    let mut r: Vec<String> = Vec::new();
    let mut i: usize = 0;
    assert(name_set(r@) =~= assoc(v@.take(0)).dom());
    while i < v.len()
        invariant
            i <= v@.len(),
            name_set(r@) == assoc(v@.take(i as int)).dom(),
        decreases v@.len() - i,
    {
        proof {
            lemma_name_set_push(r@, v@[i as int].0);
            assert(v@.take(i + 1).drop_last() =~= v@.take(i as int));
        }
        r.push(v[i].0.clone());
        assert(name_set(r@) =~= assoc(v@.take(i + 1)).dom());
        i = i + 1;
    }
    assert(v@.take(i as int) =~= v@);
    r
}

/// A copy of the local variables in scope.
fn copy_locals(v: &Vec<(String, Type)>) -> (r: Vec<(String, Type)>)
    ensures
        assoc(r@) == assoc(v@),
{
    let mut r: Vec<(String, Type)> = Vec::new();
    let mut i: usize = 0;
    while i < v.len()
        invariant
            i <= v@.len(),
            r@.len() == i,
            forall|j: int| 0 <= j < i ==> #[trigger] r@[j].0@ == v@[j].0@ && r@[j].1@ == v@[j].1@,
        decreases v@.len() - i,
    {
        let n = v[i].0.clone();
        let t = v[i].1.copy_type();
        assert(n@ == v@[i as int].0@);
        let ghost r0 = r@;
        r.push((n, t));
        assert forall|j: int| 0 <= j < i + 1 implies #[trigger] r@[j].0@ == v@[j].0@ && r@[j].1@ == v@[j].1@ by {
            if j < i {
                assert(r@[j] == r0[j]);
            }
        }
        i = i + 1;
    }
    proof {
        lemma_assoc_same(r@, v@);
    }
    r
}

proof fn lemma_assoc_same(a: Seq<(String, Type)>, b: Seq<(String, Type)>)
    requires
        a.len() == b.len(),
        forall|j: int| 0 <= j < a.len() ==> #[trigger] a[j].0@ == b[j].0@ && a[j].1@ == b[j].1@,
    ensures
        assoc(a) == assoc(b),
    decreases a.len(),
{
    if a.len() > 0 {
        assert forall|j: int| 0 <= j < a.drop_last().len() implies #[trigger] a.drop_last()[j].0@ == b.drop_last()[j].0@
            && a.drop_last()[j].1@ == b.drop_last()[j].1@ by {
            assert(a.drop_last()[j] == a[j] && b.drop_last()[j] == b[j]);
        }
        lemma_assoc_same(a.drop_last(), b.drop_last());
        assert(a.last().0@ == b.last().0@ && a.last().1@ == b.last().1@);
    }
}

/// Whether a statement returns on every path, as `always_returns` says.
pub(crate) fn always_returns_x(s: &Stmt) -> (b: bool)
    ensures
        b == always_returns(s@),
    decreases s,
{
    proof {
        reveal_with_fuel(crate::types::stmt_view, 2);
        reveal_with_fuel(always_returns, 2);
    }
    match s {
        Stmt::Return(x) => {
            assert(s@ == StmtV::Return(x@));
            true
        },
        Stmt::Block(stmts) => {
            assert(s@ == StmtV::Block(stmts_view(stmts@)));
            proof {
                lemma_stmts_view(stmts@);
            }
            if stmts.len() == 0 {
                false
            } else {
                proof {
                    assert(decreases_to!(stmts@ => stmts@[stmts@.len() - 1]));
                }
                let b = always_returns_x(&stmts[stmts.len() - 1]);
                assert(stmts_view(stmts@)[stmts@.len() - 1] == stmts@[stmts@.len() - 1]@);
                b
            }
        },
        Stmt::If(x, s1, Some(s2)) => {
            assert(s@ == StmtV::If(x@, Box::new((**s1)@), Some(Box::new((**s2)@))));
            always_returns_x(&**s1) && always_returns_x(&**s2)
        },
        Stmt::TypedStmt(x, t) => {
            assert(s@ == StmtV::TypedStmt(Box::new((**x)@), t@));
            always_returns_x(&**x)
        },
        Stmt::If(x, s1, None) => {
            assert(s@ == StmtV::If(x@, Box::new((**s1)@), None));
            false
        },
        _ => {
            assert(!(s@ is Return) && !(s@ is Block) && !(s@ is If) && !(s@ is TypedStmt));
            false
        },
    }
}

/// A check that threads the definitely assigned local variables matches
/// the spec's: on success the same names, else the same error.
pub open spec fn init_matches(spec: Result<Set<Seq<char>>, TypeErrorV>, r: Result<(), TypeError>, after: Seq<String>) -> bool {
    match spec {
        Ok(i) => r is Ok && name_set(after) == i,
        Err(e) => r matches Err(x) && x@ == e,
    }
}

impl TypeChecker {
    /// Reads local variable `n`, as `check_local_read` gives it.
    fn read_local(&self, n: &String, init: &Vec<String>) -> (r: Result<(), TypeError>)
        ensures
            init_matches(check_local_read(n@, assoc(self.current_local_vars@), name_set(init@)), r, init@),
    {
        if !self.has_local(n) {
            return Err(TypeError::UnknownVariable(n.clone()));
        }
        if !contains_name(init, n) {
            return Err(TypeError::UnassignedVariable(n.clone()));
        }
        Ok(())
    }

    /// Whether the current class has a field named `n`.
    fn class_has_field(&self, n: &String) -> (b: bool)
        requires
            self.has_class(),
        ensures
            b == has_field(self.env().cls, n@),
    {
        let class = &self.classes[self.current_class.unwrap()];
        assert(class@ == self.env().cls);
        let b = any_field_named(&class.fields, n);
        proof {
            if b {
                let i = choose|i: int| 0 <= i < class.fields@.len() && #[trigger] class.fields@[i]@.name == n@;
                assert(class@.fields[i] == class.fields@[i]@);
            } else {
                assert forall|i: int| 0 <= i < class@.fields.len() implies #[trigger] class@.fields[i].name != n@ by {
                    assert(class@.fields[i] == class.fields@[i]@);
                }
            }
        }
        b
    }

    /// Checks an expression, as `check_expr` gives it.
    fn check_expr(&self, expr: &Expr, init: &mut Vec<String>) -> (r: Result<(), TypeError>)
        requires
            self.has_class(),
        ensures
            init_matches(
                check_expr(expr@, self.env().cls, assoc(self.current_local_vars@), name_set(old(init)@)),
                r,
                final(init)@,
            ),
        decreases expr,
    {
        match expr {
            Expr::LocalOrFieldVar(name) => {
                assert(expr@ == ExprV::LocalOrFieldVar(name@));
                if self.has_local(name) {
                    self.read_local(name, init)
                } else if self.class_has_field(name) {
                    Ok(())
                } else {
                    Err(TypeError::UnknownVariable(name.clone()))
                }
            },
            Expr::LocalVar(name) => {
                assert(expr@ == ExprV::LocalVar(name@));
                self.read_local(name, init)
            },
            Expr::FieldVar(name) => {
                assert(expr@ == ExprV::FieldVar(name@));
                if self.class_has_field(name) {
                    Ok(())
                } else {
                    Err(TypeError::UnknownVariable(name.clone()))
                }
            },
            Expr::Binary(_, l, r) => {
                match self.check_expr(&**l, init) {
                    Ok(_) => {},
                    Err(e) => return Err(e),
                }
                self.check_expr(&**r, init)
            },
            Expr::StmtExprExpr(se) => self.check_stmt_expr(&**se, init),
            Expr::InstVar(x, _) => self.check_expr(&**x, init),
            Expr::Unary(_, x) => self.check_expr(&**x, init),
            Expr::TypedExpr(x, _) => self.check_expr(&**x, init),
            _ => Ok(()),
        }
    }

    /// Checks a list of expressions from left to right, as `check_exprs`
    /// gives it.
    fn check_exprs(&self, args: &Vec<Expr>, init: &mut Vec<String>) -> (r: Result<(), TypeError>)
        requires
            self.has_class(),
        ensures
            init_matches(
                check_exprs(exprs_view(args@), args@.len(), self.env().cls, assoc(self.current_local_vars@), name_set(old(init)@)),
                r,
                final(init)@,
            ),
        decreases args, 0nat,
    {
        let ghost av = exprs_view(args@);
        let ghost c = self.env().cls;
        let ghost l = assoc(self.current_local_vars@);
        let ghost i0 = name_set(init@);
        proof {
            lemma_exprs_view(args@);
        }
        let mut i: usize = 0;
        while i < args.len()
            invariant
                i <= args@.len(),
                av == exprs_view(args@),
                c == self.env().cls,
                l == assoc(self.current_local_vars@),
                self.has_class(),
                av.len() == args@.len(),
                forall|k: int| 0 <= k < args@.len() ==> #[trigger] av[k] == args@[k]@,
                i0 == name_set(old(init)@),
                check_exprs(av, i as nat, c, l, i0) matches Ok(s) && name_set(init@) == s,
            decreases args@.len() - i,
        {
            proof {
                assert(decreases_to!(args => args@[i as int]));
            }
            let ghost si = name_set(init@);
            assert(av[i as int] == args@[i as int]@);
            assert(check_exprs(av, i as nat + 1, c, l, i0) == check_expr(av[i as int], c, l, si));
            match self.check_expr(&args[i], init) {
                Ok(_) => {},
                Err(e) => {
                    proof {
                        lemma_check_exprs_prefix_err(av, i as nat + 1, c, l, i0);
                    }
                    return Err(e);
                },
            }
            i = i + 1;
        }
        Ok(())
    }

    /// Checks the target of an assignment, as `check_target` gives it.
    fn check_target(&self, v: &Expr, init: &mut Vec<String>) -> (r: Result<(), TypeError>)
        requires
            self.has_class(),
        ensures
            init_matches(
                check_target(v@, self.env().cls, assoc(self.current_local_vars@), name_set(old(init)@)),
                r,
                final(init)@,
            ),
        decreases v,
    {
        match v {
            Expr::LocalVar(n) => {
                assert(v@ == ExprV::LocalVar(n@));
                if self.has_local(n) {
                    add_name(init, n.clone());
                    Ok(())
                } else {
                    Err(TypeError::UnknownVariable(n.clone()))
                }
            },
            Expr::LocalOrFieldVar(n) => {
                assert(v@ == ExprV::LocalOrFieldVar(n@));
                if self.has_local(n) {
                    add_name(init, n.clone());
                    Ok(())
                } else if self.class_has_field(n) {
                    Ok(())
                } else {
                    Err(TypeError::UnknownVariable(n.clone()))
                }
            },
            Expr::FieldVar(n) => {
                assert(v@ == ExprV::FieldVar(n@));
                if self.class_has_field(n) {
                    Ok(())
                } else {
                    Err(TypeError::UnknownVariable(n.clone()))
                }
            },
            Expr::InstVar(o, _) => self.check_expr(&**o, init),
            Expr::TypedExpr(x, _) => self.check_target(&**x, init),
            _ => {
                assert(check_target(v@, self.env().cls, assoc(self.current_local_vars@), name_set(init@))
                    == Err::<Set<Seq<char>>, TypeErrorV>(TypeErrorV::UnknownVariable(Seq::empty())));
                Err(TypeError::UnknownVariable(String::new()))
            },
        }
    }

    /// Checks a statement expression, as `check_stmt_expr` gives it.
    fn check_stmt_expr(&self, stmt_expr: &StmtExpr, init: &mut Vec<String>) -> (r: Result<(), TypeError>)
        requires
            self.has_class(),
        ensures
            init_matches(
                check_stmt_expr(stmt_expr@, self.env().cls, assoc(self.current_local_vars@), name_set(old(init)@)),
                r,
                final(init)@,
            ),
        decreases stmt_expr,
    {
        match stmt_expr {
            StmtExpr::Assign(v, x) => {
                assert(stmt_expr@ == StmtExprV::Assign(v@, x@));
                match self.check_expr(x, init) {
                    Ok(_) => {},
                    Err(e) => return Err(e),
                }
                self.check_target(v, init)
            },
            StmtExpr::New(_, args) => {
                assert(stmt_expr@ matches StmtExprV::New(_, a) && a == exprs_view(args@));
                proof {
                    lemma_exprs_view(args@);
                }
                self.check_exprs(args, init)
            },
            StmtExpr::MethodCall(recv, _, args) => {
                assert(stmt_expr@ matches StmtExprV::MethodCall(rv, _, a) && rv == recv@ && a == exprs_view(args@));
                proof {
                    lemma_exprs_view(args@);
                }
                match self.check_expr(recv, init) {
                    Ok(_) => {},
                    Err(e) => return Err(e),
                }
                self.check_exprs(args, init)
            },
            StmtExpr::TypedStmtExpr(x, _) => self.check_stmt_expr(&**x, init),
        }
    }
}

proof fn lemma_check_exprs_prefix_err(s: Seq<ExprV>, k: nat, c: ClassV, l: Map<Seq<char>, TypeV>, i: Set<Seq<char>>)
    requires
        1 <= k <= s.len(),
        check_exprs(s, k, c, l, i) is Err,
    ensures
        check_exprs(s, s.len(), c, l, i) == check_exprs(s, k, c, l, i),
    decreases s.len() - k,
{
    if k < s.len() {
        lemma_check_exprs_prefix_err(s, k + 1, c, l, i);
    }
}

/// A check of a statement matches the spec's: on success the same local
/// variables in scope and the same definitely assigned names, else the
/// same error.
pub open spec fn stmt_check_matches(
    spec: Result<(Map<Seq<char>, TypeV>, Set<Seq<char>>), TypeErrorV>,
    r: Result<(), TypeError>,
    locals: Seq<(String, Type)>,
    after: Seq<String>,
) -> bool {
    match spec {
        Ok((l, i)) => r is Ok && assoc(locals) == l && name_set(after) == i,
        Err(e) => r matches Err(x) && x@ == e,
    }
}

impl TypeChecker {
    /// Checks a statement, as `check_stmt` gives it.
    #[verifier::rlimit(40)]
    fn check_stmt(&mut self, stmt: &Stmt, init: &mut Vec<String>) -> (r: Result<(), TypeError>)
        requires
            old(self).has_class(),
        ensures
            final(self).same_but_locals(old(self)),
            stmt_check_matches(
                check_stmt(stmt@, old(self).env().cls, assoc(old(self).current_local_vars@), name_set(old(init)@)),
                r,
                final(self).current_local_vars@,
                final(init)@,
            ),
        decreases stmt,
    {
        proof {
            reveal_with_fuel(crate::types::stmt_view, 2);
        }
        let ghost c = self.env().cls;
        let ghost l0 = assoc(self.current_local_vars@);
        match stmt {
            Stmt::Return(x) => {
                assert(stmt@ == StmtV::Return(x@));
                self.check_expr(x, init)
            },
            Stmt::While(x, b) => {
                assert(stmt@ == StmtV::While(x@, Box::new((**b)@)));
                match self.check_expr(x, init) {
                    Ok(_) => {},
                    Err(e) => return Err(e),
                }
                let ghost i1 = name_set(init@);
                let mut body_init = copy_names(init);
                let r = self.check_stmt(&**b, &mut body_init);
                assert(check_stmt(stmt@, c, l0, name_set(old(init)@)) == match check_stmt((**b)@, c, l0, i1) {
                    Ok((l2, _)) => Ok((l2, i1)),
                    Err(err) => Err::<(Map<Seq<char>, TypeV>, Set<Seq<char>>), TypeErrorV>(err),
                });
                r
            },
            Stmt::If(x, s1, s2) => {
                assert(stmt@ == StmtV::If(x@, Box::new((**s1)@), match s2 {
                    Some(b) => Some(Box::new((**b)@)),
                    None => None,
                }));
                match self.check_expr(x, init) {
                    Ok(_) => {},
                    Err(e) => return Err(e),
                }
                let ghost i1 = name_set(init@);
                let before = copy_names(init);
                match self.check_stmt(&**s1, init) {
                    Ok(_) => {},
                    Err(e) => return Err(e),
                }
                let ghost l1 = assoc(self.current_local_vars@);
                let ghost a1 = name_set(init@);
                match s2 {
                    Some(e) => {
                        assert(self.env().cls == c);
                        let mut other = before;
                        match self.check_stmt(&**e, &mut other) {
                            Ok(_) => {},
                            Err(err) => return Err(err),
                        }
                        let joined = if always_returns_x(&**s1) {
                            other
                        } else if always_returns_x(&**e) {
                            copy_names(init)
                        } else {
                            intersect_names(init, &other)
                        };
                        *init = joined;
                        Ok(())
                    },
                    None => {
                        *init = before;
                        Ok(())
                    },
                }
            },
            Stmt::Block(stmts) => {
                assert(stmt@ == StmtV::Block(stmts_view(stmts@)));
                proof {
                    lemma_stmts_view(stmts@);
                }
                self.check_block(stmts, init)
            },
            Stmt::LocalVarDecl(t, n) => {
                assert(stmt@ == StmtV::LocalVarDecl(t@, n@));
                if self.has_local(n) {
                    return Err(TypeError::DuplicateLocalVar(n.clone()));
                }
                self.insert_local(n.clone(), t.copy_type());
                Ok(())
            },
            Stmt::StmtExprStmt(se) => {
                assert(stmt@ == StmtV::StmtExprStmt(se@));
                self.check_stmt_expr(se, init)
            },
            Stmt::TypedStmt(x, t) => {
                assert(stmt@ == StmtV::TypedStmt(Box::new((**x)@), t@));
                self.check_stmt(&**x, init)
            },
        }
    }

    /// Checks the statements of a block in order, as `check_stmts` gives it.
    fn check_block(&mut self, stmts: &Vec<Stmt>, init: &mut Vec<String>) -> (r: Result<(), TypeError>)
        requires
            old(self).has_class(),
        ensures
            final(self).same_but_locals(old(self)),
            stmt_check_matches(
                check_stmts(stmts_view(stmts@), stmts@.len(), old(self).env().cls, assoc(old(self).current_local_vars@), name_set(old(init)@)),
                r,
                final(self).current_local_vars@,
                final(init)@,
            ),
        decreases stmts@, 0nat,
    {
        let ghost c = self.env().cls;
        let ghost l0 = assoc(self.current_local_vars@);
        let ghost i0 = name_set(init@);
        let ghost sv = stmts_view(stmts@);
        proof {
            lemma_stmts_view(stmts@);
        }
        let mut i: usize = 0;
        while i < stmts.len()
            invariant
                i <= stmts@.len(),
                sv == stmts_view(stmts@),
                sv.len() == stmts@.len(),
                forall|k: int| 0 <= k < stmts@.len() ==> #[trigger] sv[k] == stmts@[k]@,
                self.same_but_locals(old(self)),
                self.has_class(),
                c == old(self).env().cls,
                l0 == assoc(old(self).current_local_vars@),
                i0 == name_set(old(init)@),
                check_stmts(sv, i as nat, c, l0, i0) matches Ok((l, s)) && assoc(self.current_local_vars@) == l
                    && name_set(init@) == s,
            decreases stmts@.len() - i,
        {
            proof {
                assert(decreases_to!(stmts@ => stmts@[i as int]));
            }
            assert(self.env().cls == c);
            match self.check_stmt(&stmts[i], init) {
                Ok(_) => {},
                Err(e) => {
                    proof {
                        lemma_check_stmts_prefix_err(sv, i as nat + 1, c, l0, i0);
                    }
                    return Err(e);
                },
            }
            i = i + 1;
        }
        Ok(())
    }
}

proof fn lemma_check_stmts_prefix_err(s: Seq<StmtV>, k: nat, c: ClassV, l: Map<Seq<char>, TypeV>, i: Set<Seq<char>>)
    requires
        1 <= k <= s.len(),
        check_stmts(s, k, c, l, i) is Err,
    ensures
        check_stmts(s, s.len(), c, l, i) == check_stmts(s, k, c, l, i),
    decreases s.len() - k,
{
    if k < s.len() {
        lemma_check_stmts_prefix_err(s, k + 1, c, l, i);
    }
}


/// The classes of a program as values.
pub open spec fn program_view(v: Seq<Class>) -> Seq<ClassV> {
    v.map_values(|c: Class| c@)
}

pub open spec fn opt_expr_view(v: Option<Expr>) -> Option<ExprV> {
    match v {
        Some(e) => Some(e@),
        None => None,
    }
}

impl TypeChecker {
    /// Whether the initial value of a field fits its type, as
    /// `field_val_ok` gives it.
    fn check_field_type(&self, field_type: &Type, val: &Option<Expr>) -> (b: bool)
        ensures
            b == field_val_ok(field_type@, opt_expr_view(*val), program_view(self.classes@)),
    {
        let v = match val {
            Some(v) => v,
            None => return true,
        };
        match field_type {
            Type::Int => match v {
                Expr::Integer(_) => true,
                _ => false,
            },
            Type::Bool => match v {
                Expr::Bool(_) => true,
                _ => false,
            },
            Type::Char => match v {
                Expr::Char(_) => true,
                _ => false,
            },
            Type::String => true,
            Type::Void | Type::Null => false,
            Type::Class(n) => {
                let ghost cs = program_view(self.classes@);
                let mut i: usize = 0;
                while i < self.classes.len()
                    invariant
                        i <= self.classes@.len(),
                        cs == program_view(self.classes@),
                        field_type@ == TypeV::Class(n@),
                        opt_expr_view(*val) is Some,
                        forall|j: int| 0 <= j < i ==> #[trigger] cs[j].name != n@,
                    decreases self.classes@.len() - i,
                {
                    assert(cs[i as int] == self.classes@[i as int]@);
                    if self.classes[i].name == *n {
                        assert(cs[i as int] == self.classes@[i as int]@);
                        assert(cs[i as int].name == n@);
                        assert(has_class_named(cs, n@));
                        return true;
                    }
                    i = i + 1;
                }
                false
            },
        }
    }

    /// Checks a field of the current class against the fields checked
    /// before it, and records it.
    fn check_field(&mut self, field: &FieldDecl) -> (r: Result<(), TypeError>)
        ensures
            final(self).classes == old(self).classes,
            final(self).typed_classes == old(self).typed_classes,
            final(self).current_class == old(self).current_class,
            final(self).current_typed_class == old(self).current_typed_class,
            final(self).current_local_vars == old(self).current_local_vars,
            final(self).methods == old(self).methods,
            !field_val_ok(field@.field_type, field@.val, program_view(old(self).classes@)) ==> (r matches Err(x)
                && x@ == TypeErrorV::FieldValueMismatch(field@.name)),
            field_val_ok(field@.field_type, field@.val, program_view(old(self).classes@)) && (exists|j: int|
                0 <= j < old(self).fields@.len() && #[trigger] old(self).fields@[j]@.name == field@.name) ==> (r matches Err(x)
                && x@ == TypeErrorV::DuplicateField(field@.name)),
            field_val_ok(field@.field_type, field@.val, program_view(old(self).classes@)) && !(exists|j: int|
                0 <= j < old(self).fields@.len() && #[trigger] old(self).fields@[j]@.name == field@.name) ==> (r is Ok
                && fields_view(final(self).fields@) == fields_view(old(self).fields@).push(field@)),
    {
        assert(opt_expr_view(field.val) == field@.val);
        if !self.check_field_type(&field.field_type, &field.val) {
            return Err(TypeError::FieldValueMismatch(field.name.clone()));
        }
        if any_field_named(&self.fields, &field.name) {
            return Err(TypeError::DuplicateField(field.name.clone()));
        }
        let ghost f0 = self.fields@;
        self.fields.push(field.copy_field());
        assert(fields_view(self.fields@) =~= fields_view(f0).push(field@));
        Ok(())
    }

    /// Types and checks a method of the current class, as `check_method`
    /// gives it, and records the method as checked.
    fn check_method(&mut self, method: &MethodDecl) -> (r: Result<MethodDecl, TypeError>)
        requires
            old(self).has_class(),
        ensures
            final(self).classes == old(self).classes,
            final(self).typed_classes == old(self).typed_classes,
            final(self).current_class == old(self).current_class,
            final(self).current_typed_class == old(self).current_typed_class,
            final(self).fields == old(self).fields,
            match check_method(old(self).env().cls, methods_view(old(self).methods@), assoc(old(self).current_local_vars@), method@) {
                Ok(m) => r matches Ok(v) && v@ == m && methods_view(final(self).methods@) == methods_view(old(self).methods@).push(method@),
                Err(e) => r matches Err(x) && x@ == e,
            },
    {
        let ghost c = self.env().cls;
        let ghost ps = crate::types::params_view(method.params@);
        let mut i: usize = 0;
        while i < method.params.len()
            invariant
                i <= method.params@.len(),
                ps == crate::types::params_view(method.params@),
                self.same_but_locals(old(self)),
                assoc(self.current_local_vars@) == super::spec::insert_params(assoc(old(self).current_local_vars@), ps.take(i as int)),
            decreases method.params@.len() - i,
        {
            assert(ps.take(i + 1).drop_last() =~= ps.take(i as int));
            assert(ps.take(i + 1).last() == (method.params@[i as int].0@, method.params@[i as int].1@));
            self.insert_local(method.params[i].1.clone(), method.params[i].0.copy_type());
            i = i + 1;
        }
        assert(ps.take(i as int) =~= ps);
        assert(self.env() == (Env { has_cls: true, cls: c, locals: super::spec::insert_params(assoc(old(self).current_local_vars@), ps), checked: methods_view(old(self).methods@) }));
        let locals = copy_locals(&self.current_local_vars);
        let mut init = local_names(&self.current_local_vars);
        let tb = match self.type_stmt(&method.body) {
            Ok(v) => v,
            Err(e) => return Err(e),
        };
        let bt = match &tb {
            Stmt::TypedStmt(_, t) => t.copy_type(),
            _ => Type::Void,
        };
        let fits = bt.same_as(&method.ret_type) || (match bt {
            Type::Null => match method.ret_type {
                Type::String | Type::Class(_) => true,
                _ => false,
            },
            _ => false,
        });
        if !fits {
            return Err(TypeError::ReturnTypeMismatch(method.name.clone()));
        }
        self.current_local_vars = locals;
        match self.check_stmt(&tb, &mut init) {
            Ok(_) => {},
            Err(e) => return Err(e),
        }
        if signature_taken_x(&self.methods, method) {
            return Err(TypeError::DuplicateMethod(method.name.clone()));
        }
        let ghost m0 = self.methods@;
        self.methods.push(method.copy_method());
        assert(methods_view(self.methods@) =~= methods_view(m0).push(method@));
        Ok(MethodDecl {
            ret_type: method.ret_type.copy_type(),
            name: method.name.clone(),
            params: copy_params(&method.params),
            body: tb,
        })
    }
}


pub proof fn lemma_first_named(ts: Seq<ClassV>, n: Seq<char>)
    ensures
        -1 <= first_named(ts, n) < ts.len(),
        first_named(ts, n) >= 0 ==> ts[first_named(ts, n)].name == n,
        forall|j: int| 0 <= j < ts.len() && (first_named(ts, n) < 0 || j < first_named(ts, n)) ==> #[trigger] ts[j].name != n,
    decreases ts.len(),
{
    if ts.len() > 0 {
        lemma_first_named(ts.drop_last(), n);
        assert forall|j: int| 0 <= j < ts.len() - 1 implies #[trigger] ts[j] == ts.drop_last()[j] by {}
    }
}

/// Adds a typed class under its name, as `put_class` does.
fn put_typed_class(ts: &mut Vec<Class>, c: Class)
    ensures
        program_view(final(ts)@) == put_class(program_view(old(ts)@), c@),
{
    let ghost tv = program_view(ts@);
    proof {
        lemma_first_named(tv, c@.name);
    }
    let mut i: usize = 0;
    while i < ts.len()
        invariant
            i <= ts@.len(),
            tv == program_view(ts@),
            tv == program_view(old(ts)@),
            forall|j: int| 0 <= j < i ==> #[trigger] tv[j].name != c@.name,
        decreases ts@.len() - i,
    {
        assert(tv[i as int] == ts@[i as int]@);
        proof {
            lemma_first_named(tv, c@.name);
        }
        if ts[i].name == c.name {
            assert(tv[i as int].name == c@.name);
            assert(first_named(tv, c@.name) == i);
            ts.set(i, c);
            assert(program_view(ts@) =~= tv.update(i as int, c@));
            return;
        }
        i = i + 1;
    }
    proof {
        lemma_first_named(tv, c@.name);
    }
    assert(first_named(tv, c@.name) < 0);
    ts.push(c);
    assert(program_view(ts@) =~= tv.push(c@));
}

proof fn lemma_check_fields_prefix_err(fs: Seq<FieldDeclV>, k: nat, cs: Seq<ClassV>)
    requires
        1 <= k <= fs.len(),
        check_fields(fs, k, cs) is Err,
    ensures
        check_fields(fs, fs.len(), cs) == check_fields(fs, k, cs),
    decreases fs.len() - k,
{
    if k < fs.len() {
        lemma_check_fields_prefix_err(fs, k + 1, cs);
    }
}

proof fn lemma_check_methods_prefix_err(c: ClassV, k: nat, l0: Map<Seq<char>, TypeV>)
    requires
        1 <= k <= c.methods.len(),
        check_methods(c, k, l0) is Err,
    ensures
        check_methods(c, c.methods.len(), l0) == check_methods(c, k, l0),
    decreases c.methods.len() - k,
{
    if k < c.methods.len() {
        lemma_check_methods_prefix_err(c, k + 1, l0);
    }
}

impl TypeChecker {
    /// Checks class `ci`, the current class, as `check_class` gives it, and
    /// records its typed form.
    #[verifier::rlimit(80)]
    fn check_class(&mut self, ci: usize) -> (r: Result<(), TypeError>)
        requires
            ci < old(self).classes@.len(),
            old(self).current_class == Some(ci),
        ensures
            final(self).classes == old(self).classes,
            final(self).current_class == old(self).current_class,
            match check_class(
                program_view(old(self).classes@),
                old(self).classes@[ci as int]@,
                assoc(old(self).current_local_vars@),
            ) {
                Ok((c, l2)) => r is Ok && program_view(final(self).typed_classes@) == put_class(
                    program_view(old(self).typed_classes@),
                    c,
                ) && final(self).current_typed_class@ == c && assoc(final(self).current_local_vars@) == l2,
                Err(e) => r matches Err(x) && x@ == e,
            },
    {
        let ghost cs = program_view(self.classes@);
        let ghost c = self.classes@[ci as int]@;
        let ghost before = Seq::<MethodDeclV>::empty();
        let ghost l0 = assoc(self.current_local_vars@);
        let ghost fs = c.fields;
        assert(cs == program_view(old(self).classes@));
        self.current_typed_class.name = self.classes[ci].name.clone();
        self.current_typed_class.methods = Vec::new();
        assert(self.current_typed_class@.methods =~= before);
        self.fields = Vec::new();
        let mut i: usize = 0;
        while i < self.classes[ci].fields.len()
            invariant
                ci < self.classes@.len(),
                self.classes == old(self).classes,
                self.current_class == old(self).current_class,
                self.typed_classes == old(self).typed_classes,
                self.current_local_vars == old(self).current_local_vars,
                self.current_typed_class@.name == c.name,
                self.current_typed_class@.methods == before,
                self.current_class == Some(ci),
                l0 == assoc(old(self).current_local_vars@),
                before == Seq::<MethodDeclV>::empty(),
                cs == program_view(old(self).classes@),
                c == old(self).classes@[ci as int]@,
                c == self.classes@[ci as int]@,
                cs == program_view(self.classes@),
                fs == c.fields,
                fs == fields_view(self.classes@[ci as int].fields@),
                i <= fs.len(),
                check_fields(fs, i as nat, cs) is Ok,
                fields_view(self.fields@) == fs.take(i as int),
            decreases fs.len() - i,
        {
            let f = self.classes[ci].fields[i].copy_field();
            assert(f@ == fs[i as int]);
            let ghost fv0 = self.fields@;
            assert(fields_view(fv0).len() == fv0.len());
            assert(fv0.len() == i);
            assert forall|j: int| 0 <= j < fv0.len() implies #[trigger] fv0[j]@ == fs[j] by {
                assert(fields_view(fv0)[j] == fv0[j]@);
                assert(fields_view(fv0)[j] == fs.take(i as int)[j]);
            }
            match self.check_field(&f) {
                Ok(_) => {},
                Err(e) => {
                    proof {
                        if (exists|j: int| 0 <= j < fv0.len() && #[trigger] fv0[j]@.name == f@.name) {
                            let j = choose|j: int| 0 <= j < fv0.len() && #[trigger] fv0[j]@.name == f@.name;
                            assert(fs[j].name == fs[i as int].name);
                        }
                        lemma_check_fields_prefix_err(fs, i as nat + 1, cs);
                    }
                    return Err(e);
                },
            }
            proof {
                assert(!(exists|j: int| 0 <= j < i && #[trigger] fs[j].name == fs[i as int].name)) by {
                    if exists|j: int| 0 <= j < i && #[trigger] fs[j].name == fs[i as int].name {
                        let j = choose|j: int| 0 <= j < i && #[trigger] fs[j].name == fs[i as int].name;
                        assert(fv0[j]@.name == f@.name);
                    }
                }
            }
            assert(fs.take(i + 1) =~= fs.take(i as int).push(fs[i as int]));
            i = i + 1;
        }
        assert(fs.take(i as int) =~= fs);
        let mut typed_fields: Vec<FieldDecl> = Vec::new();
        let mut k: usize = 0;
        while k < self.fields.len()
            invariant
                k <= self.fields@.len(),
                typed_fields@.len() == k,
                forall|j: int| 0 <= j < k ==> #[trigger] typed_fields@[j]@ == self.fields@[j]@,
            decreases self.fields@.len() - k,
        {
            typed_fields.push(self.fields[k].copy_field());
            k = k + 1;
        }
        assert(fields_view(typed_fields@) =~= fields_view(self.fields@));
        self.current_typed_class.fields = typed_fields;
        self.methods = Vec::new();
        let ghost ms = c.methods;
        let mut m: usize = 0;
        while m < self.classes[ci].methods.len()
            invariant
                ci < self.classes@.len(),
                self.classes == old(self).classes,
                self.current_class == old(self).current_class,
                self.typed_classes == old(self).typed_classes,
                self.current_typed_class@.name == c.name,
                self.current_typed_class@.fields == c.fields,
                self.current_class == Some(ci),
                l0 == assoc(old(self).current_local_vars@),
                before == Seq::<MethodDeclV>::empty(),
                cs == program_view(old(self).classes@),
                c == old(self).classes@[ci as int]@,
                c == self.classes@[ci as int]@,
                cs == program_view(self.classes@),
                check_fields(fs, fs.len(), cs) is Ok,
                fs == c.fields,
                ms == c.methods,
                ms == methods_view(self.classes@[ci as int].methods@),
                m <= ms.len(),
                methods_view(self.methods@) == ms.take(m as int),
                m == 0 ==> assoc(self.current_local_vars@) == l0,
                m > 0 ==> self.current_local_vars@.len() == 0,
                check_methods(c, m as nat, l0) matches Ok(a) && self.current_typed_class@.methods == before + a,
            decreases ms.len() - m,
        {
            let md = self.classes[ci].methods[m].copy_method();
            assert(md@ == ms[m as int]);
            proof {
                if m > 0 {
                    assert(assoc(self.current_local_vars@) =~= Map::<Seq<char>, TypeV>::empty()) by {
                        assert(self.current_local_vars@ =~= Seq::<(String, Type)>::empty());
                    }
                }
            }
            assert(self.env() == (Env { has_cls: true, cls: c, locals: if m == 0 { l0 } else { Map::empty() }, checked: ms.take(m as int) }));
            let ghost lm = if m == 0 { l0 } else { Map::<Seq<char>, TypeV>::empty() };
            assert(assoc(self.current_local_vars@) == lm);
            assert(methods_view(self.methods@) == c.methods.take(m as int));
            let tm = match self.check_method(&md) {
                Ok(v) => v,
                Err(e) => {
                    proof {
                        assert(check_method(c, c.methods.take(m as int), lm, c.methods[m as int]) == Err::<MethodDeclV, TypeErrorV>(e@));
                        assert(check_methods(c, m as nat + 1, l0) == Err::<Seq<MethodDeclV>, TypeErrorV>(e@));
                        lemma_check_methods_prefix_err(c, m as nat + 1, l0);
                        assert(check_methods(c, c.methods.len(), l0) == Err::<Seq<MethodDeclV>, TypeErrorV>(e@));
                        assert(check_fields(c.fields, c.fields.len(), cs) is Ok);
                        assert(check_class(cs, c, l0) == Err::<(ClassV, Map<Seq<char>, TypeV>), TypeErrorV>(e@));
                    }
                    return Err(e);
                },
            };
            let ghost t0 = self.current_typed_class@.methods;
            self.current_typed_class.methods.push(tm);
            assert(self.current_typed_class@.methods =~= t0.push(tm@));
            self.current_local_vars = Vec::new();
            assert(ms.take(m + 1) =~= ms.take(m as int).push(ms[m as int]));
            m = m + 1;
        }
        assert(ms.take(m as int) =~= ms);
        proof {
            if ms.len() > 0 {
                assert(assoc(self.current_local_vars@) =~= Map::<Seq<char>, TypeV>::empty()) by {
                    assert(self.current_local_vars@ =~= Seq::<(String, Type)>::empty());
                }
            }
        }
        let copy = self.current_typed_class.copy_class();
        put_typed_class(&mut self.typed_classes, copy);
        Ok(())
    }
}


proof fn lemma_check_classes_prefix_err(
    cs: Seq<ClassV>,
    k: nat,
    ts: Seq<ClassV>,
    b: Seq<MethodDeclV>,
    l: Map<Seq<char>, TypeV>,
)
    requires
        1 <= k <= cs.len(),
        check_classes(cs, k, ts, b, l) is Err,
    ensures
        check_classes(cs, cs.len(), ts, b, l) == check_classes(cs, k, ts, b, l),
    decreases cs.len() - k,
{
    if k < cs.len() {
        lemma_check_classes_prefix_err(cs, k + 1, ts, b, l);
    }
}

proof fn lemma_first_duplicate_prefix(cs: Seq<ClassV>, k: nat)
    requires
        1 <= k <= cs.len(),
        first_duplicate(cs, k) is Some,
    ensures
        first_duplicate(cs, cs.len()) == first_duplicate(cs, k),
    decreases cs.len() - k,
{
    if k < cs.len() {
        lemma_first_duplicate_prefix(cs, k + 1);
    }
}

impl TypeChecker {
    /// A checker for `program`; `Err` naming the first class whose name an
    /// earlier class has already.
    pub fn new(program: Vec<Class>) -> (r: Result<Self, TypeError>)
        ensures
            match first_duplicate(program_view(program@), program@.len()) {
                Some(n) => r matches Err(x) && x@ == TypeErrorV::DuplicateClass(n),
                None => r matches Ok(tc) && program_view(tc.classes@) == program_view(program@)
                    && tc.typed_classes@.len() == 0 && tc.current_class is None && tc.current_typed_class@.name.len() == 0
                    && tc.current_typed_class@.fields.len() == 0 && tc.current_typed_class@.methods.len() == 0
                    && tc.fields@.len() == 0 && tc.current_local_vars@.len() == 0 && tc.methods@.len() == 0,
            },
    {
        let ghost cs = program_view(program@);
        let mut class_names: Vec<String> = Vec::new();
        let mut i: usize = 0;
        while i < program.len()
            invariant
                i <= program@.len(),
                cs == program_view(program@),
                class_names@.len() == i,
                forall|j: int| 0 <= j < i ==> #[trigger] class_names@[j]@ == cs[j].name,
                first_duplicate(cs, i as nat) is None,
            decreases program@.len() - i,
        {
            assert(cs[i as int] == program@[i as int]@);
            let name = &program[i].name;
            let mut k: usize = 0;
            while k < class_names.len()
                invariant
                    k <= class_names@.len(),
                    class_names@.len() == i,
                    i < program@.len(),
                    cs == program_view(program@),
                    *name == program@[i as int].name,
                    cs[i as int] == program@[i as int]@,
                    forall|j: int| 0 <= j < i ==> #[trigger] class_names@[j]@ == cs[j].name,
                    forall|j: int| 0 <= j < k ==> #[trigger] cs[j].name != cs[i as int].name,
                    first_duplicate(cs, i as nat) is None,
                decreases class_names@.len() - k,
            {
                if class_names[k] == *name {
                    assert(cs[k as int].name == cs[i as int].name);
                    assert(first_duplicate(cs, i as nat + 1) == Some(cs[i as int].name));
                    proof {
                        lemma_first_duplicate_prefix(cs, i as nat + 1);
                    }
                    return Err(TypeError::DuplicateClass(name.clone()));
                }
                k = k + 1;
            }
            assert(first_duplicate(cs, i as nat + 1) is None);
            class_names.push(name.clone());
            i = i + 1;
        }
        Ok(TypeChecker {
            classes: program,
            typed_classes: Vec::new(),
            current_class: None,
            current_typed_class: Class::default(),
            fields: Vec::new(),
            current_local_vars: Vec::new(),
            methods: Vec::new(),
        })
    }

    /// Checks the classes in order, recording each typed class, as
    /// `check_classes` gives it; stops at the first error.
    pub fn check_program(&mut self) -> (r: Result<(), TypeError>)
        ensures
            final(self).classes == old(self).classes,
            match check_classes(
                program_view(old(self).classes@),
                old(self).classes@.len(),
                program_view(old(self).typed_classes@),
                old(self).current_typed_class@.methods,
                assoc(old(self).current_local_vars@),
            ) {
                Ok((ts, _, _)) => r is Ok && program_view(final(self).typed_classes@) == ts,
                Err(e) => r matches Err(x) && x@ == e,
            },
            r is Ok && old(self).typed_classes@.len() == 0 && first_duplicate(
                program_view(old(self).classes@),
                old(self).classes@.len(),
            ) is None ==> final(self).typed_classes@.len() == old(self).classes@.len() && forall|i: int|
                0 <= i < old(self).classes@.len() ==> erase_class(#[trigger] final(self).typed_classes@[i]@)
                    == erase_class(old(self).classes@[i]@),
    {
        let ghost cs = program_view(self.classes@);
        let ghost ts0 = program_view(self.typed_classes@);
        let ghost b0 = self.current_typed_class@.methods;
        let ghost l0 = assoc(self.current_local_vars@);
        let mut i: usize = 0;
        while i < self.classes.len()
            invariant
                i <= self.classes@.len(),
                self.classes == old(self).classes,
                cs == program_view(old(self).classes@),
                ts0 == program_view(old(self).typed_classes@),
                b0 == old(self).current_typed_class@.methods,
                l0 == assoc(old(self).current_local_vars@),
                check_classes(cs, i as nat, ts0, b0, l0) matches Ok((t, b, l)) && program_view(self.typed_classes@) == t
                    && self.current_typed_class@.methods == b && assoc(self.current_local_vars@) == l,
            decreases self.classes@.len() - i,
        {
            self.current_class = Some(i);
            assert(cs[i as int] == self.classes@[i as int]@);
            match self.check_class(i) {
                Ok(_) => {},
                Err(e) => {
                    proof {
                        lemma_check_classes_prefix_err(cs, i as nat + 1, ts0, b0, l0);
                    }
                    return Err(e);
                },
            }
            self.fields = Vec::new();
            i = i + 1;
        }
        proof {
            if old(self).typed_classes@.len() == 0 && first_duplicate(cs, cs.len()) is None && cs.len() > 0 {
                let ts = program_view(self.typed_classes@);
                assert(ts0 =~= Seq::<ClassV>::empty());
                assert(cs.len() == i);
                law_check_program_erases(cs, b0, l0, 0);
                assert(ts.len() == self.typed_classes@.len());
                assert forall|k: int| 0 <= k < cs.len() implies erase_class(#[trigger] self.typed_classes@[k]@)
                    == erase_class(old(self).classes@[k]@) by {
                    law_check_program_erases(cs, b0, l0, k);
                    assert(ts[k] == self.typed_classes@[k]@);
                    assert(cs[k] == old(self).classes@[k]@);
                }
            }
        }
        Ok(())
    }
}

} // verus!
