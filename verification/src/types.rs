use vstd::prelude::*;

verus! {

/// A class of the source program: its name, its fields and its methods.
#[derive(Debug, PartialEq)]
pub struct Class {
    pub name: String,
    pub fields: Vec<FieldDecl>,
    pub methods: Vec<MethodDecl>,
}

/// A field declaration with an optional initial value.
#[derive(Debug, PartialEq)]
pub struct FieldDecl {
    pub field_type: Type,
    pub name: String,
    pub val: Option<Expr>,
}

/// A method declaration: return type, name, parameters and body.
#[derive(Debug, PartialEq)]
pub struct MethodDecl {
    pub ret_type: Type,
    pub name: String,
    pub params: Vec<(Type, String)>,
    pub body: Stmt,
}

/// Statements. `TypedStmt` wraps a statement with the type the type checker gave it.
#[derive(Debug, PartialEq)]
pub enum Stmt {
    Block(Vec<Stmt>),
    Return(Expr),
    /// Condition, then body.
    While(Expr, Box<Stmt>),
    /// Type of the local variable, then its name.
    LocalVarDecl(Type, String),
    /// Condition, then-branch, optional else-branch.
    If(Expr, Box<Stmt>, Option<Box<Stmt>>),
    StmtExprStmt(StmtExpr),
    TypedStmt(Box<Stmt>, Type),
}

/// Expressions that may also stand as statements.
#[derive(Debug, PartialEq)]
pub enum StmtExpr {
    /// The assigned variable, then the assigned value.
    Assign(Expr, Expr),
    /// The instantiated class type, then the constructor arguments.
    New(Type, Vec<Expr>),
    /// The receiver, the method name and the arguments.
    MethodCall(Expr, String, Vec<Expr>),
    TypedStmtExpr(Box<StmtExpr>, Type),
}

/// Expressions. `TypedExpr` wraps an expression with its type.
#[derive(Debug, PartialEq)]
pub enum Expr {
    This,
    LocalOrFieldVar(String),
    InstVar(Box<Expr>, String),
    LocalVar(String),
    FieldVar(String),
    /// Operator, then operand.
    Unary(String, Box<Expr>),
    /// Operator, then left and right operand.
    Binary(String, Box<Expr>, Box<Expr>),
    Integer(i32),
    Bool(bool),
    Char(char),
    String(String),
    Jnull,
    StmtExprExpr(Box<StmtExpr>),
    TypedExpr(Box<Expr>, Type),
}

/// Unary operators.
#[derive(Debug, Clone, Copy, PartialEq, Eq, Structural)]
pub enum UnaryOp {
    Pos,
    Neg,
    Not,
}

/// Binary operators.
#[derive(Debug, Clone, Copy, PartialEq, Eq, Structural)]
pub enum BinaryOp {
    Add,
    Sub,
    Mul,
    Div,
    Mod,
    And,
    Or,
    Le,
    Ge,
    Lt,
    Gt,
    Eq,
    Ne,
}

/// The types of the source language.
#[derive(Debug, PartialEq, Eq, Hash)]
pub enum Type {
    Int,
    Bool,
    Char,
    String,
    Void,
    Null,
    Class(String),
}

/// A program is a list of classes.
pub type Prg = Vec<Class>;

// ---------------------------------------------------------------------------
// Mathematical models of the syntax trees: the same shapes, with strings as
// character sequences and vectors as sequences.
// ---------------------------------------------------------------------------

pub enum TypeV {
    Int,
    Bool,
    Char,
    String,
    Void,
    Null,
    Class(Seq<char>),
}

pub enum ExprV {
    This,
    LocalOrFieldVar(Seq<char>),
    InstVar(Box<ExprV>, Seq<char>),
    LocalVar(Seq<char>),
    FieldVar(Seq<char>),
    Unary(Seq<char>, Box<ExprV>),
    Binary(Seq<char>, Box<ExprV>, Box<ExprV>),
    Integer(i32),
    Bool(bool),
    Char(char),
    String(Seq<char>),
    Jnull,
    StmtExprExpr(Box<StmtExprV>),
    TypedExpr(Box<ExprV>, TypeV),
}

pub enum StmtExprV {
    Assign(ExprV, ExprV),
    New(TypeV, Seq<ExprV>),
    MethodCall(ExprV, Seq<char>, Seq<ExprV>),
    TypedStmtExpr(Box<StmtExprV>, TypeV),
}

pub enum StmtV {
    Block(Seq<StmtV>),
    Return(ExprV),
    While(ExprV, Box<StmtV>),
    LocalVarDecl(TypeV, Seq<char>),
    If(ExprV, Box<StmtV>, Option<Box<StmtV>>),
    StmtExprStmt(StmtExprV),
    TypedStmt(Box<StmtV>, TypeV),
}

pub struct FieldDeclV {
    pub field_type: TypeV,
    pub name: Seq<char>,
    pub val: Option<ExprV>,
}

pub struct MethodDeclV {
    pub ret_type: TypeV,
    pub name: Seq<char>,
    pub params: Seq<(TypeV, Seq<char>)>,
    pub body: StmtV,
}

pub struct ClassV {
    pub name: Seq<char>,
    pub fields: Seq<FieldDeclV>,
    pub methods: Seq<MethodDeclV>,
}

pub open spec fn type_view(t: Type) -> TypeV {
    match t {
        Type::Int => TypeV::Int,
        Type::Bool => TypeV::Bool,
        Type::Char => TypeV::Char,
        Type::String => TypeV::String,
        Type::Void => TypeV::Void,
        Type::Null => TypeV::Null,
        Type::Class(n) => TypeV::Class(n@),
    }
}

impl View for Type {
    type V = TypeV;

    open spec fn view(&self) -> TypeV {
        type_view(*self)
    }
}

pub open spec fn exprs_view(s: Seq<Expr>) -> Seq<ExprV>
    decreases s,
{
    if s.len() == 0 {
        Seq::empty()
    } else {
        exprs_view(s.drop_last()).push(expr_view(s.last()))
    }
}

pub open spec fn expr_view(e: Expr) -> ExprV
    decreases e,
{
    match e {
        Expr::This => ExprV::This,
        Expr::LocalOrFieldVar(n) => ExprV::LocalOrFieldVar(n@),
        Expr::InstVar(b, n) => ExprV::InstVar(Box::new(expr_view(*b)), n@),
        Expr::LocalVar(n) => ExprV::LocalVar(n@),
        Expr::FieldVar(n) => ExprV::FieldVar(n@),
        Expr::Unary(o, b) => ExprV::Unary(o@, Box::new(expr_view(*b))),
        Expr::Binary(o, l, r) => ExprV::Binary(
            o@,
            Box::new(expr_view(*l)),
            Box::new(expr_view(*r)),
        ),
        Expr::Integer(i) => ExprV::Integer(i),
        Expr::Bool(b) => ExprV::Bool(b),
        Expr::Char(c) => ExprV::Char(c),
        Expr::String(s) => ExprV::String(s@),
        Expr::Jnull => ExprV::Jnull,
        Expr::StmtExprExpr(se) => ExprV::StmtExprExpr(Box::new(stmt_expr_view(*se))),
        Expr::TypedExpr(b, t) => ExprV::TypedExpr(Box::new(expr_view(*b)), t@),
    }
}

pub open spec fn stmt_expr_view(se: StmtExpr) -> StmtExprV
    decreases se,
{
    match se {
        StmtExpr::Assign(v, e) => StmtExprV::Assign(expr_view(v), expr_view(e)),
        StmtExpr::New(t, args) => StmtExprV::New(t@, exprs_view(args@)),
        StmtExpr::MethodCall(r, n, args) => StmtExprV::MethodCall(
            expr_view(r),
            n@,
            exprs_view(args@),
        ),
        StmtExpr::TypedStmtExpr(b, t) => StmtExprV::TypedStmtExpr(
            Box::new(stmt_expr_view(*b)),
            t@,
        ),
    }
}

pub open spec fn stmts_view(s: Seq<Stmt>) -> Seq<StmtV>
    decreases s,
{
    if s.len() == 0 {
        Seq::empty()
    } else {
        stmts_view(s.drop_last()).push(stmt_view(s.last()))
    }
}

pub open spec fn stmt_view(s: Stmt) -> StmtV
    decreases s,
{
    match s {
        Stmt::Block(v) => StmtV::Block(stmts_view(v@)),
        Stmt::Return(e) => StmtV::Return(expr_view(e)),
        Stmt::While(c, b) => StmtV::While(expr_view(c), Box::new(stmt_view(*b))),
        Stmt::LocalVarDecl(t, n) => StmtV::LocalVarDecl(t@, n@),
        Stmt::If(c, t, e) => StmtV::If(
            expr_view(c),
            Box::new(stmt_view(*t)),
            match e {
                Some(b) => Some(Box::new(stmt_view(*b))),
                None => None,
            },
        ),
        Stmt::StmtExprStmt(se) => StmtV::StmtExprStmt(stmt_expr_view(se)),
        Stmt::TypedStmt(b, t) => StmtV::TypedStmt(Box::new(stmt_view(*b)), t@),
    }
}

impl View for Expr {
    type V = ExprV;

    open spec fn view(&self) -> ExprV {
        expr_view(*self)
    }
}

impl View for StmtExpr {
    type V = StmtExprV;

    open spec fn view(&self) -> StmtExprV {
        stmt_expr_view(*self)
    }
}

impl View for Stmt {
    type V = StmtV;

    open spec fn view(&self) -> StmtV {
        stmt_view(*self)
    }
}

pub open spec fn params_view(p: Seq<(Type, String)>) -> Seq<(TypeV, Seq<char>)> {
    p.map_values(|x: (Type, String)| (x.0@, x.1@))
}

impl View for FieldDecl {
    type V = FieldDeclV;

    open spec fn view(&self) -> FieldDeclV {
        FieldDeclV {
            field_type: self.field_type@,
            name: self.name@,
            val: match self.val {
                Some(e) => Some(e@),
                None => None,
            },
        }
    }
}

impl View for MethodDecl {
    type V = MethodDeclV;

    open spec fn view(&self) -> MethodDeclV {
        MethodDeclV {
            ret_type: self.ret_type@,
            name: self.name@,
            params: params_view(self.params@),
            body: self.body@,
        }
    }
}

pub open spec fn fields_view(s: Seq<FieldDecl>) -> Seq<FieldDeclV> {
    s.map_values(|f: FieldDecl| f@)
}

pub open spec fn methods_view(s: Seq<MethodDecl>) -> Seq<MethodDeclV> {
    s.map_values(|m: MethodDecl| m@)
}

impl View for Class {
    type V = ClassV;

    open spec fn view(&self) -> ClassV {
        ClassV {
            name: self.name@,
            fields: fields_view(self.fields@),
            methods: methods_view(self.methods@),
        }
    }
}

pub proof fn lemma_exprs_view(s: Seq<Expr>)
    ensures
        exprs_view(s).len() == s.len(),
        forall|i: int| 0 <= i < s.len() ==> #[trigger] exprs_view(s)[i] == expr_view(s[i]),
    decreases s.len(),
{
    if s.len() > 0 {
        lemma_exprs_view(s.drop_last());
    }
}

pub proof fn lemma_stmts_view(s: Seq<Stmt>)
    ensures
        stmts_view(s).len() == s.len(),
        forall|i: int| 0 <= i < s.len() ==> #[trigger] stmts_view(s)[i] == stmt_view(s[i]),
    decreases s.len(),
{
    if s.len() > 0 {
        lemma_stmts_view(s.drop_last());
    }
}

/// The JVM descriptor of a type, where it has one.
pub open spec fn ir_string(t: TypeV) -> Seq<char> {
    match t {
        TypeV::Int => seq!['I'],
        TypeV::Char => seq!['C'],
        TypeV::Bool => seq!['Z'],
        TypeV::String => seq![
            'L', 'j', 'a', 'v', 'a', '/', 'l', 'a', 'n', 'g', '/', 'S', 't', 'r', 'i', 'n', 'g', ';'
        ],
        TypeV::Class(n) => n,
        TypeV::Void => seq!['V'],
        TypeV::Null => Seq::empty(),
    }
}

/// The types of values: all but `void` and the null type.
pub open spec fn has_ir_string(t: TypeV) -> bool {
    !(t is Void) && !(t is Null)
}

impl Type {
    /// The JVM descriptor of this type; `void` is `V`. The null type has none.
    pub fn to_ir_string(&self) -> (s: &str)
        requires
            !(self@ is Null),
        ensures
            s@ == ir_string(self@),
    {
        match self {
            Type::Int => {
                proof {
                    reveal_strlit("I");
                }
                "I"
            },
            Type::Char => {
                proof {
                    reveal_strlit("C");
                }
                "C"
            },
            Type::Bool => {
                proof {
                    reveal_strlit("Z");
                }
                "Z"
            },
            Type::String => {
                proof {
                    reveal_strlit("Ljava/lang/String;");
                }
                "Ljava/lang/String;"
            },
            Type::Class(name) => name.as_str(),
            Type::Void => {
                proof {
                    reveal_strlit("V");
                }
                "V"
            },
            Type::Null => {
                assert(false);
                ""
            },
        }
    }

    /// Whether `to_ir_string` is defined on this type.
    pub fn has_ir_string(&self) -> (b: bool)
        ensures
            b == has_ir_string(self@),
    {
        match self {
            Type::Void | Type::Null => false,
            _ => true,
        }
    }

    /// A copy of this type.
    pub fn copy_type(&self) -> (r: Type)
        ensures
            r@ == self@,
    {
        match self {
            Type::Int => Type::Int,
            Type::Bool => Type::Bool,
            Type::Char => Type::Char,
            Type::String => Type::String,
            Type::Void => Type::Void,
            Type::Null => Type::Null,
            Type::Class(n) => Type::Class(n.clone()),
        }
    }

    /// Whether two types are the same type.
    pub fn same_as(&self, other: &Type) -> (b: bool)
        ensures
            b == (self@ == other@),
    {
        match self {
            Type::Int => match other {
                Type::Int => true,
                _ => false,
            },
            Type::Bool => match other {
                Type::Bool => true,
                _ => false,
            },
            Type::Char => match other {
                Type::Char => true,
                _ => false,
            },
            Type::String => match other {
                Type::String => true,
                _ => false,
            },
            Type::Void => match other {
                Type::Void => true,
                _ => false,
            },
            Type::Null => match other {
                Type::Null => true,
                _ => false,
            },
            Type::Class(x) => match other {
                Type::Class(y) => *x == *y,
                _ => false,
            },
        }
    }
}

/// The unary operator that a source operator string denotes.
pub open spec fn unary_op_of(s: Seq<char>) -> Option<UnaryOp> {
    if s == seq!['+'] {
        Some(UnaryOp::Pos)
    } else if s == seq!['-'] {
        Some(UnaryOp::Neg)
    } else if s == seq!['!'] {
        Some(UnaryOp::Not)
    } else {
        None
    }
}

/// The binary operator that a source operator string denotes.
pub open spec fn binary_op_of(s: Seq<char>) -> Option<BinaryOp> {
    if s == seq!['+'] {
        Some(BinaryOp::Add)
    } else if s == seq!['-'] {
        Some(BinaryOp::Sub)
    } else if s == seq!['*'] {
        Some(BinaryOp::Mul)
    } else if s == seq!['/'] {
        Some(BinaryOp::Div)
    } else if s == seq!['%'] {
        Some(BinaryOp::Mod)
    } else if s == seq!['&', '&'] {
        Some(BinaryOp::And)
    } else if s == seq!['|', '|'] {
        Some(BinaryOp::Or)
    } else if s == seq!['<', '='] {
        Some(BinaryOp::Le)
    } else if s == seq!['>', '='] {
        Some(BinaryOp::Ge)
    } else if s == seq!['<'] {
        Some(BinaryOp::Lt)
    } else if s == seq!['>'] {
        Some(BinaryOp::Gt)
    } else if s == seq!['=', '='] {
        Some(BinaryOp::Eq)
    } else if s == seq!['!', '='] {
        Some(BinaryOp::Ne)
    } else {
        None
    }
}

impl UnaryOp {
    /// The operator a source string denotes; `None` for anything else.
    pub fn from_op(s: &str) -> (r: Option<UnaryOp>)
        ensures
            r == unary_op_of(s@),
    {
        let n = s.unicode_len();
        if n != 1 {
            return None;
        }
        let c = s.get_char(0);
        assert(s@ =~= seq![c]);
        if c == '+' {
            Some(UnaryOp::Pos)
        } else if c == '-' {
            Some(UnaryOp::Neg)
        } else if c == '!' {
            Some(UnaryOp::Not)
        } else {
            None
        }
    }
}

impl BinaryOp {
    /// The operator a source string denotes; `None` for anything else.
    pub fn from_op(s: &str) -> (r: Option<BinaryOp>)
        ensures
            r == binary_op_of(s@),
    {
        let n = s.unicode_len();
        if n == 1 {
            let c = s.get_char(0);
            assert(s@ =~= seq![c]);
            if c == '+' {
                Some(BinaryOp::Add)
            } else if c == '-' {
                Some(BinaryOp::Sub)
            } else if c == '*' {
                Some(BinaryOp::Mul)
            } else if c == '/' {
                Some(BinaryOp::Div)
            } else if c == '%' {
                Some(BinaryOp::Mod)
            } else if c == '<' {
                Some(BinaryOp::Lt)
            } else if c == '>' {
                Some(BinaryOp::Gt)
            } else {
                None
            }
        } else if n == 2 {
            let c0 = s.get_char(0);
            let c1 = s.get_char(1);
            assert(s@ =~= seq![c0, c1]);
            if c0 == '&' && c1 == '&' {
                Some(BinaryOp::And)
            } else if c0 == '|' && c1 == '|' {
                Some(BinaryOp::Or)
            } else if c0 == '<' && c1 == '=' {
                Some(BinaryOp::Le)
            } else if c0 == '>' && c1 == '=' {
                Some(BinaryOp::Ge)
            } else if c0 == '=' && c1 == '=' {
                Some(BinaryOp::Eq)
            } else if c0 == '!' && c1 == '=' {
                Some(BinaryOp::Ne)
            } else {
                None
            }
        } else {
            None
        }
    }
}

impl Default for Class {
    /// A class with an empty name, no fields and no methods.
    fn default() -> (c: Class)
        ensures
            c@.name.len() == 0,
            c@.fields.len() == 0,
            c@.methods.len() == 0,
    {
        Class { name: String::new(), fields: Vec::new(), methods: Vec::new() }
    }
}


/// A copy of the expressions of `v`.
pub fn copy_exprs(v: &Vec<Expr>) -> (r: Vec<Expr>)
    ensures
        exprs_view(r@) == exprs_view(v@),
    decreases v@, 0nat,
{
    let mut r: Vec<Expr> = Vec::new();
    let mut i: usize = 0;
    while i < v.len()
        invariant
            i <= v@.len(),
            exprs_view(r@) == exprs_view(v@.subrange(0, i as int)),
        decreases v@.len() - i,
    {
        proof {
            assert(decreases_to!(v@ => v@[i as int]));
        }
        let e = v[i].copy_expr();
        let ghost r0 = r@;
        r.push(e);
        assert(r@.drop_last() =~= r0);
        assert(v@.subrange(0, i + 1).drop_last() =~= v@.subrange(0, i as int));
        i = i + 1;
    }
    assert(v@.subrange(0, v@.len() as int) =~= v@);
    r
}

impl Expr {
    /// A copy of this expression.
    pub fn copy_expr(&self) -> (r: Expr)
        ensures
            r@ == self@,
        decreases *self,
    {
        match self {
            Expr::This => Expr::This,
            Expr::LocalOrFieldVar(n) => Expr::LocalOrFieldVar(n.clone()),
            Expr::InstVar(b, n) => Expr::InstVar(Box::new((**b).copy_expr()), n.clone()),
            Expr::LocalVar(n) => Expr::LocalVar(n.clone()),
            Expr::FieldVar(n) => Expr::FieldVar(n.clone()),
            Expr::Unary(o, b) => Expr::Unary(o.clone(), Box::new((**b).copy_expr())),
            Expr::Binary(o, l, r) => Expr::Binary(
                o.clone(),
                Box::new((**l).copy_expr()),
                Box::new((**r).copy_expr()),
            ),
            Expr::Integer(i) => Expr::Integer(*i),
            Expr::Bool(b) => Expr::Bool(*b),
            Expr::Char(c) => Expr::Char(*c),
            Expr::String(s) => Expr::String(s.clone()),
            Expr::Jnull => Expr::Jnull,
            Expr::StmtExprExpr(se) => Expr::StmtExprExpr(Box::new((**se).copy_stmt_expr())),
            Expr::TypedExpr(b, t) => Expr::TypedExpr(Box::new((**b).copy_expr()), t.copy_type()),
        }
    }
}

impl StmtExpr {
    /// A copy of this statement expression.
    pub fn copy_stmt_expr(&self) -> (r: StmtExpr)
        ensures
            r@ == self@,
        decreases *self,
    {
        match self {
            StmtExpr::Assign(v, e) => StmtExpr::Assign(v.copy_expr(), e.copy_expr()),
            StmtExpr::New(t, args) => StmtExpr::New(t.copy_type(), copy_exprs(args)),
            StmtExpr::MethodCall(r, n, args) => StmtExpr::MethodCall(r.copy_expr(), n.clone(), copy_exprs(args)),
            StmtExpr::TypedStmtExpr(b, t) => StmtExpr::TypedStmtExpr(Box::new((**b).copy_stmt_expr()), t.copy_type()),
        }
    }
}

impl FieldDecl {
    /// A copy of this field declaration.
    pub fn copy_field(&self) -> (r: FieldDecl)
        ensures
            r@ == self@,
    {
        FieldDecl {
            field_type: self.field_type.copy_type(),
            name: self.name.clone(),
            val: match &self.val {
                Some(e) => Some(e.copy_expr()),
                None => None,
            },
        }
    }
}

/// A copy of a parameter list.
pub fn copy_params(v: &Vec<(Type, String)>) -> (r: Vec<(Type, String)>)
    ensures
        params_view(r@) == params_view(v@),
{
    let mut r: Vec<(Type, String)> = Vec::new();
    let mut i: usize = 0;
    while i < v.len()
        invariant
            i <= v@.len(),
            params_view(r@) == params_view(v@.subrange(0, i as int)),
            r@.len() == i,
        decreases v@.len() - i,
    {
        let t = v[i].0.copy_type();
        let n = v[i].1.clone();
        let ghost r0 = r@;
        assert(t@ == v@[i as int].0@);
        assert(n@ == v@[i as int].1@);
        r.push((t, n));
        assert(r@[i as int] == (t, n));
        assert(params_view(r@)[i as int] == (t@, n@));
        assert forall|j: int| 0 <= j <= i implies #[trigger] params_view(r@)[j] == params_view(v@.subrange(0, i + 1))[j] by {
            if j < i {
                assert(params_view(r0)[j] == params_view(v@.subrange(0, i as int))[j]);
                assert(r@[j] == r0[j]);
            }
        }
        i = i + 1;
        assert(params_view(r@) =~= params_view(v@.subrange(0, i as int)));
    }
    assert(v@.subrange(0, v@.len() as int) =~= v@);
    r
}


/// A copy of the statements of `v`.
pub fn copy_stmts(v: &Vec<Stmt>) -> (r: Vec<Stmt>)
    ensures
        stmts_view(r@) == stmts_view(v@),
    decreases v@, 0nat,
{
    let mut r: Vec<Stmt> = Vec::new();
    let mut i: usize = 0;
    while i < v.len()
        invariant
            i <= v@.len(),
            stmts_view(r@) == stmts_view(v@.subrange(0, i as int)),
        decreases v@.len() - i,
    {
        proof {
            assert(decreases_to!(v@ => v@[i as int]));
        }
        let st = v[i].copy_stmt();
        let ghost r0 = r@;
        r.push(st);
        assert(r@.drop_last() =~= r0);
        assert(v@.subrange(0, i + 1).drop_last() =~= v@.subrange(0, i as int));
        i = i + 1;
    }
    assert(v@.subrange(0, v@.len() as int) =~= v@);
    r
}

impl Stmt {
    /// A copy of this statement.
    pub fn copy_stmt(&self) -> (r: Stmt)
        ensures
            r@ == self@,
        decreases *self,
    {
        match self {
            Stmt::Block(v) => Stmt::Block(copy_stmts(v)),
            Stmt::Return(e) => Stmt::Return(e.copy_expr()),
            Stmt::While(c, b) => Stmt::While(c.copy_expr(), Box::new((**b).copy_stmt())),
            Stmt::LocalVarDecl(t, n) => Stmt::LocalVarDecl(t.copy_type(), n.clone()),
            Stmt::If(c, t, e) => Stmt::If(
                c.copy_expr(),
                Box::new((**t).copy_stmt()),
                match e {
                    Some(b) => Some(Box::new((**b).copy_stmt())),
                    None => None,
                },
            ),
            Stmt::StmtExprStmt(se) => Stmt::StmtExprStmt(se.copy_stmt_expr()),
            Stmt::TypedStmt(b, t) => Stmt::TypedStmt(Box::new((**b).copy_stmt()), t.copy_type()),
        }
    }
}

impl MethodDecl {
    /// A copy of this method declaration.
    pub fn copy_method(&self) -> (r: MethodDecl)
        ensures
            r@ == self@,
    {
        MethodDecl {
            ret_type: self.ret_type.copy_type(),
            name: self.name.clone(),
            params: copy_params(&self.params),
            body: self.body.copy_stmt(),
        }
    }
}

impl Class {
    /// A copy of this class.
    pub fn copy_class(&self) -> (r: Class)
        ensures
            r@ == self@,
    {
        let mut fields: Vec<FieldDecl> = Vec::new();
        let mut i: usize = 0;
        while i < self.fields.len()
            invariant
                i <= self.fields@.len(),
                fields@.len() == i,
                forall|j: int| 0 <= j < i ==> #[trigger] fields@[j]@ == self.fields@[j]@,
            decreases self.fields@.len() - i,
        {
            fields.push(self.fields[i].copy_field());
            i = i + 1;
        }
        let mut methods: Vec<MethodDecl> = Vec::new();
        let mut k: usize = 0;
        while k < self.methods.len()
            invariant
                k <= self.methods@.len(),
                methods@.len() == k,
                forall|j: int| 0 <= j < k ==> #[trigger] methods@[j]@ == self.methods@[j]@,
            decreases self.methods@.len() - k,
        {
            methods.push(self.methods[k].copy_method());
            k = k + 1;
        }
        let r = Class { name: self.name.clone(), fields, methods };
        assert(r@.fields =~= self@.fields);
        assert(r@.methods =~= self@.methods);
        r
    }
}

} // verus!
