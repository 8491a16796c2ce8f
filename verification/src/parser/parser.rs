use vstd::prelude::*;
use crate::codegen::dir::classes_view;
use crate::parser::grammar::{
    args, args_items, block_items, chain, chain_rest, class_at, level_rest, as_branch, declarator_stmts, expr,
    field_decls, ident_at, init_at, kw_at, level, local_decls, members, nonbin, op_prec,
    param_items, params, primary, program_from, program_of, stmt, stmt_expr, sym_at, type_at,
};
use crate::parser::lexer::{Kw, Token, TokenV, lex, lex_from, tokens_view};
use crate::typechecker::typechecker::opt_expr_view;
use crate::types::{
    Class, Expr, ExprV, StmtExprV, StmtV, FieldDecl, MethodDecl, Stmt, StmtExpr, Type, exprs_view, fields_view,
    lemma_exprs_view, lemma_stmts_view, methods_view, params_view, stmts_view,
};

verus! {

/// Why a source text is no program.
#[derive(Debug, PartialEq, Eq, Structural)]
pub enum ParseError {
    /// A character starts no token: a stray character, an unclosed literal
    /// or a number beyond the range of `int`.
    Lex,
    /// The tokens do not form a program.
    Syntax,
}

pub open spec fn tv(ts: &Vec<Token>) -> Seq<TokenV> {
    tokens_view(ts@)
}

proof fn lemma_exprs_cons(e: Expr, v: Seq<Expr>)
    ensures
        exprs_view(v.insert(0, e)) == seq![e@] + exprs_view(v),
{
    lemma_exprs_view(v.insert(0, e));
    lemma_exprs_view(v);
    assert(exprs_view(v.insert(0, e)) =~= seq![e@] + exprs_view(v));
}

proof fn lemma_stmts_append(a: Seq<Stmt>, b: Seq<Stmt>)
    ensures
        stmts_view(a + b) == stmts_view(a) + stmts_view(b),
{
    lemma_stmts_view(a + b);
    lemma_stmts_view(a);
    lemma_stmts_view(b);
    assert(stmts_view(a + b) =~= stmts_view(a) + stmts_view(b));
}

fn one_stmt(s: Stmt) -> (v: Vec<Stmt>)
    ensures
        stmts_view(v@) == seq![s@],
{
    let mut v = Vec::new();
    v.push(s);
    proof {
        lemma_stmts_view(v@);
        assert(stmts_view(v@) =~= seq![s@]);
    }
    v
}

fn sym_at_x(ts: &Vec<Token>, p: usize, c: char) -> (b: bool)
    ensures
        b == sym_at(tv(ts), p as int, c),
{
    if p < ts.len() {
        match &ts[p] {
            Token::Sym(d) => *d == c,
            _ => false,
        }
    } else {
        false
    }
}

fn kw_at_x(ts: &Vec<Token>, p: usize, k: Kw) -> (b: bool)
    ensures
        b == kw_at(tv(ts), p as int, k),
{
    if p < ts.len() {
        match &ts[p] {
            Token::Kw(j) => *j == k,
            _ => false,
        }
    } else {
        false
    }
}

fn ident_at_x(ts: &Vec<Token>, p: usize) -> (r: Option<String>)
    ensures
        match r {
            Some(n) => ident_at(tv(ts), p as int) == Some(n@),
            None => ident_at(tv(ts), p as int) is None,
        },
{
    if p < ts.len() {
        match &ts[p] {
            Token::Ident(n) => Some(n.clone()),
            _ => None,
        }
    } else {
        None
    }
}

fn type_at_x(ts: &Vec<Token>, p: usize) -> (r: Option<Type>)
    ensures
        match r {
            Some(t) => type_at(tv(ts), p as int) == Some(t@),
            None => type_at(tv(ts), p as int) is None,
        },
{
    if p < ts.len() {
        match &ts[p] {
            Token::Kw(k) => match k {
                Kw::Int => Some(Type::Int),
                Kw::Boolean => Some(Type::Bool),
                Kw::Char => Some(Type::Char),
                Kw::String => Some(Type::String),
                Kw::Void => Some(Type::Void),
                Kw::Null => Some(Type::Null),
                _ => None,
            },
            Token::Ident(n) => Some(Type::Class(n.clone())),
            _ => None,
        }
    } else {
        None
    }
}

/// Whether the operator `o` is the single character `c`.
fn op_is1(o: &String, c: char) -> (b: bool)
    ensures
        b == (o@ == seq![c]),
{
    let s = o.as_str();
    if s.unicode_len() != 1 {
        return false;
    }
    let d = s.get_char(0);
    assert(o@ =~= seq![d]);
    d == c
}

fn op_prec_x(o: &String) -> (r: i8)
    ensures
        r == op_prec(o@),
{
    let s = o.as_str();
    let n = s.unicode_len();
    if n == 1 {
        let c = s.get_char(0);
        assert(o@ =~= seq![c]);
        if c == '<' || c == '>' {
            2
        } else if c == '+' || c == '-' {
            3
        } else if c == '*' || c == '/' || c == '%' {
            4
        } else {
            -1
        }
    } else if n == 2 {
        let c0 = s.get_char(0);
        let c1 = s.get_char(1);
        assert(o@ =~= seq![c0, c1]);
        if c0 == '|' && c1 == '|' {
            0
        } else if c0 == '&' && c1 == '&' {
            1
        } else if (c0 == '=' || c0 == '!' || c0 == '<' || c0 == '>') && c1 == '=' {
            2
        } else {
            -1
        }
    } else {
        assert(o@.len() != 1 && o@.len() != 2);
        assert(o@ != seq!['|', '|'] && o@ != seq!['<']);
        -1
    }
}

fn chain_x(ts: &Vec<Token>, p: usize) -> (r: Option<(Expr, usize)>)
    requires
        p <= ts.len(),
    ensures
        match r {
            Some((e, q)) => chain(tv(ts), p as int) == Some((e@, q as int)) && p < q <= ts.len(),
            None => chain(tv(ts), p as int) is None,
        },
{
    let base = if kw_at_x(ts, p, Kw::This) {
        Expr::This
    } else {
        match ident_at_x(ts, p) {
            Some(n) => Expr::LocalOrFieldVar(n),
            None => {
                return None;
            },
        }
    };
    let ghost b0 = base@;
    let mut e = base;
    let mut q = p + 1;
    loop
        invariant
            p < q <= ts.len(),
            chain_rest(tv(ts), b0, p + 1) == chain_rest(tv(ts), e@, q as int),
        ensures
            p < q <= ts.len(),
            chain_rest(tv(ts), b0, p + 1) == (e@, q as int),
        decreases ts.len() - q,
    {
        if !sym_at_x(ts, q, '.') {
            break ;
        }
        match ident_at_x(ts, q + 1) {
            Some(n) => {
                e = Expr::InstVar(Box::new(e), n);
                q = q + 2;
            },
            None => {
                break ;
            },
        }
    }
    Some((e, q))
}

/// The binary expression of level `k` at `p` (level 5: a non-binary one).
fn level_x(ts: &Vec<Token>, p: usize, k: u8) -> (r: Option<(Expr, usize)>)
    requires
        p <= ts.len(),
        k <= 5,
    ensures
        match r {
            Some((e, q)) => level(tv(ts), p as int, k as int) == Some((e@, q as int)) && p < q
                <= ts.len(),
            None => level(tv(ts), p as int, k as int) is None,
        },
    decreases ts.len() - p, 8 - k,
{
    if k == 5 {
        return nonbin_x(ts, p);
    }
    match level_x(ts, p, k + 1) {
        None => None,
        Some((l, q)) => level_rest_x(ts, l, q, k),
    }
}

/// The operators of level `k` and their operands from `q` on, joined to the
/// left operand `acc`.
fn level_rest_x(ts: &Vec<Token>, acc: Expr, q: usize, k: u8) -> (r: Option<(Expr, usize)>)
    requires
        q <= ts.len(),
        k < 5,
    ensures
        match r {
            Some((e, s)) => level_rest(tv(ts), acc@, q as int, k as int) == Some((e@, s as int)) && q
                <= s <= ts.len(),
            None => level_rest(tv(ts), acc@, q as int, k as int) is None,
        },
    decreases ts.len() - q, 8 - k,
{
    if q < ts.len() {
        if let Token::Op(o) = &ts[q] {
            if op_prec_x(o) == k as i8 {
                let o2 = o.clone();
                return match level_x(ts, q + 1, k + 1) {
                    None => None,
                    Some((r, s)) => {
                        let e = Expr::Binary(o2, Box::new(acc), Box::new(r));
                        assert(e@ == ExprV::Binary(o@, Box::new(acc@), Box::new(r@)));
                        level_rest_x(ts, e, s, k)
                    },
                };
            }
        }
    }
    Some((acc, q))
}

/// A non-binary expression at `p`.
fn nonbin_x(ts: &Vec<Token>, p: usize) -> (r: Option<(Expr, usize)>)
    requires
        p <= ts.len(),
    ensures
        match r {
            Some((e, q)) => nonbin(tv(ts), p as int) == Some((e@, q as int)) && p < q <= ts.len(),
            None => nonbin(tv(ts), p as int) is None,
        },
    decreases ts.len() - p, 2int,
{
    if p >= ts.len() {
        return None;
    }
    match &ts[p] {
        Token::Sym(c) => {
            if *c == '(' {
                match level_x(ts, p + 1, 0) {
                    Some((e, q)) => if sym_at_x(ts, q, ')') {
                        Some((e, q + 1))
                    } else {
                        None
                    },
                    None => None,
                }
            } else {
                None
            }
        },
        Token::Op(o) => {
            let minus = op_is1(o, '-');
            if minus && p + 1 < ts.len() {
                if let Token::Int(n) = &ts[p + 1] {
                    if *n >= 0 {
                        return Some((Expr::Integer(-*n), p + 2));
                    }
                }
            }
            if minus || op_is1(o, '+') || op_is1(o, '!') {
                match nonbin_x(ts, p + 1) {
                    Some((e, q)) => Some((Expr::Unary(o.clone(), Box::new(e)), q)),
                    None => None,
                }
            } else {
                None
            }
        },
        Token::Int(n) => Some((Expr::Integer(*n), p + 1)),
        Token::Char(c) => Some((Expr::Char(*c), p + 1)),
        Token::Str(s) => Some((Expr::String(s.clone()), p + 1)),
        Token::Kw(k) => match k {
            Kw::True => Some((Expr::Bool(true), p + 1)),
            Kw::False => Some((Expr::Bool(false), p + 1)),
            Kw::Null => Some((Expr::Jnull, p + 1)),
            Kw::This | Kw::New => primary_x(ts, p),
            _ => None,
        },
        Token::Ident(_) => primary_x(ts, p),
    }
}

fn primary_x(ts: &Vec<Token>, p: usize) -> (r: Option<(Expr, usize)>)
    requires
        p <= ts.len(),
    ensures
        match r {
            Some((e, q)) => primary(tv(ts), p as int) == Some((e@, q as int)) && p < q <= ts.len(),
            None => primary(tv(ts), p as int) is None,
        },
    decreases ts.len() - p, 1int,
{
    if p >= ts.len() {
        return None;
    }
    match stmt_expr_x(ts, p) {
        Some((se, q)) => Some((Expr::StmtExprExpr(Box::new(se)), q)),
        None => chain_x(ts, p),
    }
}

/// An object creation, an assignment or a method call at `p`.
fn stmt_expr_x(ts: &Vec<Token>, p: usize) -> (r: Option<(StmtExpr, usize)>)
    requires
        p <= ts.len(),
    ensures
        match r {
            Some((se, q)) => stmt_expr(tv(ts), p as int) == Some((se@, q as int)) && p < q
                <= ts.len(),
            None => stmt_expr(tv(ts), p as int) is None,
        },
    decreases ts.len() - p, 0int,
{
    if p >= ts.len() {
        return None;
    }
    if kw_at_x(ts, p, Kw::New) {
        match type_at_x(ts, p + 1) {
            Some(t) => if sym_at_x(ts, p + 2, '(') {
                match args_x(ts, p + 3) {
                    Some((a, q)) => Some((StmtExpr::New(t, a), q)),
                    None => None,
                }
            } else {
                None
            },
            None => None,
        }
    } else {
        match chain_x(ts, p) {
            None => None,
            Some((c, q)) => {
                if sym_at_x(ts, q, '=') {
                    match level_x(ts, q + 1, 0) {
                        Some((e, r)) => Some((StmtExpr::Assign(c, e), r)),
                        None => None,
                    }
                } else if sym_at_x(ts, q, '(') {
                    match args_x(ts, q + 1) {
                        Some((a, r)) => match c {
                            Expr::InstVar(b, n) => {
                                assert(c@ == ExprV::InstVar(Box::new(b@), n@));
                                Some((StmtExpr::MethodCall(*b, n, a), r))
                            },
                            Expr::LocalOrFieldVar(n) => {
                                let receiver = Expr::This;
                                assert(receiver@ == ExprV::This);
                                let call = StmtExpr::MethodCall(receiver, n, a);
                                assert(call@ == StmtExprV::MethodCall(
                                    ExprV::This,
                                    n@,
                                    exprs_view(a@),
                                ));
                                Some((call, r))
                            },
                            _ => None,
                        },
                        None => None,
                    }
                } else {
                    None
                }
            },
        }
    }
}

/// The arguments of a call after its `(`, up to and with the `)`.
fn args_x(ts: &Vec<Token>, p: usize) -> (r: Option<(Vec<Expr>, usize)>)
    requires
        p <= ts.len(),
    ensures
        match r {
            Some((v, q)) => args(tv(ts), p as int) == Some((exprs_view(v@), q as int)) && p < q
                <= ts.len(),
            None => args(tv(ts), p as int) is None,
        },
    decreases ts.len() - p, 10int,
{
    if p >= ts.len() {
        None
    } else if sym_at_x(ts, p, ')') {
        let v: Vec<Expr> = Vec::new();
        assert(exprs_view(v@) =~= Seq::<ExprV>::empty());
        Some((v, p + 1))
    } else {
        args_items_x(ts, p)
    }
}

fn args_items_x(ts: &Vec<Token>, p: usize) -> (r: Option<(Vec<Expr>, usize)>)
    requires
        p <= ts.len(),
    ensures
        match r {
            Some((v, q)) => args_items(tv(ts), p as int) == Some((exprs_view(v@), q as int)) && p
                < q <= ts.len(),
            None => args_items(tv(ts), p as int) is None,
        },
    decreases ts.len() - p, 9int,
{
    if p >= ts.len() {
        return None;
    }
    match level_x(ts, p, 0) {
        Some((e, q)) => {
            if sym_at_x(ts, q, ')') {
                let v0: Vec<Expr> = Vec::new();
                let mut v = v0;
                v.insert(0, e);
                proof {
                    assert(v0@.insert(0, e) =~= v@);
                    lemma_exprs_cons(e, v0@);
                    assert(exprs_view(v0@) =~= Seq::<ExprV>::empty());
                    assert(seq![e@] + Seq::<ExprV>::empty() =~= seq![e@]);
                }
                Some((v, q + 1))
            } else if sym_at_x(ts, q, ',') {
                match args_items_x(ts, q + 1) {
                    Some((rest, r)) => {
                        let ghost old_rest = rest@;
                        let mut v = rest;
                        v.insert(0, e);
                        proof {
                            lemma_exprs_cons(e, old_rest);
                        }
                        Some((v, r))
                    },
                    None => None,
                }
            } else {
                None
            }
        },
        None => None,
    }
}


fn expr_x(ts: &Vec<Token>, p: usize) -> (r: Option<(Expr, usize)>)
    requires
        p <= ts.len(),
    ensures
        match r {
            Some((e, q)) => expr(tv(ts), p as int) == Some((e@, q as int)) && p < q <= ts.len(),
            None => expr(tv(ts), p as int) is None,
        },
{
    level_x(ts, p, 0)
}

/// An optional `= Expr` at `p`.
fn init_at_x(ts: &Vec<Token>, p: usize) -> (r: Option<(Option<Expr>, usize)>)
    requires
        p <= ts.len(),
    ensures
        match r {
            Some((v, q)) => init_at(tv(ts), p as int) == Some((opt_expr_view(v), q as int)) && p
                <= q <= ts.len(),
            None => init_at(tv(ts), p as int) is None,
        },
{
    if sym_at_x(ts, p, '=') {
        match expr_x(ts, p + 1) {
            Some((e, q)) => Some((Some(e), q)),
            None => None,
        }
    } else {
        Some((None, p))
    }
}

fn declarator_x(t: Type, n: String, v: Option<Expr>) -> (r: Vec<Stmt>)
    ensures
        stmts_view(r@) == declarator_stmts(t@, n@, opt_expr_view(v)),
{
    match v {
        Some(e) => {
            let t2 = t.copy_type();
            let n2 = n.clone();
            let mut out = one_stmt(Stmt::LocalVarDecl(t2, n2));
            let target = Expr::LocalOrFieldVar(n);
            assert(target@ == ExprV::LocalOrFieldVar(n@));
            let assign = StmtExpr::Assign(target, e);
            assert(assign@ == StmtExprV::Assign(ExprV::LocalOrFieldVar(n@), e@));
            let st = Stmt::StmtExprStmt(assign);
            assert(st@ == StmtV::StmtExprStmt(StmtExprV::Assign(ExprV::LocalOrFieldVar(n@), e@)));
            let mut second = one_stmt(st);
            let ghost a = out@;
            let ghost b = second@;
            out.append(&mut second);
            proof {
                lemma_stmts_append(a, b);
                assert(stmts_view(out@) =~= declarator_stmts(t@, n@, opt_expr_view(v)));
            }
            out
        },
        None => one_stmt(Stmt::LocalVarDecl(t, n)),
    }
}

/// The declarators of a local declaration of type `t` from `p` on.
fn local_decls_x(ts: &Vec<Token>, p: usize, t: Type) -> (r: Option<(Vec<Stmt>, usize)>)
    requires
        p <= ts.len(),
    ensures
        match r {
            Some((v, q)) => local_decls(tv(ts), p as int, t@) == Some((stmts_view(v@), q as int))
                && p < q <= ts.len(),
            None => local_decls(tv(ts), p as int, t@) is None,
        },
    decreases ts.len() - p,
{
    match ident_at_x(ts, p) {
        None => None,
        Some(n) => match init_at_x(ts, p + 1) {
            None => None,
            Some((v, q)) => {
                let here = declarator_x(t.copy_type(), n, v);
                if sym_at_x(ts, q, ';') {
                    Some((here, q + 1))
                } else if sym_at_x(ts, q, ',') {
                    match local_decls_x(ts, q + 1, t) {
                        Some((rest, r)) => {
                            let ghost a = here@;
                            let ghost b = rest@;
                            let mut out = here;
                            let mut rest = rest;
                            out.append(&mut rest);
                            proof {
                                lemma_stmts_append(a, b);
                            }
                            Some((out, r))
                        },
                        None => None,
                    }
                } else {
                    None
                }
            },
        },
    }
}

/// The statements one statement at `p` stands for.
fn stmt_x(ts: &Vec<Token>, p: usize) -> (r: Option<(Vec<Stmt>, usize)>)
    requires
        p <= ts.len(),
    ensures
        match r {
            Some((v, q)) => stmt(tv(ts), p as int) == Some((stmts_view(v@), q as int)) && p < q
                <= ts.len(),
            None => stmt(tv(ts), p as int) is None,
        },
    decreases ts.len() - p, 0int,
{
    if p >= ts.len() {
        return None;
    }
    let is_while = kw_at_x(ts, p, Kw::While);
    if is_while || kw_at_x(ts, p, Kw::If) {
        if !sym_at_x(ts, p + 1, '(') {
            return None;
        }
        match expr_x(ts, p + 2) {
            None => None,
            Some((c, q)) => {
                if !sym_at_x(ts, q, ')') {
                    return None;
                }
                let braced = sym_at_x(ts, q + 1, '{');
                match stmt_x(ts, q + 1) {
                    None => None,
                    Some((b, r)) => {
                        let body = as_branch_x(b, braced);
                        if is_while {
                            let w = Stmt::While(c, Box::new(body));
                            assert(w@ == StmtV::While(c@, Box::new(body@)));
                            Some((one_stmt(w), r))
                        } else if kw_at_x(ts, r, Kw::Else) {
                            let braced_else = sym_at_x(ts, r + 1, '{');
                            match stmt_x(ts, r + 1) {
                                Some((e, s)) => {
                                    let other = as_branch_x(e, braced_else);
                                    let i = Stmt::If(c, Box::new(body), Some(Box::new(other)));
                                    assert(i@ == StmtV::If(
                                        c@,
                                        Box::new(body@),
                                        Some(Box::new(other@)),
                                    ));
                                    Some((one_stmt(i), s))
                                },
                                None => None,
                            }
                        } else {
                            let i = Stmt::If(c, Box::new(body), None);
                            assert(i@ == StmtV::If(c@, Box::new(body@), None));
                            Some((one_stmt(i), r))
                        }
                    },
                }
            },
        }
    } else if kw_at_x(ts, p, Kw::Return) {
        match expr_x(ts, p + 1) {
            Some((e, q)) => if sym_at_x(ts, q, ';') {
                let ret = Stmt::Return(e);
                assert(ret@ == StmtV::Return(e@));
                Some((one_stmt(ret), q + 1))
            } else {
                None
            },
            None => None,
        }
    } else if sym_at_x(ts, p, '{') {
        block_items_x(ts, p + 1)
    } else {
        if let Some(t) = type_at_x(ts, p) {
            if is_ident_at(ts, p + 1) {
                return local_decls_x(ts, p + 1, t);
            }
        }
        match stmt_expr_x(ts, p) {
            Some((se, q)) => if sym_at_x(ts, q, ';') {
                let st = Stmt::StmtExprStmt(se);
                assert(st@ == StmtV::StmtExprStmt(se@));
                Some((one_stmt(st), q + 1))
            } else {
                None
            },
            None => None,
        }
    }
}

/// The body of a loop or a branch, as `as_branch` gives it.
fn as_branch_x(v: Vec<Stmt>, braced: bool) -> (r: Stmt)
    ensures
        r@ == as_branch(stmts_view(v@), braced),
{
    proof {
        lemma_stmts_view(v@);
    }
    if !braced && v.len() == 1 {
        let mut v = v;
        let s = v.pop().unwrap();
        s
    } else {
        let r = Stmt::Block(v);
        assert(r@ == StmtV::Block(stmts_view(v@)));
        r
    }
}

fn is_ident_at(ts: &Vec<Token>, p: usize) -> (b: bool)
    ensures
        b == ident_at(tv(ts), p as int) is Some,
{
    p < ts.len() && match &ts[p] {
        Token::Ident(_) => true,
        _ => false,
    }
}

/// The statements of a block from `p` on, up to and with its `}`.
fn block_items_x(ts: &Vec<Token>, p: usize) -> (r: Option<(Vec<Stmt>, usize)>)
    requires
        p <= ts.len(),
    ensures
        match r {
            Some((v, q)) => block_items(tv(ts), p as int) == Some((stmts_view(v@), q as int)) && p
                < q <= ts.len(),
            None => block_items(tv(ts), p as int) is None,
        },
    decreases ts.len() - p, 1int,
{
    if p >= ts.len() {
        None
    } else if sym_at_x(ts, p, '}') {
        let v: Vec<Stmt> = Vec::new();
        proof {
            lemma_stmts_view(v@);
            assert(stmts_view(v@) =~= Seq::empty());
        }
        Some((v, p + 1))
    } else {
        match stmt_x(ts, p) {
            Some((s, q)) => match block_items_x(ts, q) {
                Some((rest, r)) => {
                    let ghost a = s@;
                    let ghost b = rest@;
                    let mut out = s;
                    let mut rest = rest;
                    out.append(&mut rest);
                    proof {
                        lemma_stmts_append(a, b);
                    }
                    Some((out, r))
                },
                None => None,
            },
            None => None,
        }
    }
}


/// The parameters of a method after its `(`, up to and with the `)`.
fn params_x(ts: &Vec<Token>, p: usize) -> (r: Option<(Vec<(Type, String)>, usize)>)
    requires
        p <= ts.len(),
    ensures
        match r {
            Some((v, q)) => params(tv(ts), p as int) == Some((params_view(v@), q as int)) && p < q
                <= ts.len(),
            None => params(tv(ts), p as int) is None,
        },
{
    if sym_at_x(ts, p, ')') {
        let v: Vec<(Type, String)> = Vec::new();
        assert(params_view(v@) =~= Seq::empty());
        Some((v, p + 1))
    } else {
        param_items_x(ts, p)
    }
}

fn param_items_x(ts: &Vec<Token>, p: usize) -> (r: Option<(Vec<(Type, String)>, usize)>)
    requires
        p <= ts.len(),
    ensures
        match r {
            Some((v, q)) => param_items(tv(ts), p as int) == Some((params_view(v@), q as int)) && p
                < q <= ts.len(),
            None => param_items(tv(ts), p as int) is None,
        },
    decreases ts.len() - p,
{
    let t = match type_at_x(ts, p) {
        Some(t) => t,
        None => {
            return None;
        },
    };
    let n = match ident_at_x(ts, p + 1) {
        Some(n) => n,
        None => {
            return None;
        },
    };
    if sym_at_x(ts, p + 2, ')') {
        let mut v: Vec<(Type, String)> = Vec::new();
        v.push((t, n));
        assert(params_view(v@) =~= seq![(t@, n@)]);
        Some((v, p + 3))
    } else if sym_at_x(ts, p + 2, ',') {
        match param_items_x(ts, p + 3) {
            Some((rest, r)) => {
                let ghost old_rest = rest@;
                let mut v = rest;
                v.insert(0, (t, n));
                assert(params_view(v@) =~= seq![(t@, n@)] + params_view(old_rest));
                Some((v, r))
            },
            None => None,
        }
    } else {
        None
    }
}

/// The declarators of a field declaration of type `t` from `p` on.
fn field_decls_x(ts: &Vec<Token>, p: usize, t: Type) -> (r: Option<(Vec<FieldDecl>, usize)>)
    requires
        p <= ts.len(),
    ensures
        match r {
            Some((v, q)) => field_decls(tv(ts), p as int, t@) == Some((fields_view(v@), q as int))
                && p < q <= ts.len(),
            None => field_decls(tv(ts), p as int, t@) is None,
        },
    decreases ts.len() - p,
{
    match ident_at_x(ts, p) {
        None => None,
        Some(n) => match init_at_x(ts, p + 1) {
            None => None,
            Some((v, q)) => {
                let f = FieldDecl { field_type: t.copy_type(), name: n, val: v };
                if sym_at_x(ts, q, ';') {
                    let mut out: Vec<FieldDecl> = Vec::new();
                    out.push(f);
                    assert(fields_view(out@) =~= seq![f@]);
                    Some((out, q + 1))
                } else if sym_at_x(ts, q, ',') {
                    match field_decls_x(ts, q + 1, t) {
                        Some((rest, r)) => {
                            let ghost old_rest = rest@;
                            let mut out = rest;
                            out.insert(0, f);
                            assert(fields_view(out@) =~= seq![f@] + fields_view(old_rest));
                            Some((out, r))
                        },
                        None => None,
                    }
                } else {
                    None
                }
            },
        },
    }
}

/// The fields and the methods of a class from `p` on, up to and with its `}`.
fn members_x(ts: &Vec<Token>, p: usize) -> (r: Option<(Vec<FieldDecl>, Vec<MethodDecl>, usize)>)
    requires
        p <= ts.len(),
    ensures
        match r {
            Some((fs, ms, q)) => members(tv(ts), p as int) == Some(
                (fields_view(fs@), methods_view(ms@), q as int),
            ) && p < q <= ts.len(),
            None => members(tv(ts), p as int) is None,
        },
    decreases ts.len() - p,
{
    if p >= ts.len() {
        return None;
    }
    if sym_at_x(ts, p, '}') {
        let fs: Vec<FieldDecl> = Vec::new();
        let ms: Vec<MethodDecl> = Vec::new();
        assert(fields_view(fs@) =~= Seq::empty());
        assert(methods_view(ms@) =~= Seq::empty());
        return Some((fs, ms, p + 1));
    }
    let t = match type_at_x(ts, p) {
        Some(t) => t,
        None => {
            return None;
        },
    };
    let n = match ident_at_x(ts, p + 1) {
        Some(n) => n,
        None => {
            return None;
        },
    };
    if sym_at_x(ts, p + 2, '(') {
        match params_x(ts, p + 3) {
            Some((ps, q)) => {
                if !sym_at_x(ts, q, '{') {
                    return None;
                }
                match block_items_x(ts, q + 1) {
                    Some((body, r)) => match members_x(ts, r) {
                        Some((fs, ms, s)) => {
                            let b = Stmt::Block(body);
                            assert(b@ == StmtV::Block(stmts_view(body@)));
                            let m = MethodDecl { ret_type: t, name: n, params: ps, body: b };
                            let ghost old_ms = ms@;
                            let mut ms = ms;
                            ms.insert(0, m);
                            assert(methods_view(ms@) =~= seq![m@] + methods_view(old_ms));
                            Some((fs, ms, s))
                        },
                        None => None,
                    },
                    None => None,
                }
            },
            None => None,
        }
    } else {
        match field_decls_x(ts, p + 1, t) {
            Some((fs0, q)) => match members_x(ts, q) {
                Some((fs, ms, s)) => {
                    let ghost a = fs0@;
                    let ghost b = fs@;
                    let mut out = fs0;
                    let mut fs = fs;
                    out.append(&mut fs);
                    assert(fields_view(out@) =~= fields_view(a) + fields_view(b));
                    Some((out, ms, s))
                },
                None => None,
            },
            None => None,
        }
    }
}

/// The class declared at `p`.
fn class_at_x(ts: &Vec<Token>, p: usize) -> (r: Option<(Class, usize)>)
    requires
        p <= ts.len(),
    ensures
        match r {
            Some((c, q)) => class_at(tv(ts), p as int) == Some((c@, q as int)) && p < q <= ts.len(),
            None => class_at(tv(ts), p as int) is None,
        },
{
    if !kw_at_x(ts, p, Kw::Class) {
        return None;
    }
    let name = match ident_at_x(ts, p + 1) {
        Some(n) => n,
        None => {
            return None;
        },
    };
    if !sym_at_x(ts, p + 2, '{') {
        return None;
    }
    match members_x(ts, p + 3) {
        Some((fields, methods, q)) => Some((Class { name, fields, methods }, q)),
        None => None,
    }
}

/// The classes declared from `p` to the end of the tokens.
fn program_x(ts: &Vec<Token>, p: usize) -> (r: Option<Vec<Class>>)
    requires
        p <= ts.len(),
    ensures
        match r {
            Some(v) => program_from(tv(ts), p as int) == Some(classes_view(v@)),
            None => program_from(tv(ts), p as int) is None,
        },
    decreases ts.len() - p,
{
    if p == ts.len() {
        let v: Vec<Class> = Vec::new();
        assert(classes_view(v@) =~= Seq::empty());
        return Some(v);
    }
    match class_at_x(ts, p) {
        Some((c, q)) => match program_x(ts, q) {
            Some(rest) => {
                let ghost old_rest = rest@;
                let mut v = rest;
                v.insert(0, c);
                assert(classes_view(v@) =~= seq![c@] + classes_view(old_rest));
                Some(v)
            },
            None => None,
        },
        None => None,
    }
}

/// Parses the source text of a program into its classes.
///
/// Fails with `ParseError::Lex` exactly where the text does not split into
/// tokens, and with `ParseError::Syntax` exactly where its tokens do not form
/// a sequence of class declarations.
pub fn parse_programm(file: &str) -> (r: Result<Vec<Class>, ParseError>)
    ensures
        match r {
            Ok(cs) => program_of(file@) == Some(classes_view(cs@)),
            Err(ParseError::Lex) => lex_from(file@, 0) is None,
            Err(ParseError::Syntax) => lex_from(file@, 0) is Some && program_of(file@) is None,
        },
{
    match lex(file) {
        None => Err(ParseError::Lex),
        Some(ts) => match program_x(&ts, 0) {
            Some(cs) => Ok(cs),
            None => Err(ParseError::Syntax),
        },
    }
}

} // verus!
