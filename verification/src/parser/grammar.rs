use vstd::prelude::*;
use crate::parser::lexer::{Kw, TokenV, lex_from};
use crate::types::{ClassV, ExprV, FieldDeclV, MethodDeclV, StmtExprV, StmtV, TypeV};

verus! {

// The grammar of the source language, as functions from a token sequence and
// a position to what is parsed there and the position after it.
//
//   Program    := ClassDecl*
//   ClassDecl  := "class" Ident "{" (FieldDecl | MethodDecl)* "}"
//   FieldDecl  := Type Ident ["=" Expr] ("," Ident ["=" Expr])* ";"
//   MethodDecl := Type Ident "(" [Type Ident ("," Type Ident)*] ")" Block
//   Block      := "{" Stmt* "}"
//   Stmt       := "while" "(" Expr ")" Stmt | "if" "(" Expr ")" Stmt ["else" Stmt]
//               | "return" Expr ";" | Block | LocalDecl | StmtExpr ";"
//   LocalDecl  := Type Ident ["=" Expr] ("," Ident ["=" Expr])* ";"
//   StmtExpr   := "new" Type "(" Args ")" | Chain "=" Expr | Chain "(" Args ")"
//   Chain      := ("this" | Ident) ("." Ident)*
//   Expr       := five levels of binary operators over NonBinary:
//                 `||`, then `&&`, then comparisons, then `+ -`, then `* / %`;
//                 the operands of one level group to the left
//   NonBinary  := "(" Expr ")" | "-" Int | ("-" | "+" | "!") NonBinary | literal
//               | StmtExpr | Chain
//
// A block is read as the list of its statements; a nested block is spliced
// into the enclosing list. The body of a loop or a branch written in braces
// is a block; one written without is the statement itself. A local declaration with an initial value becomes
// the declaration followed by an assignment.

pub open spec fn sym_at(ts: Seq<TokenV>, p: int, c: char) -> bool {
    0 <= p < ts.len() && ts[p] == TokenV::Sym(c)
}

pub open spec fn kw_at(ts: Seq<TokenV>, p: int, k: Kw) -> bool {
    0 <= p < ts.len() && ts[p] == TokenV::Kw(k)
}

/// The name at position `p`, if an identifier stands there.
pub open spec fn ident_at(ts: Seq<TokenV>, p: int) -> Option<Seq<char>> {
    if 0 <= p < ts.len() {
        match ts[p] {
            TokenV::Ident(n) => Some(n),
            _ => None,
        }
    } else {
        None
    }
}

/// The type named at position `p`, if any.
pub open spec fn type_at(ts: Seq<TokenV>, p: int) -> Option<TypeV> {
    if 0 <= p < ts.len() {
        match ts[p] {
            TokenV::Kw(Kw::Int) => Some(TypeV::Int),
            TokenV::Kw(Kw::Boolean) => Some(TypeV::Bool),
            TokenV::Kw(Kw::Char) => Some(TypeV::Char),
            TokenV::Kw(Kw::String) => Some(TypeV::String),
            TokenV::Kw(Kw::Void) => Some(TypeV::Void),
            TokenV::Kw(Kw::Null) => Some(TypeV::Null),
            TokenV::Ident(n) => Some(TypeV::Class(n)),
            _ => None,
        }
    } else {
        None
    }
}

/// The precedence level of a binary operator, from 0 (binds loosest) to 4
/// (binds tightest); -1 for anything else.
pub open spec fn op_prec(o: Seq<char>) -> int {
    if o == seq!['|', '|'] {
        0
    } else if o == seq!['&', '&'] {
        1
    } else if o == seq!['=', '='] || o == seq!['!', '='] || o == seq!['<'] || o == seq!['>'] || o
        == seq!['<', '='] || o == seq!['>', '='] {
        2
    } else if o == seq!['+'] || o == seq!['-'] {
        3
    } else if o == seq!['*'] || o == seq!['/'] || o == seq!['%'] {
        4
    } else {
        -1
    }
}

pub open spec fn is_unary_op(o: Seq<char>) -> bool {
    o == seq!['-'] || o == seq!['+'] || o == seq!['!']
}

/// `base` followed by the field accesses `.name` from position `p` on.
pub open spec fn chain_rest(ts: Seq<TokenV>, base: ExprV, p: int) -> (ExprV, int)
    decreases ts.len() - p,
{
    if 0 <= p && sym_at(ts, p, '.') && ident_at(ts, p + 1) is Some {
        chain_rest(
            ts,
            ExprV::InstVar(Box::new(base), ident_at(ts, p + 1)->0),
            p + 2,
        )
    } else {
        (base, p)
    }
}

/// `this` or a name, followed by field accesses.
pub open spec fn chain(ts: Seq<TokenV>, p: int) -> Option<(ExprV, int)> {
    if kw_at(ts, p, Kw::This) {
        Some(chain_rest(ts, ExprV::This, p + 1))
    } else {
        match ident_at(ts, p) {
            Some(n) => Some(chain_rest(ts, ExprV::LocalOrFieldVar(n), p + 1)),
            None => None,
        }
    }
}

pub proof fn lemma_chain_rest_ge(ts: Seq<TokenV>, base: ExprV, p: int)
    ensures
        chain_rest(ts, base, p).1 >= p,
        0 <= p <= ts.len() ==> chain_rest(ts, base, p).1 <= ts.len(),
    decreases ts.len() - p,
{
    if 0 <= p && sym_at(ts, p, '.') && ident_at(ts, p + 1) is Some {
        lemma_chain_rest_ge(ts, ExprV::InstVar(Box::new(base), ident_at(ts, p + 1)->0), p + 2);
    }
}

pub proof fn lemma_chain_advances(ts: Seq<TokenV>, p: int)
    ensures
        chain(ts, p) matches Some((_, q)) ==> p < q <= ts.len(),
{
    if kw_at(ts, p, Kw::This) {
        lemma_chain_rest_ge(ts, ExprV::This, p + 1);
    } else if let Some(n) = ident_at(ts, p) {
        lemma_chain_rest_ge(ts, ExprV::LocalOrFieldVar(n), p + 1);
    }
}

/// The binary expression of level `k` (0 to 4) at `p`; level 5 is a
/// non-binary expression. The operands of one level group to the left.
pub open spec fn level(ts: Seq<TokenV>, p: int, k: int) -> Option<(ExprV, int)>
    decreases ts.len() - p, 8 - k,
{
    if p < 0 || p > ts.len() || k < 0 || k > 5 {
        None
    } else if k == 5 {
        nonbin(ts, p)
    } else {
        match level(ts, p, k + 1) {
            None => None,
            Some((l, q)) => if p < q <= ts.len() {
                level_rest(ts, l, q, k)
            } else {
                None
            },
        }
    }
}

/// The operators of level `k` and their operands from `q` on, joined to the
/// left operand `acc` one after the other.
pub open spec fn level_rest(ts: Seq<TokenV>, acc: ExprV, q: int, k: int) -> Option<(ExprV, int)>
    decreases ts.len() - q, 8 - k,
{
    if 0 <= q < ts.len() && 0 <= k < 5 && ts[q] is Op && op_prec(ts[q]->Op_0) == k {
        match level(ts, q + 1, k + 1) {
            None => None,
            Some((r, s)) => if q < s <= ts.len() {
                level_rest(ts, ExprV::Binary(ts[q]->Op_0, Box::new(acc), Box::new(r)), s, k)
            } else {
                None
            },
        }
    } else {
        Some((acc, q))
    }
}

/// A non-binary expression at `p`.
pub open spec fn nonbin(ts: Seq<TokenV>, p: int) -> Option<(ExprV, int)>
    decreases ts.len() - p, 2int,
{
    if p < 0 || p >= ts.len() {
        None
    } else {
        match ts[p] {
            TokenV::Sym(c) => if c == '(' {
                match level(ts, p + 1, 0) {
                    Some((e, q)) => if sym_at(ts, q, ')') {
                        Some((e, q + 1))
                    } else {
                        None
                    },
                    None => None,
                }
            } else {
                None
            },
            TokenV::Op(o) => if o == seq!['-'] && p + 1 < ts.len() && ts[p + 1] is Int && ts[p
                + 1]->Int_0 >= 0 {
                Some((ExprV::Integer((-ts[p + 1]->Int_0) as i32), p + 2))
            } else if is_unary_op(o) {
                match nonbin(ts, p + 1) {
                    Some((e, q)) => Some((ExprV::Unary(o, Box::new(e)), q)),
                    None => None,
                }
            } else {
                None
            },
            TokenV::Int(n) => Some((ExprV::Integer(n), p + 1)),
            TokenV::Char(c) => Some((ExprV::Char(c), p + 1)),
            TokenV::Str(s) => Some((ExprV::String(s), p + 1)),
            TokenV::Kw(k) => if k == Kw::True {
                Some((ExprV::Bool(true), p + 1))
            } else if k == Kw::False {
                Some((ExprV::Bool(false), p + 1))
            } else if k == Kw::Null {
                Some((ExprV::Jnull, p + 1))
            } else if k == Kw::This || k == Kw::New {
                primary(ts, p)
            } else {
                None
            },
            TokenV::Ident(_) => primary(ts, p),
        }
    }
}

/// A statement expression used as a value, or else a chain of accesses.
pub open spec fn primary(ts: Seq<TokenV>, p: int) -> Option<(ExprV, int)>
    decreases ts.len() - p, 1int,
{
    if p < 0 || p >= ts.len() {
        None
    } else {
        match stmt_expr(ts, p) {
            Some((se, q)) => Some((ExprV::StmtExprExpr(Box::new(se)), q)),
            None => chain(ts, p),
        }
    }
}

/// An object creation, an assignment or a method call at `p`.
pub open spec fn stmt_expr(ts: Seq<TokenV>, p: int) -> Option<(StmtExprV, int)>
    decreases ts.len() - p, 0int,
{
    if p < 0 || p >= ts.len() {
        None
    } else if kw_at(ts, p, Kw::New) {
        match type_at(ts, p + 1) {
            Some(t) => if sym_at(ts, p + 2, '(') {
                match args(ts, p + 3) {
                    Some((a, q)) => Some((StmtExprV::New(t, a), q)),
                    None => None,
                }
            } else {
                None
            },
            None => None,
        }
    } else {
        match chain(ts, p) {
            None => None,
            Some((c, q)) => {
                proof {
                    lemma_chain_advances(ts, p);
                }
                if sym_at(ts, q, '=') {
                    match level(ts, q + 1, 0) {
                        Some((e, r)) => Some((StmtExprV::Assign(c, e), r)),
                        None => None,
                    }
                } else if sym_at(ts, q, '(') {
                    match args(ts, q + 1) {
                        Some((a, r)) => match c {
                            ExprV::InstVar(b, n) => Some((StmtExprV::MethodCall(*b, n, a), r)),
                            ExprV::LocalOrFieldVar(n) => Some(
                                (StmtExprV::MethodCall(ExprV::This, n, a), r),
                            ),
                            _ => None,
                        },
                        None => None,
                    }
                } else {
                    None
                }
            },
        }
    }
}

/// The arguments of a call, after its `(`, up to and with the `)`.
pub open spec fn args(ts: Seq<TokenV>, p: int) -> Option<(Seq<ExprV>, int)>
    decreases ts.len() - p, 10int,
{
    if p < 0 || p >= ts.len() {
        None
    } else if sym_at(ts, p, ')') {
        Some((Seq::empty(), p + 1))
    } else {
        args_items(ts, p)
    }
}

/// One or more arguments separated by `,`, up to and with the `)`.
pub open spec fn args_items(ts: Seq<TokenV>, p: int) -> Option<(Seq<ExprV>, int)>
    decreases ts.len() - p, 9int,
{
    if p < 0 || p >= ts.len() {
        None
    } else {
        match level(ts, p, 0) {
            Some((e, q)) => if sym_at(ts, q, ')') {
                Some((seq![e], q + 1))
            } else if p <= q && sym_at(ts, q, ',') {
                match args_items(ts, q + 1) {
                    Some((rest, r)) => Some((seq![e] + rest, r)),
                    None => None,
                }
            } else {
                None
            },
            None => None,
        }
    }
}

/// An expression at `p`.
pub open spec fn expr(ts: Seq<TokenV>, p: int) -> Option<(ExprV, int)> {
    level(ts, p, 0)
}

/// An optional `= Expr` at `p`.
pub open spec fn init_at(ts: Seq<TokenV>, p: int) -> Option<(Option<ExprV>, int)> {
    if sym_at(ts, p, '=') {
        match expr(ts, p + 1) {
            Some((e, q)) => Some((Some(e), q)),
            None => None,
        }
    } else {
        Some((None, p))
    }
}

/// The statements a local declarator of type `t` at `p` stands for.
pub open spec fn declarator_stmts(t: TypeV, n: Seq<char>, v: Option<ExprV>) -> Seq<StmtV> {
    match v {
        Some(e) => seq![
            StmtV::LocalVarDecl(t, n),
            StmtV::StmtExprStmt(StmtExprV::Assign(ExprV::LocalOrFieldVar(n), e)),
        ],
        None => seq![StmtV::LocalVarDecl(t, n)],
    }
}

/// The declarators of a local declaration of type `t` from `p` on, up to and
/// with the `;`.
pub open spec fn local_decls(ts: Seq<TokenV>, p: int, t: TypeV) -> Option<(Seq<StmtV>, int)>
    decreases ts.len() - p,
{
    match ident_at(ts, p) {
        Some(n) => match init_at(ts, p + 1) {
            Some((v, q)) => {
                let here = declarator_stmts(t, n, v);
                if sym_at(ts, q, ';') {
                    Some((here, q + 1))
                } else if p <= q && sym_at(ts, q, ',') {
                    match local_decls(ts, q + 1, t) {
                        Some((rest, r)) => Some((here + rest, r)),
                        None => None,
                    }
                } else {
                    None
                }
            },
            None => None,
        },
        None => None,
    }
}

/// The body of a loop or a branch from what its statement stands for: a
/// block where it is written in braces or stands for several statements,
/// else the one statement.
pub open spec fn as_branch(s: Seq<StmtV>, braced: bool) -> StmtV {
    if !braced && s.len() == 1 {
        s[0]
    } else {
        StmtV::Block(s)
    }
}

/// The statements one statement at `p` stands for.
pub open spec fn stmt(ts: Seq<TokenV>, p: int) -> Option<(Seq<StmtV>, int)>
    decreases ts.len() - p, 0int,
{
    if p < 0 || p >= ts.len() {
        None
    } else if kw_at(ts, p, Kw::While) || kw_at(ts, p, Kw::If) {
        if sym_at(ts, p + 1, '(') {
            match expr(ts, p + 2) {
                Some((c, q)) => if p <= q && sym_at(ts, q, ')') {
                    match stmt(ts, q + 1) {
                        Some((b, r)) => if kw_at(ts, p, Kw::While) {
                            Some((seq![StmtV::While(c, Box::new(as_branch(b, sym_at(ts, q + 1, '{'))))], r))
                        } else if p <= r && kw_at(ts, r, Kw::Else) {
                            match stmt(ts, r + 1) {
                                Some((e, s)) => Some(
                                    (
                                        seq![
                                            StmtV::If(
                                                c,
                                                Box::new(as_branch(b, sym_at(ts, q + 1, '{'))),
                                                Some(Box::new(as_branch(e, sym_at(ts, r + 1, '{')))),
                                            ),
                                        ],
                                        s,
                                    ),
                                ),
                                None => None,
                            }
                        } else {
                            Some((seq![StmtV::If(c, Box::new(as_branch(b, sym_at(ts, q + 1, '{'))), None)], r))
                        },
                        None => None,
                    }
                } else {
                    None
                },
                None => None,
            }
        } else {
            None
        }
    } else if kw_at(ts, p, Kw::Return) {
        match expr(ts, p + 1) {
            Some((e, q)) => if sym_at(ts, q, ';') {
                Some((seq![StmtV::Return(e)], q + 1))
            } else {
                None
            },
            None => None,
        }
    } else if sym_at(ts, p, '{') {
        block_items(ts, p + 1)
    } else if type_at(ts, p) is Some && ident_at(ts, p + 1) is Some {
        local_decls(ts, p + 1, type_at(ts, p)->0)
    } else {
        match stmt_expr(ts, p) {
            Some((se, q)) => if sym_at(ts, q, ';') {
                Some((seq![StmtV::StmtExprStmt(se)], q + 1))
            } else {
                None
            },
            None => None,
        }
    }
}

/// The statements of a block from `p` on, up to and with its `}`.
pub open spec fn block_items(ts: Seq<TokenV>, p: int) -> Option<(Seq<StmtV>, int)>
    decreases ts.len() - p, 1int,
{
    if p < 0 || p >= ts.len() {
        None
    } else if sym_at(ts, p, '}') {
        Some((Seq::empty(), p + 1))
    } else {
        match stmt(ts, p) {
            Some((s, q)) => if p < q <= ts.len() {
                match block_items(ts, q) {
                    Some((rest, r)) => Some((s + rest, r)),
                    None => None,
                }
            } else {
                None
            },
            None => None,
        }
    }
}

/// The parameters of a method after its `(`, up to and with the `)`.
pub open spec fn params(ts: Seq<TokenV>, p: int) -> Option<(Seq<(TypeV, Seq<char>)>, int)> {
    if sym_at(ts, p, ')') {
        Some((Seq::empty(), p + 1))
    } else {
        param_items(ts, p)
    }
}

pub open spec fn param_items(ts: Seq<TokenV>, p: int) -> Option<(Seq<(TypeV, Seq<char>)>, int)>
    decreases ts.len() - p,
{
    if p < 0 {
        None
    } else {
        match (type_at(ts, p), ident_at(ts, p + 1)) {
            (Some(t), Some(n)) => if sym_at(ts, p + 2, ')') {
                Some((seq![(t, n)], p + 3))
            } else if sym_at(ts, p + 2, ',') {
                match param_items(ts, p + 3) {
                    Some((rest, r)) => Some((seq![(t, n)] + rest, r)),
                    None => None,
                }
            } else {
                None
            },
            _ => None,
        }
    }
}

/// The declarators of a field declaration of type `t` from `p` on, up to and
/// with the `;`.
pub open spec fn field_decls(ts: Seq<TokenV>, p: int, t: TypeV) -> Option<(Seq<FieldDeclV>, int)>
    decreases ts.len() - p,
{
    match ident_at(ts, p) {
        Some(n) => match init_at(ts, p + 1) {
            Some((v, q)) => {
                let f = FieldDeclV { field_type: t, name: n, val: v };
                if sym_at(ts, q, ';') {
                    Some((seq![f], q + 1))
                } else if p <= q && sym_at(ts, q, ',') {
                    match field_decls(ts, q + 1, t) {
                        Some((rest, r)) => Some((seq![f] + rest, r)),
                        None => None,
                    }
                } else {
                    None
                }
            },
            None => None,
        },
        None => None,
    }
}

/// The fields and the methods of a class from `p` on, up to and with its `}`.
pub open spec fn members(ts: Seq<TokenV>, p: int) -> Option<
    (Seq<FieldDeclV>, Seq<MethodDeclV>, int),
>
    decreases ts.len() - p,
{
    if p < 0 || p >= ts.len() {
        None
    } else if sym_at(ts, p, '}') {
        Some((Seq::empty(), Seq::empty(), p + 1))
    } else {
        match (type_at(ts, p), ident_at(ts, p + 1)) {
            (Some(t), Some(n)) => if sym_at(ts, p + 2, '(') {
                match params(ts, p + 3) {
                    Some((ps, q)) => if p <= q && sym_at(ts, q, '{') {
                        match block_items(ts, q + 1) {
                            Some((body, r)) => if p < r <= ts.len() {
                                match members(ts, r) {
                                    Some((fs, ms, s)) => Some(
                                        (
                                            fs,
                                            seq![
                                                MethodDeclV {
                                                    ret_type: t,
                                                    name: n,
                                                    params: ps,
                                                    body: StmtV::Block(body),
                                                },
                                            ] + ms,
                                            s,
                                        ),
                                    ),
                                    None => None,
                                }
                            } else {
                                None
                            },
                            None => None,
                        }
                    } else {
                        None
                    },
                    None => None,
                }
            } else {
                match field_decls(ts, p + 1, t) {
                    Some((fs0, q)) => if p < q <= ts.len() {
                        match members(ts, q) {
                            Some((fs, ms, s)) => Some((fs0 + fs, ms, s)),
                            None => None,
                        }
                    } else {
                        None
                    },
                    None => None,
                }
            },
            _ => None,
        }
    }
}

/// The class declared at `p`.
pub open spec fn class_at(ts: Seq<TokenV>, p: int) -> Option<(ClassV, int)> {
    if kw_at(ts, p, Kw::Class) && ident_at(ts, p + 1) is Some && sym_at(ts, p + 2, '{') {
        match members(ts, p + 3) {
            Some((fs, ms, q)) => Some(
                (ClassV { name: ident_at(ts, p + 1)->0, fields: fs, methods: ms }, q),
            ),
            None => None,
        }
    } else {
        None
    }
}

/// The classes declared from `p` to the end of the tokens.
pub open spec fn program_from(ts: Seq<TokenV>, p: int) -> Option<Seq<ClassV>>
    decreases ts.len() - p,
{
    if p < 0 || p > ts.len() {
        None
    } else if p == ts.len() {
        Some(Seq::empty())
    } else {
        match class_at(ts, p) {
            Some((c, q)) => if p < q <= ts.len() {
                match program_from(ts, q) {
                    Some(rest) => Some(seq![c] + rest),
                    None => None,
                }
            } else {
                None
            },
            None => None,
        }
    }
}

/// The classes a source text declares: `None` where it does not lex, or
/// where its tokens are no program.
pub open spec fn program_of(src: Seq<char>) -> Option<Seq<ClassV>> {
    match lex_from(src, 0) {
        Some(ts) => program_from(ts, 0),
        None => None,
    }
}

// ---------------------------------------------------------------------------
// How tightly the binary operators bind.
// ---------------------------------------------------------------------------

/// `*`, `/` and `%` bind alike and tighter than `+` and `-`, which bind
/// alike and tighter than the comparisons, which bind alike and tighter than
/// `&&`, which binds tighter than `||`; every binary operator has a level.
pub proof fn law_operator_precedence()
    ensures
        op_prec(seq!['%']) == op_prec(seq!['*']),
        op_prec(seq!['/']) == op_prec(seq!['*']),
        op_prec(seq!['-']) == op_prec(seq!['+']),
        op_prec(seq!['*']) > op_prec(seq!['+']),
        op_prec(seq!['<']) == op_prec(seq!['=', '=']),
        op_prec(seq!['>']) == op_prec(seq!['=', '=']),
        op_prec(seq!['<', '=']) == op_prec(seq!['=', '=']),
        op_prec(seq!['>', '=']) == op_prec(seq!['=', '=']),
        op_prec(seq!['!', '=']) == op_prec(seq!['=', '=']),
        op_prec(seq!['+']) > op_prec(seq!['=', '=']),
        op_prec(seq!['=', '=']) > op_prec(seq!['&', '&']),
        op_prec(seq!['&', '&']) > op_prec(seq!['|', '|']),
        op_prec(seq!['|', '|']) >= 0,
{
    lemma_one('%', '*');
    lemma_one('%', '+');
    lemma_one('%', '-');
    lemma_one('%', '/');
    lemma_one('*', '+');
    lemma_one('*', '-');
    lemma_one('/', '+');
    lemma_one('/', '-');
    lemma_one('/', '*');
    lemma_one('-', '+');
    lemma_one('<', '+');
    lemma_one('<', '-');
    lemma_one('>', '+');
    lemma_one('>', '-');
    lemma_one('<', '*');
    lemma_one('>', '*');
    lemma_one('<', '/');
    lemma_one('>', '/');
    lemma_one('<', '%');
    lemma_one('>', '%');
    lemma_one('<', '>');
    lemma_two('=', '=', '&', '&');
    lemma_two('=', '=', '|', '|');
    lemma_two('&', '&', '|', '|');
    lemma_two('!', '=', '&', '&');
    lemma_two('!', '=', '|', '|');
    lemma_two('<', '=', '&', '&');
    lemma_two('<', '=', '|', '|');
    lemma_two('>', '=', '&', '&');
    lemma_two('>', '=', '|', '|');
}

proof fn lemma_one(a: char, b: char)
    requires
        a != b,
    ensures
        seq![a] != seq![b],
        seq![a].len() == 1,
{
    assert(seq![a][0] != seq![b][0]);
}

proof fn lemma_two(a: char, b: char, c: char, d: char)
    requires
        a != c,
    ensures
        seq![a, b] != seq![c, d],
        seq![a, b].len() == 2,
{
    assert(seq![a, b][0] != seq![c, d][0]);
}

/// An additive operator.
pub open spec fn additive(o: Seq<char>) -> bool {
    o == seq!['+'] || o == seq!['-']
}

/// A multiplicative operator.
pub open spec fn multiplicative(o: Seq<char>) -> bool {
    o == seq!['*'] || o == seq!['/'] || o == seq!['%']
}

/// A name that is followed by an operator or by nothing is read as that
/// name.
proof fn lemma_name_operand(ts: Seq<TokenV>, i: int, n: Seq<char>)
    requires
        0 <= i < ts.len(),
        ts[i] == TokenV::Ident(n),
        i + 1 == ts.len() || !(ts[i + 1] == TokenV::Sym('.') || ts[i + 1] == TokenV::Sym('=') || ts[i + 1]
            == TokenV::Sym('(')),
    ensures
        nonbin(ts, i) == Some((ExprV::LocalOrFieldVar(n), i + 1)),
        level(ts, i, 5) == Some((ExprV::LocalOrFieldVar(n), i + 1)),
{
    assert(!sym_at(ts, i + 1, '.') && !sym_at(ts, i + 1, '=') && !sym_at(ts, i + 1, '('));
    assert(chain_rest(ts, ExprV::LocalOrFieldVar(n), i + 1) == (ExprV::LocalOrFieldVar(n), i + 1));
    assert(chain(ts, i) == Some((ExprV::LocalOrFieldVar(n), i + 1)));
    assert(!kw_at(ts, i, Kw::New));
    assert(stmt_expr(ts, i) is None);
    assert(primary(ts, i) == Some((ExprV::LocalOrFieldVar(n), i + 1)));
}

/// `x a y m z`, with `a` additive and `m` multiplicative, reads as
/// `x a (y m z)`: the multiplicative operator binds tighter, whichever it is.
pub proof fn law_multiplicative_binds_tighter(x: Seq<char>, a: Seq<char>, y: Seq<char>, m: Seq<char>, z: Seq<char>)
    requires
        additive(a),
        multiplicative(m),
    ensures
        expr(
            seq![TokenV::Ident(x), TokenV::Op(a), TokenV::Ident(y), TokenV::Op(m), TokenV::Ident(z)],
            0,
        ) == Some(
            (
                ExprV::Binary(
                    a,
                    Box::new(ExprV::LocalOrFieldVar(x)),
                    Box::new(
                        ExprV::Binary(m, Box::new(ExprV::LocalOrFieldVar(y)), Box::new(ExprV::LocalOrFieldVar(z))),
                    ),
                ),
                5int,
            ),
        ),
{
    let ts = seq![TokenV::Ident(x), TokenV::Op(a), TokenV::Ident(y), TokenV::Op(m), TokenV::Ident(z)];
    law_operator_precedence();
    assert(op_prec(a) == 3);
    assert(op_prec(m) == 4);
    let vx = ExprV::LocalOrFieldVar(x);
    let vy = ExprV::LocalOrFieldVar(y);
    let vz = ExprV::LocalOrFieldVar(z);
    lemma_name_operand(ts, 0, x);
    lemma_name_operand(ts, 2, y);
    lemma_name_operand(ts, 4, z);
    let ym = ExprV::Binary(m, Box::new(vy), Box::new(vz));
    let all = ExprV::Binary(a, Box::new(vx), Box::new(ym));
    // the right operand of `a`: `y m z`
    assert(level_rest(ts, ym, 5, 4) == Some((ym, 5int)));
    assert(level_rest(ts, vy, 3, 4) == Some((ym, 5int)));
    assert(level(ts, 2, 4) == Some((ym, 5int)));
    // the left operand: `x`
    assert(level_rest(ts, vx, 1, 4) == Some((vx, 1int)));
    assert(level(ts, 0, 4) == Some((vx, 1int)));
    assert(level_rest(ts, all, 5, 3) == Some((all, 5int)));
    assert(level_rest(ts, vx, 1, 3) == Some((all, 5int)));
    assert(level(ts, 0, 3) == Some((all, 5int)));
    assert(level_rest(ts, all, 5, 2) == Some((all, 5int)));
    assert(level(ts, 0, 2) == Some((all, 5int)));
    assert(level_rest(ts, all, 5, 1) == Some((all, 5int)));
    assert(level(ts, 0, 1) == Some((all, 5int)));
    assert(level_rest(ts, all, 5, 0) == Some((all, 5int)));
}

/// A name followed by an operator of level `k`, or by nothing, is read as
/// that name at every level above `k`.
proof fn lemma_name_above(ts: Seq<TokenV>, i: int, n: Seq<char>, k: int, j: int)
    requires
        0 <= i < ts.len(),
        ts[i] == TokenV::Ident(n),
        i + 1 == ts.len() || (ts[i + 1] is Op && op_prec(ts[i + 1]->Op_0) == k),
        k < j <= 5,
        0 <= j,
    ensures
        level(ts, i, j) == Some((ExprV::LocalOrFieldVar(n), i + 1)),
    decreases 5 - j,
{
    lemma_name_operand(ts, i, n);
    if j < 5 {
        lemma_name_above(ts, i, n, k, j + 1);
        if i + 1 < ts.len() {
            assert(op_prec(ts[i + 1]->Op_0) != j);
        }
        assert(level_rest(ts, ExprV::LocalOrFieldVar(n), i + 1, j) == Some((ExprV::LocalOrFieldVar(n), i + 1)));
        assert(level(ts, i, j) == level_rest(ts, ExprV::LocalOrFieldVar(n), i + 1, j));
    }
}

/// A finished expression is kept at every level from `j` down.
proof fn lemma_done_below(ts: Seq<TokenV>, p: int, e: ExprV, j: int)
    requires
        0 <= p < ts.len(),
        0 <= j <= 4,
        level(ts, p, j) == Some((e, ts.len() as int)),
    ensures
        level(ts, p, 0) == Some((e, ts.len() as int)),
    decreases j,
{
    if j > 0 {
        assert(level_rest(ts, e, ts.len() as int, j - 1) == Some((e, ts.len() as int)));
        lemma_done_below(ts, p, e, j - 1);
    }
}

/// `x a y b z`, with `a` and `b` of one level, reads as `(x a y) b z`:
/// operators of one level group to the left.
pub proof fn law_same_level_groups_left(x: Seq<char>, a: Seq<char>, y: Seq<char>, b: Seq<char>, z: Seq<char>)
    requires
        op_prec(a) >= 0,
        op_prec(b) == op_prec(a),
    ensures
        expr(
            seq![TokenV::Ident(x), TokenV::Op(a), TokenV::Ident(y), TokenV::Op(b), TokenV::Ident(z)],
            0,
        ) == Some(
            (
                ExprV::Binary(
                    b,
                    Box::new(
                        ExprV::Binary(a, Box::new(ExprV::LocalOrFieldVar(x)), Box::new(ExprV::LocalOrFieldVar(y))),
                    ),
                    Box::new(ExprV::LocalOrFieldVar(z)),
                ),
                5int,
            ),
        ),
{
    let ts = seq![TokenV::Ident(x), TokenV::Op(a), TokenV::Ident(y), TokenV::Op(b), TokenV::Ident(z)];
    let k = op_prec(a);
    assert(k <= 4);
    let vx = ExprV::LocalOrFieldVar(x);
    let vy = ExprV::LocalOrFieldVar(y);
    let vz = ExprV::LocalOrFieldVar(z);
    lemma_name_above(ts, 0, x, k, k + 1);
    lemma_name_above(ts, 2, y, k, k + 1);
    lemma_name_above(ts, 4, z, k, k + 1);
    let xy = ExprV::Binary(a, Box::new(vx), Box::new(vy));
    let all = ExprV::Binary(b, Box::new(xy), Box::new(vz));
    assert(level_rest(ts, all, 5, k) == Some((all, 5int)));
    assert(level_rest(ts, xy, 3, k) == Some((all, 5int)));
    assert(level_rest(ts, vx, 1, k) == Some((all, 5int)));
    assert(level(ts, 0, k) == Some((all, 5int)));
    lemma_done_below(ts, 0, all, k);
}

/// An operand read at level 5 that ends before an operator of level `k`,
/// a `)` or the end is read alike at every level above `k`.
proof fn lemma_operand_above(ts: Seq<TokenV>, p: int, e: ExprV, q: int, k: int, j: int)
    requires
        0 <= p < q <= ts.len(),
        level(ts, p, 5) == Some((e, q)),
        q == ts.len() || (ts[q] is Op && op_prec(ts[q]->Op_0) == k) || !(ts[q] is Op),
        k < j <= 5,
        0 <= j,
    ensures
        level(ts, p, j) == Some((e, q)),
    decreases 5 - j,
{
    if j < 5 {
        lemma_operand_above(ts, p, e, q, k, j + 1);
        if q < ts.len() && ts[q] is Op {
            assert(op_prec(ts[q]->Op_0) != j);
        }
        assert(level_rest(ts, e, q, j) == Some((e, q)));
        assert(level(ts, p, j) == level_rest(ts, e, q, j));
    }
}

/// An expression read at level `j` that ends before something other than
/// an operator is read alike at every level below.
proof fn lemma_stops_below(ts: Seq<TokenV>, p: int, e: ExprV, q: int, j: int)
    requires
        0 <= p < q <= ts.len(),
        0 <= j <= 5,
        level(ts, p, j) == Some((e, q)),
        q == ts.len() || !(ts[q] is Op),
    ensures
        level(ts, p, 0) == Some((e, q)),
    decreases j,
{
    if j > 0 {
        assert(level_rest(ts, e, q, j - 1) == Some((e, q)));
        lemma_stops_below(ts, p, e, q, j - 1);
    }
}

/// `(x a y) m z`, with `a` additive and `m` multiplicative, reads as the
/// sum or difference in parentheses taken as the left operand of `m`:
/// parentheses group before any operator.
pub proof fn law_parentheses_group_first(x: Seq<char>, a: Seq<char>, y: Seq<char>, m: Seq<char>, z: Seq<char>)
    requires
        additive(a),
        multiplicative(m),
    ensures
        expr(
            seq![
                TokenV::Sym('('),
                TokenV::Ident(x),
                TokenV::Op(a),
                TokenV::Ident(y),
                TokenV::Sym(')'),
                TokenV::Op(m),
                TokenV::Ident(z)
            ],
            0,
        ) == Some(
            (
                ExprV::Binary(
                    m,
                    Box::new(
                        ExprV::Binary(a, Box::new(ExprV::LocalOrFieldVar(x)), Box::new(ExprV::LocalOrFieldVar(y))),
                    ),
                    Box::new(ExprV::LocalOrFieldVar(z)),
                ),
                7int,
            ),
        ),
{
    let ts = seq![
        TokenV::Sym('('),
        TokenV::Ident(x),
        TokenV::Op(a),
        TokenV::Ident(y),
        TokenV::Sym(')'),
        TokenV::Op(m),
        TokenV::Ident(z)
    ];
    law_operator_precedence();
    assert(op_prec(a) == 3 && op_prec(m) == 4);
    let vx = ExprV::LocalOrFieldVar(x);
    let vy = ExprV::LocalOrFieldVar(y);
    let vz = ExprV::LocalOrFieldVar(z);
    let xy = ExprV::Binary(a, Box::new(vx), Box::new(vy));
    let all = ExprV::Binary(m, Box::new(xy), Box::new(vz));
    // inside the parentheses
    assert(!sym_at(ts, 2, '.') && !sym_at(ts, 2, '=') && !sym_at(ts, 2, '('));
    assert(!sym_at(ts, 4, '.') && !sym_at(ts, 4, '=') && !sym_at(ts, 4, '('));
    lemma_name_operand(ts, 1, x);
    lemma_name_operand(ts, 3, y);
    lemma_operand_above(ts, 1, vx, 2, 3, 4);
    lemma_operand_above(ts, 3, vy, 4, 3, 4);
    assert(level_rest(ts, xy, 4, 3) == Some((xy, 4int)));
    assert(level_rest(ts, vx, 2, 3) == Some((xy, 4int)));
    assert(level(ts, 1, 3) == Some((xy, 4int)));
    lemma_stops_below(ts, 1, xy, 4, 3);
    assert(nonbin(ts, 0) == Some((xy, 5int)));
    // after the parentheses
    lemma_name_operand(ts, 6, z);
    assert(level(ts, 0, 5) == Some((xy, 5int)));
    assert(level_rest(ts, all, 7, 4) == Some((all, 7int)));
    assert(level_rest(ts, xy, 5, 4) == Some((all, 7int)));
    assert(level(ts, 0, 4) == Some((all, 7int)));
    lemma_stops_below(ts, 0, all, 7, 4);
}

/// `u x b y`, with `u` a unary operator and `b` any binary operator, reads
/// as `(u x) b y`: a unary operator binds tighter than every binary one.
pub proof fn law_unary_binds_tighter(u: Seq<char>, x: Seq<char>, b: Seq<char>, y: Seq<char>)
    requires
        is_unary_op(u),
        op_prec(b) >= 0,
    ensures
        expr(seq![TokenV::Op(u), TokenV::Ident(x), TokenV::Op(b), TokenV::Ident(y)], 0) == Some(
            (
                ExprV::Binary(
                    b,
                    Box::new(ExprV::Unary(u, Box::new(ExprV::LocalOrFieldVar(x)))),
                    Box::new(ExprV::LocalOrFieldVar(y)),
                ),
                4int,
            ),
        ),
{
    let ts = seq![TokenV::Op(u), TokenV::Ident(x), TokenV::Op(b), TokenV::Ident(y)];
    let k = op_prec(b);
    assert(k <= 4);
    let vx = ExprV::LocalOrFieldVar(x);
    let vy = ExprV::LocalOrFieldVar(y);
    let ux = ExprV::Unary(u, Box::new(vx));
    let all = ExprV::Binary(b, Box::new(ux), Box::new(vy));
    lemma_name_operand(ts, 1, x);
    lemma_name_operand(ts, 3, y);
    assert(nonbin(ts, 0) == Some((ux, 2int)));
    assert(level(ts, 0, 5) == Some((ux, 2int)));
    lemma_operand_above(ts, 0, ux, 2, k, k + 1);
    lemma_name_above(ts, 3, y, k, k + 1);
    assert(level_rest(ts, all, 4, k) == Some((all, 4int)));
    assert(level_rest(ts, ux, 2, k) == Some((all, 4int)));
    assert(level(ts, 0, k) == Some((all, 4int)));
    lemma_stops_below(ts, 0, all, 4, k);
}

/// `- n` with a non-negative integer literal `n` reads as the literal `-n`.
pub proof fn law_negative_literal(n: i32)
    requires
        n >= 0,
    ensures
        expr(seq![TokenV::Op(seq!['-']), TokenV::Int(n)], 0) == Some((ExprV::Integer((-n) as i32), 2int)),
{
    let ts = seq![TokenV::Op(seq!['-']), TokenV::Int(n)];
    assert(nonbin(ts, 0) == Some((ExprV::Integer((-n) as i32), 2int)));
    lemma_stops_below(ts, 0, ExprV::Integer((-n) as i32), 2, 5);
}

/// A name read as a whole expression, where a `;` or `)` follows it.
proof fn lemma_name_expr(ts: Seq<TokenV>, i: int, n: Seq<char>)
    requires
        0 <= i < ts.len() - 1,
        ts[i] == TokenV::Ident(n),
        ts[i + 1] == TokenV::Sym(';') || ts[i + 1] == TokenV::Sym(')'),
    ensures
        expr(ts, i) == Some((ExprV::LocalOrFieldVar(n), i + 1)),
{
    lemma_name_operand(ts, i, n);
    lemma_stops_below(ts, i, ExprV::LocalOrFieldVar(n), i + 1, 5);
}

/// `t x = y;` declares the local variable `x` of type `t` and then assigns
/// it the value of `y`, in that order.
pub proof fn law_declaration_then_assignment(t: Kw, x: Seq<char>, y: Seq<char>)
    requires
        t == Kw::Int || t == Kw::Boolean || t == Kw::Char || t == Kw::String,
    ensures
        stmt(
            seq![TokenV::Kw(t), TokenV::Ident(x), TokenV::Sym('='), TokenV::Ident(y), TokenV::Sym(';')],
            0,
        ) == Some(
            (
                seq![
                    StmtV::LocalVarDecl(type_at(seq![TokenV::Kw(t)], 0)->0, x),
                    StmtV::StmtExprStmt(StmtExprV::Assign(ExprV::LocalOrFieldVar(x), ExprV::LocalOrFieldVar(y))),
                ],
                5int,
            ),
        ),
{
    let ts = seq![TokenV::Kw(t), TokenV::Ident(x), TokenV::Sym('='), TokenV::Ident(y), TokenV::Sym(';')];
    lemma_name_expr(ts, 3, y);
    assert(type_at(ts, 0) == type_at(seq![TokenV::Kw(t)], 0));
    assert(init_at(ts, 2) == Some((Some(ExprV::LocalOrFieldVar(y)), 4int)));
    assert(local_decls(ts, 1, type_at(ts, 0)->0) == Some(
        (declarator_stmts(type_at(ts, 0)->0, x, Some(ExprV::LocalOrFieldVar(y))), 5int),
    ));
}

/// An assignment `a = b;` as a statement.
proof fn lemma_assign_stmt(ts: Seq<TokenV>, i: int, a: Seq<char>, b: Seq<char>)
    requires
        0 <= i,
        i + 4 <= ts.len(),
        ts[i] == TokenV::Ident(a),
        ts[i + 1] == TokenV::Sym('='),
        ts[i + 2] == TokenV::Ident(b),
        ts[i + 3] == TokenV::Sym(';'),
    ensures
        stmt(ts, i) == Some(
            (
                seq![StmtV::StmtExprStmt(StmtExprV::Assign(ExprV::LocalOrFieldVar(a), ExprV::LocalOrFieldVar(b)))],
                i + 4,
            ),
        ),
{
    lemma_name_expr(ts, i + 2, b);
    assert(!sym_at(ts, i + 1, '.'));
    assert(chain(ts, i) == Some((ExprV::LocalOrFieldVar(a), i + 1)));
    assert(stmt_expr(ts, i) == Some((StmtExprV::Assign(ExprV::LocalOrFieldVar(a), ExprV::LocalOrFieldVar(b)), i + 3)));
    assert(ident_at(ts, i + 1) is None);
}

/// `if (c) a = b; else a = d;` runs the first assignment as its then-branch
/// and the second as its else-branch.
pub proof fn law_if_else_branches(c: Seq<char>, a: Seq<char>, b: Seq<char>, d: Seq<char>)
    ensures
        stmt(
            seq![
                TokenV::Kw(Kw::If),
                TokenV::Sym('('),
                TokenV::Ident(c),
                TokenV::Sym(')'),
                TokenV::Ident(a),
                TokenV::Sym('='),
                TokenV::Ident(b),
                TokenV::Sym(';'),
                TokenV::Kw(Kw::Else),
                TokenV::Ident(a),
                TokenV::Sym('='),
                TokenV::Ident(d),
                TokenV::Sym(';')
            ],
            0,
        ) == Some(
            (
                seq![
                    StmtV::If(
                        ExprV::LocalOrFieldVar(c),
                        Box::new(StmtV::StmtExprStmt(StmtExprV::Assign(ExprV::LocalOrFieldVar(a), ExprV::LocalOrFieldVar(b)))),
                        Some(
                            Box::new(
                                StmtV::StmtExprStmt(StmtExprV::Assign(ExprV::LocalOrFieldVar(a), ExprV::LocalOrFieldVar(d))),
                            ),
                        ),
                    ),
                ],
                13int,
            ),
        ),
{
    let ts = seq![
        TokenV::Kw(Kw::If),
        TokenV::Sym('('),
        TokenV::Ident(c),
        TokenV::Sym(')'),
        TokenV::Ident(a),
        TokenV::Sym('='),
        TokenV::Ident(b),
        TokenV::Sym(';'),
        TokenV::Kw(Kw::Else),
        TokenV::Ident(a),
        TokenV::Sym('='),
        TokenV::Ident(d),
        TokenV::Sym(';')
    ];
    lemma_name_expr(ts, 2, c);
    lemma_assign_stmt(ts, 4, a, b);
    lemma_assign_stmt(ts, 9, a, d);
    let s1 = StmtV::StmtExprStmt(StmtExprV::Assign(ExprV::LocalOrFieldVar(a), ExprV::LocalOrFieldVar(b)));
    let s2 = StmtV::StmtExprStmt(StmtExprV::Assign(ExprV::LocalOrFieldVar(a), ExprV::LocalOrFieldVar(d)));
    assert(as_branch(seq![s1], false) == s1);
    assert(as_branch(seq![s2], false) == s2);
    assert(!sym_at(ts, 4, '{') && !sym_at(ts, 9, '{'));
    assert(kw_at(ts, 8, Kw::Else));
}

} // verus!
