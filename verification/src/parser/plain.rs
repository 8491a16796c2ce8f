use vstd::prelude::*;
use crate::parser::grammar::{
    args, args_items, block_items, chain, chain_rest, class_at, level_rest, as_branch, declarator_stmts,
    field_decls, init_at, lemma_chain_advances, level, local_decls, members, nonbin, op_prec,
    primary, program_from, program_of, stmt, stmt_expr, sym_at, ident_at, kw_at, type_at,
};
use crate::parser::lexer::{Kw, TokenV, lex_from};
use crate::typechecker::erase::{
    erase_class, erase_expr, erase_exprs, erase_method, erase_methods, erase_stmt, erase_stmt_expr,
    erase_stmts, law_check_program_erases, law_check_single_class_erases,
};
use crate::typechecker::spec::{check_classes, first_duplicate};
use crate::types::{ClassV, ExprV, MethodDeclV, StmtExprV, StmtV};

verus! {

// What the parser gives carries no type annotations and no resolved names:
// erasing annotations leaves it as it is.

proof fn lemma_erase_exprs_at(s: Seq<ExprV>)
    ensures
        erase_exprs(s).len() == s.len(),
        forall|i: int| 0 <= i < s.len() ==> #[trigger] erase_exprs(s)[i] == erase_expr(s[i]),
    decreases s.len(),
{
    if s.len() > 0 {
        lemma_erase_exprs_at(s.drop_last());
    }
}

proof fn lemma_erase_stmts_at(s: Seq<StmtV>)
    ensures
        erase_stmts(s).len() == s.len(),
        forall|i: int| 0 <= i < s.len() ==> #[trigger] erase_stmts(s)[i] == erase_stmt(s[i]),
    decreases s.len(),
{
    if s.len() > 0 {
        lemma_erase_stmts_at(s.drop_last());
    }
}

proof fn lemma_erase_exprs_cons(e: ExprV, s: Seq<ExprV>)
    requires
        erase_expr(e) == e,
        erase_exprs(s) == s,
    ensures
        erase_exprs(seq![e] + s) == seq![e] + s,
{
    lemma_erase_exprs_at(seq![e] + s);
    lemma_erase_exprs_at(s);
    assert(erase_exprs(seq![e] + s) =~= seq![e] + s);
}

proof fn lemma_erase_stmts_append(a: Seq<StmtV>, b: Seq<StmtV>)
    requires
        erase_stmts(a) == a,
        erase_stmts(b) == b,
    ensures
        erase_stmts(a + b) == a + b,
{
    lemma_erase_stmts_at(a + b);
    lemma_erase_stmts_at(a);
    lemma_erase_stmts_at(b);
    assert forall|i: int| 0 <= i < (a + b).len() implies erase_stmt((a + b)[i]) == (a + b)[i] by {
        if i < a.len() {
            assert(erase_stmts(a)[i] == erase_stmt(a[i]));
        } else {
            assert(erase_stmts(b)[i - a.len()] == erase_stmt(b[i - a.len()]));
        }
    }
    assert(erase_stmts(a + b) =~= a + b);
}

proof fn lemma_chain_rest_plain(ts: Seq<TokenV>, base: ExprV, p: int)
    requires
        erase_expr(base) == base,
    ensures
        erase_expr(chain_rest(ts, base, p).0) == chain_rest(ts, base, p).0,
    decreases ts.len() - p,
{
    if 0 <= p && sym_at(ts, p, '.') && ident_at(ts, p + 1) is Some {
        lemma_chain_rest_plain(ts, ExprV::InstVar(Box::new(base), ident_at(ts, p + 1)->0), p + 2);
    }
}

proof fn lemma_chain_plain(ts: Seq<TokenV>, p: int)
    ensures
        chain(ts, p) matches Some((e, _)) ==> erase_expr(e) == e,
{
    if kw_at(ts, p, Kw::This) {
        lemma_chain_rest_plain(ts, ExprV::This, p + 1);
    } else if let Some(n) = ident_at(ts, p) {
        lemma_chain_rest_plain(ts, ExprV::LocalOrFieldVar(n), p + 1);
    }
}

proof fn lemma_level_plain(ts: Seq<TokenV>, p: int, k: int)
    ensures
        level(ts, p, k) matches Some((e, _)) ==> erase_expr(e) == e,
    decreases ts.len() - p, 8 - k,
{
    if p < 0 || p > ts.len() || k < 0 || k > 5 {
    } else if k == 5 {
        lemma_nonbin_plain(ts, p);
    } else {
        lemma_level_plain(ts, p, k + 1);
        if let Some((l, q)) = level(ts, p, k + 1) {
            if p < q <= ts.len() {
                lemma_level_rest_plain(ts, l, q, k);
            }
        }
    }
}

proof fn lemma_level_rest_plain(ts: Seq<TokenV>, acc: ExprV, q: int, k: int)
    requires
        erase_expr(acc) == acc,
    ensures
        level_rest(ts, acc, q, k) matches Some((e, _)) ==> erase_expr(e) == e,
    decreases ts.len() - q, 8 - k,
{
    if 0 <= q < ts.len() && 0 <= k < 5 && ts[q] is Op && op_prec(ts[q]->Op_0) == k {
        lemma_level_plain(ts, q + 1, k + 1);
        if let Some((r, s)) = level(ts, q + 1, k + 1) {
            if q < s <= ts.len() {
                let e = ExprV::Binary(ts[q]->Op_0, Box::new(acc), Box::new(r));
                assert(erase_expr(e) == e);
                lemma_level_rest_plain(ts, e, s, k);
            }
        }
    }
}

proof fn lemma_nonbin_plain(ts: Seq<TokenV>, p: int)
    ensures
        nonbin(ts, p) matches Some((e, _)) ==> erase_expr(e) == e,
    decreases ts.len() - p, 2int,
{
    reveal_with_fuel(erase_expr, 2);
    if 0 <= p < ts.len() {
        match ts[p] {
            TokenV::Sym(c) => {
                if c == '(' {
                    lemma_level_plain(ts, p + 1, 0);
                }
            },
            TokenV::Op(o) => {
                lemma_nonbin_plain(ts, p + 1);
            },
            TokenV::Kw(k) => {
                if k == Kw::This || k == Kw::New {
                    lemma_primary_plain(ts, p);
                }
            },
            TokenV::Ident(_) => lemma_primary_plain(ts, p),
            _ => {},
        }
    }
}

proof fn lemma_primary_plain(ts: Seq<TokenV>, p: int)
    ensures
        primary(ts, p) matches Some((e, _)) ==> erase_expr(e) == e,
    decreases ts.len() - p, 1int,
{
    if 0 <= p < ts.len() {
        lemma_stmt_expr_plain(ts, p);
        lemma_chain_plain(ts, p);
    }
}

proof fn lemma_stmt_expr_plain(ts: Seq<TokenV>, p: int)
    ensures
        stmt_expr(ts, p) matches Some((se, _)) ==> erase_stmt_expr(se) == se,
    decreases ts.len() - p, 0int,
{
    reveal_with_fuel(erase_expr, 2);
    if 0 <= p < ts.len() {
        if kw_at(ts, p, Kw::New) {
            if type_at(ts, p + 1) is Some && sym_at(ts, p + 2, '(') {
                lemma_args_plain(ts, p + 3);
            }
        } else if let Some((c, q)) = chain(ts, p) {
            lemma_chain_advances(ts, p);
            lemma_chain_plain(ts, p);
            if sym_at(ts, q, '=') {
                lemma_level_plain(ts, q + 1, 0);
            } else if sym_at(ts, q, '(') {
                lemma_args_plain(ts, q + 1);
                if let Some((a, _)) = args(ts, q + 1) {
                    match c {
                        ExprV::InstVar(b, n) => {
                            assert(erase_expr(c) == ExprV::InstVar(Box::new(erase_expr(*b)), n));
                            assert(erase_expr(*b) == *b);
                            assert(erase_stmt_expr(StmtExprV::MethodCall(*b, n, a)) == StmtExprV::MethodCall(
                                *b,
                                n,
                                a,
                            ));
                        },
                        ExprV::LocalOrFieldVar(n) => {
                            assert(erase_expr(ExprV::This) == ExprV::This);
                            assert(erase_stmt_expr(StmtExprV::MethodCall(ExprV::This, n, a))
                                == StmtExprV::MethodCall(ExprV::This, n, a));
                        },
                        _ => {},
                    }
                }
            }
        }
    }
}

proof fn lemma_args_plain(ts: Seq<TokenV>, p: int)
    ensures
        args(ts, p) matches Some((a, _)) ==> erase_exprs(a) == a,
    decreases ts.len() - p, 10int,
{
    if 0 <= p < ts.len() {
        if sym_at(ts, p, ')') {
            assert(erase_exprs(Seq::<ExprV>::empty()) =~= Seq::empty());
        } else {
            lemma_args_items_plain(ts, p);
        }
    }
}

proof fn lemma_args_items_plain(ts: Seq<TokenV>, p: int)
    ensures
        args_items(ts, p) matches Some((a, _)) ==> erase_exprs(a) == a,
    decreases ts.len() - p, 9int,
{
    if 0 <= p < ts.len() {
        lemma_level_plain(ts, p, 0);
        if let Some((e, q)) = level(ts, p, 0) {
            if sym_at(ts, q, ')') {
                assert(erase_exprs(Seq::<ExprV>::empty()) =~= Seq::empty());
                lemma_erase_exprs_cons(e, Seq::empty());
                assert(seq![e] + Seq::<ExprV>::empty() =~= seq![e]);
            } else if p <= q && sym_at(ts, q, ',') {
                lemma_args_items_plain(ts, q + 1);
                if let Some((rest, _)) = args_items(ts, q + 1) {
                    lemma_erase_exprs_cons(e, rest);
                }
            }
        }
    }
}

proof fn lemma_local_decls_plain(ts: Seq<TokenV>, p: int, t: crate::types::TypeV)
    ensures
        local_decls(ts, p, t) matches Some((s, _)) ==> erase_stmts(s) == s,
    decreases ts.len() - p,
{
    reveal_with_fuel(erase_expr, 2);
    if let Some(n) = ident_at(ts, p) {
        if sym_at(ts, p + 1, '=') {
            lemma_level_plain(ts, p + 2, 0);
        }
        if let Some((v, q)) = init_at(ts, p + 1) {
            let here = declarator_stmts(t, n, v);
            lemma_erase_stmts_at(here);
            if let Some(e) = v {
                assert(erase_expr(e) == e);
                let target = ExprV::LocalOrFieldVar(n);
                assert(erase_expr(target) == target);
                let a = StmtExprV::Assign(target, e);
                assert(erase_stmt_expr(a) == a);
                assert(erase_stmt(StmtV::StmtExprStmt(a)) == StmtV::StmtExprStmt(a));
                assert(here[1] == StmtV::StmtExprStmt(a));
            }
            assert(erase_stmts(here) =~= here);
            if p <= q && sym_at(ts, q, ',') && !sym_at(ts, q, ';') {
                lemma_local_decls_plain(ts, q + 1, t);
                if let Some((rest, _)) = local_decls(ts, q + 1, t) {
                    lemma_erase_stmts_append(here, rest);
                }
            }
        }
    }
}

proof fn lemma_as_branch_plain(s: Seq<StmtV>, braced: bool)
    requires
        erase_stmts(s) == s,
    ensures
        erase_stmt(as_branch(s, braced)) == as_branch(s, braced),
{
    lemma_erase_stmts_at(s);
    if !braced && s.len() == 1 {
        assert(erase_stmts(s)[0] == erase_stmt(s[0]));
    }
}

proof fn lemma_stmt_plain(ts: Seq<TokenV>, p: int)
    ensures
        stmt(ts, p) matches Some((s, _)) ==> erase_stmts(s) == s,
    decreases ts.len() - p, 0int,
{
    reveal_with_fuel(erase_stmt, 2);
    if 0 <= p < ts.len() {
        if kw_at(ts, p, Kw::While) || kw_at(ts, p, Kw::If) {
            if sym_at(ts, p + 1, '(') {
                lemma_level_plain(ts, p + 2, 0);
                if let Some((c, q)) = level(ts, p + 2, 0) {
                    if p <= q && sym_at(ts, q, ')') {
                        lemma_stmt_plain(ts, q + 1);
                        if let Some((b, r)) = stmt(ts, q + 1) {
                            lemma_as_branch_plain(b, sym_at(ts, q + 1, '{'));
                            if !kw_at(ts, p, Kw::While) && p <= r && kw_at(ts, r, Kw::Else) {
                                lemma_stmt_plain(ts, r + 1);
                                if let Some((e, _)) = stmt(ts, r + 1) {
                                    lemma_as_branch_plain(e, sym_at(ts, r + 1, '{'));
                                }
                            }
                            if let Some((s, _)) = stmt(ts, p) {
                                lemma_erase_stmts_at(s);
                                assert(erase_stmts(s) =~= s);
                            }
                        }
                    }
                }
            }
        } else if kw_at(ts, p, Kw::Return) {
            lemma_level_plain(ts, p + 1, 0);
            if let Some((s, _)) = stmt(ts, p) {
                lemma_erase_stmts_at(s);
                assert(erase_stmts(s) =~= s);
            }
        } else if sym_at(ts, p, '{') {
            lemma_block_items_plain(ts, p + 1);
        } else if type_at(ts, p) is Some && ident_at(ts, p + 1) is Some {
            lemma_local_decls_plain(ts, p + 1, type_at(ts, p)->0);
        } else {
            lemma_stmt_expr_plain(ts, p);
            if let Some((s, _)) = stmt(ts, p) {
                lemma_erase_stmts_at(s);
                assert(erase_stmts(s) =~= s);
            }
        }
    }
}

proof fn lemma_block_items_plain(ts: Seq<TokenV>, p: int)
    ensures
        block_items(ts, p) matches Some((s, _)) ==> erase_stmts(s) == s,
    decreases ts.len() - p, 1int,
{
    if 0 <= p < ts.len() {
        if sym_at(ts, p, '}') {
            assert(erase_stmts(Seq::<StmtV>::empty()) =~= Seq::empty());
        } else {
            lemma_stmt_plain(ts, p);
            if let Some((s, q)) = stmt(ts, p) {
                if p < q <= ts.len() {
                    lemma_block_items_plain(ts, q);
                    if let Some((rest, _)) = block_items(ts, q) {
                        lemma_erase_stmts_append(s, rest);
                    }
                }
            }
        }
    }
}

proof fn lemma_members_plain(ts: Seq<TokenV>, p: int)
    ensures
        members(ts, p) matches Some((_, ms, _)) ==> erase_methods(ms) == ms,
    decreases ts.len() - p,
{
    if 0 <= p < ts.len() && !sym_at(ts, p, '}') {
        if let (Some(t), Some(n)) = (type_at(ts, p), ident_at(ts, p + 1)) {
            if sym_at(ts, p + 2, '(') {
                if let Some((ps, q)) = crate::parser::grammar::params(ts, p + 3) {
                    if p <= q && sym_at(ts, q, '{') {
                        lemma_block_items_plain(ts, q + 1);
                        if let Some((body, r)) = block_items(ts, q + 1) {
                            if p < r <= ts.len() {
                                lemma_members_plain(ts, r);
                                if let Some((_, ms, _)) = members(ts, r) {
                                    let m = MethodDeclV {
                                        ret_type: t,
                                        name: n,
                                        params: ps,
                                        body: StmtV::Block(body),
                                    };
                                    assert(erase_method(m) == m);
                                    assert(erase_methods(seq![m] + ms) =~= seq![m] + ms) by {
                                        assert forall|i: int| 0 <= i < ms.len() implies erase_method(
                                            ms[i],
                                        ) == ms[i] by {
                                            assert(erase_methods(ms)[i] == erase_method(ms[i]));
                                        }
                                    }
                                }
                            }
                        }
                    }
                }
            } else if let Some((fs0, q)) = field_decls(ts, p + 1, t) {
                if p < q <= ts.len() {
                    lemma_members_plain(ts, q);
                }
            }
        }
    } else if sym_at(ts, p, '}') {
        assert(erase_methods(Seq::<MethodDeclV>::empty()) =~= Seq::empty());
    }
}

proof fn lemma_program_plain(ts: Seq<TokenV>, p: int)
    ensures
        program_from(ts, p) matches Some(cs) ==> forall|i: int| 0 <= i < cs.len() ==> #[trigger] erase_class(
            cs[i],
        ) == cs[i],
    decreases ts.len() - p,
{
    if 0 <= p < ts.len() {
        if let Some((c, q)) = class_at(ts, p) {
            lemma_members_plain(ts, p + 3);
            if p < q <= ts.len() {
                lemma_program_plain(ts, q);
                if let Some(cs) = program_from(ts, p) {
                    let rest = program_from(ts, q)->0;
                    assert(cs == seq![c] + rest);
                    assert forall|i: int| 0 <= i < cs.len() implies #[trigger] erase_class(cs[i]) == cs[i] by {
                        if i > 0 {
                            assert(cs[i] == rest[i - 1]);
                        } else {
                            assert(erase_class(c) =~= c);
                        }
                    }
                }
            }
        }
    }
}

/// The classes the parser reads carry no type annotations: erasing leaves
/// each of them as it is.
pub proof fn law_parsed_classes_plain(src: Seq<char>)
    ensures
        program_of(src) matches Some(cs) ==> forall|i: int| 0 <= i < cs.len() ==> #[trigger] erase_class(
            cs[i],
        ) == cs[i],
{
    if let Some(ts) = lex_from(src, 0) {
        lemma_program_plain(ts, 0);
    }
}

/// A program of one class read by the parser and type checked gives one
/// typed class which, with its type annotations erased, is the class read.
pub proof fn law_parse_then_check_erases(src: Seq<char>, c: ClassV)
    requires
        program_of(src) == Some(seq![c]),
    ensures
        check_classes(seq![c], 1, Seq::empty(), Seq::empty(), Map::empty()) matches Ok((ts, _, _))
            ==> ts.len() == 1 && erase_class(ts[0]) == c,
{
    law_parsed_classes_plain(src);
    let cs = program_of(src)->0;
    assert(cs[0] == c);
    assert(erase_class(cs[0]) == cs[0]);
    law_check_single_class_erases(c);
}

/// A program read by the parser, without repeated class names, and type
/// checked: each class comes out, with its type annotations erased, as the
/// class read.
pub proof fn law_parse_then_check_program_erases(src: Seq<char>, cs: Seq<ClassV>, i: int)
    requires
        program_of(src) == Some(cs),
        first_duplicate(cs, cs.len()) is None,
        0 <= i < cs.len(),
    ensures
        check_classes(cs, cs.len(), Seq::empty(), Seq::empty(), Map::empty()) matches Ok((ts, _, _))
            ==> erase_class(ts[i]) == cs[i],
{
    law_parsed_classes_plain(src);
    let parsed = program_of(src)->0;
    assert(erase_class(parsed[i]) == parsed[i]);
    law_check_program_erases(cs, Seq::empty(), Map::empty(), i);
}

} // verus!
