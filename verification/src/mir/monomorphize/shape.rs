//! Substituting types and retargeting calls leave a body's shape alone:
//! lowering costs the same and checks the same before and after.
use vstd::prelude::*;
use crate::hir::expr::{HirExpr, HirExprKind};
use crate::hir::function::EnumDef;
use crate::hir::stmt::{HirStmt, HirStmtKind};
use crate::hir::symbol::{DefId, SymbolId};
use crate::hir::types::{Ty, model_of};
use crate::mir::lower::{
    check_elifs, check_expr, check_exprs, check_fields, check_stmt, check_stmts, elifs_cost, expr_cost, exprs_cost,
    fields_cost, stmt_cost, stmts_cost, emit_count, emits, let_type, operand_of, stmt_count, stmt_emits, stmt_temps,
    stmt_vm, straight, straight_stmt, temp_count, stmts_vm, stmts_nl, stmts_emit, straight_body, straight_lowered,
    returned_expr, param_bindings, straight_exprs, exprs_emit_count, exprs_temp_count, operands_of, exprs_emits,
};
use crate::hir::function::HirFunction;
use crate::mir::{LocalId, MirFunction, MirStmt};
use crate::mir::monomorphize::{
    elifs_rewrite, elifs_subst, expr_rewrite, expr_subst, exprs_rewrite, exprs_subst, fields_rewrite, fields_subst,
    stmt_rewrite, stmt_subst, stmts_rewrite, stmts_subst,
};

verus! {

/// Retargeting calls leaves a straight expression's lowering alone: the
/// same statements, temporaries and operand.
#[verifier::spinoff_prover]
#[verifier::rlimit(60)]
pub proof fn lemma_rewrite_emits(
    enums: Seq<EnumDef>,
    a: HirExpr,
    b: HirExpr,
    fr: Seq<(DefId, Seq<Ty>, DefId)>,
    sr: Seq<(SymbolId, Seq<Ty>, SymbolId)>,
    vm: Seq<(SymbolId, LocalId)>,
    before: Seq<MirStmt>,
    after: Seq<MirStmt>,
    nl: int,
)
    requires
        expr_rewrite(a, b, fr, sr),
        straight(a),
    ensures
        straight(b),
        emit_count(a) == emit_count(b),
        temp_count(a) == temp_count(b),
        operand_of(enums, a, vm, nl) == operand_of(enums, b, vm, nl),
        emits(enums, a, vm, before, after, nl) == emits(enums, b, vm, before, after, nl),
    decreases a, 1int,
{
    let bl = before.len() as int;
    match a.kind {
        HirExprKind::Assign { value, .. } => {
            lemma_rewrite_emits(enums, *value, *b.kind->Assign_value, fr, sr, vm, before, after.drop_last(), nl);
            assert(emits(enums, a, vm, before, after, nl) == emits(enums, b, vm, before, after, nl));
        },
        HirExprKind::AugAssign { value, .. } => {
            lemma_rewrite_emits(enums, *value, *b.kind->AugAssign_value, fr, sr, vm, before, after.drop_last(), nl);
            assert(emits(enums, a, vm, before, after, nl) == emits(enums, b, vm, before, after, nl));
        },
        HirExprKind::Binary { lhs, rhs, .. } => {
            let l2 = *b.kind->Binary_lhs;
            let r2 = *b.kind->Binary_rhs;
            lemma_rewrite_emits(enums, *lhs, l2, fr, sr, vm, before, after.take(bl + emit_count(*lhs)), nl);
            lemma_rewrite_emits(enums, *rhs, r2, fr, sr, vm, after.take(bl + emit_count(*lhs)),
                after.take(bl + emit_count(*lhs) + emit_count(*rhs)), nl + temp_count(*lhs));
            assert(emits(enums, a, vm, before, after, nl) == emits(enums, b, vm, before, after, nl));
        },
        HirExprKind::Unary { expr: inner, .. } => {
            lemma_rewrite_emits(enums, *inner, *b.kind->Unary_expr, fr, sr, vm, before, after.take(bl + emit_count(*inner)), nl);
            assert(emits(enums, a, vm, before, after, nl) == emits(enums, b, vm, before, after, nl));
        },
        HirExprKind::Range { start, .. } => {
            lemma_rewrite_emits(enums, *start, *b.kind->Range_start, fr, sr, vm, before, after, nl);
            assert(emits(enums, a, vm, before, after, nl) == emits(enums, b, vm, before, after, nl));
        },
        HirExprKind::FieldAccess { expr: inner, field } => {
            let e2 = *b.kind->FieldAccess_expr;
            assert(expr_rewrite(*inner, e2, fr, sr));
            assert(model_of(e2.ty) == model_of(inner.ty));
            assert(b.kind->FieldAccess_field == field);
            lemma_rewrite_emits(enums, *inner, e2, fr, sr, vm, before, after.take(bl + emit_count(*inner)), nl);
            assert(emits(enums, a, vm, before, after, nl) == emits(enums, b, vm, before, after, nl));
        },
        HirExprKind::Length { expr: inner } => {
            let e2 = *b.kind->Length_expr;
            assert(expr_rewrite(*inner, e2, fr, sr));
            assert(model_of(e2.ty) == model_of(inner.ty));
            lemma_rewrite_emits(enums, *inner, e2, fr, sr, vm, before, after.take(bl + emit_count(*inner)), nl);
            assert(emits(enums, a, vm, before, after, nl) == emits(enums, b, vm, before, after, nl));
        },
        HirExprKind::Index { list, index } => {
            let l2 = *b.kind->Index_list;
            let i2 = *b.kind->Index_index;
            assert(expr_rewrite(*list, l2, fr, sr));
            assert(model_of(l2.ty) == model_of(list.ty));
            lemma_rewrite_emits(enums, *list, l2, fr, sr, vm, before, after.take(bl + emit_count(*list)), nl);
            lemma_rewrite_emits(enums, *index, i2, fr, sr, vm, after.take(bl + emit_count(*list) + 2),
                after.take(bl + emit_count(*list) + 2 + emit_count(*index)), nl + temp_count(*list) + 1);
            assert(emits(enums, a, vm, before, after, nl) == emits(enums, b, vm, before, after, nl));
        },
        HirExprKind::ListLiteral { elements } => {
            let e2 = b.kind->ListLiteral_elements;
            assert(exprs_rewrite(elements@, e2@, fr, sr));
            lemma_rewrite_exprs_emits(enums, elements@, e2@, fr, sr, vm, before,
                after.take(bl + exprs_emit_count(elements@)), nl);
            assert(emits(enums, a, vm, before, after, nl) == emits(enums, b, vm, before, after, nl));
        },
        _ => {
            assert(emits(enums, a, vm, before, after, nl) == emits(enums, b, vm, before, after, nl));
        },
    }
}

/// Retargeting calls leaves the lowering of straight expressions in order
/// alone.
pub proof fn lemma_rewrite_exprs_emits(
    enums: Seq<EnumDef>,
    a: Seq<HirExpr>,
    b: Seq<HirExpr>,
    fr: Seq<(DefId, Seq<Ty>, DefId)>,
    sr: Seq<(SymbolId, Seq<Ty>, SymbolId)>,
    vm: Seq<(SymbolId, LocalId)>,
    before: Seq<MirStmt>,
    after: Seq<MirStmt>,
    nl: int,
)
    requires
        exprs_rewrite(a, b, fr, sr),
        straight_exprs(a),
    ensures
        straight_exprs(b),
        exprs_emit_count(a) == exprs_emit_count(b),
        exprs_temp_count(a) == exprs_temp_count(b),
        operands_of(enums, a, vm, nl) == operands_of(enums, b, vm, nl),
        exprs_emits(enums, a, vm, before, after, nl) == exprs_emits(enums, b, vm, before, after, nl),
    decreases a, 0int,
{
    if a.len() > 0 {
        lemma_rewrite_exprs_emits(enums, a.drop_last(), b.drop_last(), fr, sr, vm, before,
            after.take(after.len() - emit_count(a.last())), nl);
        lemma_rewrite_emits(enums, a.last(), b.last(), fr, sr, vm, after.take(after.len() - emit_count(a.last())), after,
            nl + exprs_temp_count(a.drop_last()));
    }
}

/// Retargeting calls leaves the lowering of straight statements alone.
pub proof fn lemma_rewrite_stmts_emit(
    enums: Seq<EnumDef>,
    a: Seq<HirStmt>,
    b: Seq<HirStmt>,
    fr: Seq<(DefId, Seq<Ty>, DefId)>,
    sr: Seq<(SymbolId, Seq<Ty>, SymbolId)>,
    vm: Seq<(SymbolId, LocalId)>,
    nl: int,
    before: Seq<MirStmt>,
    after: Seq<MirStmt>,
)
    requires
        stmts_rewrite(a, b, fr, sr),
        forall|i: int| 0 <= i < a.len() ==> straight_stmt(#[trigger] a[i]),
    ensures
        forall|i: int| 0 <= i < b.len() ==> straight_stmt(#[trigger] b[i]),
        stmts_vm(a, vm, nl) == stmts_vm(b, vm, nl),
        stmts_nl(a, nl) == stmts_nl(b, nl),
        stmts_emit(enums, a, vm, nl, before, after) == stmts_emit(enums, b, vm, nl, before, after),
    decreases a.len(),
{
    if a.len() > 0 {
        let ia = a.drop_last();
        let ib = b.drop_last();
        assert forall|i: int| 0 <= i < ia.len() implies straight_stmt(#[trigger] ia[i]) by {
            assert(ia[i] == a[i]);
        }
        assert(straight_stmt(a[a.len() - 1]));
        lemma_rewrite_stmt_emits(enums, a.last(), b.last(), fr, sr, stmts_vm(ia, vm, nl), stmts_nl(ia, nl),
            after.take(after.len() - stmt_count(a.last())), after);
        lemma_rewrite_stmts_emit(enums, ia, ib, fr, sr, vm, nl, before, after.take(after.len() - stmt_count(a.last())));
        assert forall|i: int| 0 <= i < b.len() implies straight_stmt(#[trigger] b[i]) by {
            if i < b.len() - 1 {
                assert(b[i] == ib[i]);
            }
        }
    }
}

/// A function whose parameters have the names of `f`'s, in order, and
/// whose body is `f`'s with calls retargeted lowers, where `f`'s body is
/// straight, as `f` does.
pub proof fn lemma_rewrite_straight_lowered(
    enums: Seq<EnumDef>,
    f: HirFunction,
    g: HirFunction,
    fr: Seq<(DefId, Seq<Ty>, DefId)>,
    sr: Seq<(SymbolId, Seq<Ty>, SymbolId)>,
    mf: MirFunction,
)
    requires
        g.params@.len() == f.params@.len(),
        forall|k: int| 0 <= k < f.params@.len() ==> (#[trigger] g.params@[k]).0 == f.params@[k].0,
        stmts_rewrite(f.body@, g.body@, fr, sr),
        straight_body(f.body@),
    ensures
        straight_body(g.body@),
        straight_lowered(enums, f, mf) == straight_lowered(enums, g, mf),
{
    let fb = f.body@;
    let gb = g.body@;
    assert(param_bindings(f.params@) =~= param_bindings(g.params@));
    let ia = fb.drop_last();
    let ib = gb.drop_last();
    assert forall|i: int| 0 <= i < ia.len() implies straight_stmt(#[trigger] ia[i]) by {
        assert(ia[i] == fb[i]);
    }
    let vm0 = param_bindings(f.params@);
    let np = f.params@.len() as int;
    let st = mf.blocks@[0].stmts@;
    let e1 = returned_expr(fb.last())->Some_0;
    assert(stmt_rewrite(fb.last(), gb.last(), fr, sr));
    let e2 = returned_expr(gb.last())->Some_0;
    assert(expr_rewrite(e1, e2, fr, sr));
    lemma_rewrite_stmts_emit(enums, ia, ib, fr, sr, vm0, np, Seq::empty(), st.take(st.len() - emit_count(e1)));
    lemma_rewrite_emits(enums, e1, e2, fr, sr, stmts_vm(ia, vm0, np), st.take(st.len() - emit_count(e1)), st, stmts_nl(ia, np));
    assert forall|i: int| 0 <= i < gb.len() - 1 implies straight_stmt(#[trigger] gb[i]) by {
        assert(gb[i] == ib[i]);
    }
}

/// Retargeting calls leaves a straight statement's lowering alone.
pub proof fn lemma_rewrite_stmt_emits(
    enums: Seq<EnumDef>,
    a: HirStmt,
    b: HirStmt,
    fr: Seq<(DefId, Seq<Ty>, DefId)>,
    sr: Seq<(SymbolId, Seq<Ty>, SymbolId)>,
    vm: Seq<(SymbolId, LocalId)>,
    nl: int,
    before: Seq<MirStmt>,
    after: Seq<MirStmt>,
)
    requires
        stmt_rewrite(a, b, fr, sr),
        straight_stmt(a),
    ensures
        straight_stmt(b),
        stmt_count(a) == stmt_count(b),
        stmt_temps(a) == stmt_temps(b),
        stmt_vm(a, vm, nl) == stmt_vm(b, vm, nl),
        stmt_emits(enums, a, vm, nl, before, after) == stmt_emits(enums, b, vm, nl, before, after),
{
    match a.kind {
        HirStmtKind::Let { value, ty, .. } => {
            let v2 = b.kind->Let_value;
            let k = (before.len() + emit_count(value)) as int;
            lemma_rewrite_emits(enums, value, v2, fr, sr, vm, before, after.take(k), nl + 1);
            assert(model_of(let_type(ty, value)) == model_of(let_type(b.kind->Let_ty, v2)));
        },
        HirStmtKind::Expr(e) => {
            lemma_rewrite_emits(enums, e, b.kind->Expr_0, fr, sr, vm, before, after, nl);
        },
        _ => {},
    }
}

/// [`expr_subst`] keeps the lowering cost and the lowering check of an
/// expression.
pub proof fn lemma_subst_expr(enums: Seq<EnumDef>, a: HirExpr, b: HirExpr, m: Map<SymbolId, Ty>, d: Set<SymbolId>)
    requires
        expr_subst(a, b, m),
    ensures
        expr_cost(a) == expr_cost(b),
        check_expr(enums, a, d) == check_expr(enums, b, d),
    decreases a, 1int,
{
    match (a.kind, b.kind) {
        (HirExprKind::Assign { value: v1, .. }, HirExprKind::Assign { value: v2, .. }) => {
            lemma_subst_expr(enums, *v1, *v2, m, d);
        },
        (HirExprKind::AugAssign { value: v1, .. }, HirExprKind::AugAssign { value: v2, .. }) => {
            lemma_subst_expr(enums, *v1, *v2, m, d);
        },
        (HirExprKind::Binary { lhs: l1, rhs: r1, .. }, HirExprKind::Binary { lhs: l2, rhs: r2, .. }) => {
            lemma_subst_expr(enums, *l1, *l2, m, d);
            lemma_subst_expr(enums, *r1, *r2, m, d);
            if let Ok(d1) = check_expr(enums, *l1, d) {
                lemma_subst_expr(enums, *r1, *r2, m, d1);
            }
        },
        (HirExprKind::Unary { expr: e1, .. }, HirExprKind::Unary { expr: e2, .. }) => {
            lemma_subst_expr(enums, *e1, *e2, m, d);
        },
        (HirExprKind::Call { args: a1, .. }, HirExprKind::Call { args: a2, .. }) => {
            lemma_subst_exprs(enums, a1@, a2@, m, d);
        },
        (
            HirExprKind::If { condition: c1, then_branch: t1, elif_branches: e1, else_branch: x1 },
            HirExprKind::If { condition: c2, then_branch: t2, elif_branches: e2, else_branch: x2 },
        ) => {
            lemma_subst_expr(enums, *c1, *c2, m, d);
            lemma_subst_stmts(enums, t1@, t2@, m, d);
            lemma_subst_elifs(enums, e1@, e2@, m, d);
            if let (Some(y1), Some(y2)) = (x1, x2) {
                lemma_subst_stmts(enums, y1@, y2@, m, d);
            }
            if let Ok(d1) = check_expr(enums, *c1, d) {
                lemma_subst_stmts(enums, t1@, t2@, m, d1);
                if let Ok(d2) = check_stmts(enums, t1@, d1) {
                    lemma_subst_elifs(enums, e1@, e2@, m, d2);
                    if let Ok(d3) = check_elifs(enums, e1@, d2) {
                        if let (Some(y1), Some(y2)) = (x1, x2) {
                            lemma_subst_stmts(enums, y1@, y2@, m, d3);
                        }
                    }
                }
            }
        },
        (HirExprKind::For { var, iter: i1, body: b1 }, HirExprKind::For { iter: i2, body: b2, .. }) => {
            lemma_subst_stmts(enums, b1@, b2@, m, d);
            assert(expr_subst(*i1, *i2, m));
            match ((*i1).kind, (*i2).kind) {
                (HirExprKind::Range { start: s1, end: n1, .. }, HirExprKind::Range { start: s2, end: n2, .. }) => {
                    lemma_subst_expr(enums, *s1, *s2, m, d);
                    lemma_subst_expr(enums, *n1, *n2, m, d);
                    if let Ok(d1) = check_expr(enums, *s1, d) {
                        lemma_subst_expr(enums, *n1, *n2, m, d1);
                        if let Ok(d2) = check_expr(enums, *n1, d1) {
                            lemma_subst_stmts(enums, b1@, b2@, m, d2.insert(var));
                        }
                    }
                },
                _ => {},
            }
        },
        (HirExprKind::While { condition: c1, body: b1 }, HirExprKind::While { condition: c2, body: b2 }) => {
            lemma_subst_expr(enums, *c1, *c2, m, d);
            lemma_subst_stmts(enums, b1@, b2@, m, d);
            if let Ok(d1) = check_expr(enums, *c1, d) {
                lemma_subst_stmts(enums, b1@, b2@, m, d1);
            }
        },
        (HirExprKind::Range { start: s1, end: n1, .. }, HirExprKind::Range { start: s2, end: n2, .. }) => {
            lemma_subst_expr(enums, *s1, *s2, m, d);
        },
        (HirExprKind::StructLiteral { fields: f1, .. }, HirExprKind::StructLiteral { fields: f2, .. }) => {
            lemma_subst_fields(enums, f1@, f2@, m, d);
        },
        (HirExprKind::FieldAccess { expr: e1, .. }, HirExprKind::FieldAccess { expr: e2, .. }) => {
            lemma_subst_expr(enums, *e1, *e2, m, d);
        },
        (HirExprKind::ListLiteral { elements: e1 }, HirExprKind::ListLiteral { elements: e2 }) => {
            lemma_subst_exprs(enums, e1@, e2@, m, d);
        },
        (HirExprKind::Index { list: l1, index: i1 }, HirExprKind::Index { list: l2, index: i2 }) => {
            lemma_subst_expr(enums, *l1, *l2, m, d);
            lemma_subst_expr(enums, *i1, *i2, m, d);
            if let Ok(d1) = check_expr(enums, *l1, d) {
                lemma_subst_expr(enums, *i1, *i2, m, d1);
            }
        },
        (HirExprKind::Length { expr: e1 }, HirExprKind::Length { expr: e2 }) => {
            lemma_subst_expr(enums, *e1, *e2, m, d);
        },
        _ => {},
    }
}

/// [`exprs_subst`] keeps cost and check.
pub proof fn lemma_subst_exprs(enums: Seq<EnumDef>, a: Seq<HirExpr>, b: Seq<HirExpr>, m: Map<SymbolId, Ty>, d: Set<SymbolId>)
    requires
        exprs_subst(a, b, m),
    ensures
        exprs_cost(a) == exprs_cost(b),
        check_exprs(enums, a, d) == check_exprs(enums, b, d),
    decreases a, 0int,
{
    if a.len() > 0 {
        lemma_subst_exprs(enums, a.drop_last(), b.drop_last(), m, d);
        lemma_subst_expr(enums, a.last(), b.last(), m, d);
        if let Ok(d1) = check_exprs(enums, a.drop_last(), d) {
            lemma_subst_expr(enums, a.last(), b.last(), m, d1);
        }
    }
}

/// [`fields_subst`] keeps cost and check.
pub proof fn lemma_subst_fields(
    enums: Seq<EnumDef>,
    a: Seq<(SymbolId, Box<HirExpr>)>,
    b: Seq<(SymbolId, Box<HirExpr>)>,
    m: Map<SymbolId, Ty>,
    d: Set<SymbolId>,
)
    requires
        fields_subst(a, b, m),
    ensures
        fields_cost(a) == fields_cost(b),
        check_fields(enums, a, d) == check_fields(enums, b, d),
    decreases a, 0int,
{
    if a.len() > 0 {
        lemma_subst_fields(enums, a.drop_last(), b.drop_last(), m, d);
        lemma_subst_expr(enums, *a.last().1, *b.last().1, m, d);
        if let Ok(d1) = check_fields(enums, a.drop_last(), d) {
            lemma_subst_expr(enums, *a.last().1, *b.last().1, m, d1);
        }
    }
}

/// [`elifs_subst`] keeps cost and check.
pub proof fn lemma_subst_elifs(
    enums: Seq<EnumDef>,
    a: Seq<(HirExpr, Vec<HirStmt>)>,
    b: Seq<(HirExpr, Vec<HirStmt>)>,
    m: Map<SymbolId, Ty>,
    d: Set<SymbolId>,
)
    requires
        elifs_subst(a, b, m),
    ensures
        a.len() == b.len(),
        elifs_cost(a) == elifs_cost(b),
        check_elifs(enums, a, d) == check_elifs(enums, b, d),
    decreases a, 0int,
{
    if a.len() > 0 {
        lemma_subst_elifs(enums, a.drop_last(), b.drop_last(), m, d);
        lemma_subst_expr(enums, a.last().0, b.last().0, m, d);
        lemma_subst_stmts(enums, a.last().1@, b.last().1@, m, d);
        if let Ok(d1) = check_elifs(enums, a.drop_last(), d) {
            lemma_subst_expr(enums, a.last().0, b.last().0, m, d1);
            if let Ok(d2) = check_expr(enums, a.last().0, d1) {
                lemma_subst_stmts(enums, a.last().1@, b.last().1@, m, d2);
            }
        }
    }
}

/// [`stmt_subst`] keeps cost and check.
pub proof fn lemma_subst_stmt(enums: Seq<EnumDef>, a: HirStmt, b: HirStmt, m: Map<SymbolId, Ty>, d: Set<SymbolId>)
    requires
        stmt_subst(a, b, m),
    ensures
        stmt_cost(a) == stmt_cost(b),
        check_stmt(enums, a, d) == check_stmt(enums, b, d),
    decreases a, 1int,
{
    match (a.kind, b.kind) {
        (HirStmtKind::Let { value: v1, .. }, HirStmtKind::Let { value: v2, .. }) => {
            lemma_subst_expr(enums, v1, v2, m, d);
        },
        (HirStmtKind::Expr(e1), HirStmtKind::Expr(e2)) => {
            lemma_subst_expr(enums, e1, e2, m, d);
        },
        (HirStmtKind::Return(Some(e1)), HirStmtKind::Return(Some(e2))) => {
            lemma_subst_expr(enums, e1, e2, m, d);
        },
        (HirStmtKind::Println(e1), HirStmtKind::Println(e2)) => {
            lemma_subst_expr(enums, e1, e2, m, d);
        },
        (HirStmtKind::PrintlnStr(e1), HirStmtKind::PrintlnStr(e2)) => {
            lemma_subst_expr(enums, e1, e2, m, d);
        },
        (HirStmtKind::Raise(e1), HirStmtKind::Raise(e2)) => {
            lemma_subst_expr(enums, e1, e2, m, d);
        },
        _ => {},
    }
}

/// [`stmts_subst`] keeps cost and check.
pub proof fn lemma_subst_stmts(enums: Seq<EnumDef>, a: Seq<HirStmt>, b: Seq<HirStmt>, m: Map<SymbolId, Ty>, d: Set<SymbolId>)
    requires
        stmts_subst(a, b, m),
    ensures
        stmts_cost(a) == stmts_cost(b),
        check_stmts(enums, a, d) == check_stmts(enums, b, d),
    decreases a, 0int,
{
    if a.len() > 0 {
        lemma_subst_stmts(enums, a.drop_last(), b.drop_last(), m, d);
        lemma_subst_stmt(enums, a.last(), b.last(), m, d);
        if let Ok(d1) = check_stmts(enums, a.drop_last(), d) {
            lemma_subst_stmt(enums, a.last(), b.last(), m, d1);
        }
    }
}

/// [`expr_rewrite`] keeps the lowering cost and the lowering check of an
/// expression.
pub proof fn lemma_rewrite_expr(enums: Seq<EnumDef>, a: HirExpr, b: HirExpr, fr: Seq<(DefId, Seq<Ty>, DefId)>, sr: Seq<(SymbolId, Seq<Ty>, SymbolId)>, d: Set<SymbolId>)
    requires
        expr_rewrite(a, b, fr, sr),
    ensures
        expr_cost(a) == expr_cost(b),
        check_expr(enums, a, d) == check_expr(enums, b, d),
    decreases a, 1int,
{
    match (a.kind, b.kind) {
        (HirExprKind::Assign { value: v1, .. }, HirExprKind::Assign { value: v2, .. }) => {
            lemma_rewrite_expr(enums, *v1, *v2, fr, sr, d);
        },
        (HirExprKind::AugAssign { value: v1, .. }, HirExprKind::AugAssign { value: v2, .. }) => {
            lemma_rewrite_expr(enums, *v1, *v2, fr, sr, d);
        },
        (HirExprKind::Binary { lhs: l1, rhs: r1, .. }, HirExprKind::Binary { lhs: l2, rhs: r2, .. }) => {
            lemma_rewrite_expr(enums, *l1, *l2, fr, sr, d);
            lemma_rewrite_expr(enums, *r1, *r2, fr, sr, d);
            if let Ok(d1) = check_expr(enums, *l1, d) {
                lemma_rewrite_expr(enums, *r1, *r2, fr, sr, d1);
            }
        },
        (HirExprKind::Unary { expr: e1, .. }, HirExprKind::Unary { expr: e2, .. }) => {
            lemma_rewrite_expr(enums, *e1, *e2, fr, sr, d);
        },
        (HirExprKind::Call { args: a1, .. }, HirExprKind::Call { args: a2, .. }) => {
            lemma_rewrite_exprs(enums, a1@, a2@, fr, sr, d);
        },
        (
            HirExprKind::If { condition: c1, then_branch: t1, elif_branches: e1, else_branch: x1 },
            HirExprKind::If { condition: c2, then_branch: t2, elif_branches: e2, else_branch: x2 },
        ) => {
            lemma_rewrite_expr(enums, *c1, *c2, fr, sr, d);
            lemma_rewrite_stmts(enums, t1@, t2@, fr, sr, d);
            lemma_rewrite_elifs(enums, e1@, e2@, fr, sr, d);
            if let (Some(y1), Some(y2)) = (x1, x2) {
                lemma_rewrite_stmts(enums, y1@, y2@, fr, sr, d);
            }
            if let Ok(d1) = check_expr(enums, *c1, d) {
                lemma_rewrite_stmts(enums, t1@, t2@, fr, sr, d1);
                if let Ok(d2) = check_stmts(enums, t1@, d1) {
                    lemma_rewrite_elifs(enums, e1@, e2@, fr, sr, d2);
                    if let Ok(d3) = check_elifs(enums, e1@, d2) {
                        if let (Some(y1), Some(y2)) = (x1, x2) {
                            lemma_rewrite_stmts(enums, y1@, y2@, fr, sr, d3);
                        }
                    }
                }
            }
        },
        (HirExprKind::For { var, iter: i1, body: b1 }, HirExprKind::For { iter: i2, body: b2, .. }) => {
            lemma_rewrite_stmts(enums, b1@, b2@, fr, sr, d);
            assert(expr_rewrite(*i1, *i2, fr, sr));
            match ((*i1).kind, (*i2).kind) {
                (HirExprKind::Range { start: s1, end: n1, .. }, HirExprKind::Range { start: s2, end: n2, .. }) => {
                    lemma_rewrite_expr(enums, *s1, *s2, fr, sr, d);
                    lemma_rewrite_expr(enums, *n1, *n2, fr, sr, d);
                    if let Ok(d1) = check_expr(enums, *s1, d) {
                        lemma_rewrite_expr(enums, *n1, *n2, fr, sr, d1);
                        if let Ok(d2) = check_expr(enums, *n1, d1) {
                            lemma_rewrite_stmts(enums, b1@, b2@, fr, sr, d2.insert(var));
                        }
                    }
                },
                _ => {},
            }
        },
        (HirExprKind::While { condition: c1, body: b1 }, HirExprKind::While { condition: c2, body: b2 }) => {
            lemma_rewrite_expr(enums, *c1, *c2, fr, sr, d);
            lemma_rewrite_stmts(enums, b1@, b2@, fr, sr, d);
            if let Ok(d1) = check_expr(enums, *c1, d) {
                lemma_rewrite_stmts(enums, b1@, b2@, fr, sr, d1);
            }
        },
        (HirExprKind::Range { start: s1, end: n1, .. }, HirExprKind::Range { start: s2, end: n2, .. }) => {
            lemma_rewrite_expr(enums, *s1, *s2, fr, sr, d);
        },
        (HirExprKind::StructLiteral { fields: f1, .. }, HirExprKind::StructLiteral { fields: f2, .. }) => {
            lemma_rewrite_fields(enums, f1@, f2@, fr, sr, d);
        },
        (HirExprKind::FieldAccess { expr: e1, .. }, HirExprKind::FieldAccess { expr: e2, .. }) => {
            lemma_rewrite_expr(enums, *e1, *e2, fr, sr, d);
        },
        (HirExprKind::ListLiteral { elements: e1 }, HirExprKind::ListLiteral { elements: e2 }) => {
            lemma_rewrite_exprs(enums, e1@, e2@, fr, sr, d);
        },
        (HirExprKind::Index { list: l1, index: i1 }, HirExprKind::Index { list: l2, index: i2 }) => {
            lemma_rewrite_expr(enums, *l1, *l2, fr, sr, d);
            lemma_rewrite_expr(enums, *i1, *i2, fr, sr, d);
            if let Ok(d1) = check_expr(enums, *l1, d) {
                lemma_rewrite_expr(enums, *i1, *i2, fr, sr, d1);
            }
        },
        (HirExprKind::Length { expr: e1 }, HirExprKind::Length { expr: e2 }) => {
            lemma_rewrite_expr(enums, *e1, *e2, fr, sr, d);
        },
        _ => {},
    }
}

/// [`exprs_rewrite`] keeps cost and check.
pub proof fn lemma_rewrite_exprs(enums: Seq<EnumDef>, a: Seq<HirExpr>, b: Seq<HirExpr>, fr: Seq<(DefId, Seq<Ty>, DefId)>, sr: Seq<(SymbolId, Seq<Ty>, SymbolId)>, d: Set<SymbolId>)
    requires
        exprs_rewrite(a, b, fr, sr),
    ensures
        exprs_cost(a) == exprs_cost(b),
        check_exprs(enums, a, d) == check_exprs(enums, b, d),
    decreases a, 0int,
{
    if a.len() > 0 {
        lemma_rewrite_exprs(enums, a.drop_last(), b.drop_last(), fr, sr, d);
        lemma_rewrite_expr(enums, a.last(), b.last(), fr, sr, d);
        if let Ok(d1) = check_exprs(enums, a.drop_last(), d) {
            lemma_rewrite_expr(enums, a.last(), b.last(), fr, sr, d1);
        }
    }
}

/// [`fields_rewrite`] keeps cost and check.
pub proof fn lemma_rewrite_fields(
    enums: Seq<EnumDef>,
    a: Seq<(SymbolId, Box<HirExpr>)>,
    b: Seq<(SymbolId, Box<HirExpr>)>,
    fr: Seq<(DefId, Seq<Ty>, DefId)>, sr: Seq<(SymbolId, Seq<Ty>, SymbolId)>,
    d: Set<SymbolId>,
)
    requires
        fields_rewrite(a, b, fr, sr),
    ensures
        fields_cost(a) == fields_cost(b),
        check_fields(enums, a, d) == check_fields(enums, b, d),
    decreases a, 0int,
{
    if a.len() > 0 {
        lemma_rewrite_fields(enums, a.drop_last(), b.drop_last(), fr, sr, d);
        lemma_rewrite_expr(enums, *a.last().1, *b.last().1, fr, sr, d);
        if let Ok(d1) = check_fields(enums, a.drop_last(), d) {
            lemma_rewrite_expr(enums, *a.last().1, *b.last().1, fr, sr, d1);
        }
    }
}

/// [`elifs_rewrite`] keeps cost and check.
pub proof fn lemma_rewrite_elifs(
    enums: Seq<EnumDef>,
    a: Seq<(HirExpr, Vec<HirStmt>)>,
    b: Seq<(HirExpr, Vec<HirStmt>)>,
    fr: Seq<(DefId, Seq<Ty>, DefId)>, sr: Seq<(SymbolId, Seq<Ty>, SymbolId)>,
    d: Set<SymbolId>,
)
    requires
        elifs_rewrite(a, b, fr, sr),
    ensures
        a.len() == b.len(),
        elifs_cost(a) == elifs_cost(b),
        check_elifs(enums, a, d) == check_elifs(enums, b, d),
    decreases a, 0int,
{
    if a.len() > 0 {
        lemma_rewrite_elifs(enums, a.drop_last(), b.drop_last(), fr, sr, d);
        lemma_rewrite_expr(enums, a.last().0, b.last().0, fr, sr, d);
        lemma_rewrite_stmts(enums, a.last().1@, b.last().1@, fr, sr, d);
        if let Ok(d1) = check_elifs(enums, a.drop_last(), d) {
            lemma_rewrite_expr(enums, a.last().0, b.last().0, fr, sr, d1);
            if let Ok(d2) = check_expr(enums, a.last().0, d1) {
                lemma_rewrite_stmts(enums, a.last().1@, b.last().1@, fr, sr, d2);
            }
        }
    }
}

/// [`stmt_rewrite`] keeps cost and check.
pub proof fn lemma_rewrite_stmt(enums: Seq<EnumDef>, a: HirStmt, b: HirStmt, fr: Seq<(DefId, Seq<Ty>, DefId)>, sr: Seq<(SymbolId, Seq<Ty>, SymbolId)>, d: Set<SymbolId>)
    requires
        stmt_rewrite(a, b, fr, sr),
    ensures
        stmt_cost(a) == stmt_cost(b),
        check_stmt(enums, a, d) == check_stmt(enums, b, d),
    decreases a, 1int,
{
    match (a.kind, b.kind) {
        (HirStmtKind::Let { value: v1, .. }, HirStmtKind::Let { value: v2, .. }) => {
            lemma_rewrite_expr(enums, v1, v2, fr, sr, d);
        },
        (HirStmtKind::Expr(e1), HirStmtKind::Expr(e2)) => {
            lemma_rewrite_expr(enums, e1, e2, fr, sr, d);
        },
        (HirStmtKind::Return(Some(e1)), HirStmtKind::Return(Some(e2))) => {
            lemma_rewrite_expr(enums, e1, e2, fr, sr, d);
        },
        (HirStmtKind::Println(e1), HirStmtKind::Println(e2)) => {
            lemma_rewrite_expr(enums, e1, e2, fr, sr, d);
        },
        (HirStmtKind::PrintlnStr(e1), HirStmtKind::PrintlnStr(e2)) => {
            lemma_rewrite_expr(enums, e1, e2, fr, sr, d);
        },
        (HirStmtKind::Raise(e1), HirStmtKind::Raise(e2)) => {
            lemma_rewrite_expr(enums, e1, e2, fr, sr, d);
        },
        _ => {},
    }
}

/// [`stmts_rewrite`] keeps cost and check.
pub proof fn lemma_rewrite_stmts(enums: Seq<EnumDef>, a: Seq<HirStmt>, b: Seq<HirStmt>, fr: Seq<(DefId, Seq<Ty>, DefId)>, sr: Seq<(SymbolId, Seq<Ty>, SymbolId)>, d: Set<SymbolId>)
    requires
        stmts_rewrite(a, b, fr, sr),
    ensures
        stmts_cost(a) == stmts_cost(b),
        check_stmts(enums, a, d) == check_stmts(enums, b, d),
    decreases a, 0int,
{
    if a.len() > 0 {
        lemma_rewrite_stmts(enums, a.drop_last(), b.drop_last(), fr, sr, d);
        lemma_rewrite_stmt(enums, a.last(), b.last(), fr, sr, d);
        if let Ok(d1) = check_stmts(enums, a.drop_last(), d) {
            lemma_rewrite_stmt(enums, a.last(), b.last(), fr, sr, d1);
        }
    }
}

} // verus!
