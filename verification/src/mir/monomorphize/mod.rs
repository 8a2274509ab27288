//! Pieces of monomorphization: type substitution, the naming of
//! instantiated functions and the counters that number them.
use vstd::prelude::*;
use crate::hir::expr::{HirExpr, HirExprKind};
use crate::hir::stmt::{HirStmt, HirStmtKind};
use crate::hir::symbol::{DefId, SymbolId};
use crate::hir::types::{HirType, Substitution, Ty, model_of, models_of, same_types, ty_has_generic, tys_have_generic, ty_substitute,
    tys_substitute, lemma_models_of_push, lemma_models_of_index, lemma_models_of_len};
use crate::text::{decimal, push_char, push_decimal};

pub mod collect;
pub mod pass;
pub use pass::{lower_one_function, monomorphize};
pub mod shape;

verus! {

/// Apply a substitution to a type: each `Generic(p)` that `subst` maps is
/// replaced, recursively inside `Apply` arguments; everything else is kept.
pub fn substitute_type(ty: &HirType, subst: &Substitution) -> (r: HirType)
    ensures
        model_of(r) == ty_substitute(model_of(*ty), subst@),
{
    ty.substitute(subst)
}

/// A type without generic parameters is left unchanged by any substitution.
pub proof fn law_substitute_ground(t: Ty, m: Map<SymbolId, Ty>)
    requires
        !ty_has_generic(t),
    ensures
        ty_substitute(t, m) == t,
    decreases t, 0int,
{
    match t {
        Ty::Apply { base, args } => {
            lemma_substitute_ground_seq(args, m);
        },
        _ => {},
    }
}

proof fn lemma_substitute_ground_seq(s: Seq<Ty>, m: Map<SymbolId, Ty>)
    requires
        !tys_have_generic(s),
    ensures
        tys_substitute(s, m) == s,
    decreases s, 1int,
{
    if s.len() > 0 {
        assert(decreases_to!(s => s[s.len() - 1]));
        lemma_substitute_ground_seq(s.drop_last(), m);
        law_substitute_ground(s.last(), m);
        assert(s.drop_last().push(s.last()) == s);
    }
}

/// The empty substitution changes nothing.
pub proof fn law_substitute_empty(t: Ty)
    ensures
        ty_substitute(t, Map::empty()) == t,
    decreases t, 0int,
{
    match t {
        Ty::Apply { base, args } => {
            lemma_substitute_empty_seq(args);
        },
        _ => {},
    }
}

proof fn lemma_substitute_empty_seq(s: Seq<Ty>)
    ensures
        tys_substitute(s, Map::empty()) == s,
    decreases s, 1int,
{
    if s.len() > 0 {
        assert(decreases_to!(s => s[s.len() - 1]));
        lemma_substitute_empty_seq(s.drop_last());
        law_substitute_empty(s.last());
        assert(s.drop_last().push(s.last()) == s);
    }
}

/// Once every mapped parameter is replaced by a type without parameters,
/// substituting again changes nothing.
pub proof fn law_substitute_idempotent(t: Ty, m: Map<SymbolId, Ty>)
    requires
        forall|p: SymbolId| m.contains_key(p) ==> !ty_has_generic(#[trigger] m[p]),
    ensures
        ty_substitute(ty_substitute(t, m), m) == ty_substitute(t, m),
    decreases t, 0int,
{
    match t {
        Ty::Generic(p) => {
            if m.contains_key(p) {
                law_substitute_ground(m[p], m);
            }
        },
        Ty::Apply { base, args } => {
            lemma_substitute_idempotent_seq(args, m);
        },
        _ => {},
    }
}

proof fn lemma_substitute_idempotent_seq(s: Seq<Ty>, m: Map<SymbolId, Ty>)
    requires
        forall|p: SymbolId| m.contains_key(p) ==> !ty_has_generic(#[trigger] m[p]),
    ensures
        tys_substitute(tys_substitute(s, m), m) == tys_substitute(s, m),
    decreases s, 1int,
{
    if s.len() > 0 {
        assert(decreases_to!(s => s[s.len() - 1]));
        lemma_substitute_idempotent_seq(s.drop_last(), m);
        law_substitute_idempotent(s.last(), m);
        let once = tys_substitute(s, m);
        assert(once.drop_last() == tys_substitute(s.drop_last(), m));
        assert(once.last() == ty_substitute(s.last(), m));
    }
}

/// Every generic parameter of `t` is one that `m` maps.
pub open spec fn params_covered(t: Ty, m: Map<SymbolId, Ty>) -> bool
    decreases t, 0int,
{
    match t {
        Ty::Generic(p) => m.contains_key(p),
        Ty::Apply { args, .. } => params_covered_seq(args, m),
        _ => true,
    }
}

pub open spec fn params_covered_seq(s: Seq<Ty>, m: Map<SymbolId, Ty>) -> bool
    decreases s, 1int,
{
    if s.len() == 0 {
        true
    } else {
        params_covered_seq(s.drop_last(), m) && params_covered(s.last(), m)
    }
}

/// A substitution that maps every parameter of `t` to a type without
/// parameters leaves no parameter in `t`.
pub proof fn law_substitute_grounds(t: Ty, m: Map<SymbolId, Ty>)
    requires
        params_covered(t, m),
        forall|p: SymbolId| m.contains_key(p) ==> !ty_has_generic(#[trigger] m[p]),
    ensures
        !ty_has_generic(ty_substitute(t, m)),
    decreases t, 0int,
{
    match t {
        Ty::Apply { base, args } => {
            lemma_substitute_grounds_seq(args, m);
        },
        _ => {},
    }
}

proof fn lemma_substitute_grounds_seq(s: Seq<Ty>, m: Map<SymbolId, Ty>)
    requires
        params_covered_seq(s, m),
        forall|p: SymbolId| m.contains_key(p) ==> !ty_has_generic(#[trigger] m[p]),
    ensures
        !tys_have_generic(tys_substitute(s, m)),
    decreases s, 1int,
{
    if s.len() > 0 {
        assert(decreases_to!(s => s[s.len() - 1]));
        lemma_substitute_grounds_seq(s.drop_last(), m);
        law_substitute_grounds(s.last(), m);
        let r = tys_substitute(s, m);
        assert(r.drop_last() == tys_substitute(s.drop_last(), m));
        assert(r.last() == ty_substitute(s.last(), m));
    }
}

/// Substitution keeps the shape of an applied type: its base and the
/// number of its arguments, each argument substituted in place.
pub proof fn law_substitute_apply(base: SymbolId, args: Seq<Ty>, m: Map<SymbolId, Ty>)
    ensures
        ty_substitute(Ty::Apply { base, args }, m) matches Ty::Apply { base: b2, args: a2 }
            && b2 == base && a2.len() == args.len()
            && forall|i: int| 0 <= i < args.len() ==> #[trigger] a2[i] == ty_substitute(args[i], m),
{
    lemma_substitute_seq_pointwise(args, m);
}

proof fn lemma_substitute_seq_pointwise(s: Seq<Ty>, m: Map<SymbolId, Ty>)
    ensures
        tys_substitute(s, m).len() == s.len(),
        forall|i: int| 0 <= i < s.len() ==> #[trigger] tys_substitute(s, m)[i] == ty_substitute(s[i], m),
    decreases s.len(),
{
    if s.len() > 0 {
        lemma_substitute_seq_pointwise(s.drop_last(), m);
        assert forall|i: int| 0 <= i < s.len() implies #[trigger] tys_substitute(s, m)[i] == ty_substitute(s[i], m) by {
            if i < s.len() - 1 {
                assert(tys_substitute(s, m)[i] == tys_substitute(s.drop_last(), m)[i]);
                assert(s.drop_last()[i] == s[i]);
            }
        }
    }
}

/// Numbers the instantiations of one generic function: 0, 1, 2, ...
#[derive(Debug, Default)]
pub struct NameCounter {
    pub next: u32,
}

impl NameCounter {
    /// The next unused suffix; the counter moves past it.
    pub fn fresh_suffix(&mut self) -> (r: u32)
        requires
            old(self).next < u32::MAX,
        ensures
            r == old(self).next,
            final(self).next == old(self).next + 1,
    {
        let n = self.next;
        self.next = self.next + 1;
        n
    }
}

/// The name of an instantiated function: the generic function's name, `$`,
/// and the instantiation's number.
pub open spec fn monomorphized_name_spec(base: Seq<char>, suffix: u32) -> Seq<char> {
    base + seq!['$'] + decimal(suffix as nat)
}

/// One distinct (generic function, concrete type arguments) pair.
#[derive(Debug, PartialEq, Eq, Hash)]
pub struct Instantiation {
    pub callee: DefId,
    pub args: Vec<HirType>,
}

impl Instantiation {
    /// The name of this instantiation, such as `id$1`.
    pub fn monomorphized_name(&self, base: &str, suffix: u32) -> (r: String)
        ensures
            r@ == monomorphized_name_spec(base@, suffix),
    {
        copy_name(base, suffix)
    }
}

/// `base`, `$` and `suffix`: the name of a function's or struct's copy.
pub(crate) fn copy_name(base: &str, suffix: u32) -> (r: String)
    ensures
        r@ == monomorphized_name_spec(base@, suffix),
{
    let mut s = String::from_str(base);
    push_char(&mut s, '$');
    push_decimal(&mut s, suffix);
    s
}

/// One distinct (generic struct, concrete type arguments) pair.
#[derive(Debug, PartialEq, Eq, Hash)]
pub struct StructInstantiation {
    pub original: DefId,
    pub args: Vec<HirType>,
}


// ---------------------------------------------------------------------------
// Substitution through function bodies
// ---------------------------------------------------------------------------

/// `b` is the type list `a` with `m` applied to each type.
pub open spec fn tys_subst(a: Seq<HirType>, b: Seq<HirType>, m: Map<SymbolId, Ty>) -> bool {
    models_of(b) == tys_substitute(models_of(a), m)
}

/// `b` is the expression `a` with `m` applied to every type in it: its own
/// type, the type arguments of calls and struct literals, and those of
/// every subexpression and nested statement.  Everything else is kept.
pub open spec fn expr_subst(a: HirExpr, b: HirExpr, m: Map<SymbolId, Ty>) -> bool
    decreases a,
{
    &&& b.span == a.span
    &&& model_of(b.ty) == ty_substitute(model_of(a.ty), m)
    &&& match (a.kind, b.kind) {
        (HirExprKind::Integer(x), HirExprKind::Integer(y)) => x == y,
        (HirExprKind::Float(x), HirExprKind::Float(y)) => x == y,
        (HirExprKind::Bool(x), HirExprKind::Bool(y)) => x == y,
        (HirExprKind::StrLit(x), HirExprKind::StrLit(y)) => x == y,
        (HirExprKind::Unit, HirExprKind::Unit) => true,
        (HirExprKind::Variable { symbol: x }, HirExprKind::Variable { symbol: y }) => x == y,
        (HirExprKind::Assign { symbol: s1, value: v1 }, HirExprKind::Assign { symbol: s2, value: v2 }) => s1 == s2
            && expr_subst(*v1, *v2, m),
        (
            HirExprKind::AugAssign { symbol: s1, op: o1, value: v1 },
            HirExprKind::AugAssign { symbol: s2, op: o2, value: v2 },
        ) => s1 == s2 && o1 == o2 && expr_subst(*v1, *v2, m),
        (HirExprKind::Binary { op: o1, lhs: l1, rhs: r1 }, HirExprKind::Binary { op: o2, lhs: l2, rhs: r2 }) => o1
            == o2 && expr_subst(*l1, *l2, m) && expr_subst(*r1, *r2, m),
        (HirExprKind::Unary { op: o1, expr: e1 }, HirExprKind::Unary { op: o2, expr: e2 }) => o1 == o2 && expr_subst(
            *e1,
            *e2,
            m,
        ),
        (
            HirExprKind::Call { func: f1, args: a1, type_args: t1 },
            HirExprKind::Call { func: f2, args: a2, type_args: t2 },
        ) => f1 == f2 && exprs_subst(a1@, a2@, m) && tys_subst(t1@, t2@, m),
        (
            HirExprKind::If { condition: c1, then_branch: t1, elif_branches: e1, else_branch: x1 },
            HirExprKind::If { condition: c2, then_branch: t2, elif_branches: e2, else_branch: x2 },
        ) => expr_subst(*c1, *c2, m) && stmts_subst(t1@, t2@, m) && elifs_subst(e1@, e2@, m) && match (x1, x2) {
            (Some(b1), Some(b2)) => stmts_subst(b1@, b2@, m),
            (None, None) => true,
            _ => false,
        },
        (HirExprKind::For { var: v1, iter: i1, body: b1 }, HirExprKind::For { var: v2, iter: i2, body: b2 }) => v1 == v2
            && expr_subst(*i1, *i2, m) && stmts_subst(b1@, b2@, m),
        (HirExprKind::While { condition: c1, body: b1 }, HirExprKind::While { condition: c2, body: b2 }) => expr_subst(
            *c1,
            *c2,
            m,
        ) && stmts_subst(b1@, b2@, m),
        (
            HirExprKind::Range { start: s1, end: e1, is_inclusive: i1 },
            HirExprKind::Range { start: s2, end: e2, is_inclusive: i2 },
        ) => i1 == i2 && expr_subst(*s1, *s2, m) && expr_subst(*e1, *e2, m),
        (
            HirExprKind::StructLiteral { name: n1, fields: f1, type_args: t1 },
            HirExprKind::StructLiteral { name: n2, fields: f2, type_args: t2 },
        ) => n1 == n2 && fields_subst(f1@, f2@, m) && tys_subst(t1@, t2@, m),
        (HirExprKind::FieldAccess { expr: e1, field: f1 }, HirExprKind::FieldAccess { expr: e2, field: f2 }) => f1 == f2
            && expr_subst(*e1, *e2, m),
        (HirExprKind::ListLiteral { elements: e1 }, HirExprKind::ListLiteral { elements: e2 }) => exprs_subst(e1@, e2@, m),
        (HirExprKind::Index { list: l1, index: i1 }, HirExprKind::Index { list: l2, index: i2 }) => expr_subst(*l1, *l2, m)
            && expr_subst(*i1, *i2, m),
        (HirExprKind::Length { expr: e1 }, HirExprKind::Length { expr: e2 }) => expr_subst(*e1, *e2, m),
        (
            HirExprKind::EnumConstructor { name: n1, variant: v1 },
            HirExprKind::EnumConstructor { name: n2, variant: v2 },
        ) => n1 == n2 && v1 == v2,
        _ => false,
    }
}

/// Pointwise [`expr_subst`].
pub open spec fn exprs_subst(a: Seq<HirExpr>, b: Seq<HirExpr>, m: Map<SymbolId, Ty>) -> bool
    decreases a,
{
    &&& a.len() == b.len()
    &&& a.len() > 0 ==> exprs_subst(a.drop_last(), b.drop_last(), m) && expr_subst(a.last(), b.last(), m)
}

/// Pointwise on struct literal fields: same names, substituted values.
pub open spec fn fields_subst(a: Seq<(SymbolId, Box<HirExpr>)>, b: Seq<(SymbolId, Box<HirExpr>)>, m: Map<SymbolId, Ty>) -> bool
    decreases a,
{
    &&& a.len() == b.len()
    &&& a.len() > 0 ==> fields_subst(a.drop_last(), b.drop_last(), m) && a.last().0 == b.last().0 && expr_subst(
        *a.last().1,
        *b.last().1,
        m,
    )
}

/// Pointwise on `elif` arms.
pub open spec fn elifs_subst(a: Seq<(HirExpr, Vec<HirStmt>)>, b: Seq<(HirExpr, Vec<HirStmt>)>, m: Map<SymbolId, Ty>) -> bool
    decreases a,
{
    &&& a.len() == b.len()
    &&& a.len() > 0 ==> elifs_subst(a.drop_last(), b.drop_last(), m) && expr_subst(a.last().0, b.last().0, m)
        && stmts_subst(a.last().1@, b.last().1@, m)
}

/// `b` is the statement `a` with `m` applied to every type in it.
pub open spec fn stmt_subst(a: HirStmt, b: HirStmt, m: Map<SymbolId, Ty>) -> bool
    decreases a,
{
    &&& b.span == a.span
    &&& match (a.kind, b.kind) {
        (
            HirStmtKind::Let { name: n1, mutable: u1, ty: t1, value: v1 },
            HirStmtKind::Let { name: n2, mutable: u2, ty: t2, value: v2 },
        ) => n1 == n2 && u1 == u2 && expr_subst(v1, v2, m) && match (t1, t2) {
            (Some(x), Some(y)) => model_of(y) == ty_substitute(model_of(x), m),
            (None, None) => true,
            _ => false,
        },
        (HirStmtKind::Expr(e1), HirStmtKind::Expr(e2)) => expr_subst(e1, e2, m),
        (HirStmtKind::Return(r1), HirStmtKind::Return(r2)) => match (r1, r2) {
            (Some(e1), Some(e2)) => expr_subst(e1, e2, m),
            (None, None) => true,
            _ => false,
        },
        (HirStmtKind::Println(e1), HirStmtKind::Println(e2)) => expr_subst(e1, e2, m),
        (HirStmtKind::PrintlnStr(e1), HirStmtKind::PrintlnStr(e2)) => expr_subst(e1, e2, m),
        (HirStmtKind::Raise(e1), HirStmtKind::Raise(e2)) => expr_subst(e1, e2, m),
        (HirStmtKind::StructDef { name: n1, fields: f1 }, HirStmtKind::StructDef { name: n2, fields: f2 }) => n1 == n2
            && f1@.len() == f2@.len() && forall|k: int|
            0 <= k < f1@.len() ==> (#[trigger] f2@[k]).0 == f1@[k].0 && model_of(f2@[k].1) == ty_substitute(
                model_of(f1@[k].1),
                m,
            ),
        (HirStmtKind::EnumDef { name: n1, variants: v1 }, HirStmtKind::EnumDef { name: n2, variants: v2 }) => n1 == n2
            && v1@ == v2@,
        _ => false,
    }
}

/// Pointwise [`stmt_subst`].
pub open spec fn stmts_subst(a: Seq<HirStmt>, b: Seq<HirStmt>, m: Map<SymbolId, Ty>) -> bool
    decreases a,
{
    &&& a.len() == b.len()
    &&& a.len() > 0 ==> stmts_subst(a.drop_last(), b.drop_last(), m) && stmt_subst(a.last(), b.last(), m)
}


fn substitute_types(ts: &Vec<HirType>, subst: &Substitution) -> (r: Vec<HirType>)
    ensures
        tys_subst(ts@, r@, subst@),
{
    let mut out: Vec<HirType> = Vec::new();
    let mut i: usize = 0;
    while i < ts.len()
        invariant
            i <= ts@.len(),
            models_of(out@) == tys_substitute(models_of(ts@.take(i as int)), subst@),
        decreases ts@.len() - i,
    {
        let t = substitute_type(&ts[i], subst);
        proof {
            assert(ts@.take(i + 1) == ts@.take(i as int).push(ts@[i as int]));
            lemma_models_of_push(ts@.take(i as int), ts@[i as int]);
            lemma_models_of_push(out@, t);
            assert(models_of(ts@.take(i + 1)).drop_last() == models_of(ts@.take(i as int)));
        }
        out.push(t);
        i = i + 1;
    }
    assert(ts@.take(ts@.len() as int) == ts@);
    out
}

/// Apply a substitution to every type in an expression.
pub fn substitute_expr(expr: &HirExpr, subst: &Substitution) -> (r: HirExpr)
    ensures
        expr_subst(*expr, r, subst@),
    decreases *expr, 1int,
{
    let ty = substitute_type(&expr.ty, subst);
    let kind = match &expr.kind {
        HirExprKind::Integer(i) => HirExprKind::Integer(*i),
        HirExprKind::Float(f) => HirExprKind::Float(*f),
        HirExprKind::Bool(b) => HirExprKind::Bool(*b),
        HirExprKind::StrLit(s) => HirExprKind::StrLit(*s),
        HirExprKind::Unit => HirExprKind::Unit,
        HirExprKind::Variable { symbol } => HirExprKind::Variable { symbol: *symbol },
        HirExprKind::Assign { symbol, value } => HirExprKind::Assign {
            symbol: *symbol,
            value: Box::new(substitute_expr(value, subst)),
        },
        HirExprKind::AugAssign { symbol, op, value } => HirExprKind::AugAssign {
            symbol: *symbol,
            op: *op,
            value: Box::new(substitute_expr(value, subst)),
        },
        HirExprKind::Binary { op, lhs, rhs } => HirExprKind::Binary {
            op: *op,
            lhs: Box::new(substitute_expr(lhs, subst)),
            rhs: Box::new(substitute_expr(rhs, subst)),
        },
        HirExprKind::Unary { op, expr: inner } => HirExprKind::Unary {
            op: *op,
            expr: Box::new(substitute_expr(inner, subst)),
        },
        HirExprKind::Call { func, args, type_args } => HirExprKind::Call {
            func: *func,
            args: substitute_exprs(args, subst),
            type_args: substitute_types(type_args, subst),
        },
        HirExprKind::If { condition, then_branch, elif_branches, else_branch } => HirExprKind::If {
            condition: Box::new(substitute_expr(condition, subst)),
            then_branch: substitute_stmts(then_branch, subst),
            elif_branches: substitute_elifs(elif_branches, subst),
            else_branch: match else_branch {
                Some(b) => Some(substitute_stmts(b, subst)),
                None => None,
            },
        },
        HirExprKind::For { var, iter, body } => HirExprKind::For {
            var: *var,
            iter: Box::new(substitute_expr(iter, subst)),
            body: substitute_stmts(body, subst),
        },
        HirExprKind::While { condition, body } => HirExprKind::While {
            condition: Box::new(substitute_expr(condition, subst)),
            body: substitute_stmts(body, subst),
        },
        HirExprKind::Range { start, end, is_inclusive } => HirExprKind::Range {
            start: Box::new(substitute_expr(start, subst)),
            end: Box::new(substitute_expr(end, subst)),
            is_inclusive: *is_inclusive,
        },
        HirExprKind::StructLiteral { name, fields, type_args } => HirExprKind::StructLiteral {
            name: *name,
            fields: substitute_fields(fields, subst),
            type_args: substitute_types(type_args, subst),
        },
        HirExprKind::FieldAccess { expr: inner, field } => HirExprKind::FieldAccess {
            expr: Box::new(substitute_expr(inner, subst)),
            field: *field,
        },
        HirExprKind::ListLiteral { elements } => HirExprKind::ListLiteral { elements: substitute_exprs(elements, subst) },
        HirExprKind::Index { list, index } => HirExprKind::Index {
            list: Box::new(substitute_expr(list, subst)),
            index: Box::new(substitute_expr(index, subst)),
        },
        HirExprKind::Length { expr: inner } => HirExprKind::Length { expr: Box::new(substitute_expr(inner, subst)) },
        HirExprKind::EnumConstructor { name, variant } => HirExprKind::EnumConstructor { name: *name, variant: *variant },
    };
    HirExpr { kind, ty, span: expr.span }
}

fn substitute_exprs(es: &Vec<HirExpr>, subst: &Substitution) -> (r: Vec<HirExpr>)
    ensures
        exprs_subst(es@, r@, subst@),
    decreases es@, 0int,
{
    let mut out: Vec<HirExpr> = Vec::new();
    let mut i: usize = 0;
    while i < es.len()
        invariant
            i <= es@.len(),
            exprs_subst(es@.take(i as int), out@, subst@),
        decreases es@.len() - i,
    {
        let e = substitute_expr(&es[i], subst);
        proof {
            assert(es@.take(i + 1).drop_last() == es@.take(i as int));
            assert(es@.take(i + 1).last() == es@[i as int]);
            assert(out@.push(e).drop_last() == out@);
        }
        out.push(e);
        i = i + 1;
    }
    assert(es@.take(es@.len() as int) == es@);
    out
}

fn substitute_fields(fs: &Vec<(SymbolId, Box<HirExpr>)>, subst: &Substitution) -> (r: Vec<(SymbolId, Box<HirExpr>)>)
    ensures
        fields_subst(fs@, r@, subst@),
    decreases fs@, 0int,
{
    let mut out: Vec<(SymbolId, Box<HirExpr>)> = Vec::new();
    let mut i: usize = 0;
    while i < fs.len()
        invariant
            i <= fs@.len(),
            fields_subst(fs@.take(i as int), out@, subst@),
        decreases fs@.len() - i,
    {
        proof {
            assert(decreases_to!(fs@ => fs@[i as int]));
        }
        let e = substitute_expr(&fs[i].1, subst);
        let item = (fs[i].0, Box::new(e));
        proof {
            assert(fs@.take(i + 1).drop_last() == fs@.take(i as int));
            assert(fs@.take(i + 1).last() == fs@[i as int]);
            assert(out@.push(item).drop_last() == out@);
        }
        out.push(item);
        i = i + 1;
    }
    assert(fs@.take(fs@.len() as int) == fs@);
    out
}

fn substitute_elifs(arms: &Vec<(HirExpr, Vec<HirStmt>)>, subst: &Substitution) -> (r: Vec<(HirExpr, Vec<HirStmt>)>)
    ensures
        elifs_subst(arms@, r@, subst@),
    decreases arms@, 0int,
{
    let mut out: Vec<(HirExpr, Vec<HirStmt>)> = Vec::new();
    let mut i: usize = 0;
    while i < arms.len()
        invariant
            i <= arms@.len(),
            elifs_subst(arms@.take(i as int), out@, subst@),
        decreases arms@.len() - i,
    {
        proof {
            assert(decreases_to!(arms@ => arms@[i as int]));
        }
        let c = substitute_expr(&arms[i].0, subst);
        let b = substitute_stmts(&arms[i].1, subst);
        let item = (c, b);
        proof {
            assert(arms@.take(i + 1).drop_last() == arms@.take(i as int));
            assert(arms@.take(i + 1).last() == arms@[i as int]);
            assert(out@.push(item).drop_last() == out@);
        }
        out.push(item);
        i = i + 1;
    }
    assert(arms@.take(arms@.len() as int) == arms@);
    out
}

/// Apply a substitution to every type in a statement.
pub fn substitute_stmt(stmt: &HirStmt, subst: &Substitution) -> (r: HirStmt)
    ensures
        stmt_subst(*stmt, r, subst@),
    decreases *stmt, 1int,
{
    let kind = match &stmt.kind {
        HirStmtKind::Let { name, mutable, ty, value } => HirStmtKind::Let {
            name: *name,
            mutable: *mutable,
            ty: match ty {
                Some(t) => Some(substitute_type(t, subst)),
                None => None,
            },
            value: substitute_expr(value, subst),
        },
        HirStmtKind::Expr(e) => HirStmtKind::Expr(substitute_expr(e, subst)),
        HirStmtKind::Return(e) => HirStmtKind::Return(
            match e {
                Some(x) => Some(substitute_expr(x, subst)),
                None => None,
            },
        ),
        HirStmtKind::Println(e) => HirStmtKind::Println(substitute_expr(e, subst)),
        HirStmtKind::PrintlnStr(e) => HirStmtKind::PrintlnStr(substitute_expr(e, subst)),
        HirStmtKind::Raise(e) => HirStmtKind::Raise(substitute_expr(e, subst)),
        HirStmtKind::StructDef { name, fields } => {
            let mut out: Vec<(SymbolId, HirType)> = Vec::new();
            let mut i: usize = 0;
            while i < fields.len()
                invariant
                    i <= fields@.len(),
                    out@.len() == i,
                    forall|k: int| 0 <= k < i ==> (#[trigger] out@[k]).0 == fields@[k].0 && model_of(out@[k].1)
                        == ty_substitute(model_of(fields@[k].1), subst@),
                decreases fields@.len() - i,
            {
                out.push((fields[i].0, substitute_type(&fields[i].1, subst)));
                i = i + 1;
            }
            HirStmtKind::StructDef { name: *name, fields: out }
        },
        HirStmtKind::EnumDef { name, variants } => {
            let mut out: Vec<SymbolId> = Vec::new();
            let mut i: usize = 0;
            while i < variants.len()
                invariant
                    i <= variants@.len(),
                    out@ == variants@.take(i as int),
                decreases variants@.len() - i,
            {
                out.push(variants[i]);
                assert(variants@.take(i + 1) == variants@.take(i as int).push(variants@[i as int]));
                i = i + 1;
            }
            assert(variants@.take(variants@.len() as int) == variants@);
            HirStmtKind::EnumDef { name: *name, variants: out }
        },
    };
    HirStmt { kind, span: stmt.span }
}

fn substitute_stmts(ss: &Vec<HirStmt>, subst: &Substitution) -> (r: Vec<HirStmt>)
    ensures
        stmts_subst(ss@, r@, subst@),
    decreases ss@, 0int,
{
    let mut out: Vec<HirStmt> = Vec::new();
    let mut i: usize = 0;
    while i < ss.len()
        invariant
            i <= ss@.len(),
            stmts_subst(ss@.take(i as int), out@, subst@),
        decreases ss@.len() - i,
    {
        let st = substitute_stmt(&ss[i], subst);
        proof {
            assert(ss@.take(i + 1).drop_last() == ss@.take(i as int));
            assert(ss@.take(i + 1).last() == ss@[i as int]);
            assert(out@.push(st).drop_last() == out@);
        }
        out.push(st);
        i = i + 1;
    }
    assert(ss@.take(ss@.len() as int) == ss@);
    out
}


// ---------------------------------------------------------------------------
// Retargeting calls and struct literals to instantiations
// ---------------------------------------------------------------------------

/// The instantiation a key maps to: the latest entry for it.
pub open spec fn call_target(r: Seq<(DefId, Seq<Ty>, DefId)>, f: DefId, k: Seq<Ty>) -> Option<DefId>
    decreases r.len(),
{
    if r.len() == 0 {
        None
    } else if r.last().0 == f && r.last().1 == k {
        Some(r.last().2)
    } else {
        call_target(r.drop_last(), f, k)
    }
}

/// The struct instantiation a key maps to: the latest entry for it.
pub open spec fn struct_target(r: Seq<(SymbolId, Seq<Ty>, SymbolId)>, n: SymbolId, k: Seq<Ty>) -> Option<SymbolId>
    decreases r.len(),
{
    if r.len() == 0 {
        None
    } else if r.last().0 == n && r.last().1 == k {
        Some(r.last().2)
    } else {
        struct_target(r.drop_last(), n, k)
    }
}

/// Clone a list of types.
pub fn clone_types(ts: &Vec<HirType>) -> (r: Vec<HirType>)
    ensures
        models_of(r@) == models_of(ts@),
{
    let mut out: Vec<HirType> = Vec::new();
    let mut i: usize = 0;
    while i < ts.len()
        invariant
            i <= ts@.len(),
            models_of(out@) == models_of(ts@.take(i as int)),
        decreases ts@.len() - i,
    {
        let t = ts[i].clone();
        proof {
            assert(ts@.take(i + 1) == ts@.take(i as int).push(ts@[i as int]));
            lemma_models_of_push(ts@.take(i as int), ts@[i as int]);
            lemma_models_of_push(out@, t);
        }
        out.push(t);
        i = i + 1;
    }
    assert(ts@.take(ts@.len() as int) == ts@);
    out
}

/// Maps (generic function, concrete type arguments) to the instantiated
/// function; a later entry for the same key replaces an earlier one.
pub struct CallRemap {
    entries: Vec<(DefId, Vec<HirType>, DefId)>,
}

impl View for CallRemap {
    type V = Seq<(DefId, Seq<Ty>, DefId)>;

    closed spec fn view(&self) -> Seq<(DefId, Seq<Ty>, DefId)> {
        self.entries@.map_values(|e: (DefId, Vec<HirType>, DefId)| (e.0, models_of(e.1@), e.2))
    }
}

impl CallRemap {
    pub fn new() -> (r: CallRemap)
        ensures
            r@ == Seq::<(DefId, Seq<Ty>, DefId)>::empty(),
    {
        let r = CallRemap { entries: Vec::new() };
        assert(r@ =~= Seq::<(DefId, Seq<Ty>, DefId)>::empty());
        r
    }

    pub fn insert(&mut self, callee: DefId, args: Vec<HirType>, target: DefId)
        ensures
            final(self)@ == old(self)@.push((callee, models_of(args@), target)),
    {
        self.entries.push((callee, args, target));
        assert(self@ =~= old(self)@.push((callee, models_of(args@), target)));
    }

    pub fn get(&self, callee: DefId, args: &Vec<HirType>) -> (r: Option<DefId>)
        ensures
            r == call_target(self@, callee, models_of(args@)),
    {
        let mut i = self.entries.len();
        assert(self@.len() == self.entries@.len());
        assert(self@.take(i as int) == self@);
        while i > 0
            invariant
                i <= self.entries@.len(),
                call_target(self@, callee, models_of(args@)) == call_target(self@.take(i as int), callee, models_of(args@)),
            decreases i,
        {
            proof {
                assert(self@.take(i as int).drop_last() == self@.take(i - 1));
                assert(self@.take(i as int).last() == self@[i - 1]);
            }
            let e = &self.entries[i - 1];
            if e.0 == callee && same_types(&e.1, args) {
                return Some(e.2);
            }
            i = i - 1;
        }
        None
    }
}

/// Maps (generic struct, concrete type arguments) to the instantiated
/// struct's name; a later entry for the same key replaces an earlier one.
pub struct StructRemap {
    entries: Vec<(SymbolId, Vec<HirType>, SymbolId)>,
}

impl View for StructRemap {
    type V = Seq<(SymbolId, Seq<Ty>, SymbolId)>;

    closed spec fn view(&self) -> Seq<(SymbolId, Seq<Ty>, SymbolId)> {
        self.entries@.map_values(|e: (SymbolId, Vec<HirType>, SymbolId)| (e.0, models_of(e.1@), e.2))
    }
}

impl StructRemap {
    pub fn new() -> (r: StructRemap)
        ensures
            r@ == Seq::<(SymbolId, Seq<Ty>, SymbolId)>::empty(),
    {
        let r = StructRemap { entries: Vec::new() };
        assert(r@ =~= Seq::<(SymbolId, Seq<Ty>, SymbolId)>::empty());
        r
    }

    pub fn insert(&mut self, name: SymbolId, args: Vec<HirType>, target: SymbolId)
        ensures
            final(self)@ == old(self)@.push((name, models_of(args@), target)),
    {
        self.entries.push((name, args, target));
        assert(self@ =~= old(self)@.push((name, models_of(args@), target)));
    }

    pub fn get(&self, name: SymbolId, args: &Vec<HirType>) -> (r: Option<SymbolId>)
        ensures
            r == struct_target(self@, name, models_of(args@)),
    {
        let mut i = self.entries.len();
        assert(self@.len() == self.entries@.len());
        assert(self@.take(i as int) == self@);
        while i > 0
            invariant
                i <= self.entries@.len(),
                struct_target(self@, name, models_of(args@)) == struct_target(self@.take(i as int), name, models_of(args@)),
            decreases i,
        {
            proof {
                assert(self@.take(i as int).drop_last() == self@.take(i - 1));
                assert(self@.take(i as int).last() == self@[i - 1]);
            }
            let e = &self.entries[i - 1];
            if e.0 == name && same_types(&e.1, args) {
                return Some(e.2);
            }
            i = i - 1;
        }
        None
    }
}

/// The type models of a list of expressions.
pub open spec fn expr_types(es: Seq<HirExpr>) -> Seq<Ty> {
    es.map_values(|e: HirExpr| model_of(e.ty))
}

/// The function a call of `f` goes to: the instantiation for its type
/// arguments (explicit ones, else its arguments' types), or `f` itself.
pub open spec fn call_retarget(fr: Seq<(DefId, Seq<Ty>, DefId)>, f: DefId, type_args: Seq<HirType>, args: Seq<HirExpr>) -> DefId {
    let key = if type_args.len() > 0 {
        models_of(type_args)
    } else {
        expr_types(args)
    };
    match call_target(fr, f, key) {
        Some(d) => d,
        None => f,
    }
}

/// The struct a literal of `n` builds: the instantiation for its type
/// arguments, or `n` itself.
pub open spec fn struct_retarget(sr: Seq<(SymbolId, Seq<Ty>, SymbolId)>, n: SymbolId, type_args: Seq<HirType>) -> SymbolId {
    match struct_target(sr, n, models_of(type_args)) {
        Some(x) => x,
        None => n,
    }
}

/// `b` is the expression `a` with every call of an instantiated generic
/// function sent to its instantiation and every literal of an instantiated
/// generic struct naming its instantiation, throughout.  Everything else,
/// types included, is kept.
pub open spec fn expr_rewrite(a: HirExpr, b: HirExpr, fr: Seq<(DefId, Seq<Ty>, DefId)>, sr: Seq<(SymbolId, Seq<Ty>, SymbolId)>) -> bool
    decreases a,
{
    &&& b.span == a.span
    &&& model_of(b.ty) == model_of(a.ty)
    &&& match (a.kind, b.kind) {
        (HirExprKind::Integer(x), HirExprKind::Integer(y)) => x == y,
        (HirExprKind::Float(x), HirExprKind::Float(y)) => x == y,
        (HirExprKind::Bool(x), HirExprKind::Bool(y)) => x == y,
        (HirExprKind::StrLit(x), HirExprKind::StrLit(y)) => x == y,
        (HirExprKind::Unit, HirExprKind::Unit) => true,
        (HirExprKind::Variable { symbol: x }, HirExprKind::Variable { symbol: y }) => x == y,
        (HirExprKind::Assign { symbol: s1, value: v1 }, HirExprKind::Assign { symbol: s2, value: v2 }) => s1 == s2
            && expr_rewrite(*v1, *v2, fr, sr),
        (
            HirExprKind::AugAssign { symbol: s1, op: o1, value: v1 },
            HirExprKind::AugAssign { symbol: s2, op: o2, value: v2 },
        ) => s1 == s2 && o1 == o2 && expr_rewrite(*v1, *v2, fr, sr),
        (HirExprKind::Binary { op: o1, lhs: l1, rhs: r1 }, HirExprKind::Binary { op: o2, lhs: l2, rhs: r2 }) => o1
            == o2 && expr_rewrite(*l1, *l2, fr, sr) && expr_rewrite(*r1, *r2, fr, sr),
        (HirExprKind::Unary { op: o1, expr: e1 }, HirExprKind::Unary { op: o2, expr: e2 }) => o1 == o2 && expr_rewrite(
            *e1,
            *e2,
            fr,
            sr,
        ),
        (
            HirExprKind::Call { func: f1, args: a1, type_args: t1 },
            HirExprKind::Call { func: f2, args: a2, type_args: t2 },
        ) => f2 == call_retarget(fr, f1, t1@, a1@) && exprs_rewrite(a1@, a2@, fr, sr) && models_of(t2@) == models_of(t1@),
        (
            HirExprKind::If { condition: c1, then_branch: t1, elif_branches: e1, else_branch: x1 },
            HirExprKind::If { condition: c2, then_branch: t2, elif_branches: e2, else_branch: x2 },
        ) => expr_rewrite(*c1, *c2, fr, sr) && stmts_rewrite(t1@, t2@, fr, sr) && elifs_rewrite(e1@, e2@, fr, sr) && match (x1, x2) {
            (Some(b1), Some(b2)) => stmts_rewrite(b1@, b2@, fr, sr),
            (None, None) => true,
            _ => false,
        },
        (HirExprKind::For { var: v1, iter: i1, body: b1 }, HirExprKind::For { var: v2, iter: i2, body: b2 }) => v1 == v2
            && expr_rewrite(*i1, *i2, fr, sr) && stmts_rewrite(b1@, b2@, fr, sr),
        (HirExprKind::While { condition: c1, body: b1 }, HirExprKind::While { condition: c2, body: b2 }) => expr_rewrite(
            *c1,
            *c2,
            fr,
            sr,
        ) && stmts_rewrite(b1@, b2@, fr, sr),
        (
            HirExprKind::Range { start: s1, end: e1, is_inclusive: i1 },
            HirExprKind::Range { start: s2, end: e2, is_inclusive: i2 },
        ) => i1 == i2 && expr_rewrite(*s1, *s2, fr, sr) && expr_rewrite(*e1, *e2, fr, sr),
        (
            HirExprKind::StructLiteral { name: n1, fields: f1, type_args: t1 },
            HirExprKind::StructLiteral { name: n2, fields: f2, type_args: t2 },
        ) => n2 == struct_retarget(sr, n1, t1@) && fields_rewrite(f1@, f2@, fr, sr) && models_of(t2@) == models_of(t1@),
        (HirExprKind::FieldAccess { expr: e1, field: f1 }, HirExprKind::FieldAccess { expr: e2, field: f2 }) => f1 == f2
            && expr_rewrite(*e1, *e2, fr, sr),
        (HirExprKind::ListLiteral { elements: e1 }, HirExprKind::ListLiteral { elements: e2 }) => exprs_rewrite(e1@, e2@, fr, sr),
        (HirExprKind::Index { list: l1, index: i1 }, HirExprKind::Index { list: l2, index: i2 }) => expr_rewrite(*l1, *l2, fr, sr)
            && expr_rewrite(*i1, *i2, fr, sr),
        (HirExprKind::Length { expr: e1 }, HirExprKind::Length { expr: e2 }) => expr_rewrite(*e1, *e2, fr, sr),
        (
            HirExprKind::EnumConstructor { name: n1, variant: v1 },
            HirExprKind::EnumConstructor { name: n2, variant: v2 },
        ) => n1 == n2 && v1 == v2,
        _ => false,
    }
}

/// Pointwise [`expr_rewrite`].
pub open spec fn exprs_rewrite(a: Seq<HirExpr>, b: Seq<HirExpr>, fr: Seq<(DefId, Seq<Ty>, DefId)>, sr: Seq<(SymbolId, Seq<Ty>, SymbolId)>) -> bool
    decreases a,
{
    &&& a.len() == b.len()
    &&& a.len() > 0 ==> exprs_rewrite(a.drop_last(), b.drop_last(), fr, sr) && expr_rewrite(a.last(), b.last(), fr, sr)
}

/// Pointwise on struct literal fields: same names, rewritten values.
pub open spec fn fields_rewrite(a: Seq<(SymbolId, Box<HirExpr>)>, b: Seq<(SymbolId, Box<HirExpr>)>, fr: Seq<(DefId, Seq<Ty>, DefId)>, sr: Seq<(SymbolId, Seq<Ty>, SymbolId)>) -> bool
    decreases a,
{
    &&& a.len() == b.len()
    &&& a.len() > 0 ==> fields_rewrite(a.drop_last(), b.drop_last(), fr, sr) && a.last().0 == b.last().0 && expr_rewrite(
        *a.last().1,
        *b.last().1,
        fr,
        sr,
    )
}

/// Pointwise on `elif` arms.
pub open spec fn elifs_rewrite(a: Seq<(HirExpr, Vec<HirStmt>)>, b: Seq<(HirExpr, Vec<HirStmt>)>, fr: Seq<(DefId, Seq<Ty>, DefId)>, sr: Seq<(SymbolId, Seq<Ty>, SymbolId)>) -> bool
    decreases a,
{
    &&& a.len() == b.len()
    &&& a.len() > 0 ==> elifs_rewrite(a.drop_last(), b.drop_last(), fr, sr) && expr_rewrite(a.last().0, b.last().0, fr, sr)
        && stmts_rewrite(a.last().1@, b.last().1@, fr, sr)
}

/// `b` is the statement `a` with its expressions rewritten.
pub open spec fn stmt_rewrite(a: HirStmt, b: HirStmt, fr: Seq<(DefId, Seq<Ty>, DefId)>, sr: Seq<(SymbolId, Seq<Ty>, SymbolId)>) -> bool
    decreases a,
{
    &&& b.span == a.span
    &&& match (a.kind, b.kind) {
        (
            HirStmtKind::Let { name: n1, mutable: u1, ty: t1, value: v1 },
            HirStmtKind::Let { name: n2, mutable: u2, ty: t2, value: v2 },
        ) => n1 == n2 && u1 == u2 && expr_rewrite(v1, v2, fr, sr) && match (t1, t2) {
            (Some(x), Some(y)) => model_of(y) == model_of(x),
            (None, None) => true,
            _ => false,
        },
        (HirStmtKind::Expr(e1), HirStmtKind::Expr(e2)) => expr_rewrite(e1, e2, fr, sr),
        (HirStmtKind::Return(r1), HirStmtKind::Return(r2)) => match (r1, r2) {
            (Some(e1), Some(e2)) => expr_rewrite(e1, e2, fr, sr),
            (None, None) => true,
            _ => false,
        },
        (HirStmtKind::Println(e1), HirStmtKind::Println(e2)) => expr_rewrite(e1, e2, fr, sr),
        (HirStmtKind::PrintlnStr(e1), HirStmtKind::PrintlnStr(e2)) => expr_rewrite(e1, e2, fr, sr),
        (HirStmtKind::Raise(e1), HirStmtKind::Raise(e2)) => expr_rewrite(e1, e2, fr, sr),
        (HirStmtKind::StructDef { name: n1, fields: f1 }, HirStmtKind::StructDef { name: n2, fields: f2 }) => n1 == n2
            && f1@.len() == f2@.len() && forall|k: int|
            0 <= k < f1@.len() ==> (#[trigger] f2@[k]).0 == f1@[k].0 && model_of(f2@[k].1) == model_of(f1@[k].1),
        (HirStmtKind::EnumDef { name: n1, variants: v1 }, HirStmtKind::EnumDef { name: n2, variants: v2 }) => n1 == n2
            && v1@ == v2@,
        _ => false,
    }
}

/// Pointwise [`stmt_rewrite`].
pub open spec fn stmts_rewrite(a: Seq<HirStmt>, b: Seq<HirStmt>, fr: Seq<(DefId, Seq<Ty>, DefId)>, sr: Seq<(SymbolId, Seq<Ty>, SymbolId)>) -> bool
    decreases a,
{
    &&& a.len() == b.len()
    &&& a.len() > 0 ==> stmts_rewrite(a.drop_last(), b.drop_last(), fr, sr) && stmt_rewrite(a.last(), b.last(), fr, sr)
}




proof fn lemma_rewrite_keeps_types(a: Seq<HirExpr>, b: Seq<HirExpr>, fr: Seq<(DefId, Seq<Ty>, DefId)>, sr: Seq<(SymbolId, Seq<Ty>, SymbolId)>)
    requires
        exprs_rewrite(a, b, fr, sr),
    ensures
        a.len() == b.len(),
        forall|i: int| 0 <= i < a.len() ==> model_of((#[trigger] b[i]).ty) == model_of(a[i].ty),
    decreases a.len(),
{
    if a.len() > 0 {
        lemma_rewrite_keeps_types(a.drop_last(), b.drop_last(), fr, sr);
        assert forall|i: int| 0 <= i < a.len() implies model_of((#[trigger] b[i]).ty) == model_of(a[i].ty) by {
            if i < a.len() - 1 {
                assert(b.drop_last()[i] == b[i]);
                assert(a.drop_last()[i] == a[i]);
            } else {
                assert(expr_rewrite(a.last(), b.last(), fr, sr));
                assert(b[i] == b.last());
                assert(a[i] == a.last());
            }
        }
    }
}

/// The types of the expressions, as a type list.
pub(crate) fn types_of(es: &Vec<HirExpr>) -> (r: Vec<HirType>)
    ensures
        models_of(r@) == expr_types(es@),
{
    let mut out: Vec<HirType> = Vec::new();
    let mut i: usize = 0;
    while i < es.len()
        invariant
            i <= es@.len(),
            out@.len() == i,
            forall|k: int| 0 <= k < i ==> model_of(#[trigger] out@[k]) == model_of(es@[k].ty),
        decreases es@.len() - i,
    {
        out.push(es[i].ty.clone());
        i = i + 1;
    }
    proof {
        lemma_models_of_len(out@);
        assert forall|k: int| 0 <= k < out@.len() implies #[trigger] models_of(out@)[k] == expr_types(es@)[k] by {
            lemma_models_of_index(out@, k);
        }
        assert(models_of(out@) =~= expr_types(es@));
    }
    out
}

/// Send every call of an instantiated generic function to its
/// instantiation, and every literal of an instantiated generic struct to
/// its instantiation, throughout an expression.
pub fn rewrite_expr(expr: &HirExpr, remap: &CallRemap, struct_remap: &StructRemap) -> (r: HirExpr)
    ensures
        expr_rewrite(*expr, r, remap@, struct_remap@),
    decreases *expr, 1int,
{
    let kind = match &expr.kind {
        HirExprKind::Integer(i) => HirExprKind::Integer(*i),
        HirExprKind::Float(f) => HirExprKind::Float(*f),
        HirExprKind::Bool(b) => HirExprKind::Bool(*b),
        HirExprKind::StrLit(s) => HirExprKind::StrLit(*s),
        HirExprKind::Unit => HirExprKind::Unit,
        HirExprKind::Variable { symbol } => HirExprKind::Variable { symbol: *symbol },
        HirExprKind::Assign { symbol, value } => HirExprKind::Assign {
            symbol: *symbol,
            value: Box::new(rewrite_expr(value, remap, struct_remap)),
        },
        HirExprKind::AugAssign { symbol, op, value } => HirExprKind::AugAssign {
            symbol: *symbol,
            op: *op,
            value: Box::new(rewrite_expr(value, remap, struct_remap)),
        },
        HirExprKind::Binary { op, lhs, rhs } => HirExprKind::Binary {
            op: *op,
            lhs: Box::new(rewrite_expr(lhs, remap, struct_remap)),
            rhs: Box::new(rewrite_expr(rhs, remap, struct_remap)),
        },
        HirExprKind::Unary { op, expr: inner } => HirExprKind::Unary {
            op: *op,
            expr: Box::new(rewrite_expr(inner, remap, struct_remap)),
        },
        HirExprKind::Call { func, args, type_args } => {
            let new_args = rewrite_exprs(args, remap, struct_remap);
            let key = if type_args.len() > 0 {
                clone_types(type_args)
            } else {
                types_of(&new_args)
            };
            proof {
                lemma_rewrite_keeps_types(args@, new_args@, remap@, struct_remap@);
                assert(expr_types(new_args@) =~= expr_types(args@));
            }
            let new_func = match remap.get(*func, &key) {
                Some(d) => d,
                None => *func,
            };
            HirExprKind::Call { func: new_func, args: new_args, type_args: clone_types(type_args) }
        },
        HirExprKind::If { condition, then_branch, elif_branches, else_branch } => HirExprKind::If {
            condition: Box::new(rewrite_expr(condition, remap, struct_remap)),
            then_branch: rewrite_stmts(then_branch, remap, struct_remap),
            elif_branches: rewrite_elifs(elif_branches, remap, struct_remap),
            else_branch: match else_branch {
                Some(b) => Some(rewrite_stmts(b, remap, struct_remap)),
                None => None,
            },
        },
        HirExprKind::For { var, iter, body } => HirExprKind::For {
            var: *var,
            iter: Box::new(rewrite_expr(iter, remap, struct_remap)),
            body: rewrite_stmts(body, remap, struct_remap),
        },
        HirExprKind::While { condition, body } => HirExprKind::While {
            condition: Box::new(rewrite_expr(condition, remap, struct_remap)),
            body: rewrite_stmts(body, remap, struct_remap),
        },
        HirExprKind::Range { start, end, is_inclusive } => HirExprKind::Range {
            start: Box::new(rewrite_expr(start, remap, struct_remap)),
            end: Box::new(rewrite_expr(end, remap, struct_remap)),
            is_inclusive: *is_inclusive,
        },
        HirExprKind::StructLiteral { name, fields, type_args } => {
            let new_name = match struct_remap.get(*name, type_args) {
                Some(n) => n,
                None => *name,
            };
            HirExprKind::StructLiteral {
                name: new_name,
                fields: rewrite_fields(fields, remap, struct_remap),
                type_args: clone_types(type_args),
            }
        },
        HirExprKind::FieldAccess { expr: inner, field } => HirExprKind::FieldAccess {
            expr: Box::new(rewrite_expr(inner, remap, struct_remap)),
            field: *field,
        },
        HirExprKind::ListLiteral { elements } => HirExprKind::ListLiteral {
            elements: rewrite_exprs(elements, remap, struct_remap),
        },
        HirExprKind::Index { list, index } => HirExprKind::Index {
            list: Box::new(rewrite_expr(list, remap, struct_remap)),
            index: Box::new(rewrite_expr(index, remap, struct_remap)),
        },
        HirExprKind::Length { expr: inner } => HirExprKind::Length { expr: Box::new(rewrite_expr(inner, remap, struct_remap)) },
        HirExprKind::EnumConstructor { name, variant } => HirExprKind::EnumConstructor { name: *name, variant: *variant },
    };
    HirExpr { kind, ty: expr.ty.clone(), span: expr.span }
}

fn rewrite_exprs(es: &Vec<HirExpr>, remap: &CallRemap, struct_remap: &StructRemap) -> (r: Vec<HirExpr>)
    ensures
        exprs_rewrite(es@, r@, remap@, struct_remap@),
    decreases es@, 0int,
{
    let mut out: Vec<HirExpr> = Vec::new();
    let mut i: usize = 0;
    while i < es.len()
        invariant
            i <= es@.len(),
            exprs_rewrite(es@.take(i as int), out@, remap@, struct_remap@),
        decreases es@.len() - i,
    {
        let e = rewrite_expr(&es[i], remap, struct_remap);
        proof {
            assert(es@.take(i + 1).drop_last() == es@.take(i as int));
            assert(es@.take(i + 1).last() == es@[i as int]);
            assert(out@.push(e).drop_last() == out@);
        }
        out.push(e);
        i = i + 1;
    }
    assert(es@.take(es@.len() as int) == es@);
    out
}

fn rewrite_fields(fs: &Vec<(SymbolId, Box<HirExpr>)>, remap: &CallRemap, struct_remap: &StructRemap) -> (r: Vec<
    (SymbolId, Box<HirExpr>),
>)
    ensures
        fields_rewrite(fs@, r@, remap@, struct_remap@),
    decreases fs@, 0int,
{
    let mut out: Vec<(SymbolId, Box<HirExpr>)> = Vec::new();
    let mut i: usize = 0;
    while i < fs.len()
        invariant
            i <= fs@.len(),
            fields_rewrite(fs@.take(i as int), out@, remap@, struct_remap@),
        decreases fs@.len() - i,
    {
        proof {
            assert(decreases_to!(fs@ => fs@[i as int]));
        }
        let e = rewrite_expr(&fs[i].1, remap, struct_remap);
        let item = (fs[i].0, Box::new(e));
        proof {
            assert(fs@.take(i + 1).drop_last() == fs@.take(i as int));
            assert(fs@.take(i + 1).last() == fs@[i as int]);
            assert(out@.push(item).drop_last() == out@);
        }
        out.push(item);
        i = i + 1;
    }
    assert(fs@.take(fs@.len() as int) == fs@);
    out
}

fn rewrite_elifs(arms: &Vec<(HirExpr, Vec<HirStmt>)>, remap: &CallRemap, struct_remap: &StructRemap) -> (r: Vec<
    (HirExpr, Vec<HirStmt>),
>)
    ensures
        elifs_rewrite(arms@, r@, remap@, struct_remap@),
    decreases arms@, 0int,
{
    let mut out: Vec<(HirExpr, Vec<HirStmt>)> = Vec::new();
    let mut i: usize = 0;
    while i < arms.len()
        invariant
            i <= arms@.len(),
            elifs_rewrite(arms@.take(i as int), out@, remap@, struct_remap@),
        decreases arms@.len() - i,
    {
        proof {
            assert(decreases_to!(arms@ => arms@[i as int]));
        }
        let c = rewrite_expr(&arms[i].0, remap, struct_remap);
        let b = rewrite_stmts(&arms[i].1, remap, struct_remap);
        let item = (c, b);
        proof {
            assert(arms@.take(i + 1).drop_last() == arms@.take(i as int));
            assert(arms@.take(i + 1).last() == arms@[i as int]);
            assert(out@.push(item).drop_last() == out@);
        }
        out.push(item);
        i = i + 1;
    }
    assert(arms@.take(arms@.len() as int) == arms@);
    out
}

/// [`rewrite_expr`] on the expressions of a statement.
pub fn rewrite_stmt(stmt: &HirStmt, remap: &CallRemap, struct_remap: &StructRemap) -> (r: HirStmt)
    ensures
        stmt_rewrite(*stmt, r, remap@, struct_remap@),
    decreases *stmt, 1int,
{
    let kind = match &stmt.kind {
        HirStmtKind::Let { name, mutable, ty, value } => HirStmtKind::Let {
            name: *name,
            mutable: *mutable,
            ty: match ty {
                Some(t) => Some(t.clone()),
                None => None,
            },
            value: rewrite_expr(value, remap, struct_remap),
        },
        HirStmtKind::Expr(e) => HirStmtKind::Expr(rewrite_expr(e, remap, struct_remap)),
        HirStmtKind::Return(e) => HirStmtKind::Return(
            match e {
                Some(x) => Some(rewrite_expr(x, remap, struct_remap)),
                None => None,
            },
        ),
        HirStmtKind::Println(e) => HirStmtKind::Println(rewrite_expr(e, remap, struct_remap)),
        HirStmtKind::PrintlnStr(e) => HirStmtKind::PrintlnStr(rewrite_expr(e, remap, struct_remap)),
        HirStmtKind::Raise(e) => HirStmtKind::Raise(rewrite_expr(e, remap, struct_remap)),
        HirStmtKind::StructDef { name, fields } => {
            let mut out: Vec<(SymbolId, HirType)> = Vec::new();
            let mut i: usize = 0;
            while i < fields.len()
                invariant
                    i <= fields@.len(),
                    out@.len() == i,
                    forall|k: int| 0 <= k < i ==> (#[trigger] out@[k]).0 == fields@[k].0 && model_of(out@[k].1) == model_of(
                        fields@[k].1,
                    ),
                decreases fields@.len() - i,
            {
                out.push((fields[i].0, fields[i].1.clone()));
                i = i + 1;
            }
            HirStmtKind::StructDef { name: *name, fields: out }
        },
        HirStmtKind::EnumDef { name, variants } => {
            let mut out: Vec<SymbolId> = Vec::new();
            let mut i: usize = 0;
            while i < variants.len()
                invariant
                    i <= variants@.len(),
                    out@ == variants@.take(i as int),
                decreases variants@.len() - i,
            {
                out.push(variants[i]);
                assert(variants@.take(i + 1) == variants@.take(i as int).push(variants@[i as int]));
                i = i + 1;
            }
            assert(variants@.take(variants@.len() as int) == variants@);
            HirStmtKind::EnumDef { name: *name, variants: out }
        },
    };
    HirStmt { kind, span: stmt.span }
}

fn rewrite_stmts(ss: &Vec<HirStmt>, remap: &CallRemap, struct_remap: &StructRemap) -> (r: Vec<HirStmt>)
    ensures
        stmts_rewrite(ss@, r@, remap@, struct_remap@),
    decreases ss@, 0int,
{
    let mut out: Vec<HirStmt> = Vec::new();
    let mut i: usize = 0;
    while i < ss.len()
        invariant
            i <= ss@.len(),
            stmts_rewrite(ss@.take(i as int), out@, remap@, struct_remap@),
        decreases ss@.len() - i,
    {
        let st = rewrite_stmt(&ss[i], remap, struct_remap);
        proof {
            assert(ss@.take(i + 1).drop_last() == ss@.take(i as int));
            assert(ss@.take(i + 1).last() == ss@[i as int]);
            assert(out@.push(st).drop_last() == out@);
        }
        out.push(st);
        i = i + 1;
    }
    assert(ss@.take(ss@.len() as int) == ss@);
    out
}

/// Rewrite a function's body (see [`rewrite_expr`]).
pub fn rewrite_function_body(func: &mut crate::hir::function::HirFunction, remap: &CallRemap, struct_remap: &StructRemap)
    ensures
        stmts_rewrite(old(func).body@, final(func).body@, remap@, struct_remap@),
        final(func).def_id == old(func).def_id,
        final(func).name == old(func).name,
        final(func).generic_params == old(func).generic_params,
        final(func).params == old(func).params,
        final(func).return_type == old(func).return_type,
        final(func).span == old(func).span,
        final(func).module == old(func).module,
        final(func).visibility == old(func).visibility,
{
    let new_body = rewrite_stmts(&func.body, remap, struct_remap);
    func.body = new_body;
}

} // verus!
