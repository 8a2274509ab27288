//! The mutually recursive rules of the grammar: functions, blocks,
//! statements and expressions.  Each method computes exactly what the rule
//! of the same name in [`grammar`](super::grammar) describes.
use vstd::prelude::*;
use std::ops::Range;
use crate::ast::{Expr, Function, Item, ItemKind, Stmt, Type, UnOp, Visibility};
use crate::lexer::{Token, TokenKind};
use crate::parser::Parser;
use crate::parser::grammar::{
    args, args_rest, assign_expr, base_expr, block, body_end, chain, chain_rest, cover, elif_arms, expr, expr_span,
    field_accesses, field_inits, field_inits_rest, for_expr, function, ident_at, if_expr, is_at, let_stmt, operand,
    or_chain, primary, range_expr, range_tail, stmt, stmt_span, stmts, struct_literal, call_or_var, turbofish, unary,
    while_expr, span_at, item, items,
};
use crate::parser::view::{
    elifs_v, expr_v, exprs_v, function_v, item_v, items_v, named_v, span_v, stmt_v, stmts_v, ExprV, ItemV, StmtV,
};

verus! {

/// What an expression rule's result says of the rule's value.
pub open spec fn expr_res(r: Option<(Expr, usize)>, s: Option<(ExprV, int)>, n: int) -> bool {
    match r {
        Some((e, j)) => s == Some((expr_v(e), j as int)) && j <= n,
        None => s is None,
    }
}

/// What a statement rule's result says of the rule's value.
pub open spec fn stmt_res(r: Option<(Stmt, usize)>, s: Option<(StmtV, int)>, n: int) -> bool {
    match r {
        Some((x, j)) => s == Some((stmt_v(x), j as int)) && j <= n,
        None => s is None,
    }
}

proof fn lemma_stmts_push(v: Seq<Stmt>, x: Stmt)
    ensures
        stmts_v(v.push(x)) == stmts_v(v).push(stmt_v(x)),
{
    assert(v.push(x).drop_last() =~= v);
}

proof fn lemma_exprs_push(v: Seq<Expr>, x: Expr)
    ensures
        exprs_v(v.push(x)) == exprs_v(v).push(expr_v(x)),
{
    assert(v.push(x).drop_last() =~= v);
}

proof fn lemma_named_push(v: Seq<(String, Expr)>, x: (String, Expr))
    ensures
        named_v(v.push(x)) == named_v(v).push((x.0@, expr_v(x.1))),
{
    assert(v.push(x).drop_last() =~= v);
}

proof fn lemma_elifs_push(v: Seq<(Expr, Vec<Stmt>)>, x: (Expr, Vec<Stmt>))
    ensures
        elifs_v(v.push(x)) == elifs_v(v).push((expr_v(x.0), stmts_v(x.1@))),
{
    assert(v.push(x).drop_last() =~= v);
}

fn copy_span(s: &Range<usize>) -> (r: Range<usize>)
    ensures
        r == *s,
{
    s.start..s.end
}

/// The span an expression reports.
fn expr_span_of(e: &Expr) -> (r: Range<usize>)
    ensures
        span_v(r) == expr_span(expr_v(*e)),
{
    match e {
        Expr::Integer(_, s) => copy_span(s),
        Expr::Float(_, s) => copy_span(s),
        Expr::StrLit(_, s) => copy_span(s),
        Expr::Bool(_, s) => copy_span(s),
        Expr::Unit(s) => copy_span(s),
        Expr::Var(_, s) => copy_span(s),
        Expr::Assign { span, .. } => copy_span(span),
        Expr::AugAssign { span, .. } => copy_span(span),
        Expr::Binary { span, .. } => copy_span(span),
        Expr::Unary { span, .. } => copy_span(span),
        Expr::Call { span, .. } => copy_span(span),
        Expr::If { span, .. } => copy_span(span),
        Expr::For { span, .. } => copy_span(span),
        Expr::While { span, .. } => copy_span(span),
        Expr::Range { span, .. } => copy_span(span),
        Expr::StructLiteral { span, .. } => copy_span(span),
        Expr::FieldAccess { span, .. } => copy_span(span),
        Expr::EnumConstructor { span, .. } => copy_span(span),
        Expr::Index { span, .. } => copy_span(span),
        Expr::Length { span, .. } => copy_span(span),
        Expr::Pipeline { span, .. } => copy_span(span),
        Expr::Closure { span, .. } => copy_span(span),
        Expr::ListLiteral { span, .. } => copy_span(span),
        Expr::InterpolatedStr(_, span) => copy_span(span),
    }
}

/// The span a statement reports.
fn stmt_span_of(s: &Stmt) -> (r: Range<usize>)
    ensures
        span_v(r) == stmt_span(stmt_v(*s)),
{
    match s {
        Stmt::Let { span, .. } => copy_span(span),
        Stmt::Expr(_, span) => copy_span(span),
        Stmt::Return(_, span) => copy_span(span),
        Stmt::Println(_, span) => copy_span(span),
        Stmt::StructDef { span, .. } => copy_span(span),
        Stmt::EnumDef { span, .. } => copy_span(span),
        Stmt::Give(_, span) => copy_span(span),
        Stmt::Say(_, span) => copy_span(span),
        Stmt::Raise(_, span) => copy_span(span),
    }
}

/// The smallest span covering both.
fn cover_of(a: &Range<usize>, b: &Range<usize>) -> (r: Range<usize>)
    ensures
        span_v(r) == cover(span_v(*a), span_v(*b)),
{
    let lo = if a.start <= b.start {
        a.start
    } else {
        b.start
    };
    let hi = if a.end >= b.end {
        a.end
    } else {
        b.end
    };
    lo..hi
}

/// Where a control-flow form's span ends.
fn body_end_of(head: &Expr, body: &Vec<Stmt>) -> (r: usize)
    ensures
        r == body_end(expr_v(*head), stmts_v(body@)),
{
    let h = expr_span_of(head).end;
    if body.len() > 0 {
        let e = stmt_span_of(&body[body.len() - 1]).end;
        proof {
            assert(stmts_v(body@).last() == stmt_v(body@.last()));
        }
        if h >= e {
            h
        } else {
            e
        }
    } else {
        h
    }
}

impl<'a> Parser<'a> {
    /// `fn name<..>(params) -> type { body }`
    pub(crate) fn function(&mut self, i: usize) -> (r: Option<(Function, usize)>)
        requires
            old(self).wf(),
            i <= old(self).t().len(),
        ensures
            final(self).toks == old(self).toks,
            match r {
                Some((f, j)) => function(old(self).t(), i as int) == Some((function_v(f), j as int)) && j <= old(self).t().len(),
                None => function(old(self).t(), i as int) is None,
            },
        decreases old(self).t().len() - i, 40int, 0int,
    {
        if !self.at(i, TokenKind::Fn) {
            return None;
        }
        let name = match self.ident(i + 1) {
            Some(n) => n,
            None => return None,
        };
        let (g, k) = self.generic_params(i + 2);
        let (ps, k2) = match self.params(k) {
            Some(x) => x,
            None => return None,
        };
        let (rt, k3) = self.ret_type(k2);
        if !(i < k3 && k3 <= self.toks.len()) {
            return None;
        }
        match self.block(k3) {
            Some((body, j)) => {
                let span = self.span(i + 1);
                Some((Function { name, generic_params: g, params: ps, return_type: rt, body, span }, j))
            },
            None => None,
        }
    }

    /// `{ statements }`
    pub(crate) fn block(&mut self, i: usize) -> (r: Option<(Vec<Stmt>, usize)>)
        requires
            old(self).wf(),
            i <= old(self).t().len(),
        ensures
            final(self).toks == old(self).toks,
            match r {
                Some((b, j)) => block(old(self).t(), i as int) == Some((stmts_v(b@), j as int)) && j <= old(self).t().len(),
                None => block(old(self).t(), i as int) is None,
            },
        decreases old(self).t().len() - i, 35int, 0int,
    {
        if !self.at(i, TokenKind::LBrace) {
            return None;
        }
        let (ss, j) = self.stmts(i + 1);
        if self.at(j, TokenKind::RBrace) {
            Some((ss, j + 1))
        } else {
            None
        }
    }

    /// Statements, as many as parse.
    pub(crate) fn stmts(&mut self, i: usize) -> (r: (Vec<Stmt>, usize))
        requires
            old(self).wf(),
            i <= old(self).t().len(),
        ensures
            final(self).toks == old(self).toks,
            stmts(old(self).t(), i as int) == (stmts_v(r.0@), r.1 as int),
            r.1 <= old(self).t().len(),
        decreases old(self).t().len() - i, 34int, 0int,
    {
        let ghost t = self.t();
        let mut out: Vec<Stmt> = Vec::new();
        let mut j = i;
        loop
            invariant
                self.t() == t,
                self.toks == old(self).toks,
                self.wf(),
                i <= j <= t.len(),
                stmts(t, i as int) == (stmts_v(out@) + stmts(t, j as int).0, stmts(t, j as int).1),
            ensures
                stmts(t, i as int) == (stmts_v(out@), j as int),
                j <= t.len(),
            decreases t.len() - j,
        {
            match self.stmt(j) {
                Some((s, k)) => {
                    if j < k && k <= self.toks.len() {
                        proof {
                            lemma_stmts_push(out@, s);
                            let rest = stmts(t, k as int);
                            assert(stmts_v(out@) + stmts(t, j as int).0 =~= stmts_v(out@).push(stmt_v(s)) + rest.0);
                        }
                        out.push(s);
                        j = k;
                    } else {
                        proof {
                            assert(stmts_v(out@) + Seq::<StmtV>::empty() =~= stmts_v(out@));
                        }
                        break;
                    }
                },
                None => {
                    proof {
                        assert(stmts_v(out@) + Seq::<StmtV>::empty() =~= stmts_v(out@));
                    }
                    break;
                },
            }
        }
        (out, j)
    }

    /// A statement: `let`, `return`, `println(..)`, a struct or enum
    /// definition, or an expression, tried in that order.
    pub(crate) fn stmt(&mut self, i: usize) -> (r: Option<(Stmt, usize)>)
        requires
            old(self).wf(),
            i <= old(self).t().len(),
        ensures
            final(self).toks == old(self).toks,
            stmt_res(r, stmt(old(self).t(), i as int), old(self).t().len() as int),
        decreases old(self).t().len() - i, 33int, 0int,
    {
        if i >= self.toks.len() {
            return None;
        }
        match self.let_stmt(i) {
            Some(x) => return Some(x),
            None => {},
        }
        if self.at(i, TokenKind::Return) {
            match self.expr(i + 1) {
                Some((e, j)) => {
                    let sp = self.toks[i].span.start..expr_span_of(&e).end;
                    return Some((Stmt::Return(Some(e), sp), j));
                },
                None => {
                    let sp = self.span(i);
                    return Some((Stmt::Return(None, sp), i + 1));
                },
            }
        }
        if self.at(i, TokenKind::Println) && self.at(i + 1, TokenKind::LParen) {
            match self.expr(i + 2) {
                Some((e, j)) => {
                    if self.at(j, TokenKind::RParen) {
                        let sp = expr_span_of(&e);
                        return Some((Stmt::Println(e, sp), j + 1));
                    }
                },
                None => {},
            }
        }
        match self.struct_decl(i) {
            Some((name, generic_params, fields, span, j)) => return Some(
                (Stmt::StructDef { name, generic_params, fields, span }, j),
            ),
            None => {},
        }
        match self.enum_decl(i) {
            Some((name, generic_params, variants, span, j)) => return Some(
                (Stmt::EnumDef { name, generic_params, variants, span }, j),
            ),
            None => {},
        }
        match self.expr(i) {
            Some((e, j)) => {
                let sp = expr_span_of(&e);
                Some((Stmt::Expr(e, sp), j))
            },
            None => None,
        }
    }

    /// `let [mut] name [: type] = expr`
    pub(crate) fn let_stmt(&mut self, i: usize) -> (r: Option<(Stmt, usize)>)
        requires
            old(self).wf(),
            i <= old(self).t().len(),
        ensures
            final(self).toks == old(self).toks,
            stmt_res(r, let_stmt(old(self).t(), i as int), old(self).t().len() as int),
        decreases old(self).t().len() - i, 32int, 0int,
    {
        if !self.at(i, TokenKind::Let) {
            return None;
        }
        let m = self.at(i + 1, TokenKind::Mut);
        let n = if m {
            i + 2
        } else {
            i + 1
        };
        let name = match self.ident(n) {
            Some(x) => x,
            None => return None,
        };
        let (ty, a) = match self.type_ann(n + 1) {
            Some((ty, a)) => (Some(ty), a),
            None => (None, n + 1),
        };
        if !(i < a && self.at(a, TokenKind::Assign)) {
            return None;
        }
        match self.expr(a + 1) {
            Some((e, j)) => {
                let es = expr_span_of(&e);
                let ns = self.span(n);
                let lo = if ns.start <= es.start {
                    ns.start
                } else {
                    es.start
                };
                let hi = if es.end >= ns.end {
                    es.end
                } else {
                    ns.end
                };
                Some((Stmt::Let { name, mutable: m, ty, value: e, span: lo..hi }, j))
            },
            None => None,
        }
    }

    /// An expression: a control-flow form, an assignment, or a range, then
    /// field accesses.
    pub(crate) fn expr(&mut self, i: usize) -> (r: Option<(Expr, usize)>)
        requires
            old(self).wf(),
            i <= old(self).t().len(),
        ensures
            final(self).toks == old(self).toks,
            expr_res(r, expr(old(self).t(), i as int), old(self).t().len() as int),
        decreases old(self).t().len() - i, 31int, 0int,
    {
        if i >= self.toks.len() {
            return None;
        }
        match self.base_expr(i) {
            Some((b, j)) => {
                if i < j {
                    Some(self.field_accesses(j, b))
                } else {
                    None
                }
            },
            None => None,
        }
    }

    /// `.field` accesses, as many as follow.
    fn field_accesses(&mut self, j0: usize, e0: Expr) -> (r: (Expr, usize))
        requires
            old(self).wf(),
            j0 <= old(self).t().len(),
        ensures
            final(self).toks == old(self).toks,
            field_accesses(old(self).t(), j0 as int, expr_v(e0)) == (expr_v(r.0), r.1 as int),
            r.1 <= old(self).t().len(),
    {
        let ghost t = self.t();
        let mut e = e0;
        let mut j = j0;
        loop
            invariant
                self.t() == t,
                self.toks == old(self).toks,
                self.wf(),
                j <= t.len(),
                field_accesses(t, j0 as int, expr_v(e0)) == field_accesses(t, j as int, expr_v(e)),
            ensures
                field_accesses(t, j0 as int, expr_v(e0)) == (expr_v(e), j as int),
                j <= t.len(),
            decreases t.len() - j,
        {
            if !self.at(j, TokenKind::Dot) {
                break;
            }
            match self.ident(j + 1) {
                Some(f) => {
                    let start = expr_span_of(&e).start;
                    let end = self.toks[j + 1].span.end;
                    e = Expr::FieldAccess { expr: Box::new(e), field: f, span: start..end };
                    j = j + 2;
                },
                None => {
                    break;
                },
            }
        }
        (e, j)
    }

    /// `if`, `for`, `while`, an assignment, or a range, tried in that order.
    pub(crate) fn base_expr(&mut self, i: usize) -> (r: Option<(Expr, usize)>)
        requires
            old(self).wf(),
            i <= old(self).t().len(),
        ensures
            final(self).toks == old(self).toks,
            expr_res(r, base_expr(old(self).t(), i as int), old(self).t().len() as int),
        decreases old(self).t().len() - i, 30int, 0int,
    {
        if i >= self.toks.len() {
            return None;
        }
        match self.if_expr(i) {
            Some(x) => return Some(x),
            None => {},
        }
        match self.for_expr(i) {
            Some(x) => return Some(x),
            None => {},
        }
        match self.while_expr(i) {
            Some(x) => return Some(x),
            None => {},
        }
        match self.assign_expr(i) {
            Some(x) => return Some(x),
            None => {},
        }
        self.range_expr(i)
    }

    /// `elif cond { body }` arms, as many as follow.
    pub(crate) fn elif_arms(&mut self, j0: usize) -> (r: (Vec<(Expr, Vec<Stmt>)>, usize))
        requires
            old(self).wf(),
            j0 <= old(self).t().len(),
        ensures
            final(self).toks == old(self).toks,
            elif_arms(old(self).t(), j0 as int) == (elifs_v(r.0@), r.1 as int),
            r.1 <= old(self).t().len(),
        decreases old(self).t().len() - j0, 29int, 0int,
    {
        let ghost t = self.t();
        let mut out: Vec<(Expr, Vec<Stmt>)> = Vec::new();
        let mut j = j0;
        loop
            invariant
                self.t() == t,
                self.toks == old(self).toks,
                self.wf(),
                j0 <= j <= t.len(),
                elif_arms(t, j0 as int) == (elifs_v(out@) + elif_arms(t, j as int).0, elif_arms(t, j as int).1),
            ensures
                elif_arms(t, j0 as int) == (elifs_v(out@), j as int),
                j <= t.len(),
            decreases t.len() - j,
        {
            proof {
                assert(elifs_v(out@) + Seq::<(ExprV, Seq<StmtV>)>::empty() =~= elifs_v(out@));
            }
            if !self.at(j, TokenKind::Elif) {
                break;
            }
            let (c, k) = match self.expr(j + 1) {
                Some(x) => x,
                None => {
                    break;
                },
            };
            if !(j < k) {
                break;
            }
            let (b, m) = match self.block(k) {
                Some(x) => x,
                None => {
                    break;
                },
            };
            if !(j < m) {
                break;
            }
            proof {
                let arm = (c, b);
                lemma_elifs_push(out@, arm);
                let rest = elif_arms(t, m as int);
                assert(elifs_v(out@) + elif_arms(t, j as int).0 =~= elifs_v(out@).push((expr_v(c), stmts_v(b@))) + rest.0);
            }
            out.push((c, b));
            j = m;
        }
        (out, j)
    }

    /// `if cond { .. } elif .. else { .. }`
    pub(crate) fn if_expr(&mut self, i: usize) -> (r: Option<(Expr, usize)>)
        requires
            old(self).wf(),
            i <= old(self).t().len(),
        ensures
            final(self).toks == old(self).toks,
            expr_res(r, if_expr(old(self).t(), i as int), old(self).t().len() as int),
        decreases old(self).t().len() - i, 29int, 0int,
    {
        if !self.at(i, TokenKind::If) {
            return None;
        }
        let (c, k) = match self.expr(i + 1) {
            Some(x) => x,
            None => return None,
        };
        if !(i < k) {
            return None;
        }
        let (b, m) = match self.block(k) {
            Some(x) => x,
            None => return None,
        };
        if !(i < m) {
            return None;
        }
        let (arms, n) = self.elif_arms(m);
        let mut els: Option<Vec<Stmt>> = None;
        let mut end = n;
        if self.at(n, TokenKind::Else) && i < n {
            match self.block(n + 1) {
                Some((eb, e2)) => {
                    els = Some(eb);
                    end = e2;
                },
                None => {},
            }
        }
        let start = self.toks[i].span.start;
        let stop = body_end_of(&c, &b);
        Some((
            Expr::If {
                condition: Box::new(c),
                then_branch: b,
                elif_branches: arms,
                else_branch: els,
                span: start..stop,
            },
            end,
        ))
    }

    /// `for var in iter { body }`
    pub(crate) fn for_expr(&mut self, i: usize) -> (r: Option<(Expr, usize)>)
        requires
            old(self).wf(),
            i <= old(self).t().len(),
        ensures
            final(self).toks == old(self).toks,
            expr_res(r, for_expr(old(self).t(), i as int), old(self).t().len() as int),
        decreases old(self).t().len() - i, 29int, 0int,
    {
        if !self.at(i, TokenKind::For) {
            return None;
        }
        let var = match self.ident(i + 1) {
            Some(v) => v,
            None => return None,
        };
        if !self.at(i + 2, TokenKind::In) {
            return None;
        }
        let (it, k) = match self.expr(i + 3) {
            Some(x) => x,
            None => return None,
        };
        if !(i < k) {
            return None;
        }
        match self.block(k) {
            Some((b, j)) => {
                let start = self.toks[i].span.start;
                let stop = body_end_of(&it, &b);
                Some((Expr::For { var, iter: Box::new(it), body: b, span: start..stop }, j))
            },
            None => None,
        }
    }

    /// `while cond { body }`
    pub(crate) fn while_expr(&mut self, i: usize) -> (r: Option<(Expr, usize)>)
        requires
            old(self).wf(),
            i <= old(self).t().len(),
        ensures
            final(self).toks == old(self).toks,
            expr_res(r, while_expr(old(self).t(), i as int), old(self).t().len() as int),
        decreases old(self).t().len() - i, 29int, 0int,
    {
        if !self.at(i, TokenKind::While) {
            return None;
        }
        let (c, k) = match self.expr(i + 1) {
            Some(x) => x,
            None => return None,
        };
        if !(i < k) {
            return None;
        }
        match self.block(k) {
            Some((b, j)) => {
                let start = self.toks[i].span.start;
                let stop = body_end_of(&c, &b);
                Some((Expr::While { condition: Box::new(c), body: b, span: start..stop }, j))
            },
            None => None,
        }
    }

    /// `name op= value`, then `name = value`.
    pub(crate) fn assign_expr(&mut self, i: usize) -> (r: Option<(Expr, usize)>)
        requires
            old(self).wf(),
            i <= old(self).t().len(),
        ensures
            final(self).toks == old(self).toks,
            expr_res(r, assign_expr(old(self).t(), i as int), old(self).t().len() as int),
        decreases old(self).t().len() - i, 29int, 0int,
    {
        let target = match self.ident(i) {
            Some(n) => n,
            None => return None,
        };
        match self.aug_op(i + 1) {
            Some(op) => match self.expr(i + 2) {
                Some((v, j)) => {
                    let sp = cover_of(&self.span(i), &expr_span_of(&v));
                    return Some((Expr::AugAssign { target, op, value: Box::new(v), span: sp }, j));
                },
                None => {},
            },
            None => {},
        }
        if self.at(i + 1, TokenKind::Assign) {
            match self.expr(i + 2) {
                Some((v, j)) => {
                    let sp = cover_of(&self.span(i), &expr_span_of(&v));
                    return Some((Expr::Assign { target, value: Box::new(v), span: sp }, j));
                },
                None => {},
            }
        }
        None
    }

    /// An operator chain, then optionally `..` or `...` and another; only
    /// the first such pair is kept, further ones are read and dropped.
    pub(crate) fn range_expr(&mut self, i: usize) -> (r: Option<(Expr, usize)>)
        requires
            old(self).wf(),
            i <= old(self).t().len(),
        ensures
            final(self).toks == old(self).toks,
            expr_res(r, range_expr(old(self).t(), i as int), old(self).t().len() as int),
        decreases old(self).t().len() - i, 28int, 0int,
    {
        let (a, j) = match self.chain(i, 0) {
            Some(x) => x,
            None => return None,
        };
        if !(i < j) {
            return None;
        }
        let (first, k) = self.range_tail(j);
        match first {
            None => Some((a, k)),
            Some((incl, b)) => {
                let sp = cover_of(&expr_span_of(&a), &expr_span_of(&b));
                Some((Expr::Range { start: Box::new(a), end: Box::new(b), is_inclusive: incl, span: sp }, k))
            },
        }
    }

    /// `..` / `...` and an operator chain, as many as follow; the first is
    /// returned.
    pub(crate) fn range_tail(&mut self, j: usize) -> (r: (Option<(bool, Expr)>, usize))
        requires
            old(self).wf(),
            j <= old(self).t().len(),
        ensures
            final(self).toks == old(self).toks,
            r.1 == range_tail(old(self).t(), j as int).1,
            r.1 <= old(self).t().len(),
            match r.0 {
                Some((incl, e)) => range_tail(old(self).t(), j as int).0.len() > 0 && range_tail(old(self).t(), j as int).0[0] == (
                incl,
                expr_v(e),
                ),
                None => range_tail(old(self).t(), j as int).0.len() == 0,
            },
        decreases old(self).t().len() - j, 27int, 0int,
    {
        let incl = if self.at(j, TokenKind::DotDot) {
            false
        } else if self.at(j, TokenKind::DotDotEllipsis) {
            true
        } else {
            return (None, j);
        };
        proof {
            assert(or_chain(self.t(), j + 1) == chain(self.t(), j + 1, 0));
        }
        match self.chain(j + 1, 0) {
            Some((b, k)) => {
                if j < k {
                    let (_, end) = self.range_tail(k);
                    proof {
                        let rest = range_tail(self.t(), k as int);
                        assert((seq![(incl, expr_v(b))] + rest.0)[0] == (incl, expr_v(b)));
                    }
                    (Some((incl, b)), end)
                } else {
                    (None, j)
                }
            },
            None => (None, j),
        }
    }

    /// The operand of a chain level: the next level, or a unary expression.
    pub(crate) fn operand(&mut self, i: usize, level: u8) -> (r: Option<(Expr, usize)>)
        requires
            old(self).wf(),
            i <= old(self).t().len(),
        ensures
            final(self).toks == old(self).toks,
            expr_res(r, operand(old(self).t(), i as int, level), old(self).t().len() as int),
        decreases old(self).t().len() - i, 25 - level, 1int,
    {
        if level < 4 {
            self.chain(i, level + 1)
        } else if level == 4 {
            self.unary(i)
        } else {
            None
        }
    }

    /// A left-associative chain of operands at a level.
    pub(crate) fn chain(&mut self, i: usize, level: u8) -> (r: Option<(Expr, usize)>)
        requires
            old(self).wf(),
            i <= old(self).t().len(),
        ensures
            final(self).toks == old(self).toks,
            expr_res(r, chain(old(self).t(), i as int, level), old(self).t().len() as int),
        decreases old(self).t().len() - i, 25 - level, 2int,
    {
        if level > 4 {
            return None;
        }
        match self.operand(i, level) {
            Some((a, j)) => {
                if i < j {
                    Some(self.chain_rest(j, level, a))
                } else {
                    None
                }
            },
            None => None,
        }
    }

    /// Further `op operand` pairs of a chain, folded to the left.
    pub(crate) fn chain_rest(&mut self, j0: usize, level: u8, acc0: Expr) -> (r: (Expr, usize))
        requires
            old(self).wf(),
            j0 <= old(self).t().len(),
            level <= 4,
        ensures
            final(self).toks == old(self).toks,
            chain_rest(old(self).t(), j0 as int, level, expr_v(acc0)) == (expr_v(r.0), r.1 as int),
            r.1 <= old(self).t().len(),
        decreases old(self).t().len() - j0, 25 - level, 0int,
    {
        let ghost t = self.t();
        let mut acc = acc0;
        let mut j = j0;
        loop
            invariant
                self.t() == t,
                self.toks == old(self).toks,
                self.wf(),
                j0 <= j <= t.len(),
                level <= 4,
                chain_rest(t, j0 as int, level, expr_v(acc0)) == chain_rest(t, j as int, level, expr_v(acc)),
            ensures
                chain_rest(t, j0 as int, level, expr_v(acc0)) == (expr_v(acc), j as int),
                j <= t.len(),
            decreases t.len() - j,
        {
            let op = match self.level_op(j, level) {
                Some(op) => op,
                None => {
                    break;
                },
            };
            let (b, k) = match self.operand(j + 1, level) {
                Some(x) => x,
                None => {
                    break;
                },
            };
            if !(j < k) {
                break;
            }
            let sp = cover_of(&expr_span_of(&acc), &expr_span_of(&b));
            acc = Expr::Binary { op, lhs: Box::new(acc), rhs: Box::new(b), span: sp };
            j = k;
        }
        (acc, j)
    }

    /// `-e` or `!e` (of a whole expression), or a primary expression.
    pub(crate) fn unary(&mut self, i: usize) -> (r: Option<(Expr, usize)>)
        requires
            old(self).wf(),
            i <= old(self).t().len(),
        ensures
            final(self).toks == old(self).toks,
            expr_res(r, unary(old(self).t(), i as int), old(self).t().len() as int),
        decreases old(self).t().len() - i, 20int, 0int,
    {
        if self.at(i, TokenKind::Minus) {
            match self.expr(i + 1) {
                Some((e, j)) => {
                    let sp = expr_span_of(&e);
                    return Some((Expr::Unary { op: UnOp::Neg, expr: Box::new(e), span: sp }, j));
                },
                None => {},
            }
        }
        if self.at(i, TokenKind::Bang) {
            match self.expr(i + 1) {
                Some((e, j)) => {
                    let sp = expr_span_of(&e);
                    return Some((Expr::Unary { op: UnOp::Not, expr: Box::new(e), span: sp }, j));
                },
                None => {},
            }
        }
        self.primary(i)
    }

    /// A literal, `{}`, a struct literal, an enum constructor, or a call or
    /// variable, tried in that order.
    pub(crate) fn primary(&mut self, i: usize) -> (r: Option<(Expr, usize)>)
        requires
            old(self).wf(),
            i <= old(self).t().len(),
        ensures
            final(self).toks == old(self).toks,
            expr_res(r, primary(old(self).t(), i as int), old(self).t().len() as int),
        decreases old(self).t().len() - i, 11int, 0int,
    {
        if i >= self.toks.len() {
            return None;
        }
        let toks: &'a [Token] = self.toks;
        match &toks[i].kind {
            TokenKind::Integer(n) => return Some((Expr::Integer(*n, self.span(i)), i + 1)),
            TokenKind::Float(f) => return Some((Expr::Float(f.clone(), self.span(i)), i + 1)),
            TokenKind::StrLit(s) => return Some((Expr::StrLit(s.clone(), self.span(i)), i + 1)),
            TokenKind::True => return Some((Expr::Bool(true, self.span(i)), i + 1)),
            TokenKind::False => return Some((Expr::Bool(false, self.span(i)), i + 1)),
            TokenKind::LBrace => {
                if self.at(i + 1, TokenKind::RBrace) {
                    return Some((Expr::Unit(self.span(i)), i + 2));
                } else {
                    return None;
                }
            },
            _ => {},
        }
        match self.struct_literal(i) {
            Some(x) => return Some(x),
            None => {},
        }
        match self.ident(i) {
            Some(name) => {
                if self.at(i + 1, TokenKind::DoubleColon) {
                    match self.ident(i + 2) {
                        Some(variant) => {
                            return Some((Expr::EnumConstructor { name, variant, span: self.span(i) }, i + 3));
                        },
                        None => {},
                    }
                }
            },
            None => {},
        }
        self.call_or_var(i)
    }

    /// `name [::<types>] { fields }`
    pub(crate) fn struct_literal(&mut self, i: usize) -> (r: Option<(Expr, usize)>)
        requires
            old(self).wf(),
            i <= old(self).t().len(),
        ensures
            final(self).toks == old(self).toks,
            expr_res(r, struct_literal(old(self).t(), i as int), old(self).t().len() as int),
        decreases old(self).t().len() - i, 10int, 0int,
    {
        let name = match self.ident(i) {
            Some(n) => n,
            None => return None,
        };
        let (type_args, b) = match self.turbofish(i + 1) {
            Some((ts, b)) => (ts, b),
            None => (Vec::new(), i + 1),
        };
        if !(self.at(b, TokenKind::LBrace) && i < b) {
            return None;
        }
        let (fields, k) = self.field_inits(b + 1);
        if !self.at(k, TokenKind::RBrace) {
            return None;
        }
        Some((Expr::StructLiteral { name, fields, type_args, span: self.span(i) }, k + 1))
    }

    /// `name: value` pairs of a struct literal, separated by commas.
    pub(crate) fn field_inits(&mut self, i: usize) -> (r: (Vec<(String, Expr)>, usize))
        requires
            old(self).wf(),
            i <= old(self).t().len(),
        ensures
            final(self).toks == old(self).toks,
            field_inits(old(self).t(), i as int) == (named_v(r.0@), r.1 as int),
            r.1 <= old(self).t().len(),
        decreases old(self).t().len() - i, 5int, 0int,
    {
        let ghost t = self.t();
        let name = match self.ident(i) {
            Some(n) => n,
            None => return (Vec::new(), i),
        };
        if !self.at(i + 1, TokenKind::Colon) {
            return (Vec::new(), i);
        }
        let (v, k) = match self.expr(i + 2) {
            Some(x) => x,
            None => return (Vec::new(), i),
        };
        if !(i < k) {
            return (Vec::new(), i);
        }
        let mut out: Vec<(String, Expr)> = Vec::new();
        proof {
            lemma_named_push(out@, (name, v));
            assert(named_v(out@) =~= Seq::<(Seq<char>, ExprV)>::empty());
        }
        out.push((name, v));
        let mut j = k;
        loop
            invariant
                self.t() == t,
                self.toks == old(self).toks,
                self.wf(),
                i < j <= t.len(),
                field_inits(t, i as int) == field_inits_rest(t, j as int, named_v(out@)),
            ensures
                field_inits(t, i as int) == (named_v(out@), j as int),
                j <= t.len(),
            decreases t.len() - j,
        {
            if !self.at(j, TokenKind::Comma) {
                break;
            }
            let n = match self.ident(j + 1) {
                Some(n) => n,
                None => {
                    break;
                },
            };
            if !self.at(j + 2, TokenKind::Colon) {
                break;
            }
            let (v2, k2) = match self.expr(j + 3) {
                Some(x) => x,
                None => {
                    break;
                },
            };
            if !(j < k2) {
                break;
            }
            proof {
                lemma_named_push(out@, (n, v2));
            }
            out.push((n, v2));
            j = k2;
        }
        (out, j)
    }

    /// Call arguments: expressions separated by commas.
    pub(crate) fn args(&mut self, i: usize) -> (r: (Vec<Expr>, usize))
        requires
            old(self).wf(),
            i <= old(self).t().len(),
        ensures
            final(self).toks == old(self).toks,
            args(old(self).t(), i as int) == (exprs_v(r.0@), r.1 as int),
            r.1 <= old(self).t().len(),
        decreases old(self).t().len() - i, 32int, 0int,
    {
        let ghost t = self.t();
        let (v, k) = match self.expr(i) {
            Some(x) => x,
            None => return (Vec::new(), i),
        };
        if !(i < k) {
            return (Vec::new(), i);
        }
        let mut out: Vec<Expr> = Vec::new();
        proof {
            lemma_exprs_push(out@, v);
            assert(exprs_v(out@) =~= Seq::<ExprV>::empty());
        }
        out.push(v);
        let mut j = k;
        loop
            invariant
                self.t() == t,
                self.toks == old(self).toks,
                self.wf(),
                i < j <= t.len(),
                args(t, i as int) == args_rest(t, j as int, exprs_v(out@)),
            ensures
                args(t, i as int) == (exprs_v(out@), j as int),
                j <= t.len(),
            decreases t.len() - j,
        {
            if !self.at(j, TokenKind::Comma) {
                break;
            }
            let (v2, k2) = match self.expr(j + 1) {
                Some(x) => x,
                None => {
                    break;
                },
            };
            if !(j < k2) {
                break;
            }
            proof {
                lemma_exprs_push(out@, v2);
            }
            out.push(v2);
            j = k2;
        }
        (out, j)
    }

    /// `name [::<types>] [(args)]`: a call, or a variable.
    #[verifier::rlimit(40)]
    pub(crate) fn call_or_var(&mut self, i: usize) -> (r: Option<(Expr, usize)>)
        requires
            old(self).wf(),
            i <= old(self).t().len(),
        ensures
            final(self).toks == old(self).toks,
            expr_res(r, call_or_var(old(self).t(), i as int), old(self).t().len() as int),
        decreases old(self).t().len() - i, 10int, 0int,
    {
        let ghost t = self.t();
        let name = match self.ident(i) {
            Some(n) => n,
            None => return None,
        };
        let (type_args, b) = match self.turbofish(i + 1) {
            Some((ts, b)) => (ts, b),
            None => (Vec::new(), i + 1),
        };
        let ghost tf = turbofish(t, i + 1);
        assert(type_args@ == (if tf is Some { (tf->0).0 } else { Seq::<Type>::empty() }));
        assert(b == (if tf is Some { (tf->0).1 } else { i + 1 }));
        if self.at(b, TokenKind::LParen) && i < b {
            let (a, k) = self.args(b + 1);
            if self.at(k, TokenKind::RParen) {
                let sp = self.span(i);
                let named: Vec<(String, Expr)> = Vec::new();
                proof {
                    assert(named_v(named@) =~= Seq::<(Seq<char>, ExprV)>::empty());
                }
                let e = Expr::Call { func: name, args: a, named_args: named, type_args, span: sp };
                proof {
                    assert(expr_v(e) == ExprV::Call {
                        func: ident_at(t, i as int)->0,
                        args: args(t, b + 1).0,
                        named_args: Seq::empty(),
                        type_args: type_args@,
                        span: span_at(t, i as int),
                    });
                }
                return Some((e, k + 1));
            }
        }
        Some((Expr::Var(name, self.span(i)), b))
    }
    /// A top-level item, after an optional `pub`.
    pub(crate) fn item(&mut self, i: usize) -> (r: Option<(Item, usize)>)
        requires
            old(self).wf(),
            i <= old(self).t().len(),
        ensures
            final(self).toks == old(self).toks,
            match r {
                Some((it, j)) => item(old(self).t(), i as int) == Some((item_v(it), j as int)) && j <= old(self).t().len(),
                None => item(old(self).t(), i as int) is None,
            },
    {
        let is_pub = self.at(i, TokenKind::Pub);
        let visibility = if is_pub {
            Visibility::Public
        } else {
            Visibility::Private
        };
        let k = if is_pub {
            i + 1
        } else {
            i
        };
        match self.function(k) {
            Some((f, j)) => {
                let name = f.name.clone();
                let span = copy_span(&f.span);
                return Some((Item { name, visibility, kind: ItemKind::Function(f), span }, j));
            },
            None => {},
        }
        match self.struct_decl(k) {
            Some((name, generic_params, fields, span, j)) => {
                let n = name.clone();
                let sp = copy_span(&span);
                return Some((
                    Item { name: n, visibility, kind: ItemKind::StructDef { name, generic_params, fields, span }, span: sp },
                    j,
                ));
            },
            None => {},
        }
        match self.enum_decl(k) {
            Some((name, generic_params, variants, span, j)) => {
                let n = name.clone();
                let sp = copy_span(&span);
                return Some((
                    Item { name: n, visibility, kind: ItemKind::EnumDef { name, generic_params, variants, span }, span: sp },
                    j,
                ));
            },
            None => {},
        }
        if self.at(k, TokenKind::Mod) {
            match self.ident(k + 1) {
                Some(name) => {
                    let span = self.span(k + 1);
                    return Some((Item { name, visibility, kind: ItemKind::ModDecl, span }, k + 2));
                },
                None => {},
            }
        }
        match self.use_decl(k) {
            Some((name, path, alias, span, j)) => {
                return Some((Item { name, visibility, kind: ItemKind::UseDecl { path, alias }, span }, j));
            },
            None => {},
        }
        None
    }

    /// Items, as many as parse.
    pub(crate) fn items(&mut self, i: usize) -> (r: (Vec<Item>, usize))
        requires
            old(self).wf(),
            i <= old(self).t().len(),
        ensures
            final(self).toks == old(self).toks,
            items(old(self).t(), i as int) == (items_v(r.0@), r.1 as int),
            r.1 <= old(self).t().len(),
    {
        let ghost t = self.t();
        let mut out: Vec<Item> = Vec::new();
        let mut j = i;
        proof {
            assert(items_v(out@) =~= Seq::<ItemV>::empty());
        }
        loop
            invariant
                self.t() == t,
                self.toks == old(self).toks,
                self.wf(),
                i <= j <= t.len(),
                items(t, i as int) == (items_v(out@) + items(t, j as int).0, items(t, j as int).1),
            ensures
                items(t, i as int) == (items_v(out@), j as int),
                j <= t.len(),
            decreases t.len() - j,
        {
            proof {
                assert(items_v(out@) + Seq::<ItemV>::empty() =~= items_v(out@));
            }
            match self.item(j) {
                Some((it, k)) => {
                    if j < k {
                        proof {
                            let rest = items(t, k as int);
                            assert(items_v(out@.push(it)) =~= items_v(out@).push(item_v(it)));
                            assert(items_v(out@) + items(t, j as int).0 =~= items_v(out@).push(item_v(it)) + rest.0);
                        }
                        out.push(it);
                        j = k;
                    } else {
                        break;
                    }
                },
                None => {
                    break;
                },
            }
        }
        (out, j)
    }
}

} // verus!
