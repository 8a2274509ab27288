//! The grammar, as functions from a token position to what is parsed there
//! and where it ends.  Alternatives are tried in order and the first that
//! succeeds is taken; repetitions take as many as succeed.  A rule that
//! would succeed without reading a token is taken to fail, which no rule
//! does.
use vstd::prelude::*;
use crate::ast::{AugOp, BinOp, Type, UnOp, Visibility, binop_spelling, augop_spelling, unop_spelling, type_keyword};
use crate::lexer::token::kind_spelling;
use crate::lexer::{Token, TokenKind};
use crate::parser::view::{ExprV, FunctionV, ItemKindV, ItemV, SpanV, StmtV};

verus! {

/// The words that are never identifiers.
pub open spec fn parser_keyword(w: Seq<char>) -> bool {
    ||| w == seq!['f', 'n']
    ||| w == seq!['l', 'e', 't']
    ||| w == seq!['m', 'u', 't']
    ||| w == seq!['i', 'f']
    ||| w == seq!['e', 'l', 'i', 'f']
    ||| w == seq!['e', 'l', 's', 'e']
    ||| w == seq!['f', 'o', 'r']
    ||| w == seq!['w', 'h', 'i', 'l', 'e']
    ||| w == seq!['i', 'n']
    ||| w == seq!['r', 'e', 't', 'u', 'r', 'n']
    ||| w == seq!['i', '6', '4']
    ||| w == seq!['f', '6', '4']
    ||| w == seq!['b', 'o', 'o', 'l']
    ||| w == seq!['s', 't', 'r']
    ||| w == seq!['u', 'n', 'i', 't']
    ||| w == seq!['t', 'r', 'u', 'e']
    ||| w == seq!['f', 'a', 'l', 's', 'e']
    ||| w == seq!['p', 'r', 'i', 'n', 't', 'l', 'n']
    ||| w == seq!['s', 't', 'r', 'u', 'c', 't']
    ||| w == seq!['e', 'n', 'u', 'm']
    ||| w == seq!['m', 'o', 'd']
    ||| w == seq!['u', 's', 'e']
    ||| w == seq!['p', 'u', 'b']
    ||| w == seq!['a', 's']
}

pub open spec fn is_at(t: Seq<Token>, i: int, k: TokenKind) -> bool {
    0 <= i < t.len() && t[i].kind == k
}

pub open spec fn span_at(t: Seq<Token>, i: int) -> SpanV {
    (t[i].span.start, t[i].span.end)
}

/// An identifier that is not a keyword.
pub open spec fn ident_at(t: Seq<Token>, i: int) -> Option<Seq<char>> {
    if 0 <= i < t.len() {
        match t[i].kind {
            TokenKind::Ident(s) => if !parser_keyword(s@) {
                Some(s@)
            } else {
                None
            },
            _ => None,
        }
    } else {
        None
    }
}

/// A type name: a primitive type keyword, or any other identifier as a
/// struct type.
pub open spec fn type_at(t: Seq<Token>, i: int) -> Option<Type> {
    if 0 <= i < t.len() {
        match t[i].kind {
            TokenKind::I64 => Some(Type::I64),
            TokenKind::F64 => Some(Type::F64),
            TokenKind::Bool => Some(Type::Bool),
            TokenKind::Str => Some(Type::Str),
            TokenKind::Unit => Some(Type::Unit),
            TokenKind::Ident(s) => if !parser_keyword(s@) {
                Some(Type::Struct(s))
            } else {
                None
            },
            _ => None,
        }
    } else {
        None
    }
}

/// `: type`
pub open spec fn type_ann(t: Seq<Token>, i: int) -> Option<(Type, int)> {
    if is_at(t, i, TokenKind::Colon) && type_at(t, i + 1) is Some {
        Some((type_at(t, i + 1)->0, i + 2))
    } else {
        None
    }
}

/// `-> type`, or `unit` when absent.
pub open spec fn ret_type(t: Seq<Token>, i: int) -> (Type, int) {
    if is_at(t, i, TokenKind::RArrow) && type_at(t, i + 1) is Some {
        (type_at(t, i + 1)->0, i + 2)
    } else {
        (Type::Unit, i)
    }
}

/// More identifiers after the first, each after a comma.
pub open spec fn more_idents(t: Seq<Token>, j: int, acc: Seq<Seq<char>>) -> (Seq<Seq<char>>, int)
    decreases t.len() - j,
{
    if 0 <= j && is_at(t, j, TokenKind::Comma) && ident_at(t, j + 1) is Some {
        more_idents(t, j + 2, acc.push(ident_at(t, j + 1)->0))
    } else {
        (acc, j)
    }
}

/// Identifiers separated by commas, possibly none.
pub open spec fn idents(t: Seq<Token>, i: int) -> (Seq<Seq<char>>, int) {
    if ident_at(t, i) is Some {
        more_idents(t, i + 1, seq![ident_at(t, i)->0])
    } else {
        (Seq::empty(), i)
    }
}

/// `<a, b, ...>`, or nothing.
pub open spec fn generic_params(t: Seq<Token>, i: int) -> (Seq<Seq<char>>, int) {
    if is_at(t, i, TokenKind::Lt) && is_at(t, idents(t, i + 1).1, TokenKind::Gt) {
        (idents(t, i + 1).0, idents(t, i + 1).1 + 1)
    } else {
        (Seq::empty(), i)
    }
}

/// `name: type`
pub open spec fn typed_name(t: Seq<Token>, i: int) -> Option<((Seq<char>, Type), int)> {
    if ident_at(t, i) is Some && type_ann(t, i + 1) is Some {
        Some(((ident_at(t, i)->0, (type_ann(t, i + 1)->0).0), (type_ann(t, i + 1)->0).1))
    } else {
        None
    }
}

pub open spec fn more_typed(t: Seq<Token>, j: int, acc: Seq<(Seq<char>, Type)>) -> (Seq<(Seq<char>, Type)>, int)
    decreases t.len() - j,
{
    if 0 <= j && is_at(t, j, TokenKind::Comma) && typed_name(t, j + 1) is Some {
        more_typed(t, (typed_name(t, j + 1)->0).1, acc.push((typed_name(t, j + 1)->0).0))
    } else {
        (acc, j)
    }
}

/// `name: type` pairs separated by commas, possibly none.
pub open spec fn typed_names(t: Seq<Token>, i: int) -> (Seq<(Seq<char>, Type)>, int) {
    if typed_name(t, i) is Some {
        more_typed(t, (typed_name(t, i)->0).1, seq![(typed_name(t, i)->0).0])
    } else {
        (Seq::empty(), i)
    }
}

/// `(params)`, or a lone `)` for no parameters.
pub open spec fn params(t: Seq<Token>, i: int) -> Option<(Seq<(Seq<char>, Type)>, int)> {
    if is_at(t, i, TokenKind::LParen) && is_at(t, typed_names(t, i + 1).1, TokenKind::RParen) {
        Some((typed_names(t, i + 1).0, typed_names(t, i + 1).1 + 1))
    } else if is_at(t, i, TokenKind::RParen) {
        Some((Seq::empty(), i + 1))
    } else {
        None
    }
}

/// `{ name: type, ... }`
pub open spec fn field_decls(t: Seq<Token>, i: int) -> Option<(Seq<(Seq<char>, Type)>, int)> {
    if is_at(t, i, TokenKind::LBrace) && is_at(t, typed_names(t, i + 1).1, TokenKind::RBrace) {
        Some((typed_names(t, i + 1).0, typed_names(t, i + 1).1 + 1))
    } else {
        None
    }
}

/// `{ Variant, ... }`
pub open spec fn variant_decls(t: Seq<Token>, i: int) -> Option<(Seq<Seq<char>>, int)> {
    if is_at(t, i, TokenKind::LBrace) && is_at(t, idents(t, i + 1).1, TokenKind::RBrace) {
        Some((idents(t, i + 1).0, idents(t, i + 1).1 + 1))
    } else {
        None
    }
}

/// `struct Name<..> { fields }` after `at` (the keyword): name, generic
/// parameters, fields, the name's span, and the end.
pub open spec fn struct_decl(t: Seq<Token>, i: int) -> Option<(Seq<char>, Seq<Seq<char>>, Seq<(Seq<char>, Type)>, SpanV, int)> {
    if is_at(t, i, TokenKind::Struct) && ident_at(t, i + 1) is Some && field_decls(t, generic_params(t, i + 2).1) is Some {
        let g = generic_params(t, i + 2);
        let f = field_decls(t, g.1)->0;
        Some((ident_at(t, i + 1)->0, g.0, f.0, span_at(t, i + 1), f.1))
    } else {
        None
    }
}

/// `enum Name<..> { Variants }`
pub open spec fn enum_decl(t: Seq<Token>, i: int) -> Option<(Seq<char>, Seq<Seq<char>>, Seq<Seq<char>>, SpanV, int)> {
    if is_at(t, i, TokenKind::Enum) && ident_at(t, i + 1) is Some && variant_decls(t, generic_params(t, i + 2).1) is Some {
        let g = generic_params(t, i + 2);
        let v = variant_decls(t, g.1)->0;
        Some((ident_at(t, i + 1)->0, g.0, v.0, span_at(t, i + 1), v.1))
    } else {
        None
    }
}

/// A path segment: an identifier, or one of a few keywords by their text.
pub open spec fn segment_at(t: Seq<Token>, i: int) -> Option<Seq<char>> {
    if 0 <= i < t.len() {
        match t[i].kind {
            TokenKind::Ident(s) => if !parser_keyword(s@) {
                Some(s@)
            } else {
                None
            },
            TokenKind::Println => Some(seq!['p', 'r', 'i', 'n', 't', 'l', 'n']),
            TokenKind::True => Some(seq!['t', 'r', 'u', 'e']),
            TokenKind::False => Some(seq!['f', 'a', 'l', 's', 'e']),
            TokenKind::I64 => Some(seq!['i', '6', '4']),
            TokenKind::F64 => Some(seq!['f', '6', '4']),
            TokenKind::Bool => Some(seq!['b', 'o', 'o', 'l']),
            TokenKind::Str => Some(seq!['s', 't', 'r']),
            TokenKind::Unit => Some(seq!['u', 'n', 'i', 't']),
            _ => None,
        }
    } else {
        None
    }
}

/// More path segments, each after `::`; the end offset of the last.
pub open spec fn more_segments(t: Seq<Token>, j: int, acc: Seq<Seq<char>>, end: usize) -> (Seq<Seq<char>>, usize, int)
    decreases t.len() - j,
{
    if 0 <= j && is_at(t, j, TokenKind::DoubleColon) && segment_at(t, j + 1) is Some {
        more_segments(t, j + 2, acc.push(segment_at(t, j + 1)->0), t[j + 1].span.end)
    } else {
        (acc, end, j)
    }
}

/// `use a::b [as c]`: the item's name (the last segment), the path, the
/// alias, the span from `use` to the last segment, and the end.
pub open spec fn use_decl(t: Seq<Token>, i: int) -> Option<(Seq<char>, Seq<Seq<char>>, Option<Seq<char>>, SpanV, int)> {
    if is_at(t, i, TokenKind::Use) && segment_at(t, i + 1) is Some {
        let p = more_segments(t, i + 2, seq![segment_at(t, i + 1)->0], t[i + 1].span.end);
        let alias = if is_at(t, p.2, TokenKind::As) && ident_at(t, p.2 + 1) is Some {
            Some(ident_at(t, p.2 + 1)->0)
        } else {
            None
        };
        let end = if alias is Some {
            p.2 + 2
        } else {
            p.2
        };
        Some((p.0.last(), p.0, alias, (t[i].span.start, p.1), end))
    } else {
        None
    }
}

/// `fn name<..>(params) -> type { body }`
pub open spec fn function(t: Seq<Token>, i: int) -> Option<(FunctionV, int)>
    decreases t.len() - i, 40int, 0int,
{
    if is_at(t, i, TokenKind::Fn) && ident_at(t, i + 1) is Some {
        let g = generic_params(t, i + 2);
        if params(t, g.1) is Some {
            let p = params(t, g.1)->0;
            let r = ret_type(t, p.1);
            if 0 <= r.1 && i < r.1 && block(t, r.1) is Some {
                let b = block(t, r.1)->0;
                Some((
                    FunctionV {
                        name: ident_at(t, i + 1)->0,
                        generic_params: g.0,
                        params: p.0,
                        return_type: r.0,
                        body: b.0,
                        span: span_at(t, i + 1),
                    },
                    b.1,
                ))
            } else {
                None
            }
        } else {
            None
        }
    } else {
        None
    }
}

/// `{ statements }`
pub open spec fn block(t: Seq<Token>, i: int) -> Option<(Seq<StmtV>, int)>
    decreases t.len() - i, 35int, 0int,
{
    if 0 <= i && is_at(t, i, TokenKind::LBrace) {
        let s = stmts(t, i + 1);
        if is_at(t, s.1, TokenKind::RBrace) {
            Some((s.0, s.1 + 1))
        } else {
            None
        }
    } else {
        None
    }
}

/// Statements, as many as parse.
pub open spec fn stmts(t: Seq<Token>, i: int) -> (Seq<StmtV>, int)
    decreases t.len() - i, 34int, 0int,
{
    if 0 <= i <= t.len() {
        match stmt(t, i) {
            Some((s, j)) => if i < j <= t.len() {
                let rest = stmts(t, j);
                (seq![s] + rest.0, rest.1)
            } else {
                (Seq::empty(), i)
            },
            None => (Seq::empty(), i),
        }
    } else {
        (Seq::empty(), i)
    }
}

/// The span an expression reports.
pub open spec fn expr_span(e: ExprV) -> SpanV {
    match e {
        ExprV::Integer(_, s) => s,
        ExprV::Float(_, s) => s,
        ExprV::StrLit(_, s) => s,
        ExprV::Bool(_, s) => s,
        ExprV::Unit(s) => s,
        ExprV::Var(_, s) => s,
        ExprV::Assign { span, .. } => span,
        ExprV::AugAssign { span, .. } => span,
        ExprV::Binary { span, .. } => span,
        ExprV::Unary { span, .. } => span,
        ExprV::Call { span, .. } => span,
        ExprV::If { span, .. } => span,
        ExprV::For { span, .. } => span,
        ExprV::While { span, .. } => span,
        ExprV::Range { span, .. } => span,
        ExprV::StructLiteral { span, .. } => span,
        ExprV::FieldAccess { span, .. } => span,
        ExprV::EnumConstructor { span, .. } => span,
        ExprV::Index { span, .. } => span,
        ExprV::Length { span, .. } => span,
        ExprV::Pipeline { span, .. } => span,
        ExprV::Closure { span, .. } => span,
        ExprV::ListLiteral { span, .. } => span,
        ExprV::InterpolatedStr(_, s) => s,
    }
}

/// The span a statement reports.
pub open spec fn stmt_span(s: StmtV) -> SpanV {
    match s {
        StmtV::Let { span, .. } => span,
        StmtV::Expr(_, span) => span,
        StmtV::Return(_, span) => span,
        StmtV::Println(_, span) => span,
        StmtV::StructDef { span, .. } => span,
        StmtV::EnumDef { span, .. } => span,
        StmtV::Give(_, span) => span,
        StmtV::Say(_, span) => span,
        StmtV::Raise(_, span) => span,
    }
}

pub open spec fn min_u(a: usize, b: usize) -> usize {
    if a <= b {
        a
    } else {
        b
    }
}

pub open spec fn max_u(a: usize, b: usize) -> usize {
    if a >= b {
        a
    } else {
        b
    }
}

/// The smallest span covering both.
pub open spec fn cover(a: SpanV, b: SpanV) -> SpanV {
    (min_u(a.0, b.0), max_u(a.1, b.1))
}

/// A statement: `let`, `return`, `println(..)`, a struct or enum
/// definition, or an expression, tried in that order.
pub open spec fn stmt(t: Seq<Token>, i: int) -> Option<(StmtV, int)>
    decreases t.len() - i, 33int, 0int,
{
    if !(0 <= i < t.len()) {
        None
    } else if let_stmt(t, i) is Some {
        let_stmt(t, i)
    } else if is_at(t, i, TokenKind::Return) {
        match expr(t, i + 1) {
            Some((e, j)) => Some((StmtV::Return(Some(e), (t[i].span.start, expr_span(e).1)), j)),
            None => Some((StmtV::Return(None, span_at(t, i)), i + 1)),
        }
    } else if is_at(t, i, TokenKind::Println) && is_at(t, i + 1, TokenKind::LParen) && expr(t, i + 2) is Some
        && is_at(t, (expr(t, i + 2)->0).1, TokenKind::RParen) {
        let e = expr(t, i + 2)->0;
        Some((StmtV::Println(e.0, expr_span(e.0)), e.1 + 1))
    } else if struct_decl(t, i) is Some {
        let d = struct_decl(t, i)->0;
        Some((StmtV::StructDef { name: d.0, generic_params: d.1, fields: d.2, span: d.3 }, d.4))
    } else if enum_decl(t, i) is Some {
        let d = enum_decl(t, i)->0;
        Some((StmtV::EnumDef { name: d.0, generic_params: d.1, variants: d.2, span: d.3 }, d.4))
    } else {
        match expr(t, i) {
            Some((e, j)) => Some((StmtV::Expr(e, expr_span(e)), j)),
            None => None,
        }
    }
}

/// `let [mut] name [: type] = expr`
pub open spec fn let_stmt(t: Seq<Token>, i: int) -> Option<(StmtV, int)>
    decreases t.len() - i, 32int, 0int,
{
    if 0 <= i && is_at(t, i, TokenKind::Let) {
        let m = is_at(t, i + 1, TokenKind::Mut);
        let n = if m {
            i + 2
        } else {
            i + 1
        };
        if ident_at(t, n) is Some {
            let ty = type_ann(t, n + 1);
            let a = if ty is Some {
                (ty->0).1
            } else {
                n + 1
            };
            if i < a && is_at(t, a, TokenKind::Assign) && expr(t, a + 1) is Some {
                let e = expr(t, a + 1)->0;
                let es = expr_span(e.0);
                let ns = span_at(t, n);
                Some((
                    StmtV::Let {
                        name: ident_at(t, n)->0,
                        mutable: m,
                        ty: if ty is Some {
                            Some((ty->0).0)
                        } else {
                            None
                        },
                        value: e.0,
                        span: (min_u(ns.0, es.0), max_u(es.1, ns.1)),
                    },
                    e.1,
                ))
            } else {
                None
            }
        } else {
            None
        }
    } else {
        None
    }
}

/// An expression: a control-flow form, an assignment, or a range (or
/// operator chain), followed by field accesses.
pub open spec fn expr(t: Seq<Token>, i: int) -> Option<(ExprV, int)>
    decreases t.len() - i, 31int, 0int,
{
    if !(0 <= i < t.len()) {
        None
    } else {
        match base_expr(t, i) {
            Some((b, j)) => if i < j <= t.len() {
                Some(field_accesses(t, j, b))
            } else {
                None
            },
            None => None,
        }
    }
}

/// `.field` accesses, as many as follow.
pub open spec fn field_accesses(t: Seq<Token>, j: int, e: ExprV) -> (ExprV, int)
    decreases t.len() - j,
{
    if 0 <= j && is_at(t, j, TokenKind::Dot) && ident_at(t, j + 1) is Some {
        field_accesses(
            t,
            j + 2,
            ExprV::FieldAccess { expr: Box::new(e), field: ident_at(t, j + 1)->0, span: (expr_span(e).0, t[j + 1].span.end) },
        )
    } else {
        (e, j)
    }
}

/// `if`, `for`, `while`, an assignment, or a range, tried in that order.
pub open spec fn base_expr(t: Seq<Token>, i: int) -> Option<(ExprV, int)>
    decreases t.len() - i, 30int, 0int,
{
    if !(0 <= i < t.len()) {
        None
    } else if if_expr(t, i) is Some {
        if_expr(t, i)
    } else if for_expr(t, i) is Some {
        for_expr(t, i)
    } else if while_expr(t, i) is Some {
        while_expr(t, i)
    } else if assign_expr(t, i) is Some {
        assign_expr(t, i)
    } else {
        range_expr(t, i)
    }
}

/// The end of the span of a control-flow form: the furthest of its head
/// expression's end and its body's last statement's end.
pub open spec fn body_end(head: ExprV, body: Seq<StmtV>) -> usize {
    if body.len() > 0 {
        max_u(expr_span(head).1, stmt_span(body.last()).1)
    } else {
        expr_span(head).1
    }
}

/// `elif cond { body }` arms, as many as follow.
pub open spec fn elif_arms(t: Seq<Token>, j: int) -> (Seq<(ExprV, Seq<StmtV>)>, int)
    decreases t.len() - j, 29int, 0int,
{
    if 0 <= j && is_at(t, j, TokenKind::Elif) && expr(t, j + 1) is Some && j < (expr(t, j + 1)->0).1 <= t.len() && block(t, (expr(t, j + 1)->0).1)
        is Some {
        let c = expr(t, j + 1)->0;
        let b = block(t, c.1)->0;
        if j < b.1 <= t.len() {
            let rest = elif_arms(t, b.1);
            (seq![(c.0, b.0)] + rest.0, rest.1)
        } else {
            (Seq::empty(), j)
        }
    } else {
        (Seq::empty(), j)
    }
}

/// `if cond { .. } elif .. else { .. }`
pub open spec fn if_expr(t: Seq<Token>, i: int) -> Option<(ExprV, int)>
    decreases t.len() - i, 29int, 0int,
{
    if 0 <= i && is_at(t, i, TokenKind::If) && expr(t, i + 1) is Some && i < (expr(t, i + 1)->0).1 <= t.len() && block(t, (expr(t, i + 1)->0).1)
        is Some {
        let c = expr(t, i + 1)->0;
        let b = block(t, c.1)->0;
        if i < b.1 <= t.len() {
            let arms = elif_arms(t, b.1);
            let els = if is_at(t, arms.1, TokenKind::Else) && i < arms.1 && block(t, arms.1 + 1) is Some {
                Some(block(t, arms.1 + 1)->0)
            } else {
                None
            };
            let end = if els is Some {
                (els->0).1
            } else {
                arms.1
            };
            Some((
                ExprV::If {
                    condition: Box::new(c.0),
                    then_branch: b.0,
                    elif_branches: arms.0,
                    else_branch: if els is Some {
                        Some((els->0).0)
                    } else {
                        None
                    },
                    span: (t[i].span.start, body_end(c.0, b.0)),
                },
                end,
            ))
        } else {
            None
        }
    } else {
        None
    }
}

/// `for var in iter { body }`
pub open spec fn for_expr(t: Seq<Token>, i: int) -> Option<(ExprV, int)>
    decreases t.len() - i, 29int, 0int,
{
    if 0 <= i && is_at(t, i, TokenKind::For) && ident_at(t, i + 1) is Some && is_at(t, i + 2, TokenKind::In) && expr(t, i + 3)
        is Some && i < (expr(t, i + 3)->0).1 <= t.len() && block(t, (expr(t, i + 3)->0).1) is Some {
        let it = expr(t, i + 3)->0;
        let b = block(t, it.1)->0;
        Some((
            ExprV::For {
                var: ident_at(t, i + 1)->0,
                iter: Box::new(it.0),
                body: b.0,
                span: (t[i].span.start, body_end(it.0, b.0)),
            },
            b.1,
        ))
    } else {
        None
    }
}

/// `while cond { body }`
pub open spec fn while_expr(t: Seq<Token>, i: int) -> Option<(ExprV, int)>
    decreases t.len() - i, 29int, 0int,
{
    if 0 <= i && is_at(t, i, TokenKind::While) && expr(t, i + 1) is Some && i < (expr(t, i + 1)->0).1 <= t.len() && block(t, (expr(t, i + 1)->0).1)
        is Some {
        let c = expr(t, i + 1)->0;
        let b = block(t, c.1)->0;
        Some((ExprV::While { condition: Box::new(c.0), body: b.0, span: (t[i].span.start, body_end(c.0, b.0)) }, b.1))
    } else {
        None
    }
}

/// The compound-assignment operator at `i`.
pub open spec fn aug_op_at(t: Seq<Token>, i: int) -> Option<AugOp> {
    if 0 <= i < t.len() {
        match t[i].kind {
            TokenKind::PlusAssign => Some(AugOp::Add),
            TokenKind::MinusAssign => Some(AugOp::Sub),
            TokenKind::StarAssign => Some(AugOp::Mul),
            TokenKind::SlashAssign => Some(AugOp::Div),
            _ => None,
        }
    } else {
        None
    }
}

/// `name op= value`, then `name = value`.
pub open spec fn assign_expr(t: Seq<Token>, i: int) -> Option<(ExprV, int)>
    decreases t.len() - i, 29int, 0int,
{
    if 0 <= i && ident_at(t, i) is Some && aug_op_at(t, i + 1) is Some && expr(t, i + 2) is Some {
        let v = expr(t, i + 2)->0;
        Some((
            ExprV::AugAssign {
                target: ident_at(t, i)->0,
                op: aug_op_at(t, i + 1)->0,
                value: Box::new(v.0),
                span: cover(span_at(t, i), expr_span(v.0)),
            },
            v.1,
        ))
    } else if 0 <= i && ident_at(t, i) is Some && is_at(t, i + 1, TokenKind::Assign) && expr(t, i + 2) is Some {
        let v = expr(t, i + 2)->0;
        Some((
            ExprV::Assign { target: ident_at(t, i)->0, value: Box::new(v.0), span: cover(span_at(t, i), expr_span(v.0)) },
            v.1,
        ))
    } else {
        None
    }
}

/// An operator chain, then optionally `..` or `...` and another; only the
/// first such pair is kept, further ones are read and dropped.
pub open spec fn range_expr(t: Seq<Token>, i: int) -> Option<(ExprV, int)>
    decreases t.len() - i, 28int, 0int,
{
    match or_chain(t, i) {
        Some((a, j)) => if i < j <= t.len() {
            let rest = range_tail(t, j);
            if rest.0.len() == 0 {
                Some((a, rest.1))
            } else {
                let (incl, b) = rest.0[0];
                Some((ExprV::Range { start: Box::new(a), end: Box::new(b), is_inclusive: incl, span: cover(expr_span(a), expr_span(b)) }, rest.1))
            }
        } else {
            None
        },
        None => None,
    }
}

/// `..` / `...` followed by an operator chain, as many as follow.
pub open spec fn range_tail(t: Seq<Token>, j: int) -> (Seq<(bool, ExprV)>, int)
    decreases t.len() - j, 27int, 0int,
{
    let incl = if is_at(t, j, TokenKind::DotDot) {
        Some(false)
    } else if is_at(t, j, TokenKind::DotDotEllipsis) {
        Some(true)
    } else {
        None
    };
    if 0 <= j && incl is Some && or_chain(t, j + 1) is Some {
        let b = or_chain(t, j + 1)->0;
        if j < b.1 <= t.len() {
            let rest = range_tail(t, b.1);
            (seq![(incl->0, b.0)] + rest.0, rest.1)
        } else {
            (Seq::empty(), j)
        }
    } else {
        (Seq::empty(), j)
    }
}

/// The binary operator of a chain level at `i`: level 0 is `||`, 1 is
/// `&&`, 2 the comparisons, 3 `+ -`, 4 `* / %`.
pub open spec fn level_op(t: Seq<Token>, i: int, level: u8) -> Option<BinOp> {
    if 0 <= i < t.len() {
        match (level, t[i].kind) {
            (0, TokenKind::Or) => Some(BinOp::Or),
            (1, TokenKind::And) => Some(BinOp::And),
            (2, TokenKind::EqEq) => Some(BinOp::Eq),
            (2, TokenKind::NotEq) => Some(BinOp::Ne),
            (2, TokenKind::Lt) => Some(BinOp::Lt),
            (2, TokenKind::Gt) => Some(BinOp::Gt),
            (2, TokenKind::LtEq) => Some(BinOp::Le),
            (2, TokenKind::GtEq) => Some(BinOp::Ge),
            (3, TokenKind::Plus) => Some(BinOp::Add),
            (3, TokenKind::Minus) => Some(BinOp::Sub),
            (4, TokenKind::Star) => Some(BinOp::Mul),
            (4, TokenKind::Slash) => Some(BinOp::Div),
            (4, TokenKind::Percent) => Some(BinOp::Mod),
            _ => None,
        }
    } else {
        None
    }
}

/// The operand of a chain level: the next level, or a unary expression.
pub open spec fn operand(t: Seq<Token>, i: int, level: u8) -> Option<(ExprV, int)>
    decreases t.len() - i, 25 - level, 1int,
{
    if level < 4 {
        chain(t, i, (level + 1) as u8)
    } else if level == 4 {
        unary(t, i)
    } else {
        None
    }
}

/// A left-associative chain of operands at a level: `a op b op c` is
/// `(a op b) op c`.
pub open spec fn chain(t: Seq<Token>, i: int, level: u8) -> Option<(ExprV, int)>
    decreases t.len() - i, 25 - level, 2int,
{
    if level <= 4 {
        match operand(t, i, level) {
            Some((a, j)) => if i < j <= t.len() {
                Some(chain_rest(t, j, level, a))
            } else {
                None
            },
            None => None,
        }
    } else {
        None
    }
}

/// Further `op operand` pairs of a chain, folded to the left.
pub open spec fn chain_rest(t: Seq<Token>, j: int, level: u8, acc: ExprV) -> (ExprV, int)
    decreases t.len() - j, 25 - level, 0int,
{
    if 0 <= j && level <= 4 && level_op(t, j, level) is Some && operand(t, j + 1, level) is Some {
        let b = operand(t, j + 1, level)->0;
        if j < b.1 <= t.len() {
            chain_rest(
                t,
                b.1,
                level,
                ExprV::Binary { op: level_op(t, j, level)->0, lhs: Box::new(acc), rhs: Box::new(b.0), span: cover(expr_span(acc), expr_span(b.0)) },
            )
        } else {
            (acc, j)
        }
    } else {
        (acc, j)
    }
}

/// The whole operator chain: `||` at the top.
pub open spec fn or_chain(t: Seq<Token>, i: int) -> Option<(ExprV, int)>
    decreases t.len() - i, 26int, 0int,
{
    chain(t, i, 0)
}

/// `-e` or `!e` (of a whole expression), or a primary expression.
pub open spec fn unary(t: Seq<Token>, i: int) -> Option<(ExprV, int)>
    decreases t.len() - i, 20int, 0int,
{
    if 0 <= i && is_at(t, i, TokenKind::Minus) && expr(t, i + 1) is Some {
        let e = expr(t, i + 1)->0;
        Some((ExprV::Unary { op: UnOp::Neg, expr: Box::new(e.0), span: expr_span(e.0) }, e.1))
    } else if 0 <= i && is_at(t, i, TokenKind::Bang) && expr(t, i + 1) is Some {
        let e = expr(t, i + 1)->0;
        Some((ExprV::Unary { op: UnOp::Not, expr: Box::new(e.0), span: expr_span(e.0) }, e.1))
    } else {
        primary(t, i)
    }
}

/// `::<types>` after a name, or nothing.
pub open spec fn turbofish(t: Seq<Token>, i: int) -> Option<(Seq<Type>, int)> {
    if is_at(t, i, TokenKind::DoubleColon) && is_at(t, i + 1, TokenKind::Lt) && is_at(t, types(t, i + 2).1, TokenKind::Gt) {
        Some((types(t, i + 2).0, types(t, i + 2).1 + 1))
    } else {
        None
    }
}

pub open spec fn more_types(t: Seq<Token>, j: int, acc: Seq<Type>) -> (Seq<Type>, int)
    decreases t.len() - j,
{
    if 0 <= j && is_at(t, j, TokenKind::Comma) && type_at(t, j + 1) is Some {
        more_types(t, j + 2, acc.push(type_at(t, j + 1)->0))
    } else {
        (acc, j)
    }
}

/// Types separated by commas, possibly none.
pub open spec fn types(t: Seq<Token>, i: int) -> (Seq<Type>, int) {
    if type_at(t, i) is Some {
        more_types(t, i + 1, seq![type_at(t, i)->0])
    } else {
        (Seq::empty(), i)
    }
}

/// `name: value` pairs of a struct literal, separated by commas.
pub open spec fn field_inits(t: Seq<Token>, i: int) -> (Seq<(Seq<char>, ExprV)>, int)
    decreases t.len() - i, 5int, 0int,
{
    if 0 <= i && ident_at(t, i) is Some && is_at(t, i + 1, TokenKind::Colon) && expr(t, i + 2) is Some {
        let v = expr(t, i + 2)->0;
        if i < v.1 <= t.len() {
            field_inits_rest(t, v.1, seq![(ident_at(t, i)->0, v.0)])
        } else {
            (Seq::empty(), i)
        }
    } else {
        (Seq::empty(), i)
    }
}

pub open spec fn field_inits_rest(t: Seq<Token>, j: int, acc: Seq<(Seq<char>, ExprV)>) -> (Seq<(Seq<char>, ExprV)>, int)
    decreases t.len() - j, 4int, 0int,
{
    if 0 <= j && is_at(t, j, TokenKind::Comma) && ident_at(t, j + 1) is Some && is_at(t, j + 2, TokenKind::Colon) && expr(t, j + 3)
        is Some {
        let v = expr(t, j + 3)->0;
        if j < v.1 <= t.len() {
            field_inits_rest(t, v.1, acc.push((ident_at(t, j + 1)->0, v.0)))
        } else {
            (acc, j)
        }
    } else {
        (acc, j)
    }
}

/// Call arguments: expressions separated by commas.
pub open spec fn args(t: Seq<Token>, i: int) -> (Seq<ExprV>, int)
    decreases t.len() - i, 32int, 0int,
{
    if 0 <= i && expr(t, i) is Some {
        let v = expr(t, i)->0;
        if i < v.1 <= t.len() {
            args_rest(t, v.1, seq![v.0])
        } else {
            (Seq::empty(), i)
        }
    } else {
        (Seq::empty(), i)
    }
}

pub open spec fn args_rest(t: Seq<Token>, j: int, acc: Seq<ExprV>) -> (Seq<ExprV>, int)
    decreases t.len() - j, 4int, 0int,
{
    if 0 <= j && is_at(t, j, TokenKind::Comma) && expr(t, j + 1) is Some {
        let v = expr(t, j + 1)->0;
        if j < v.1 <= t.len() {
            args_rest(t, v.1, acc.push(v.0))
        } else {
            (acc, j)
        }
    } else {
        (acc, j)
    }
}

/// `name [::<types>] { fields }`
pub open spec fn struct_literal(t: Seq<Token>, i: int) -> Option<(ExprV, int)>
    decreases t.len() - i, 10int, 0int,
{
    if 0 <= i && ident_at(t, i) is Some {
        let tf = turbofish(t, i + 1);
        let b = if tf is Some {
            (tf->0).1
        } else {
            i + 1
        };
        if is_at(t, b, TokenKind::LBrace) && i < b {
            let f = field_inits(t, b + 1);
            if is_at(t, f.1, TokenKind::RBrace) {
                Some((
                    ExprV::StructLiteral {
                        name: ident_at(t, i)->0,
                        fields: f.0,
                        type_args: if tf is Some {
                            (tf->0).0
                        } else {
                            Seq::empty()
                        },
                        span: span_at(t, i),
                    },
                    f.1 + 1,
                ))
            } else {
                None
            }
        } else {
            None
        }
    } else {
        None
    }
}

/// `name [::<types>] [(args)]`: a call, or a variable.
pub open spec fn call_or_var(t: Seq<Token>, i: int) -> Option<(ExprV, int)>
    decreases t.len() - i, 10int, 0int,
{
    if 0 <= i && ident_at(t, i) is Some {
        let tf = turbofish(t, i + 1);
        let b = if tf is Some {
            (tf->0).1
        } else {
            i + 1
        };
        let a = if is_at(t, b, TokenKind::LParen) && i < b && is_at(t, args(t, b + 1).1, TokenKind::RParen) {
            Some(args(t, b + 1))
        } else {
            None
        };
        if a is Some {
            Some((
                ExprV::Call {
                    func: ident_at(t, i)->0,
                    args: (a->0).0,
                    named_args: Seq::empty(),
                    type_args: if tf is Some {
                        (tf->0).0
                    } else {
                        Seq::empty()
                    },
                    span: span_at(t, i),
                },
                (a->0).1 + 1,
            ))
        } else {
            Some((ExprV::Var(ident_at(t, i)->0, span_at(t, i)), b))
        }
    } else {
        None
    }
}

/// A literal, `{}` (unit), a struct literal, an enum constructor
/// `Name::Variant`, or a call or variable, tried in that order.
pub open spec fn primary(t: Seq<Token>, i: int) -> Option<(ExprV, int)>
    decreases t.len() - i, 11int, 0int,
{
    if !(0 <= i < t.len()) {
        None
    } else {
        match t[i].kind {
            TokenKind::Integer(n) => Some((ExprV::Integer(n, span_at(t, i)), i + 1)),
            TokenKind::Float(f) => Some((ExprV::Float(f@, span_at(t, i)), i + 1)),
            TokenKind::StrLit(s) => Some((ExprV::StrLit(s@, span_at(t, i)), i + 1)),
            TokenKind::True => Some((ExprV::Bool(true, span_at(t, i)), i + 1)),
            TokenKind::False => Some((ExprV::Bool(false, span_at(t, i)), i + 1)),
            TokenKind::LBrace => if is_at(t, i + 1, TokenKind::RBrace) {
                Some((ExprV::Unit(span_at(t, i)), i + 2))
            } else {
                None
            },
            _ => if struct_literal(t, i) is Some {
                struct_literal(t, i)
            } else if ident_at(t, i) is Some && is_at(t, i + 1, TokenKind::DoubleColon) && ident_at(t, i + 2) is Some {
                Some((ExprV::EnumConstructor { name: ident_at(t, i)->0, variant: ident_at(t, i + 2)->0, span: span_at(t, i) }, i + 3))
            } else {
                call_or_var(t, i)
            },
        }
    }
}

/// Module declarations stand only at the top level: no statement starts
/// with `mod`, so a block holding one does not parse.
pub proof fn law_no_mod_statement(t: Seq<Token>, i: int)
    requires
        is_at(t, i, TokenKind::Mod),
    ensures
        stmt(t, i) is None,
        expr(t, i) is None,
{
    assert(ident_at(t, i) is None);
    assert(primary(t, i) is None);
    assert(unary(t, i) is None);
    assert(operand(t, i, 4) is None);
    assert(chain(t, i, 4) is None);
    assert(operand(t, i, 3) is None);
    assert(chain(t, i, 3) is None);
    assert(operand(t, i, 2) is None);
    assert(chain(t, i, 2) is None);
    assert(operand(t, i, 1) is None);
    assert(chain(t, i, 1) is None);
    assert(operand(t, i, 0) is None);
    assert(chain(t, i, 0) is None);
    assert(or_chain(t, i) is None);
    assert(range_expr(t, i) is None);
    assert(assign_expr(t, i) is None);
    assert(if_expr(t, i) is None);
    assert(for_expr(t, i) is None);
    assert(while_expr(t, i) is None);
    assert(base_expr(t, i) is None);
    assert(expr(t, i) is None);
    assert(let_stmt(t, i) is None);
    assert(struct_decl(t, i) is None);
    assert(enum_decl(t, i) is None);
}

/// A top-level item, after an optional `pub`: a function, struct, enum,
/// `mod` or `use` declaration, tried in that order.
pub open spec fn item(t: Seq<Token>, i: int) -> Option<(ItemV, int)> {
    let vis = if is_at(t, i, TokenKind::Pub) {
        Visibility::Public
    } else {
        Visibility::Private
    };
    let k = if is_at(t, i, TokenKind::Pub) {
        i + 1
    } else {
        i
    };
    if 0 <= i && function(t, k) is Some {
        let f = function(t, k)->0;
        Some((ItemV { name: f.0.name, visibility: vis, kind: ItemKindV::Function(f.0), span: f.0.span }, f.1))
    } else if 0 <= i && struct_decl(t, k) is Some {
        let d = struct_decl(t, k)->0;
        Some((
            ItemV {
                name: d.0,
                visibility: vis,
                kind: ItemKindV::StructDef { name: d.0, generic_params: d.1, fields: d.2, span: d.3 },
                span: d.3,
            },
            d.4,
        ))
    } else if 0 <= i && enum_decl(t, k) is Some {
        let d = enum_decl(t, k)->0;
        Some((
            ItemV {
                name: d.0,
                visibility: vis,
                kind: ItemKindV::EnumDef { name: d.0, generic_params: d.1, variants: d.2, span: d.3 },
                span: d.3,
            },
            d.4,
        ))
    } else if 0 <= i && is_at(t, k, TokenKind::Mod) && ident_at(t, k + 1) is Some {
        Some((ItemV { name: ident_at(t, k + 1)->0, visibility: vis, kind: ItemKindV::ModDecl, span: span_at(t, k + 1) }, k + 2))
    } else if 0 <= i && use_decl(t, k) is Some {
        let u = use_decl(t, k)->0;
        Some((ItemV { name: u.0, visibility: vis, kind: ItemKindV::UseDecl { path: u.1, alias: u.2 }, span: u.3 }, u.4))
    } else {
        None
    }
}

/// Items, as many as parse.
pub open spec fn items(t: Seq<Token>, i: int) -> (Seq<ItemV>, int)
    decreases t.len() - i,
{
    if 0 <= i <= t.len() {
        match item(t, i) {
            Some((it, j)) => if i < j <= t.len() {
                let rest = items(t, j);
                (seq![it] + rest.0, rest.1)
            } else {
                (Seq::empty(), i)
            },
            None => (Seq::empty(), i),
        }
    } else {
        (Seq::empty(), i)
    }
}

/// The program the tokens spell, if they are all items.
pub open spec fn program(t: Seq<Token>) -> Option<Seq<ItemV>> {
    if items(t, 0).1 == t.len() {
        Some(items(t, 0).0)
    } else {
        None
    }
}

/// A chain level reads each operator token as the operator it spells:
/// the operator's source spelling is the token's text, so `>=` is read as
/// `>=` and never as `>`.
pub proof fn law_level_op_spelled(t: Seq<Token>, i: int, level: u8)
    ensures
        level_op(t, i, level) matches Some(op) ==> binop_spelling(op) == kind_spelling(t[i].kind),
{
}

/// A compound assignment reads its operator token as the operator it
/// spells.
pub proof fn law_aug_op_spelled(t: Seq<Token>, i: int)
    ensures
        aug_op_at(t, i) matches Some(op) ==> augop_spelling(op) == kind_spelling(t[i].kind),
{
}

/// A `-` or `!` in front of an expression is read as the unary operator it
/// spells.
pub proof fn law_unary_op_spelled(t: Seq<Token>, i: int)
    ensures
        0 <= i < t.len() && (t[i].kind == TokenKind::Minus || t[i].kind == TokenKind::Bang) && expr(t, i + 1) is Some
            ==> (unary(t, i) matches Some((ExprV::Unary { op, .. }, _)) && unop_spelling(op) == kind_spelling(t[i].kind)),
{
}

/// A type keyword is read as the primitive type it names, and any other
/// name as the named type of that name.
pub proof fn law_type_spelled(t: Seq<Token>, i: int)
    ensures
        type_at(t, i) matches Some(ty) ==> (match t[i].kind {
            TokenKind::Ident(s) => ty == Type::Struct(s),
            k => type_keyword(ty).len() > 0 && type_keyword(ty) == kind_spelling(k),
        }),
{
}

/// A keyword that may stand as a path segment stands for its own text.
pub proof fn law_segment_spelled(t: Seq<Token>, i: int)
    ensures
        segment_at(t, i) matches Some(w) ==> (match t[i].kind {
            TokenKind::Ident(s) => w == s@,
            k => w == kind_spelling(k),
        }),
{
}

/// The literal `true` reads as the value true, and `false` as false.
pub proof fn law_bool_literal_read(t: Seq<Token>, i: int)
    ensures
        0 <= i < t.len() && (t[i].kind == TokenKind::True || t[i].kind == TokenKind::False) ==> (primary(t, i) matches Some(
            (ExprV::Bool(v, _), _),
        ) && v == (kind_spelling(t[i].kind) == seq!['t', 'r', 'u', 'e'])),
{
}

/// A range is inclusive exactly when it is written with `...`, and
/// exclusive when written with `..`.
pub proof fn law_range_spelled(t: Seq<Token>, j: int)
    ensures
        range_tail(t, j).0.len() > 0 ==> 0 <= j < t.len() && (kind_spelling(t[j].kind) == seq!['.', '.', '.']
            || kind_spelling(t[j].kind) == seq!['.', '.']) && range_tail(t, j).0[0].0 == (kind_spelling(t[j].kind)
            == seq!['.', '.', '.']),
{
    if range_tail(t, j).0.len() > 0 {
        let b = or_chain(t, j + 1)->0;
        let rest = range_tail(t, b.1);
        let incl = if is_at(t, j, TokenKind::DotDot) { Some(false) } else if is_at(t, j, TokenKind::DotDotEllipsis) { Some(true) } else { None };
        assert((seq![(incl->0, b.0)] + rest.0)[0] == (incl->0, b.0));
        assert(seq!['.', '.'] != seq!['.', '.', '.']) by {
            assert(seq!['.', '.'].len() != seq!['.', '.', '.'].len());
        }
    }
}

} // verus!
