//! The syntax tree as a mathematical value: names as character sequences,
//! lists as sequences, spans as pairs of offsets.  The grammar is stated
//! over these values.
use vstd::prelude::*;
use crate::ast::{AugOp, BinOp, ClosureParam, Expr, ExternalKind, Function, Item, ItemKind, Program, Stmt, StrPart, Type, UnOp, Visibility};

verus! {

/// A span as a pair of byte offsets.
pub type SpanV = (usize, usize);

pub open spec fn span_v(r: std::ops::Range<usize>) -> SpanV {
    (r.start, r.end)
}

/// A piece of an interpolated string.
pub enum StrPartV {
    Literal(Seq<char>),
    Expr(ExprV),
}

/// An expression.
pub enum ExprV {
    Integer(i64, SpanV),
    Float(Seq<char>, SpanV),
    StrLit(Seq<char>, SpanV),
    Bool(bool, SpanV),
    Unit(SpanV),
    Var(Seq<char>, SpanV),
    Assign { target: Seq<char>, value: Box<ExprV>, span: SpanV },
    AugAssign { target: Seq<char>, op: AugOp, value: Box<ExprV>, span: SpanV },
    Binary { op: BinOp, lhs: Box<ExprV>, rhs: Box<ExprV>, span: SpanV },
    Unary { op: UnOp, expr: Box<ExprV>, span: SpanV },
    Call { func: Seq<char>, args: Seq<ExprV>, named_args: Seq<(Seq<char>, ExprV)>, type_args: Seq<Type>, span: SpanV },
    If {
        condition: Box<ExprV>,
        then_branch: Seq<StmtV>,
        elif_branches: Seq<(ExprV, Seq<StmtV>)>,
        else_branch: Option<Seq<StmtV>>,
        span: SpanV,
    },
    For { var: Seq<char>, iter: Box<ExprV>, body: Seq<StmtV>, span: SpanV },
    While { condition: Box<ExprV>, body: Seq<StmtV>, span: SpanV },
    Range { start: Box<ExprV>, end: Box<ExprV>, is_inclusive: bool, span: SpanV },
    StructLiteral { name: Seq<char>, fields: Seq<(Seq<char>, ExprV)>, type_args: Seq<Type>, span: SpanV },
    FieldAccess { expr: Box<ExprV>, field: Seq<char>, span: SpanV },
    EnumConstructor { name: Seq<char>, variant: Seq<char>, span: SpanV },
    Index { list: Box<ExprV>, index: Box<ExprV>, span: SpanV },
    Length { expr: Box<ExprV>, span: SpanV },
    Pipeline { lhs: Box<ExprV>, rhs: Box<ExprV>, span: SpanV },
    Closure { params: Seq<(Seq<char>, Option<Type>)>, body: Box<ExprV>, span: SpanV },
    ListLiteral { items: Seq<ExprV>, span: SpanV },
    InterpolatedStr(Seq<StrPartV>, SpanV),
}

/// A statement.
pub enum StmtV {
    Let { name: Seq<char>, mutable: bool, ty: Option<Type>, value: ExprV, span: SpanV },
    Expr(ExprV, SpanV),
    Return(Option<ExprV>, SpanV),
    Println(ExprV, SpanV),
    StructDef { name: Seq<char>, generic_params: Seq<Seq<char>>, fields: Seq<(Seq<char>, Type)>, span: SpanV },
    EnumDef { name: Seq<char>, generic_params: Seq<Seq<char>>, variants: Seq<Seq<char>>, span: SpanV },
    Give(Option<ExprV>, SpanV),
    Say(ExprV, SpanV),
    Raise(ExprV, SpanV),
}

/// A function definition.
pub struct FunctionV {
    pub name: Seq<char>,
    pub generic_params: Seq<Seq<char>>,
    pub params: Seq<(Seq<char>, Type)>,
    pub return_type: Type,
    pub body: Seq<StmtV>,
    pub span: SpanV,
}

/// What an item declares.
pub enum ItemKindV {
    Function(FunctionV),
    StructDef { name: Seq<char>, generic_params: Seq<Seq<char>>, fields: Seq<(Seq<char>, Type)>, span: SpanV },
    EnumDef { name: Seq<char>, generic_params: Seq<Seq<char>>, variants: Seq<Seq<char>>, span: SpanV },
    ModDecl,
    UseDecl { path: Seq<Seq<char>>, alias: Option<Seq<char>> },
    ModuleDecl,
    MainBlock(Seq<StmtV>, SpanV),
    ExternalFunction {
        kind: ExternalKind,
        ecosystem: Seq<char>,
        symbol: Seq<char>,
        params: Seq<(Seq<char>, Type)>,
        return_type: Type,
        span: SpanV,
    },
}

/// A top-level item.
pub struct ItemV {
    pub name: Seq<char>,
    pub visibility: Visibility,
    pub kind: ItemKindV,
    pub span: SpanV,
}

pub open spec fn names_v(v: Seq<String>) -> Seq<Seq<char>> {
    v.map_values(|s: String| s@)
}

pub open spec fn typed_v(v: Seq<(String, Type)>) -> Seq<(Seq<char>, Type)> {
    v.map_values(|p: (String, Type)| (p.0@, p.1))
}

pub open spec fn expr_v(e: Expr) -> ExprV
    decreases e, 1int,
{
    match e {
        Expr::Integer(n, s) => ExprV::Integer(n, span_v(s)),
        Expr::Float(t, s) => ExprV::Float(t@, span_v(s)),
        Expr::StrLit(t, s) => ExprV::StrLit(t@, span_v(s)),
        Expr::Bool(b, s) => ExprV::Bool(b, span_v(s)),
        Expr::Unit(s) => ExprV::Unit(span_v(s)),
        Expr::Var(t, s) => ExprV::Var(t@, span_v(s)),
        Expr::Assign { target, value, span } => ExprV::Assign {
            target: target@,
            value: Box::new(expr_v(*value)),
            span: span_v(span),
        },
        Expr::AugAssign { target, op, value, span } => ExprV::AugAssign {
            target: target@,
            op,
            value: Box::new(expr_v(*value)),
            span: span_v(span),
        },
        Expr::Binary { op, lhs, rhs, span } => ExprV::Binary {
            op,
            lhs: Box::new(expr_v(*lhs)),
            rhs: Box::new(expr_v(*rhs)),
            span: span_v(span),
        },
        Expr::Unary { op, expr, span } => ExprV::Unary { op, expr: Box::new(expr_v(*expr)), span: span_v(span) },
        Expr::Call { func, args, named_args, type_args, span } => ExprV::Call {
            func: func@,
            args: exprs_v(args@),
            named_args: named_v(named_args@),
            type_args: type_args@,
            span: span_v(span),
        },
        Expr::If { condition, then_branch, elif_branches, else_branch, span } => ExprV::If {
            condition: Box::new(expr_v(*condition)),
            then_branch: stmts_v(then_branch@),
            elif_branches: elifs_v(elif_branches@),
            else_branch: match else_branch {
                Some(b) => Some(stmts_v(b@)),
                None => None,
            },
            span: span_v(span),
        },
        Expr::For { var, iter, body, span } => ExprV::For {
            var: var@,
            iter: Box::new(expr_v(*iter)),
            body: stmts_v(body@),
            span: span_v(span),
        },
        Expr::While { condition, body, span } => ExprV::While {
            condition: Box::new(expr_v(*condition)),
            body: stmts_v(body@),
            span: span_v(span),
        },
        Expr::Range { start, end, is_inclusive, span } => ExprV::Range {
            start: Box::new(expr_v(*start)),
            end: Box::new(expr_v(*end)),
            is_inclusive,
            span: span_v(span),
        },
        Expr::StructLiteral { name, fields, type_args, span } => ExprV::StructLiteral {
            name: name@,
            fields: named_v(fields@),
            type_args: type_args@,
            span: span_v(span),
        },
        Expr::FieldAccess { expr, field, span } => ExprV::FieldAccess {
            expr: Box::new(expr_v(*expr)),
            field: field@,
            span: span_v(span),
        },
        Expr::EnumConstructor { name, variant, span } => ExprV::EnumConstructor {
            name: name@,
            variant: variant@,
            span: span_v(span),
        },
        Expr::Index { list, index, span } => ExprV::Index {
            list: Box::new(expr_v(*list)),
            index: Box::new(expr_v(*index)),
            span: span_v(span),
        },
        Expr::Length { expr, span } => ExprV::Length { expr: Box::new(expr_v(*expr)), span: span_v(span) },
        Expr::Pipeline { lhs, rhs, span } => ExprV::Pipeline {
            lhs: Box::new(expr_v(*lhs)),
            rhs: Box::new(expr_v(*rhs)),
            span: span_v(span),
        },
        Expr::Closure { params, body, span } => ExprV::Closure {
            params: params_v(params@),
            body: Box::new(expr_v(*body)),
            span: span_v(span),
        },
        Expr::ListLiteral { items, span } => ExprV::ListLiteral { items: exprs_v(items@), span: span_v(span) },
        Expr::InterpolatedStr(parts, span) => ExprV::InterpolatedStr(parts_v(parts@), span_v(span)),
    }
}

pub open spec fn params_v(ps: Seq<ClosureParam>) -> Seq<(Seq<char>, Option<Type>)> {
    ps.map_values(|p: ClosureParam| (p.name@, p.ty))
}

pub open spec fn parts_v(ps: Seq<StrPart>) -> Seq<StrPartV>
    decreases ps, 0int,
{
    if ps.len() == 0 {
        Seq::empty()
    } else {
        parts_v(ps.drop_last()).push(
            match ps.last() {
                StrPart::Literal(t) => StrPartV::Literal(t@),
                StrPart::Expr(e) => StrPartV::Expr(expr_v(e)),
            },
        )
    }
}

pub open spec fn exprs_v(es: Seq<Expr>) -> Seq<ExprV>
    decreases es, 0int,
{
    if es.len() == 0 {
        Seq::empty()
    } else {
        exprs_v(es.drop_last()).push(expr_v(es.last()))
    }
}

pub open spec fn named_v(es: Seq<(String, Expr)>) -> Seq<(Seq<char>, ExprV)>
    decreases es, 0int,
{
    if es.len() == 0 {
        Seq::empty()
    } else {
        named_v(es.drop_last()).push((es.last().0@, expr_v(es.last().1)))
    }
}

pub open spec fn elifs_v(es: Seq<(Expr, Vec<Stmt>)>) -> Seq<(ExprV, Seq<StmtV>)>
    decreases es, 0int,
{
    if es.len() == 0 {
        Seq::empty()
    } else {
        elifs_v(es.drop_last()).push((expr_v(es.last().0), stmts_v(es.last().1@)))
    }
}

pub open spec fn stmt_v(s: Stmt) -> StmtV
    decreases s, 1int,
{
    match s {
        Stmt::Let { name, mutable, ty, value, span } => StmtV::Let {
            name: name@,
            mutable,
            ty,
            value: expr_v(value),
            span: span_v(span),
        },
        Stmt::Expr(e, s) => StmtV::Expr(expr_v(e), span_v(s)),
        Stmt::Return(e, s) => StmtV::Return(
            match e {
                Some(x) => Some(expr_v(x)),
                None => None,
            },
            span_v(s),
        ),
        Stmt::Println(e, s) => StmtV::Println(expr_v(e), span_v(s)),
        Stmt::StructDef { name, generic_params, fields, span } => StmtV::StructDef {
            name: name@,
            generic_params: names_v(generic_params@),
            fields: typed_v(fields@),
            span: span_v(span),
        },
        Stmt::EnumDef { name, generic_params, variants, span } => StmtV::EnumDef {
            name: name@,
            generic_params: names_v(generic_params@),
            variants: names_v(variants@),
            span: span_v(span),
        },
        Stmt::Give(e, s) => StmtV::Give(
            match e {
                Some(x) => Some(expr_v(x)),
                None => None,
            },
            span_v(s),
        ),
        Stmt::Say(e, s) => StmtV::Say(expr_v(e), span_v(s)),
        Stmt::Raise(e, s) => StmtV::Raise(expr_v(e), span_v(s)),
    }
}

pub open spec fn stmts_v(ss: Seq<Stmt>) -> Seq<StmtV>
    decreases ss, 0int,
{
    if ss.len() == 0 {
        Seq::empty()
    } else {
        stmts_v(ss.drop_last()).push(stmt_v(ss.last()))
    }
}

pub open spec fn function_v(f: Function) -> FunctionV {
    FunctionV {
        name: f.name@,
        generic_params: names_v(f.generic_params@),
        params: typed_v(f.params@),
        return_type: f.return_type,
        body: stmts_v(f.body@),
        span: span_v(f.span),
    }
}

pub open spec fn item_kind_v(k: ItemKind) -> ItemKindV {
    match k {
        ItemKind::Function(f) => ItemKindV::Function(function_v(f)),
        ItemKind::StructDef { name, generic_params, fields, span } => ItemKindV::StructDef {
            name: name@,
            generic_params: names_v(generic_params@),
            fields: typed_v(fields@),
            span: span_v(span),
        },
        ItemKind::EnumDef { name, generic_params, variants, span } => ItemKindV::EnumDef {
            name: name@,
            generic_params: names_v(generic_params@),
            variants: names_v(variants@),
            span: span_v(span),
        },
        ItemKind::ModDecl => ItemKindV::ModDecl,
        ItemKind::UseDecl { path, alias } => ItemKindV::UseDecl {
            path: names_v(path@),
            alias: match alias {
                Some(a) => Some(a@),
                None => None,
            },
        },
        ItemKind::ModuleDecl => ItemKindV::ModuleDecl,
        ItemKind::MainBlock(b, s) => ItemKindV::MainBlock(stmts_v(b@), span_v(s)),
        ItemKind::ExternalFunction { kind, ecosystem, symbol, params, return_type, span } => ItemKindV::ExternalFunction {
            kind,
            ecosystem: ecosystem@,
            symbol: symbol@,
            params: typed_v(params@),
            return_type,
            span: span_v(span),
        },
    }
}

pub open spec fn item_v(i: Item) -> ItemV {
    ItemV { name: i.name@, visibility: i.visibility, kind: item_kind_v(i.kind), span: span_v(i.span) }
}

pub open spec fn items_v(items: Seq<Item>) -> Seq<ItemV> {
    items.map_values(|i: Item| item_v(i))
}

} // verus!
