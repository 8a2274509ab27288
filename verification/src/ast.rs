//! The abstract syntax tree: programs, items, statements and expressions,
//! with their source types and operators.  Spans are byte ranges.
use vstd::prelude::*;
use std::ops::Range;
use crate::parser::view::{elifs_v, expr_v, exprs_v, function_v, item_kind_v, item_v, items_v, named_v, params_v, parts_v, stmt_v, stmts_v, typed_v};

verus! {

/// A type as written in the source.
#[derive(Debug, PartialEq)]
pub enum Type {
    I64,
    F64,
    Bool,
    Str,
    Unit,
    /// A named struct (or enum, or generic parameter) type, by name.
    Struct(String),
    /// A named enum type.
    Enum(String),
    /// `List<T>`.
    List(Box<Type>),
}

/// The keyword a primitive type is written with; empty for a named or
/// list type.
pub open spec fn type_keyword(ty: Type) -> Seq<char> {
    match ty {
        Type::I64 => seq!['i', '6', '4'],
        Type::F64 => seq!['f', '6', '4'],
        Type::Bool => seq!['b', 'o', 'o', 'l'],
        Type::Str => seq!['s', 't', 'r'],
        Type::Unit => seq!['u', 'n', 'i', 't'],
        _ => Seq::empty(),
    }
}

impl Type {
    /// Structural copy of a source type.
    pub fn deep_clone(&self) -> (r: Type)
        ensures
            r == *self,
        decreases *self,
    {
        match self {
            Type::I64 => Type::I64,
            Type::F64 => Type::F64,
            Type::Bool => Type::Bool,
            Type::Str => Type::Str,
            Type::Unit => Type::Unit,
            Type::Struct(n) => Type::Struct(n.clone()),
            Type::Enum(n) => Type::Enum(n.clone()),
            Type::List(inner) => Type::List(Box::new((**inner).deep_clone())),
        }
    }
}

impl Clone for Type {
    fn clone(&self) -> (r: Type)
        ensures
            r == *self,
    {
        self.deep_clone()
    }
}

/// Visibility of an item: `pub` or private.
#[derive(Clone, Copy, Debug, PartialEq, Eq, Structural)]
pub enum Visibility {
    Private,
    Public,
}

/// The runtime kind of an `external` declaration.
#[derive(Clone, Debug, PartialEq, Eq, Structural)]
pub enum ExternalKind {
    Rust,
    Python,
    Native,
}

/// One parameter of a closure: its name and optional type annotation.
#[derive(Clone, Debug)]
pub struct ClosureParam {
    pub name: String,
    pub ty: Option<Type>,
}

/// Binary operators.
#[derive(Clone, Copy, Debug, PartialEq, Eq, Structural)]
pub enum BinOp {
    Add,
    Sub,
    Mul,
    Div,
    Mod,
    Eq,
    Ne,
    Lt,
    Gt,
    Le,
    Ge,
    And,
    Or,
}

/// How a binary operator is written in the source.
pub open spec fn binop_spelling(op: BinOp) -> Seq<char> {
    match op {
        BinOp::Add => seq!['+'],
        BinOp::Sub => seq!['-'],
        BinOp::Mul => seq!['*'],
        BinOp::Div => seq!['/'],
        BinOp::Mod => seq!['%'],
        BinOp::Eq => seq!['=', '='],
        BinOp::Ne => seq!['!', '='],
        BinOp::Lt => seq!['<'],
        BinOp::Gt => seq!['>'],
        BinOp::Le => seq!['<', '='],
        BinOp::Ge => seq!['>', '='],
        BinOp::And => seq!['&', '&'],
        BinOp::Or => seq!['|', '|'],
    }
}

/// Unary operators.
#[derive(Clone, Copy, Debug, PartialEq, Eq, Structural)]
pub enum UnOp {
    Neg,
    Not,
}

/// How a unary operator is written in the source.
pub open spec fn unop_spelling(op: UnOp) -> Seq<char> {
    match op {
        UnOp::Neg => seq!['-'],
        UnOp::Not => seq!['!'],
    }
}

/// Compound-assignment operators (`+=` and the like).
#[derive(Clone, Copy, Debug, PartialEq, Eq, Structural)]
pub enum AugOp {
    Add,
    Sub,
    Mul,
    Div,
}

/// How a compound-assignment operator is written in the source.
pub open spec fn augop_spelling(op: AugOp) -> Seq<char> {
    match op {
        AugOp::Add => seq!['+', '='],
        AugOp::Sub => seq!['-', '='],
        AugOp::Mul => seq!['*', '='],
        AugOp::Div => seq!['/', '='],
    }
}

/// A parsed program: its items in order, and its functions again on their
/// own.
#[derive(Debug)]
pub struct Program {
    pub items: Vec<Item>,
    pub functions: Vec<Function>,
}

/// A top-level item with its name and visibility.
#[derive(Debug)]
pub struct Item {
    pub name: String,
    pub visibility: Visibility,
    pub kind: ItemKind,
    pub span: Range<usize>,
}

/// What a top-level item declares.
#[derive(Debug)]
pub enum ItemKind {
    Function(Function),
    StructDef { name: String, generic_params: Vec<String>, fields: Vec<(String, Type)>, span: Range<usize> },
    EnumDef { name: String, generic_params: Vec<String>, variants: Vec<String>, span: Range<usize> },
    /// `mod name`: the item's name is the module's.
    ModDecl,
    /// `use a::b [as c]`.
    UseDecl { path: Vec<String>, alias: Option<String> },
    ModuleDecl,
    MainBlock(Vec<Stmt>, Range<usize>),
    ExternalFunction {
        kind: ExternalKind,
        ecosystem: String,
        symbol: String,
        params: Vec<(String, Type)>,
        return_type: Type,
        span: Range<usize>,
    },
}

/// A function definition.
#[derive(Debug)]
pub struct Function {
    pub name: String,
    pub generic_params: Vec<String>,
    pub params: Vec<(String, Type)>,
    pub return_type: Type,
    pub body: Vec<Stmt>,
    pub span: Range<usize>,
}

/// A statement.
#[derive(Debug)]
pub enum Stmt {
    Let { name: String, mutable: bool, ty: Option<Type>, value: Expr, span: Range<usize> },
    Expr(Expr, Range<usize>),
    Return(Option<Expr>, Range<usize>),
    Println(Expr, Range<usize>),
    Give(Option<Expr>, Range<usize>),
    Say(Expr, Range<usize>),
    Raise(Expr, Range<usize>),
    StructDef { name: String, generic_params: Vec<String>, fields: Vec<(String, Type)>, span: Range<usize> },
    EnumDef { name: String, generic_params: Vec<String>, variants: Vec<String>, span: Range<usize> },
}

/// A piece of an interpolated string.
#[derive(Debug)]
pub enum StrPart {
    Literal(String),
    Expr(Expr),
}

/// A call argument, by position or by name.
#[derive(Debug)]
pub enum CallArg {
    Positional(Expr),
    Named { name: String, value: Expr },
}

/// An expression.  A float literal is held as its source text.
#[derive(Debug)]
pub enum Expr {
    Integer(i64, Range<usize>),
    Float(String, Range<usize>),
    StrLit(String, Range<usize>),
    Bool(bool, Range<usize>),
    Unit(Range<usize>),
    Var(String, Range<usize>),
    Assign { target: String, value: Box<Expr>, span: Range<usize> },
    AugAssign { target: String, op: AugOp, value: Box<Expr>, span: Range<usize> },
    Binary { op: BinOp, lhs: Box<Expr>, rhs: Box<Expr>, span: Range<usize> },
    Unary { op: UnOp, expr: Box<Expr>, span: Range<usize> },
    Call { func: String, args: Vec<Expr>, named_args: Vec<(String, Expr)>, type_args: Vec<Type>, span: Range<usize> },
    If {
        condition: Box<Expr>,
        then_branch: Vec<Stmt>,
        elif_branches: Vec<(Expr, Vec<Stmt>)>,
        else_branch: Option<Vec<Stmt>>,
        span: Range<usize>,
    },
    For { var: String, iter: Box<Expr>, body: Vec<Stmt>, span: Range<usize> },
    While { condition: Box<Expr>, body: Vec<Stmt>, span: Range<usize> },
    Range { start: Box<Expr>, end: Box<Expr>, is_inclusive: bool, span: Range<usize> },
    StructLiteral { name: String, fields: Vec<(String, Expr)>, type_args: Vec<Type>, span: Range<usize> },
    FieldAccess { expr: Box<Expr>, field: String, span: Range<usize> },
    Index { list: Box<Expr>, index: Box<Expr>, span: Range<usize> },
    Length { expr: Box<Expr>, span: Range<usize> },
    EnumConstructor { name: String, variant: String, span: Range<usize> },
    Pipeline { lhs: Box<Expr>, rhs: Box<Expr>, span: Range<usize> },
    Closure { params: Vec<ClosureParam>, body: Box<Expr>, span: Range<usize> },
    ListLiteral { items: Vec<Expr>, span: Range<usize> },
    InterpolatedStr(Vec<StrPart>, Range<usize>),
}

fn clone_span(r: &Range<usize>) -> (c: Range<usize>)
    ensures
        c == *r,
{
    r.start..r.end
}

fn clone_strings(v: &Vec<String>) -> (c: Vec<String>)
    ensures
        c@ == v@,
{
    let mut out: Vec<String> = Vec::new();
    let mut i: usize = 0;
    while i < v.len()
        invariant
            i <= v@.len(),
            out@ == v@.take(i as int),
        decreases v@.len() - i,
    {
        out.push(v[i].clone());
        assert(v@.take(i + 1) == v@.take(i as int).push(v@[i as int]));
        i = i + 1;
    }
    assert(v@.take(v@.len() as int) == v@);
    out
}

fn clone_typed(v: &Vec<(String, Type)>) -> (c: Vec<(String, Type)>)
    ensures
        c@ == v@,
{
    let mut out: Vec<(String, Type)> = Vec::new();
    let mut i: usize = 0;
    while i < v.len()
        invariant
            i <= v@.len(),
            out@ == v@.take(i as int),
        decreases v@.len() - i,
    {
        out.push((v[i].0.clone(), v[i].1.clone()));
        assert(v@.take(i + 1) == v@.take(i as int).push(v@[i as int]));
        i = i + 1;
    }
    assert(v@.take(v@.len() as int) == v@);
    out
}

fn clone_types(v: &Vec<Type>) -> (c: Vec<Type>)
    ensures
        c@ == v@,
{
    let mut out: Vec<Type> = Vec::new();
    let mut i: usize = 0;
    while i < v.len()
        invariant
            i <= v@.len(),
            out@ == v@.take(i as int),
        decreases v@.len() - i,
    {
        out.push(v[i].clone());
        assert(v@.take(i + 1) == v@.take(i as int).push(v@[i as int]));
        i = i + 1;
    }
    assert(v@.take(v@.len() as int) == v@);
    out
}

fn clone_opt_type(t: &Option<Type>) -> (c: Option<Type>)
    ensures
        c == *t,
{
    match t {
        Some(x) => Some(x.clone()),
        None => None,
    }
}

impl Expr {
    /// A copy of the expression, node for node.
    pub fn deep_clone(&self) -> (r: Expr)
        ensures
            expr_v(r) == expr_v(*self),
        decreases *self, 1int,
    {
        match self {
            Expr::Integer(n, s) => Expr::Integer(*n, clone_span(s)),
            Expr::Float(f, s) => Expr::Float(f.clone(), clone_span(s)),
            Expr::StrLit(t, s) => Expr::StrLit(t.clone(), clone_span(s)),
            Expr::Bool(b, s) => Expr::Bool(*b, clone_span(s)),
            Expr::Unit(s) => Expr::Unit(clone_span(s)),
            Expr::Var(t, s) => Expr::Var(t.clone(), clone_span(s)),
            Expr::Assign { target, value, span } => Expr::Assign {
                target: target.clone(),
                value: Box::new((**value).deep_clone()),
                span: clone_span(span),
            },
            Expr::AugAssign { target, op, value, span } => Expr::AugAssign {
                target: target.clone(),
                op: *op,
                value: Box::new((**value).deep_clone()),
                span: clone_span(span),
            },
            Expr::Binary { op, lhs, rhs, span } => Expr::Binary {
                op: *op,
                lhs: Box::new((**lhs).deep_clone()),
                rhs: Box::new((**rhs).deep_clone()),
                span: clone_span(span),
            },
            Expr::Unary { op, expr, span } => Expr::Unary {
                op: *op,
                expr: Box::new((**expr).deep_clone()),
                span: clone_span(span),
            },
            Expr::Call { func, args, named_args, type_args, span } => Expr::Call {
                func: func.clone(),
                args: clone_exprs(args),
                named_args: clone_named(named_args),
                type_args: clone_types(type_args),
                span: clone_span(span),
            },
            Expr::If { condition, then_branch, elif_branches, else_branch, span } => Expr::If {
                condition: Box::new((**condition).deep_clone()),
                then_branch: clone_stmts(then_branch),
                elif_branches: clone_elifs(elif_branches),
                else_branch: match else_branch {
                    Some(b) => Some(clone_stmts(b)),
                    None => None,
                },
                span: clone_span(span),
            },
            Expr::For { var, iter, body, span } => Expr::For {
                var: var.clone(),
                iter: Box::new((**iter).deep_clone()),
                body: clone_stmts(body),
                span: clone_span(span),
            },
            Expr::While { condition, body, span } => Expr::While {
                condition: Box::new((**condition).deep_clone()),
                body: clone_stmts(body),
                span: clone_span(span),
            },
            Expr::Range { start, end, is_inclusive, span } => Expr::Range {
                start: Box::new((**start).deep_clone()),
                end: Box::new((**end).deep_clone()),
                is_inclusive: *is_inclusive,
                span: clone_span(span),
            },
            Expr::StructLiteral { name, fields, type_args, span } => Expr::StructLiteral {
                name: name.clone(),
                fields: clone_named(fields),
                type_args: clone_types(type_args),
                span: clone_span(span),
            },
            Expr::FieldAccess { expr, field, span } => Expr::FieldAccess {
                expr: Box::new((**expr).deep_clone()),
                field: field.clone(),
                span: clone_span(span),
            },
            Expr::Index { list, index, span } => Expr::Index {
                list: Box::new((**list).deep_clone()),
                index: Box::new((**index).deep_clone()),
                span: clone_span(span),
            },
            Expr::Length { expr, span } => Expr::Length { expr: Box::new((**expr).deep_clone()), span: clone_span(span) },
            Expr::EnumConstructor { name, variant, span } => Expr::EnumConstructor {
                name: name.clone(),
                variant: variant.clone(),
                span: clone_span(span),
            },
            Expr::Pipeline { lhs, rhs, span } => Expr::Pipeline {
                lhs: Box::new((**lhs).deep_clone()),
                rhs: Box::new((**rhs).deep_clone()),
                span: clone_span(span),
            },
            Expr::Closure { params, body, span } => Expr::Closure {
                params: clone_closure_params(params),
                body: Box::new((**body).deep_clone()),
                span: clone_span(span),
            },
            Expr::ListLiteral { items, span } => Expr::ListLiteral { items: clone_exprs(items), span: clone_span(span) },
            Expr::InterpolatedStr(parts, span) => Expr::InterpolatedStr(clone_parts(parts), clone_span(span)),
        }
    }
}

fn clone_closure_params(v: &Vec<ClosureParam>) -> (c: Vec<ClosureParam>)
    ensures
        params_v(c@) == params_v(v@),
{
    let mut out: Vec<ClosureParam> = Vec::new();
    let mut i: usize = 0;
    while i < v.len()
        invariant
            i <= v@.len(),
            params_v(out@) == params_v(v@.take(i as int)),
        decreases v@.len() - i,
    {
        let p = ClosureParam { name: v[i].name.clone(), ty: clone_opt_type(&v[i].ty) };
        proof {
            assert(params_v(v@.take(i + 1)) =~= params_v(v@.take(i as int)).push((v@[i as int].name@, v@[i as int].ty)));
            assert(params_v(out@.push(p)) =~= params_v(out@).push((p.name@, p.ty)));
        }
        out.push(p);
        i = i + 1;
    }
    assert(v@.take(v@.len() as int) =~= v@);
    out
}

fn clone_exprs(v: &Vec<Expr>) -> (c: Vec<Expr>)
    ensures
        exprs_v(c@) == exprs_v(v@),
    decreases v@, 0int,
{
    let mut out: Vec<Expr> = Vec::new();
    let mut i: usize = 0;
    while i < v.len()
        invariant
            i <= v@.len(),
            exprs_v(out@) == exprs_v(v@.take(i as int)),
        decreases v@.len() - i,
    {
        proof {
            assert(decreases_to!(v@ => v@[i as int]));
        }
        let x = v[i].deep_clone();
        proof {
            assert(v@.take(i + 1).drop_last() =~= v@.take(i as int));
            assert(out@.push(x).drop_last() =~= out@);
        }
        out.push(x);
        i = i + 1;
    }
    assert(v@.take(v@.len() as int) =~= v@);
    out
}

fn clone_named(v: &Vec<(String, Expr)>) -> (c: Vec<(String, Expr)>)
    ensures
        named_v(c@) == named_v(v@),
    decreases v@, 0int,
{
    let mut out: Vec<(String, Expr)> = Vec::new();
    let mut i: usize = 0;
    while i < v.len()
        invariant
            i <= v@.len(),
            named_v(out@) == named_v(v@.take(i as int)),
        decreases v@.len() - i,
    {
        proof {
            assert(decreases_to!(v@ => v@[i as int]));
        }
        let x = (v[i].0.clone(), v[i].1.deep_clone());
        proof {
            assert(v@.take(i + 1).drop_last() =~= v@.take(i as int));
            assert(out@.push(x).drop_last() =~= out@);
        }
        out.push(x);
        i = i + 1;
    }
    assert(v@.take(v@.len() as int) =~= v@);
    out
}

fn clone_elifs(v: &Vec<(Expr, Vec<Stmt>)>) -> (c: Vec<(Expr, Vec<Stmt>)>)
    ensures
        elifs_v(c@) == elifs_v(v@),
    decreases v@, 0int,
{
    let mut out: Vec<(Expr, Vec<Stmt>)> = Vec::new();
    let mut i: usize = 0;
    while i < v.len()
        invariant
            i <= v@.len(),
            elifs_v(out@) == elifs_v(v@.take(i as int)),
        decreases v@.len() - i,
    {
        proof {
            assert(decreases_to!(v@ => v@[i as int]));
        }
        let x = (v[i].0.deep_clone(), clone_stmts(&v[i].1));
        proof {
            assert(v@.take(i + 1).drop_last() =~= v@.take(i as int));
            assert(out@.push(x).drop_last() =~= out@);
        }
        out.push(x);
        i = i + 1;
    }
    assert(v@.take(v@.len() as int) =~= v@);
    out
}

fn clone_parts(v: &Vec<StrPart>) -> (c: Vec<StrPart>)
    ensures
        parts_v(c@) == parts_v(v@),
    decreases v@, 0int,
{
    let mut out: Vec<StrPart> = Vec::new();
    let mut i: usize = 0;
    while i < v.len()
        invariant
            i <= v@.len(),
            parts_v(out@) == parts_v(v@.take(i as int)),
        decreases v@.len() - i,
    {
        proof {
            assert(decreases_to!(v@ => v@[i as int]));
        }
        let x = match &v[i] {
            StrPart::Literal(t) => StrPart::Literal(t.clone()),
            StrPart::Expr(e) => StrPart::Expr(e.deep_clone()),
        };
        proof {
            assert(v@.take(i + 1).drop_last() =~= v@.take(i as int));
            assert(out@.push(x).drop_last() =~= out@);
        }
        out.push(x);
        i = i + 1;
    }
    assert(v@.take(v@.len() as int) =~= v@);
    out
}

impl Stmt {
    /// A copy of the statement, node for node.
    pub fn deep_clone(&self) -> (r: Stmt)
        ensures
            stmt_v(r) == stmt_v(*self),
        decreases *self, 1int,
    {
        match self {
            Stmt::Let { name, mutable, ty, value, span } => Stmt::Let {
                name: name.clone(),
                mutable: *mutable,
                ty: clone_opt_type(ty),
                value: value.deep_clone(),
                span: clone_span(span),
            },
            Stmt::Expr(e, s) => Stmt::Expr(e.deep_clone(), clone_span(s)),
            Stmt::Return(e, s) => Stmt::Return(
                match e {
                    Some(x) => Some(x.deep_clone()),
                    None => None,
                },
                clone_span(s),
            ),
            Stmt::Println(e, s) => Stmt::Println(e.deep_clone(), clone_span(s)),
            Stmt::Give(e, s) => Stmt::Give(
                match e {
                    Some(x) => Some(x.deep_clone()),
                    None => None,
                },
                clone_span(s),
            ),
            Stmt::Say(e, s) => Stmt::Say(e.deep_clone(), clone_span(s)),
            Stmt::Raise(e, s) => Stmt::Raise(e.deep_clone(), clone_span(s)),
            Stmt::StructDef { name, generic_params, fields, span } => Stmt::StructDef {
                name: name.clone(),
                generic_params: clone_strings(generic_params),
                fields: clone_typed(fields),
                span: clone_span(span),
            },
            Stmt::EnumDef { name, generic_params, variants, span } => Stmt::EnumDef {
                name: name.clone(),
                generic_params: clone_strings(generic_params),
                variants: clone_strings(variants),
                span: clone_span(span),
            },
        }
    }
}

fn clone_stmts(v: &Vec<Stmt>) -> (c: Vec<Stmt>)
    ensures
        stmts_v(c@) == stmts_v(v@),
    decreases v@, 0int,
{
    let mut out: Vec<Stmt> = Vec::new();
    let mut i: usize = 0;
    while i < v.len()
        invariant
            i <= v@.len(),
            stmts_v(out@) == stmts_v(v@.take(i as int)),
        decreases v@.len() - i,
    {
        proof {
            assert(decreases_to!(v@ => v@[i as int]));
        }
        let x = v[i].deep_clone();
        proof {
            assert(v@.take(i + 1).drop_last() =~= v@.take(i as int));
            assert(out@.push(x).drop_last() =~= out@);
        }
        out.push(x);
        i = i + 1;
    }
    assert(v@.take(v@.len() as int) =~= v@);
    out
}

impl Clone for Function {
    fn clone(&self) -> (r: Function)
        ensures
            function_v(r) == function_v(*self),
    {
        Function {
            name: self.name.clone(),
            generic_params: clone_strings(&self.generic_params),
            params: clone_typed(&self.params),
            return_type: self.return_type.clone(),
            body: clone_stmts(&self.body),
            span: clone_span(&self.span),
        }
    }
}

fn clone_external_kind(k: &ExternalKind) -> (r: ExternalKind)
    ensures
        r == *k,
{
    match k {
        ExternalKind::Rust => ExternalKind::Rust,
        ExternalKind::Python => ExternalKind::Python,
        ExternalKind::Native => ExternalKind::Native,
    }
}

impl ItemKind {
    /// A copy of the item's declaration, node for node.
    pub fn deep_clone(&self) -> (r: ItemKind)
        ensures
            item_kind_v(r) == item_kind_v(*self),
    {
        match self {
            ItemKind::Function(f) => ItemKind::Function(f.clone()),
            ItemKind::StructDef { name, generic_params, fields, span } => ItemKind::StructDef {
                name: name.clone(),
                generic_params: clone_strings(generic_params),
                fields: clone_typed(fields),
                span: clone_span(span),
            },
            ItemKind::EnumDef { name, generic_params, variants, span } => ItemKind::EnumDef {
                name: name.clone(),
                generic_params: clone_strings(generic_params),
                variants: clone_strings(variants),
                span: clone_span(span),
            },
            ItemKind::ModDecl => ItemKind::ModDecl,
            ItemKind::UseDecl { path, alias } => ItemKind::UseDecl {
                path: clone_strings(path),
                alias: match alias {
                    Some(a) => Some(a.clone()),
                    None => None,
                },
            },
            ItemKind::ModuleDecl => ItemKind::ModuleDecl,
            ItemKind::MainBlock(b, s) => ItemKind::MainBlock(clone_stmts(b), clone_span(s)),
            ItemKind::ExternalFunction { kind, ecosystem, symbol, params, return_type, span } => ItemKind::ExternalFunction {
                kind: clone_external_kind(kind),
                ecosystem: ecosystem.clone(),
                symbol: symbol.clone(),
                params: clone_typed(params),
                return_type: return_type.clone(),
                span: clone_span(span),
            },
        }
    }
}

impl Item {
    /// A copy of the item, node for node.
    pub fn deep_clone(&self) -> (r: Item)
        ensures
            item_v(r) == item_v(*self),
    {
        Item {
            name: self.name.clone(),
            visibility: self.visibility,
            kind: self.kind.deep_clone(),
            span: clone_span(&self.span),
        }
    }
}

impl Program {
    /// The program with no items.
    pub fn empty() -> (r: Program)
        ensures
            r.items@.len() == 0,
            r.functions@.len() == 0,
    {
        Program { items: Vec::new(), functions: Vec::new() }
    }

    /// A copy of the program, node for node.
    pub fn deep_clone(&self) -> (r: Program)
        ensures
            items_v(r.items@) == items_v(self.items@),
            r.functions@.len() == self.functions@.len(),
            forall|k: int| 0 <= k < r.functions@.len() ==> function_v(#[trigger] r.functions@[k]) == function_v(self.functions@[k]),
    {
        let mut items: Vec<Item> = Vec::new();
        let mut i: usize = 0;
        while i < self.items.len()
            invariant
                i <= self.items@.len(),
                items_v(items@) == items_v(self.items@.take(i as int)),
            decreases self.items@.len() - i,
        {
            let x = self.items[i].deep_clone();
            proof {
                assert(items_v(self.items@.take(i + 1)) =~= items_v(self.items@.take(i as int)).push(item_v(self.items@[i as int])));
                assert(items_v(items@.push(x)) =~= items_v(items@).push(item_v(x)));
            }
            items.push(x);
            i = i + 1;
        }
        assert(self.items@.take(self.items@.len() as int) =~= self.items@);
        let mut functions: Vec<Function> = Vec::new();
        let mut k: usize = 0;
        while k < self.functions.len()
            invariant
                k <= self.functions@.len(),
                functions@.len() == k,
                forall|j: int| 0 <= j < k ==> function_v(#[trigger] functions@[j]) == function_v(self.functions@[j]),
            decreases self.functions@.len() - k,
        {
            functions.push(self.functions[k].clone());
            k = k + 1;
        }
        Program { items, functions }
    }
}

/// The functions among `items`, in order.
pub open spec fn function_items(items: Seq<Item>) -> Seq<Function>
    decreases items.len(),
{
    if items.len() == 0 {
        Seq::empty()
    } else {
        function_items(items.drop_last()) + match items.last().kind {
            ItemKind::Function(f) => seq![f],
            _ => Seq::empty(),
        }
    }
}

impl Program {
    /// A program from its items; `functions` holds a clone of each function
    /// item, in order.
    pub fn from_items(items: Vec<Item>) -> (r: Program)
        ensures
            r.items@ == items@,
            r.functions@.len() == function_items(items@).len(),
            forall|k: int| 0 <= k < r.functions@.len() ==> function_v(#[trigger] r.functions@[k]) == function_v(function_items(items@)[k]),
    {
        let mut functions: Vec<Function> = Vec::new();
        let mut i: usize = 0;
        let ghost fs = function_items(items@);
        assert(items@.take(0) =~= Seq::<Item>::empty());
        while i < items.len()
            invariant
                i <= items@.len(),
                functions@.len() == function_items(items@.take(i as int)).len(),
                forall|k: int| 0 <= k < functions@.len() ==> function_v(#[trigger] functions@[k]) == function_v(function_items(items@.take(i as int))[k]),
            decreases items@.len() - i,
        {
            let ghost before = function_items(items@.take(i as int));
            proof {
                assert(items@.take(i + 1).drop_last() == items@.take(i as int));
                assert(items@.take(i + 1).last() == items@[i as int]);
            }
            match &items[i].kind {
                ItemKind::Function(f) => {
                    let c = f.clone();
                    functions.push(c);
                    proof {
                        let after = function_items(items@.take(i + 1));
                        assert(after == before + seq![*f]);
                        assert forall|k: int| 0 <= k < functions@.len() implies function_v(#[trigger] functions@[k]) == function_v(after[k]) by {
                            if k < before.len() {
                                assert(after[k] == before[k]);
                            }
                        }
                    }
                },
                _ => {
                    proof {
                        assert(function_items(items@.take(i + 1)) == before + Seq::<Function>::empty());
                        assert(before + Seq::<Function>::empty() == before);
                    }
                },
            }
            i = i + 1;
        }
        assert(items@.take(items@.len() as int) == items@);
        Program { items, functions }
    }
}

} // verus!
