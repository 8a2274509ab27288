//! HIR expressions: every expression carries its resolved type and span;
//! names are resolved to symbols and definition ids.
use vstd::prelude::*;
use crate::ast::{AugOp, BinOp, UnOp};
use crate::hir::function::SourceSpan;
use crate::hir::stmt::HirStmt;
use crate::hir::symbol::{DefId, SymbolId};
use crate::hir::types::HirType;

verus! {

/// A typed expression.
#[derive(Debug)]
pub struct HirExpr {
    pub kind: HirExprKind,
    pub ty: HirType,
    pub span: SourceSpan,
}

/// Expression forms.  A float literal is held as the bit pattern of its
/// IEEE 754 binary64 value.
#[derive(Debug)]
pub enum HirExprKind {
    Integer(i64),
    Float(u64),
    Bool(bool),
    StrLit(SymbolId),
    Unit,
    Variable { symbol: SymbolId },
    Assign { symbol: SymbolId, value: Box<HirExpr> },
    AugAssign { symbol: SymbolId, op: AugOp, value: Box<HirExpr> },
    Binary { op: BinOp, lhs: Box<HirExpr>, rhs: Box<HirExpr> },
    Unary { op: UnOp, expr: Box<HirExpr> },
    /// A call of a declared function, with explicit type arguments if any.
    Call { func: DefId, args: Vec<HirExpr>, type_args: Vec<HirType> },
    If {
        condition: Box<HirExpr>,
        then_branch: Vec<HirStmt>,
        elif_branches: Vec<(HirExpr, Vec<HirStmt>)>,
        else_branch: Option<Vec<HirStmt>>,
    },
    /// `for var in iter`; the iterator is a range.
    For { var: SymbolId, iter: Box<HirExpr>, body: Vec<HirStmt> },
    While { condition: Box<HirExpr>, body: Vec<HirStmt> },
    /// `start..end`, or `start...end` when inclusive.
    Range { start: Box<HirExpr>, end: Box<HirExpr>, is_inclusive: bool },
    StructLiteral { name: SymbolId, fields: Vec<(SymbolId, Box<HirExpr>)>, type_args: Vec<HirType> },
    FieldAccess { expr: Box<HirExpr>, field: SymbolId },
    ListLiteral { elements: Vec<HirExpr> },
    /// Element of a list at an index.
    Index { list: Box<HirExpr>, index: Box<HirExpr> },
    /// Number of elements of a list.
    Length { expr: Box<HirExpr> },
    EnumConstructor { name: SymbolId, variant: SymbolId },
}

} // verus!
