//! HIR statements.
use vstd::prelude::*;
use crate::hir::expr::HirExpr;
use crate::hir::function::SourceSpan;
use crate::hir::symbol::SymbolId;
use crate::hir::types::HirType;

verus! {

/// A statement and its span.
#[derive(Debug)]
pub struct HirStmt {
    pub kind: HirStmtKind,
    pub span: SourceSpan,
}

/// Statement forms.
#[derive(Debug)]
pub enum HirStmtKind {
    Let { name: SymbolId, mutable: bool, ty: Option<HirType>, value: HirExpr },
    Expr(HirExpr),
    Return(Option<HirExpr>),
    /// Print an integer.
    Println(HirExpr),
    /// Print a string.
    PrintlnStr(HirExpr),
    /// Print the message and stop.
    Raise(HirExpr),
    StructDef { name: SymbolId, fields: Vec<(SymbolId, HirType)> },
    EnumDef { name: SymbolId, variants: Vec<SymbolId> },
}

} // verus!
