//! High-level intermediate representation: symbols, definitions, types,
//! and the lowering pieces that produce them.

pub mod expr;
pub mod function;
pub mod lower;
pub mod stmt;
pub mod symbol;
pub mod types;

pub use expr::{HirExpr, HirExprKind};
pub use function::{EnumDef, HirFunction, HirModDecl, HirProgram, HirUseDecl, SourceSpan, StructDef};
pub use stmt::{HirStmt, HirStmtKind};
pub use lower::HirLower;
pub use symbol::{DefEntry, DefId, DefKind, DefTable, SymbolId, SymbolInterner, Visibility};
pub use types::HirType;
