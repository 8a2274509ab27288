//! MIR: the control-flow-graph form of a program.
//!
//! Every function is a list of basic blocks; every block is a list of
//! statements ending in one terminator.  Values live in typed locals, each
//! compound expression becomes an assignment of an rvalue to a local, and
//! calls end their block.  Types are [`HirType`]s.
use vstd::prelude::*;
use crate::ast::{AugOp, BinOp, UnOp, binop_spelling, augop_spelling, unop_spelling};
use crate::hir::symbol::{DefId, SymbolId, SymbolInterner};
use crate::hir::types::{HirType, Ty, model_of};
use crate::hir::function::{EnumDef, StructDef};

pub mod lower;
pub mod monomorphize;
pub mod opt;
pub mod verify;

verus! {

/// A stable identifier for a basic block.
#[derive(Clone, Copy, Debug, PartialEq, Eq, Hash, Structural)]
pub struct BlockId(pub u32);

/// A stable identifier for a local (parameter, variable or temporary).
#[derive(Clone, Copy, Debug, PartialEq, Eq, Hash, Structural)]
pub struct LocalId(pub u32);

/// A local slot: its id, type, diagnostic name and mutability.
#[derive(Clone, Debug)]
pub struct MirLocal {
    pub id: LocalId,
    pub ty: HirType,
    pub name: SymbolId,
    pub mutable: bool,
}

/// A compile-time constant.  A float is held as the bit pattern of its
/// IEEE 754 binary64 value, so two float constants are equal exactly when
/// their bits are.
#[derive(Clone, Copy, Debug, PartialEq, Eq, Structural)]
pub enum MirConst {
    I64(i64),
    F64(u64),
    Bool(bool),
}

/// A value that needs no further computation.
#[derive(Clone, Copy, Debug, PartialEq, Eq, Structural)]
pub enum MirOperand {
    Const(MirConst),
    Local(LocalId),
}

/// The type model of a constant.
pub open spec fn const_ty(c: MirConst) -> Ty {
    match c {
        MirConst::I64(_) => Ty::I64,
        MirConst::F64(_) => Ty::F64,
        MirConst::Bool(_) => Ty::Bool,
    }
}

/// The declared type model of the first local of `locals` with the given
/// id, or `I64` where there is none.
pub open spec fn local_ty(locals: Seq<MirLocal>, id: LocalId) -> Ty
    decreases locals.len(),
{
    if locals.len() == 0 {
        Ty::I64
    } else if locals[0].id == id {
        model_of(locals[0].ty)
    } else {
        local_ty(locals.subrange(1, locals.len() as int), id)
    }
}

/// The type model of an operand: a constant's own type, or a local's
/// declared type.
pub open spec fn operand_ty(op: MirOperand, locals: Seq<MirLocal>) -> Ty {
    match op {
        MirOperand::Const(c) => const_ty(c),
        MirOperand::Local(id) => local_ty(locals, id),
    }
}

impl MirConst {
    /// The type of the constant.
    pub fn ty(&self) -> (r: HirType)
        ensures
            model_of(r) == const_ty(*self),
    {
        match self {
            MirConst::I64(_) => HirType::I64,
            MirConst::F64(_) => HirType::F64,
            MirConst::Bool(_) => HirType::Bool,
        }
    }
}

impl MirOperand {
    /// The type of the operand, looking locals up in `locals`.
    pub fn ty(&self, locals: &[MirLocal]) -> (r: HirType)
        ensures
            model_of(r) == operand_ty(*self, locals@),
    {
        match self {
            MirOperand::Const(c) => c.ty(),
            MirOperand::Local(lid) => {
                let n = locals.len();
                let mut i: usize = 0;
                assert(locals@.subrange(0, n as int) == locals@);
                while i < n
                    invariant
                        i <= n,
                        n == locals@.len(),
                        *self == MirOperand::Local(*lid),
                        local_ty(locals@, *lid) == local_ty(locals@.subrange(i as int, n as int), *lid),
                    decreases n - i,
                {
                    let ghost rest = locals@.subrange(i as int, n as int);
                    assert(rest[0] == locals@[i as int]);
                    assert(rest.subrange(1, rest.len() as int) == locals@.subrange(i + 1, n as int));
                    if locals[i].id == *lid {
                        return locals[i].ty.clone();
                    }
                    i = i + 1;
                }
                HirType::I64
            },
        }
    }
}

/// Binary operators of MIR, one for each source operator.
#[derive(Clone, Copy, Debug, PartialEq, Eq, Structural)]
pub enum MirBinOp {
    Add,
    Sub,
    Mul,
    Div,
    Mod,
    Eq,
    Ne,
    Lt,
    Gt,
    Le,
    Ge,
    And,
    Or,
}

/// Unary operators of MIR.
#[derive(Clone, Copy, Debug, PartialEq, Eq, Structural)]
pub enum MirUnOp {
    Neg,
    Not,
}

/// The conventional written form of a MIR binary operator.
pub open spec fn mir_binop_spelling(op: MirBinOp) -> Seq<char> {
    match op {
        MirBinOp::Add => seq!['+'],
        MirBinOp::Sub => seq!['-'],
        MirBinOp::Mul => seq!['*'],
        MirBinOp::Div => seq!['/'],
        MirBinOp::Mod => seq!['%'],
        MirBinOp::Eq => seq!['=', '='],
        MirBinOp::Ne => seq!['!', '='],
        MirBinOp::Lt => seq!['<'],
        MirBinOp::Gt => seq!['>'],
        MirBinOp::Le => seq!['<', '='],
        MirBinOp::Ge => seq!['>', '='],
        MirBinOp::And => seq!['&', '&'],
        MirBinOp::Or => seq!['|', '|'],
    }
}

/// The conventional written form of a MIR unary operator.
pub open spec fn mir_unop_spelling(op: MirUnOp) -> Seq<char> {
    match op {
        MirUnOp::Neg => seq!['-'],
        MirUnOp::Not => seq!['!'],
    }
}

/// The MIR operator of a source binary operator.
pub open spec fn binop_of(op: BinOp) -> MirBinOp {
    match op {
        BinOp::Add => MirBinOp::Add,
        BinOp::Sub => MirBinOp::Sub,
        BinOp::Mul => MirBinOp::Mul,
        BinOp::Div => MirBinOp::Div,
        BinOp::Mod => MirBinOp::Mod,
        BinOp::Eq => MirBinOp::Eq,
        BinOp::Ne => MirBinOp::Ne,
        BinOp::Lt => MirBinOp::Lt,
        BinOp::Gt => MirBinOp::Gt,
        BinOp::Le => MirBinOp::Le,
        BinOp::Ge => MirBinOp::Ge,
        BinOp::And => MirBinOp::And,
        BinOp::Or => MirBinOp::Or,
    }
}

/// The MIR operator of a compound assignment: `+=` adds, and so on.
pub open spec fn augop_of(op: AugOp) -> MirBinOp {
    match op {
        AugOp::Add => MirBinOp::Add,
        AugOp::Sub => MirBinOp::Sub,
        AugOp::Mul => MirBinOp::Mul,
        AugOp::Div => MirBinOp::Div,
    }
}

impl From<BinOp> for MirBinOp {
    fn from(op: BinOp) -> (r: MirBinOp) {
        match op {
            BinOp::Add => MirBinOp::Add,
            BinOp::Sub => MirBinOp::Sub,
            BinOp::Mul => MirBinOp::Mul,
            BinOp::Div => MirBinOp::Div,
            BinOp::Mod => MirBinOp::Mod,
            BinOp::Eq => MirBinOp::Eq,
            BinOp::Ne => MirBinOp::Ne,
            BinOp::Lt => MirBinOp::Lt,
            BinOp::Gt => MirBinOp::Gt,
            BinOp::Le => MirBinOp::Le,
            BinOp::Ge => MirBinOp::Ge,
            BinOp::And => MirBinOp::And,
            BinOp::Or => MirBinOp::Or,
        }
    }
}

impl vstd::std_specs::convert::FromSpecImpl<BinOp> for MirBinOp {
    open spec fn obeys_from_spec() -> bool {
        true
    }

    open spec fn from_spec(op: BinOp) -> MirBinOp {
        binop_of(op)
    }
}

/// The MIR operator of a unary operator.
pub open spec fn unop_of(op: UnOp) -> MirUnOp {
    match op {
        UnOp::Neg => MirUnOp::Neg,
        UnOp::Not => MirUnOp::Not,
    }
}

impl From<UnOp> for MirUnOp {
    fn from(op: UnOp) -> (r: MirUnOp) {
        match op {
            UnOp::Neg => MirUnOp::Neg,
            UnOp::Not => MirUnOp::Not,
        }
    }
}

impl vstd::std_specs::convert::FromSpecImpl<UnOp> for MirUnOp {
    open spec fn obeys_from_spec() -> bool {
        true
    }

    open spec fn from_spec(op: UnOp) -> MirUnOp {
        unop_of(op)
    }
}

impl From<AugOp> for MirBinOp {
    fn from(op: AugOp) -> (r: MirBinOp) {
        match op {
            AugOp::Add => MirBinOp::Add,
            AugOp::Sub => MirBinOp::Sub,
            AugOp::Mul => MirBinOp::Mul,
            AugOp::Div => MirBinOp::Div,
        }
    }
}

impl vstd::std_specs::convert::FromSpecImpl<AugOp> for MirBinOp {
    open spec fn obeys_from_spec() -> bool {
        true
    }

    open spec fn from_spec(op: AugOp) -> MirBinOp {
        augop_of(op)
    }
}

/// A value-producing computation.
#[derive(Clone, Debug)]
pub enum MirRvalue {
    /// The operand itself.
    Use(MirOperand),
    Binary { op: MirBinOp, lhs: MirOperand, rhs: MirOperand },
    Unary { op: MirUnOp, operand: MirOperand },
    /// A struct value; `fields` follow the definition's field order.
    StructLit { struct_def: SymbolId, fields: Vec<(SymbolId, MirOperand)> },
    FieldAccess { local: LocalId, field: SymbolId },
    /// An enum variant, represented by its tag.
    EnumCtor { enum_def: SymbolId, variant: SymbolId },
    /// A list built from its elements.
    ListLiteral { elements: Vec<MirOperand> },
    /// The element of a list at an index.
    Index { list_local: LocalId, index: MirOperand },
    /// The number of elements of a list.
    Length { list_local: LocalId },
    /// A string literal.
    StrLit(SymbolId),
}

/// A MIR statement.
#[derive(Clone, Debug)]
pub struct MirStmt {
    pub kind: MirStmtKind,
}

#[derive(Clone, Debug)]
pub enum MirStmtKind {
    /// Declares a local with its type and mutability.
    LocalDecl { local: LocalId, ty: HirType, mutable: bool },
    /// Assigns an rvalue to a local.
    Assign { local: LocalId, rvalue: MirRvalue },
}

/// The single terminator of a basic block.
#[derive(Clone, Debug)]
pub enum MirTerminator {
    Goto { target: BlockId },
    /// Branch on an integer or boolean: to the target listed for the
    /// scrutinee's value, else to `else_target`.
    SwitchInt { scrutinee: MirOperand, ty: HirType, branches: Vec<(u64, BlockId)>, else_target: BlockId },
    /// A call; its result goes to `destination` and control to `next`.
    Call { func: DefId, args: Vec<MirOperand>, destination: LocalId, next: BlockId },
    Return(Option<MirOperand>),
    /// A block that was never given a real terminator.
    Unreachable,
}

/// A basic block: statements and one terminator.
#[derive(Clone, Debug)]
pub struct MirBasicBlock {
    pub id: BlockId,
    pub name: String,
    pub stmts: Vec<MirStmt>,
    pub terminator: MirTerminator,
}

/// A function: its locals (parameters first) and its blocks.
#[derive(Clone, Debug)]
pub struct MirFunction {
    pub def_id: DefId,
    pub name: SymbolId,
    pub params: Vec<(SymbolId, HirType)>,
    pub return_type: HirType,
    pub locals: Vec<MirLocal>,
    pub param_locals: Vec<LocalId>,
    pub blocks: Vec<MirBasicBlock>,
    pub start_block: BlockId,
}

/// A whole program: functions and the tables they share.
#[derive(Debug)]
pub struct MirProgram {
    pub functions: Vec<MirFunction>,
    pub symbols: SymbolInterner,
    pub structs: Vec<StructDef>,
    pub enums: Vec<EnumDef>,
}

/// Whether `i` is the first position of `structs` with the given name.
pub open spec fn first_struct_at(structs: Seq<StructDef>, name: SymbolId, i: int) -> bool {
    &&& 0 <= i < structs.len()
    &&& structs[i].name == name
    &&& forall|j: int| 0 <= j < i ==> structs[j].name != name
}

/// Whether `i` is the first position of `enums` with the given name.
pub open spec fn first_enum_at(enums: Seq<EnumDef>, name: SymbolId, i: int) -> bool {
    &&& 0 <= i < enums.len()
    &&& enums[i].name == name
    &&& forall|j: int| 0 <= j < i ==> enums[j].name != name
}

/// Whether `i` is the first position of `functions` with the given id.
pub open spec fn first_function_at(functions: Seq<MirFunction>, id: DefId, i: int) -> bool {
    &&& 0 <= i < functions.len()
    &&& functions[i].def_id == id
    &&& forall|j: int| 0 <= j < i ==> functions[j].def_id != id
}

impl MirProgram {
    /// The first struct definition with the given name.
    pub fn struct_def(&self, sym: SymbolId) -> (r: Option<&StructDef>)
        ensures
            r is None <==> forall|i: int| 0 <= i < self.structs@.len() ==> self.structs@[i].name != sym,
            r matches Some(d) ==> exists|i: int| first_struct_at(self.structs@, sym, i) && *d == self.structs@[i],
    {
        let mut i: usize = 0;
        while i < self.structs.len()
            invariant
                i <= self.structs@.len(),
                forall|j: int| 0 <= j < i ==> self.structs@[j].name != sym,
            decreases self.structs@.len() - i,
        {
            if self.structs[i].name == sym {
                assert(first_struct_at(self.structs@, sym, i as int));
                return Some(&self.structs[i]);
            }
            i = i + 1;
        }
        None
    }

    /// The first enum definition with the given name.
    pub fn enum_def(&self, sym: SymbolId) -> (r: Option<&EnumDef>)
        ensures
            r is None <==> forall|i: int| 0 <= i < self.enums@.len() ==> self.enums@[i].name != sym,
            r matches Some(d) ==> exists|i: int| first_enum_at(self.enums@, sym, i) && *d == self.enums@[i],
    {
        let mut i: usize = 0;
        while i < self.enums.len()
            invariant
                i <= self.enums@.len(),
                forall|j: int| 0 <= j < i ==> self.enums@[j].name != sym,
            decreases self.enums@.len() - i,
        {
            if self.enums[i].name == sym {
                assert(first_enum_at(self.enums@, sym, i as int));
                return Some(&self.enums[i]);
            }
            i = i + 1;
        }
        None
    }

    /// The name of the first function with the given id, if that function
    /// exists and its name symbol is in the table.
    pub fn function_name(&self, id: DefId) -> (r: Option<&str>)
        ensures
            r is None <==> forall|i: int| first_function_at(self.functions@, id, i) ==> !(0 <= self.functions@[i].name.0 < self.symbols@.len()),
            r matches Some(s) ==> exists|i: int| first_function_at(self.functions@, id, i)
                && s@ == self.symbols@[self.functions@[i].name.0 as int],
    {
        let mut i: usize = 0;
        while i < self.functions.len()
            invariant
                i <= self.functions@.len(),
                forall|j: int| 0 <= j < i ==> self.functions@[j].def_id != id,
            decreases self.functions@.len() - i,
        {
            if self.functions[i].def_id == id {
                assert(first_function_at(self.functions@, id, i as int));
                assert forall|k: int| first_function_at(self.functions@, id, k) implies k == i by {
                    if k > i {
                        assert(self.functions@[i as int].def_id == id);
                    }
                }
                return self.symbols.lookup(self.functions[i].name);
            }
            i = i + 1;
        }
        None
    }
}

/// Lowering keeps each operator: the MIR operator of a source operator is
/// the operator written the same way, so `<=` stays `<=`.
pub proof fn law_binop_of_spelled(op: BinOp)
    ensures
        mir_binop_spelling(binop_of(op)) == binop_spelling(op),
{
}

/// A compound assignment `x op= v` lowers to the operator `op`.
pub proof fn law_augop_of_spelled(op: AugOp)
    ensures
        mir_binop_spelling(augop_of(op)).push('=') == augop_spelling(op),
{
    match op {
        AugOp::Add => assert(seq!['+'].push('=') =~= seq!['+', '=']),
        AugOp::Sub => assert(seq!['-'].push('=') =~= seq!['-', '=']),
        AugOp::Mul => assert(seq!['*'].push('=') =~= seq!['*', '=']),
        AugOp::Div => assert(seq!['/'].push('=') =~= seq!['/', '=']),
    }
}

/// Lowering keeps each unary operator.
pub proof fn law_unop_of_spelled(op: UnOp)
    ensures
        mir_unop_spelling(unop_of(op)) == unop_spelling(op),
{
}

} // verus!
