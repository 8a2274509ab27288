//! HIR to MIR lowering.
//!
//! Each function's control flow becomes an explicit graph: `if`, `for` and
//! `while` turn into `SwitchInt` and `Goto` terminators between dedicated
//! blocks, and every call ends its block.  Blocks and locals are numbered
//! by their position.
//!
//! What is proved of the result: lowering succeeds exactly when every
//! variable is defined before it is used, every enum constructor names a
//! declared enum and one of its variants, and every `for` ranges over a
//! range expression; a function lowered successfully passes every check of
//! the MIR verifier and keeps its parameters and return type; an expression
//! without calls, struct literals and control flow lowers to the
//! statements and the operand that [`emits`] and [`operand_of`] give; and
//! a function whose body is made of such statements lowers to the single
//! block that [`straight_lowered`] describes.
use vstd::prelude::*;
use crate::error::CompilerError;
use crate::hir::expr::{HirExpr, HirExprKind};
use crate::hir::function::{EnumDef, HirFunction, HirProgram, StructDef, copy_enum_def, copy_struct_def, same_enum, same_struct};
use crate::hir::stmt::{HirStmt, HirStmtKind};
use crate::hir::symbol::{DefId, SymbolId};
use crate::hir::types::{HirType, model_of};
use crate::mir::verify::{function_errors, has_block, has_local, stmt_operands_spec};
use crate::mir::{
    BlockId, LocalId, MirBasicBlock, MirBinOp, MirUnOp, MirConst, MirFunction, MirLocal, MirOperand, MirProgram,
    MirRvalue, MirStmt, MirStmtKind, MirTerminator, augop_of, binop_of, unop_of,
};
use crate::text::{decimal, push_wide_decimal};

verus! {

/// The definition id the builtin integer printer is called by.
pub const PRINTLN_DEF: u32 = 4294967294u32;

/// The definition id the builtin string printer is called by.
pub const PRINTLN_STR_DEF: u32 = 4294967293u32;

// ---------------------------------------------------------------------------
// When lowering succeeds
// ---------------------------------------------------------------------------

/// Why lowering stops.
pub enum LowerFailure {
    /// A variable used or assigned before any definition of it.
    UndefinedVariable(SymbolId),
    /// An enum constructor naming no declared enum.
    UndefinedEnum(SymbolId),
    /// An enum constructor naming a variant its enum lacks.
    NoSuchVariant(SymbolId, SymbolId),
    /// A `for` loop over something other than a range.
    ForOverNonRange,
}

/// Whether `i` is the first enum of `enums` with the given name.
pub open spec fn first_enum_named(enums: Seq<EnumDef>, name: SymbolId, i: int) -> bool {
    &&& 0 <= i < enums.len()
    &&& enums[i].name == name
    &&& forall|j: int| 0 <= j < i ==> enums[j].name != name
}

/// The outcome of an enum constructor: the first enum with the name must
/// list the variant.
pub open spec fn check_enum_ctor(enums: Seq<EnumDef>, name: SymbolId, variant: SymbolId) -> Option<LowerFailure> {
    if exists|i: int| first_enum_named(enums, name, i) {
        let e = enums[choose|i: int| first_enum_named(enums, name, i)];
        if e.variants@.contains(variant) {
            None
        } else {
            Some(LowerFailure::NoSuchVariant(name, variant))
        }
    } else {
        Some(LowerFailure::UndefinedEnum(name))
    }
}

/// Lowering an expression with the variables `d` defined: the variables
/// defined afterwards, or the first failure in evaluation order.
pub open spec fn check_expr(enums: Seq<EnumDef>, e: HirExpr, d: Set<SymbolId>) -> Result<Set<SymbolId>, LowerFailure>
    decreases e,
{
    match e.kind {
        HirExprKind::Variable { symbol } => if d.contains(symbol) {
            Ok(d)
        } else {
            Err(LowerFailure::UndefinedVariable(symbol))
        },
        HirExprKind::Assign { symbol, value } => if d.contains(symbol) {
            check_expr(enums, *value, d)
        } else {
            Err(LowerFailure::UndefinedVariable(symbol))
        },
        HirExprKind::AugAssign { symbol, value, .. } => if d.contains(symbol) {
            check_expr(enums, *value, d)
        } else {
            Err(LowerFailure::UndefinedVariable(symbol))
        },
        HirExprKind::Binary { lhs, rhs, .. } => match check_expr(enums, *lhs, d) {
            Ok(d1) => check_expr(enums, *rhs, d1),
            Err(f) => Err(f),
        },
        HirExprKind::Unary { expr, .. } => check_expr(enums, *expr, d),
        HirExprKind::Call { args, .. } => check_exprs(enums, args@, d),
        HirExprKind::If { condition, then_branch, elif_branches, else_branch } => match check_expr(
            enums,
            *condition,
            d,
        ) {
            Ok(d1) => match check_stmts(enums, then_branch@, d1) {
                Ok(d2) => match check_elifs(enums, elif_branches@, d2) {
                    Ok(d3) => match else_branch {
                        Some(b) => check_stmts(enums, b@, d3),
                        None => Ok(d3),
                    },
                    Err(f) => Err(f),
                },
                Err(f) => Err(f),
            },
            Err(f) => Err(f),
        },
        HirExprKind::For { var, iter, body } => match iter.kind {
            HirExprKind::Range { start, end, .. } => match check_expr(enums, *start, d) {
                Ok(d1) => match check_expr(enums, *end, d1) {
                    Ok(d2) => check_stmts(enums, body@, d2.insert(var)),
                    Err(f) => Err(f),
                },
                Err(f) => Err(f),
            },
            _ => Err(LowerFailure::ForOverNonRange),
        },
        HirExprKind::While { condition, body } => match check_expr(enums, *condition, d) {
            Ok(d1) => check_stmts(enums, body@, d1),
            Err(f) => Err(f),
        },
        HirExprKind::Range { start, .. } => check_expr(enums, *start, d),
        HirExprKind::StructLiteral { fields, .. } => check_fields(enums, fields@, d),
        HirExprKind::FieldAccess { expr, .. } => check_expr(enums, *expr, d),
        HirExprKind::ListLiteral { elements } => check_exprs(enums, elements@, d),
        HirExprKind::Index { list, index } => match check_expr(enums, *list, d) {
            Ok(d1) => check_expr(enums, *index, d1),
            Err(f) => Err(f),
        },
        HirExprKind::Length { expr } => check_expr(enums, *expr, d),
        HirExprKind::EnumConstructor { name, variant } => match check_enum_ctor(enums, name, variant) {
            Some(f) => Err(f),
            None => Ok(d),
        },
        _ => Ok(d),
    }
}

/// Lowering a sequence of expressions, in order.
pub open spec fn check_exprs(enums: Seq<EnumDef>, es: Seq<HirExpr>, d: Set<SymbolId>) -> Result<Set<SymbolId>, LowerFailure>
    decreases es,
{
    if es.len() == 0 {
        Ok(d)
    } else {
        match check_exprs(enums, es.drop_last(), d) {
            Ok(d1) => check_expr(enums, es.last(), d1),
            Err(f) => Err(f),
        }
    }
}

/// Lowering the values of struct literal fields, in order.
pub open spec fn check_fields(enums: Seq<EnumDef>, fs: Seq<(SymbolId, Box<HirExpr>)>, d: Set<SymbolId>) -> Result<
    Set<SymbolId>,
    LowerFailure,
>
    decreases fs,
{
    if fs.len() == 0 {
        Ok(d)
    } else {
        match check_fields(enums, fs.drop_last(), d) {
            Ok(d1) => check_expr(enums, *fs.last().1, d1),
            Err(f) => Err(f),
        }
    }
}

/// Lowering the `elif` arms, in order: each condition, then its body.
pub open spec fn check_elifs(enums: Seq<EnumDef>, arms: Seq<(HirExpr, Vec<HirStmt>)>, d: Set<SymbolId>) -> Result<
    Set<SymbolId>,
    LowerFailure,
>
    decreases arms,
{
    if arms.len() == 0 {
        Ok(d)
    } else {
        match check_elifs(enums, arms.drop_last(), d) {
            Ok(d1) => match check_expr(enums, arms.last().0, d1) {
                Ok(d2) => check_stmts(enums, arms.last().1@, d2),
                Err(f) => Err(f),
            },
            Err(f) => Err(f),
        }
    }
}

/// Lowering one statement; `let` defines its name after its value.
pub open spec fn check_stmt(enums: Seq<EnumDef>, s: HirStmt, d: Set<SymbolId>) -> Result<Set<SymbolId>, LowerFailure>
    decreases s,
{
    match s.kind {
        HirStmtKind::Let { name, value, .. } => match check_expr(enums, value, d) {
            Ok(d1) => Ok(d1.insert(name)),
            Err(f) => Err(f),
        },
        HirStmtKind::Expr(e) => check_expr(enums, e, d),
        HirStmtKind::Return(Some(e)) => check_expr(enums, e, d),
        HirStmtKind::Println(e) => check_expr(enums, e, d),
        HirStmtKind::PrintlnStr(e) => check_expr(enums, e, d),
        HirStmtKind::Raise(e) => check_expr(enums, e, d),
        _ => Ok(d),
    }
}

/// Lowering a sequence of statements, in order.
pub open spec fn check_stmts(enums: Seq<EnumDef>, ss: Seq<HirStmt>, d: Set<SymbolId>) -> Result<Set<SymbolId>, LowerFailure>
    decreases ss,
{
    if ss.len() == 0 {
        Ok(d)
    } else {
        match check_stmts(enums, ss.drop_last(), d) {
            Ok(d1) => check_stmt(enums, ss.last(), d1),
            Err(f) => Err(f),
        }
    }
}


// ---------------------------------------------------------------------------
// What an expression lowers to
// ---------------------------------------------------------------------------

/// The local that `sym` names in `vm`: its latest binding.
pub open spec fn latest_binding(vm: Seq<(SymbolId, LocalId)>, sym: SymbolId) -> Option<LocalId>
    decreases vm.len(),
{
    if vm.len() == 0 {
        None
    } else if vm.last().0 == sym {
        Some(vm.last().1)
    } else {
        latest_binding(vm.drop_last(), sym)
    }
}

/// The variants of the first enum named `name`.
pub open spec fn enum_variants(enums: Seq<EnumDef>, name: SymbolId) -> Seq<SymbolId> {
    enums[choose|i: int| first_enum_named(enums, name, i)].variants@
}

/// `p` is the first position of `v` in `vs`.
pub open spec fn first_position(vs: Seq<SymbolId>, v: SymbolId, p: int) -> bool {
    &&& 0 <= p < vs.len()
    &&& vs[p] == v
    &&& forall|j: int| 0 <= j < p ==> vs[j] != v
}

/// `after` is `before` followed by the declaration of the fresh temporary
/// `t`, of type `ty` and immutable, and the assignment of `rv` to it.
pub open spec fn temp_assigned(before: Seq<MirStmt>, after: Seq<MirStmt>, t: LocalId, ty: HirType, rv: MirRvalue) -> bool {
    &&& after.len() == before.len() + 2
    &&& after.take(before.len() as int) == before
    &&& after[before.len() as int].kind matches MirStmtKind::LocalDecl { local, ty: t2, mutable }
        && local == t && model_of(t2) == model_of(ty) && !mutable
    &&& after[before.len() as int + 1] == MirStmt { kind: MirStmtKind::Assign { local: t, rvalue: rv } }
}

/// Bindings of other symbols after position `i` do not change what `sym`
/// names.
proof fn lemma_latest_take(vm: Seq<(SymbolId, LocalId)>, sym: SymbolId, i: int)
    requires
        0 <= i <= vm.len(),
        forall|j: int| i <= j < vm.len() ==> (#[trigger] vm[j]).0 != sym,
    ensures
        latest_binding(vm, sym) == latest_binding(vm.take(i), sym),
    decreases vm.len(),
{
    if vm.len() == i {
        assert(vm.take(i) == vm);
    } else {
        assert(vm[vm.len() - 1].0 != sym);
        lemma_latest_take(vm.drop_last(), sym, i);
        assert(vm.drop_last().take(i) == vm.take(i));
    }
}

/// Every prefix of straight expressions is straight, and so is each one.
proof fn lemma_straight_exprs_take(es: Seq<HirExpr>, i: int)
    requires
        straight_exprs(es),
        0 <= i <= es.len(),
    ensures
        straight_exprs(es.take(i)),
        i < es.len() ==> straight(es[i]),
    decreases es.len(),
{
    if i < es.len() {
        if i == es.len() - 1 {
            assert(es.take(i) == es.drop_last());
        } else {
            lemma_straight_exprs_take(es.drop_last(), i);
            assert(es.drop_last().take(i) == es.take(i));
            assert(es.drop_last()[i] == es[i]);
        }
    } else {
        assert(es.take(i) == es);
    }
}

/// Where `b` extends `a` and `c` extends `b`, `a` and `b` are the first
/// statements of `c`.
proof fn lemma_take_chain(a: Seq<MirStmt>, b: Seq<MirStmt>, c: Seq<MirStmt>)
    requires
        a.len() <= b.len() <= c.len(),
        b.take(a.len() as int) == a,
        c.take(b.len() as int) == b,
    ensures
        c.take(a.len() as int) == a,
        c.take(b.len() as int) == b,
{
    assert(c.take(a.len() as int) =~= a) by {
        assert forall|i: int| 0 <= i < a.len() implies c.take(a.len() as int)[i] == a[i] by {
            assert(c.take(b.len() as int)[i] == c[i]);
            assert(b.take(a.len() as int)[i] == b[i]);
        }
    }
}

/// The first position of a symbol is unique.
proof fn lemma_first_position_unique(vs: Seq<SymbolId>, v: SymbolId, p: int, q: int)
    requires
        first_position(vs, v, p),
        q == choose|q: int| first_position(vs, v, q),
    ensures
        first_position(vs, v, q),
        p == q,
{
    assert(first_position(vs, v, q));
    if q < p {
        assert(vs[q] != v);
    } else if p < q {
        assert(vs[p] != v);
    }
}

/// An expression without calls, struct literals and control flow: its
/// lowering stays in the block being built.
pub open spec fn straight(e: HirExpr) -> bool
    decreases e,
{
    match e.kind {
        HirExprKind::Integer(_) | HirExprKind::Float(_) | HirExprKind::Bool(_) | HirExprKind::Unit
        | HirExprKind::StrLit(_) | HirExprKind::Variable { .. } | HirExprKind::EnumConstructor { .. } => true,
        HirExprKind::Assign { value, .. } => straight(*value),
        HirExprKind::AugAssign { value, .. } => straight(*value),
        HirExprKind::Binary { lhs, rhs, .. } => straight(*lhs) && straight(*rhs),
        HirExprKind::Unary { expr, .. } => straight(*expr),
        HirExprKind::Range { start, .. } => straight(*start),
        HirExprKind::FieldAccess { expr, .. } => straight(*expr),
        HirExprKind::Length { expr } => straight(*expr),
        HirExprKind::Index { list, index } => straight(*list) && straight(*index),
        HirExprKind::ListLiteral { elements } => straight_exprs(elements@),
        _ => false,
    }
}

/// Straight expressions, each of them.
pub open spec fn straight_exprs(es: Seq<HirExpr>) -> bool
    decreases es,
{
    es.len() == 0 || (straight_exprs(es.drop_last()) && straight(es.last()))
}

/// How many statements lowering the straight expression `e` appends to
/// the block being built.
pub open spec fn emit_count(e: HirExpr) -> nat
    decreases e,
{
    match e.kind {
        HirExprKind::StrLit(_) => 2,
        HirExprKind::Assign { value, .. } => emit_count(*value) + 1,
        HirExprKind::AugAssign { value, .. } => emit_count(*value) + 1,
        HirExprKind::Binary { lhs, rhs, .. } => emit_count(*lhs) + emit_count(*rhs) + 2,
        HirExprKind::Unary { expr, .. } => emit_count(*expr) + 2,
        HirExprKind::Range { start, .. } => emit_count(*start),
        HirExprKind::FieldAccess { expr, .. } => emit_count(*expr) + 4,
        HirExprKind::Length { expr } => emit_count(*expr) + 4,
        HirExprKind::Index { list, index } => emit_count(*list) + emit_count(*index) + 4,
        HirExprKind::ListLiteral { elements } => exprs_emit_count(elements@) + 2,
        _ => 0,
    }
}

/// How many statements lowering the straight expressions `es` appends.
pub open spec fn exprs_emit_count(es: Seq<HirExpr>) -> nat
    decreases es,
{
    if es.len() == 0 {
        0
    } else {
        exprs_emit_count(es.drop_last()) + emit_count(es.last())
    }
}

/// How many temporaries lowering the straight expression `e` declares.
pub open spec fn temp_count(e: HirExpr) -> nat
    decreases e,
{
    match e.kind {
        HirExprKind::StrLit(_) => 1,
        HirExprKind::Assign { value, .. } => temp_count(*value),
        HirExprKind::AugAssign { value, .. } => temp_count(*value),
        HirExprKind::Binary { lhs, rhs, .. } => temp_count(*lhs) + temp_count(*rhs) + 1,
        HirExprKind::Unary { expr, .. } => temp_count(*expr) + 1,
        HirExprKind::Range { start, .. } => temp_count(*start),
        HirExprKind::FieldAccess { expr, .. } => temp_count(*expr) + 2,
        HirExprKind::Length { expr } => temp_count(*expr) + 2,
        HirExprKind::Index { list, index } => temp_count(*list) + temp_count(*index) + 2,
        HirExprKind::ListLiteral { elements } => exprs_temp_count(elements@) + 1,
        _ => 0,
    }
}

/// How many temporaries lowering the straight expressions `es` declares.
pub open spec fn exprs_temp_count(es: Seq<HirExpr>) -> nat
    decreases es,
{
    if es.len() == 0 {
        0
    } else {
        exprs_temp_count(es.drop_last()) + temp_count(es.last())
    }
}

/// The position of `variant` among the variants of the first enum named
/// `name`.
pub open spec fn variant_position(enums: Seq<EnumDef>, name: SymbolId, variant: SymbolId) -> int {
    choose|p: int| first_position(enum_variants(enums, name), variant, p)
}

/// The local numbered `n`.
pub open spec fn local_at(n: int) -> LocalId {
    LocalId(n as u32)
}

/// The operand that holds the value of the straight expression `e`, with
/// the variables bound as in `vm` and `nl` locals declared before it:
/// literals are constants, a variable and an assignment are the variable's
/// local, an enum constructor is the position of its variant, and an
/// operation is the last temporary it declares.
pub open spec fn operand_of(enums: Seq<EnumDef>, e: HirExpr, vm: Seq<(SymbolId, LocalId)>, nl: int) -> MirOperand
    decreases e,
{
    match e.kind {
        HirExprKind::Integer(n) => MirOperand::Const(MirConst::I64(n)),
        HirExprKind::Float(f) => MirOperand::Const(MirConst::F64(f)),
        HirExprKind::Bool(b) => MirOperand::Const(MirConst::Bool(b)),
        HirExprKind::Unit => MirOperand::Const(MirConst::I64(0)),
        HirExprKind::Variable { symbol } => MirOperand::Local(latest_binding(vm, symbol)->Some_0),
        HirExprKind::Assign { symbol, .. } => MirOperand::Local(latest_binding(vm, symbol)->Some_0),
        HirExprKind::AugAssign { symbol, .. } => MirOperand::Local(latest_binding(vm, symbol)->Some_0),
        HirExprKind::EnumConstructor { name, variant } =>
            MirOperand::Const(MirConst::I64(variant_position(enums, name, variant) as i64)),
        HirExprKind::Range { start, .. } => operand_of(enums, *start, vm, nl),
        _ => MirOperand::Local(local_at(nl + temp_count(e) - 1)),
    }
}

/// The operands of the straight expressions `es`, lowered in order from
/// `nl` locals on.
pub open spec fn operands_of(enums: Seq<EnumDef>, es: Seq<HirExpr>, vm: Seq<(SymbolId, LocalId)>, nl: int) -> Seq<MirOperand>
    decreases es,
{
    if es.len() == 0 {
        Seq::empty()
    } else {
        operands_of(enums, es.drop_last(), vm, nl).push(
            operand_of(enums, es.last(), vm, nl + exprs_temp_count(es.drop_last())))
    }
}

/// `after` is `before` followed by the declaration of the fresh list
/// temporary `t` and the assignment to it of the list of `ops`.
pub open spec fn list_assigned(before: Seq<MirStmt>, after: Seq<MirStmt>, t: LocalId, ops: Seq<MirOperand>) -> bool {
    &&& after.len() == before.len() + 2
    &&& after.take(before.len() as int) == before
    &&& after[before.len() as int].kind matches MirStmtKind::LocalDecl { local, ty: t2, mutable }
        && local == t && model_of(t2) == model_of(HirType::List(Box::new(HirType::I64))) && !mutable
    &&& after[before.len() as int + 1].kind matches MirStmtKind::Assign { local, rvalue }
        && local == t && (rvalue matches MirRvalue::ListLiteral { elements } && elements@ == ops)
}

/// Lowering the straight expressions `es` in order turns `before` into
/// `after`, each expression seeing the locals the ones before it declared.
pub open spec fn exprs_emits(
    enums: Seq<EnumDef>,
    es: Seq<HirExpr>,
    vm: Seq<(SymbolId, LocalId)>,
    before: Seq<MirStmt>,
    after: Seq<MirStmt>,
    nl: int,
) -> bool
    decreases es,
{
    &&& after.len() == before.len() + exprs_emit_count(es)
    &&& after.take(before.len() as int) == before
    &&& es.len() > 0 ==> {
        let mid = after.take(after.len() - emit_count(es.last()));
        &&& exprs_emits(enums, es.drop_last(), vm, before, mid, nl)
        &&& emits(enums, es.last(), vm, mid, after, nl + exprs_temp_count(es.drop_last()))
    }
}

/// Lowering the straight expression `e`, with the variables bound as in
/// `vm` and `nl` locals declared, turns the statements `before` of the
/// block being built into `after`: nothing for a literal or a variable;
/// for an operation or a list literal, the statements of its parts,
/// lowered left to right, and then the declaration of a fresh temporary and
/// the assignment to it of the operation on (or the list of) the operands
/// of the parts.
pub open spec fn emits(
    enums: Seq<EnumDef>,
    e: HirExpr,
    vm: Seq<(SymbolId, LocalId)>,
    before: Seq<MirStmt>,
    after: Seq<MirStmt>,
    nl: int,
) -> bool
    decreases e,
{
    let b = before.len() as int;
    &&& after.len() == before.len() + emit_count(e)
    &&& after.take(b) == before
    &&& match e.kind {
        HirExprKind::StrLit(sym) => temp_assigned(before, after, local_at(nl), HirType::Str, MirRvalue::StrLit(sym)),
        HirExprKind::Variable { symbol } => latest_binding(vm, symbol) is Some,
        HirExprKind::EnumConstructor { name, variant } => exists|p: int| first_position(enum_variants(enums, name), variant, p),
        HirExprKind::Assign { symbol, value } => {
            &&& latest_binding(vm, symbol) is Some
            &&& emits(enums, *value, vm, before, after.drop_last(), nl)
            &&& after.last() == MirStmt { kind: MirStmtKind::Assign {
                local: latest_binding(vm, symbol)->Some_0, rvalue: MirRvalue::Use(operand_of(enums, *value, vm, nl)) } }
        },
        HirExprKind::AugAssign { symbol, op, value } => {
            let t = latest_binding(vm, symbol)->Some_0;
            &&& latest_binding(vm, symbol) is Some
            &&& emits(enums, *value, vm, before, after.drop_last(), nl)
            &&& after.last() == MirStmt { kind: MirStmtKind::Assign { local: t, rvalue: MirRvalue::Binary {
                op: augop_of(op), lhs: MirOperand::Local(t), rhs: operand_of(enums, *value, vm, nl) } } }
        },
        HirExprKind::Binary { op, lhs, rhs } => {
            let m1 = after.take(b + emit_count(*lhs));
            let m2 = after.take(b + emit_count(*lhs) + emit_count(*rhs));
            let n1 = nl + temp_count(*lhs);
            &&& emits(enums, *lhs, vm, before, m1, nl)
            &&& emits(enums, *rhs, vm, m1, m2, n1)
            &&& temp_assigned(m2, after, local_at(n1 + temp_count(*rhs)), e.ty, MirRvalue::Binary {
                op: binop_of(op), lhs: operand_of(enums, *lhs, vm, nl), rhs: operand_of(enums, *rhs, vm, n1) })
        },
        HirExprKind::Unary { op, expr: inner } => {
            let m1 = after.take(b + emit_count(*inner));
            &&& emits(enums, *inner, vm, before, m1, nl)
            &&& temp_assigned(m1, after, local_at(nl + temp_count(*inner)), e.ty, MirRvalue::Unary {
                op: unop_of(op), operand: operand_of(enums, *inner, vm, nl) })
        },
        HirExprKind::Range { start, .. } => emits(enums, *start, vm, before, after, nl),
        HirExprKind::FieldAccess { expr: inner, field } => {
            let m1 = after.take(b + emit_count(*inner));
            let m2 = after.take(b + emit_count(*inner) + 2);
            let t1 = local_at(nl + temp_count(*inner));
            &&& emits(enums, *inner, vm, before, m1, nl)
            &&& temp_assigned(m1, m2, t1, inner.ty, MirRvalue::Use(operand_of(enums, *inner, vm, nl)))
            &&& temp_assigned(m2, after, local_at(nl + temp_count(*inner) + 1), e.ty, MirRvalue::FieldAccess { local: t1, field })
        },
        HirExprKind::Length { expr: inner } => {
            let m1 = after.take(b + emit_count(*inner));
            let m2 = after.take(b + emit_count(*inner) + 2);
            let t1 = local_at(nl + temp_count(*inner));
            &&& emits(enums, *inner, vm, before, m1, nl)
            &&& temp_assigned(m1, m2, t1, inner.ty, MirRvalue::Use(operand_of(enums, *inner, vm, nl)))
            &&& temp_assigned(m2, after, local_at(nl + temp_count(*inner) + 1), e.ty, MirRvalue::Length { list_local: t1 })
        },
        HirExprKind::Index { list, index } => {
            let m1 = after.take(b + emit_count(*list));
            let m2 = after.take(b + emit_count(*list) + 2);
            let m3 = after.take(b + emit_count(*list) + 2 + emit_count(*index));
            let t1 = local_at(nl + temp_count(*list));
            let n2 = nl + temp_count(*list) + 1;
            &&& emits(enums, *list, vm, before, m1, nl)
            &&& temp_assigned(m1, m2, t1, list.ty, MirRvalue::Use(operand_of(enums, *list, vm, nl)))
            &&& emits(enums, *index, vm, m2, m3, n2)
            &&& temp_assigned(m3, after, local_at(n2 + temp_count(*index)), e.ty, MirRvalue::Index {
                list_local: t1, index: operand_of(enums, *index, vm, n2) })
        },
        HirExprKind::ListLiteral { elements } => {
            let m1 = after.take(b + exprs_emit_count(elements@));
            &&& exprs_emits(enums, elements@, vm, before, m1, nl)
            &&& list_assigned(m1, after, local_at(nl + exprs_temp_count(elements@)), operands_of(enums, elements@, vm, nl))
        },
        _ => true,
    }
}

/// A `SwitchInt` on a boolean that goes to block `on_true` on 1 and to
/// block `on_false` on anything else.
pub open spec fn branches_on(t: MirTerminator, on_true: int, on_false: int) -> bool {
    t matches MirTerminator::SwitchInt { ty, branches, else_target, .. }
        && ty == HirType::Bool && branches@ == seq![(1u64, BlockId(on_true as u32))]
        && else_target == BlockId(on_false as u32)
}

/// The branch targets of the `k`-th test of an `if` whose blocks start at
/// `l`: the main condition goes to the then block `l`, the `j`-th `elif`
/// (k = j + 1) to its body block `l + 3 + 2j`; a false test goes to the
/// next `elif` condition block, or to the `else` block `l + 2 + 2n`.
pub open spec fn if_true(l: int, k: int) -> int {
    if k == 0 { l } else { l + 1 + 2 * k }
}

pub open spec fn if_false(l: int, n: int, k: int) -> int {
    if k < n { l + 2 + 2 * k } else { l + 2 + 2 * n }
}

/// The statements of arm `a` of an `if`: the `then` branch for 0, the
/// `j`-th `elif` body for `j + 1`.
pub open spec fn if_arm(then_branch: Seq<HirStmt>, elifs: Seq<(HirExpr, Vec<HirStmt>)>, a: int) -> Seq<HirStmt> {
    if a == 0 { then_branch } else { elifs[a - 1].1@ }
}

/// Blocks that are settled: each exists, is terminated, is not the block
/// being built, and is as recorded.
pub open spec fn frozen(bs: Seq<MirBasicBlock>, cur: int, fz: Seq<(int, MirBasicBlock)>) -> bool {
    forall|k: int| 0 <= k < fz.len() ==> {
        let i = (#[trigger] fz[k]).0;
        &&& 0 <= i < bs.len()
        &&& i != cur
        &&& bs[i] == fz[k].1
        &&& closed(bs[i])
    }
}

proof fn lemma_frozen_stable(a: Seq<MirBasicBlock>, ac: int, b: Seq<MirBasicBlock>, bc: int, fz: Seq<(int, MirBasicBlock)>)
    requires
        frozen(a, ac, fz),
        stable(a, ac, b, bc),
    ensures
        frozen(b, bc, fz),
{
    assert forall|k: int| 0 <= k < fz.len() implies {
        let i = (#[trigger] fz[k]).0;
        &&& 0 <= i < b.len()
        &&& i != bc
        &&& b[i] == fz[k].1
        &&& closed(b[i])
    } by {
        let i = fz[k].0;
        assert(b[i] == a[i]);
    }
}

proof fn lemma_frozen_switch(a: Seq<MirBasicBlock>, ac: int, bc: int, fz: Seq<(int, MirBasicBlock)>)
    requires
        frozen(a, ac, fz),
        0 <= bc < a.len(),
        !closed(a[bc]),
    ensures
        frozen(a, bc, fz),
{
    assert forall|k: int| 0 <= k < fz.len() implies {
        let i = (#[trigger] fz[k]).0;
        &&& 0 <= i < a.len()
        &&& i != bc
        &&& a[i] == fz[k].1
        &&& closed(a[i])
    } by {
    }
}

proof fn lemma_frozen_push(a: Seq<MirBasicBlock>, ac: int, fz: Seq<(int, MirBasicBlock)>, i: int)
    requires
        frozen(a, ac, fz),
        0 <= i < a.len(),
        i != ac,
        closed(a[i]),
    ensures
        frozen(a, ac, fz.push((i, a[i]))),
{
    assert forall|k: int| 0 <= k < fz.push((i, a[i])).len() implies {
        let j = (#[trigger] fz.push((i, a[i]))[k]).0;
        &&& 0 <= j < a.len()
        &&& j != ac
        &&& a[j] == fz.push((i, a[i]))[k].1
        &&& closed(a[j])
    } by {
        if k < fz.len() {
            assert(fz.push((i, a[i]))[k] == fz[k]);
        }
    }
}

/// Some block of `bs` ends in a boolean `SwitchInt` to `on_true` on 1 and
/// to `on_false` otherwise.
/// The number of locals declared before the test of the `j`-th `elif` of
/// an `if` lowered from `nl` locals on: those of the condition, of the
/// `then` arm, and of the `elif` arms before it.
pub open spec fn elif_test_nl(nl: int, cond: HirExpr, then: Seq<HirStmt>, elifs: Seq<(HirExpr, Vec<HirStmt>)>, j: int) -> int {
    nl + locals_used(cond) + stmts_locals(then) + elifs_locals(elifs.take(j))
}

/// The switch `t` tests the value of the expression `e` lowered with `nl`
/// locals declared before it, under some bindings of the variables.
pub open spec fn tests_value_of(t: MirTerminator, enums: Seq<EnumDef>, e: HirExpr, nl: int) -> bool {
    exists|vm: Seq<(SymbolId, LocalId)>| #[trigger] result_operand(enums, e, vm, nl) == t->SwitchInt_scrutinee
}

/// Some block of `bs` ends in the switch to `on_true` and `on_false` on the
/// value of `e`, lowered with `nl` locals declared before it.
/// The statements `st` of a block that started empty are the lowering of
/// the straight statements `ss` from `nl` locals on, under some bindings of
/// the variables.
pub open spec fn holds_lowering(st: Seq<MirStmt>, enums: Seq<EnumDef>, ss: Seq<HirStmt>, nl: int) -> bool {
    exists|vm: Seq<(SymbolId, LocalId)>| #[trigger] stmts_emit(enums, ss, vm, nl, Seq::empty(), st)
}

/// The number of locals declared before the `k`-th arm of an `if` lowered
/// from `nl` locals on: the `then` arm comes after the condition, and each
/// `elif` arm after its own test.
pub open spec fn arm_nl(nl: int, cond: HirExpr, then: Seq<HirStmt>, elifs: Seq<(HirExpr, Vec<HirStmt>)>, k: int) -> int {
    if k == 0 {
        nl + locals_used(cond)
    } else {
        elif_test_nl(nl, cond, then, elifs, k - 1) + locals_used(elifs[k - 1].0)
    }
}

pub open spec fn has_test(bs: Seq<MirBasicBlock>, on_true: int, on_false: int, enums: Seq<EnumDef>, e: HirExpr, nl: int) -> bool {
    exists|c: int| 0 <= c < bs.len() && #[trigger] branches_on(bs[c].terminator, on_true, on_false)
        && tests_value_of(bs[c].terminator, enums, e, nl)
}

/// `t` calls `f` on `args`, puts the result in `dest` and goes on to block
/// `next`.
pub open spec fn calls_on(t: MirTerminator, f: DefId, args: Seq<MirOperand>, dest: LocalId, next: int) -> bool {
    t matches MirTerminator::Call { func, args: a, destination, next: n }
        && func == f && a@ == args && destination == dest && n.0 == next
}

pub open spec fn has_switch(bs: Seq<MirBasicBlock>, on_true: int, on_false: int) -> bool {
    exists|c: int| 0 <= c < bs.len() && #[trigger] branches_on(bs[c].terminator, on_true, on_false)
}

/// The call of `func` on the straight arguments `args`, lowered with the
/// bindings `vm` and `nl` locals declared, ends block `cur` of `bs`: it
/// calls `func` on the arguments' operands, the result goes to the fresh
/// temporary that `op` names, and control goes on to the new block `nb`.
pub open spec fn call_lowered(
    enums: Seq<EnumDef>,
    func: DefId,
    args: Seq<HirExpr>,
    vm: Seq<(SymbolId, LocalId)>,
    nl: int,
    nb: int,
    cur: int,
    bs: Seq<MirBasicBlock>,
    op: MirOperand,
) -> bool {
    bs[cur].terminator matches MirTerminator::Call { func: f, args: a, destination, next }
        && f == func && a@ == operands_of(enums, args, vm, nl) && destination == local_at(nl + exprs_temp_count(args))
        && next == BlockId(nb as u32) && op == MirOperand::Local(destination)
}

/// A jump to block `target`.
pub open spec fn goes_to(t: MirTerminator, target: int) -> bool {
    t == MirTerminator::Goto { target: BlockId(target as u32) }
}

/// The blocks of a `for` loop whose condition block is `l`: the condition
/// block compares the loop variable with the end bound (`<=` for an
/// inclusive range, `<` otherwise) into a temporary and branches on it to
/// the body block `l + 1` or the exit block `l + 2`; a straight body ends by
/// adding 1 to the loop variable and jumping back to the condition.
pub open spec fn for_lowered(bs: Seq<MirBasicBlock>, l: int, inclusive: bool, body: Seq<HirStmt>) -> bool {
    let cond = bs[l];
    &&& 0 <= l && l + 2 < bs.len()
    &&& cond.stmts@.len() == 2
    &&& branches_on(cond.terminator, l + 1, l + 2)
    &&& cond.stmts@[1].kind matches MirStmtKind::Assign { local, rvalue }
        && cond.terminator->SwitchInt_scrutinee == MirOperand::Local(local)
        && (rvalue matches MirRvalue::Binary { op, lhs, rhs }
        && op == (if inclusive { MirBinOp::Le } else { MirBinOp::Lt }) && lhs is Local && rhs is Local
        && (straight_stmts(body) ==> {
            &&& goes_to(bs[l + 1].terminator, l)
            &&& bs[l + 1].stmts@.len() > 0
            &&& bs[l + 1].stmts@.last() == MirStmt { kind: MirStmtKind::Assign { local: lhs->Local_0, rvalue: MirRvalue::Binary {
                op: MirBinOp::Add, lhs, rhs: MirOperand::Const(MirConst::I64(1)) } } }
        }))
}

/// The test of a lowered `for` loop compares the loop variable with the
/// end value as the range means: while `x <= e` for an inclusive range
/// (`a...e`) and while `x < e` for an exclusive one (`a..e`).
pub proof fn law_for_loop_test(bs: Seq<MirBasicBlock>, l: int, inclusive: bool, body: Seq<HirStmt>, x: i64, e: i64)
    requires
        for_lowered(bs, l, inclusive, body),
    ensures
        bs[l].stmts@[1].kind matches MirStmtKind::Assign { rvalue: MirRvalue::Binary { op, .. }, .. }
            && crate::mir::opt::fold_i64_spec(op, x, e) == Some(MirConst::Bool(if inclusive { x <= e } else { x < e })),
{
}

/// Statements whose lowering stays in the block being built.
pub open spec fn straight_stmts(ss: Seq<HirStmt>) -> bool {
    forall|k: int| 0 <= k < ss.len() ==> straight_stmt(#[trigger] ss[k])
}

/// A statement whose lowering stays in the block being built: a `let` or
/// an expression statement with a straight expression.
pub open spec fn straight_stmt(s: HirStmt) -> bool {
    match s.kind {
        HirStmtKind::Let { value, .. } => straight(value),
        HirStmtKind::Expr(e) => straight(e),
        _ => false,
    }
}

/// The type a `let` declares its local with: the annotation, else the
/// value's type.
pub open spec fn let_type(ty: Option<HirType>, value: HirExpr) -> HirType {
    match ty {
        Some(t) => t,
        None => value.ty,
    }
}

/// How many statements lowering the straight statement `s` appends.
pub open spec fn stmt_count(s: HirStmt) -> nat {
    match s.kind {
        HirStmtKind::Let { value, .. } => emit_count(value) + 2,
        HirStmtKind::Expr(e) => emit_count(e),
        _ => 0,
    }
}

/// How many locals lowering the straight statement `s` declares.
pub open spec fn stmt_temps(s: HirStmt) -> nat {
    match s.kind {
        HirStmtKind::Let { value, .. } => temp_count(value) + 1,
        HirStmtKind::Expr(e) => temp_count(e),
        _ => 0,
    }
}

/// The variable bindings after the straight statement `s`: a `let` binds
/// its name to the local it declares, numbered `nl`.
pub open spec fn stmt_vm(s: HirStmt, vm: Seq<(SymbolId, LocalId)>, nl: int) -> Seq<(SymbolId, LocalId)> {
    match s.kind {
        HirStmtKind::Let { name, .. } => vm.push((name, local_at(nl))),
        _ => vm,
    }
}

/// Lowering the straight statement `s` turns the statements `before` into
/// `after`.  A `let` declares its local first (numbered `nl`), lowers its
/// value, then appends the declaration of the local with the declared type
/// and mutability and the assignment of the value's operand to it; an
/// expression statement appends what its expression does.
pub open spec fn stmt_emits(
    enums: Seq<EnumDef>,
    s: HirStmt,
    vm: Seq<(SymbolId, LocalId)>,
    nl: int,
    before: Seq<MirStmt>,
    after: Seq<MirStmt>,
) -> bool {
    match s.kind {
        HirStmtKind::Let { name, mutable, ty, value } => {
            let k = (before.len() + emit_count(value)) as int;
            let m1 = after.take(k);
            &&& after.len() == k + 2
            &&& emits(enums, value, vm, before, m1, nl + 1)
            &&& after[k].kind matches MirStmtKind::LocalDecl { local, ty: t, mutable: mm }
                && local == local_at(nl) && mm == mutable && model_of(t) == model_of(let_type(ty, value))
            &&& after[k + 1] == MirStmt { kind: MirStmtKind::Assign {
                local: local_at(nl), rvalue: MirRvalue::Use(operand_of(enums, value, vm, nl + 1)) } }
        },
        HirStmtKind::Expr(e) => emits(enums, e, vm, before, after, nl),
        _ => false,
    }
}

/// The bindings after the straight statements `ss`.
pub open spec fn stmts_vm(ss: Seq<HirStmt>, vm: Seq<(SymbolId, LocalId)>, nl: int) -> Seq<(SymbolId, LocalId)>
    decreases ss.len(),
{
    if ss.len() == 0 {
        vm
    } else {
        stmt_vm(ss.last(), stmts_vm(ss.drop_last(), vm, nl), stmts_nl(ss.drop_last(), nl))
    }
}

/// The number of locals after the straight statements `ss`.
pub open spec fn stmts_nl(ss: Seq<HirStmt>, nl: int) -> int
    decreases ss.len(),
{
    if ss.len() == 0 {
        nl
    } else {
        stmts_nl(ss.drop_last(), nl) + stmt_temps(ss.last())
    }
}

/// Lowering the straight statements `ss` in order turns the statements
/// `before` into `after`, each statement seeing the bindings and locals
/// that the ones before it left.
pub open spec fn stmts_emit(
    enums: Seq<EnumDef>,
    ss: Seq<HirStmt>,
    vm: Seq<(SymbolId, LocalId)>,
    nl: int,
    before: Seq<MirStmt>,
    after: Seq<MirStmt>,
) -> bool
    decreases ss.len(),
{
    if ss.len() == 0 {
        after == before
    } else {
        let init = ss.drop_last();
        let mid = after.take(after.len() - stmt_count(ss.last()));
        &&& after.len() >= stmt_count(ss.last())
        &&& stmts_emit(enums, init, vm, nl, before, mid)
        &&& stmt_emits(enums, ss.last(), stmts_vm(init, vm, nl), stmts_nl(init, nl), mid, after)
    }
}

/// Lowering a straight statement appends exactly its statements.
proof fn lemma_stmt_emits_shape(
    enums: Seq<EnumDef>,
    s: HirStmt,
    vm: Seq<(SymbolId, LocalId)>,
    nl: int,
    before: Seq<MirStmt>,
    after: Seq<MirStmt>,
)
    requires
        stmt_emits(enums, s, vm, nl, before, after),
    ensures
        after.len() == before.len() + stmt_count(s),
        after.take(before.len() as int) == before,
{
    match s.kind {
        HirStmtKind::Let { value, .. } => {
            let k = (before.len() + emit_count(value)) as int;
            let m1 = after.take(k);
            assert(m1.take(before.len() as int) == before);
            assert(after.take(before.len() as int) =~= m1.take(before.len() as int));
        },
        _ => {},
    }
}

/// The value a final statement returns: the expression of an expression
/// statement or of a `return` with a value.
pub open spec fn returned_expr(s: HirStmt) -> Option<HirExpr> {
    match s.kind {
        HirStmtKind::Expr(e) => Some(e),
        HirStmtKind::Return(Some(e)) => Some(e),
        _ => None,
    }
}

/// A body of straight statements that ends in a straight expression, or
/// in a `return` of one.
pub open spec fn straight_body(body: Seq<HirStmt>) -> bool {
    &&& body.len() > 0
    &&& forall|i: int| 0 <= i < body.len() - 1 ==> straight_stmt(#[trigger] body[i])
    &&& returned_expr(body.last()) matches Some(e) && straight(e)
}

/// The bindings of a function's parameters to the first locals, in order.
pub open spec fn param_bindings(params: Seq<(SymbolId, HirType)>) -> Seq<(SymbolId, LocalId)> {
    Seq::new(params.len(), |k: int| (params[k].0, local_at(k)))
}

/// A function whose body is straight lowers to its entry block alone: the
/// statements of its body, in order, and a return of the operand of the
/// expression the body ends with or returns.
pub open spec fn straight_lowered(enums: Seq<EnumDef>, f: HirFunction, mf: MirFunction) -> bool {
    let body = f.body@;
    let init = body.drop_last();
    let vm0 = param_bindings(f.params@);
    let np = f.params@.len() as int;
    &&& mf.blocks@.len() == 1
    &&& mf.blocks@[0].name@ == "entry"@
    &&& stmts_emit(enums, init, vm0, np, Seq::empty(),
        mf.blocks@[0].stmts@.take(mf.blocks@[0].stmts@.len() - emit_count(returned_expr(body.last())->Some_0)))
    &&& returned_expr(body.last()) matches Some(e)
        && emits(enums, e, stmts_vm(init, vm0, np), mf.blocks@[0].stmts@.take(mf.blocks@[0].stmts@.len() - emit_count(e)),
            mf.blocks@[0].stmts@, stmts_nl(init, np))
        && mf.blocks@[0].terminator == MirTerminator::Return(Some(operand_of(enums, e, stmts_vm(init, vm0, np), stmts_nl(init, np))))
}

// ---------------------------------------------------------------------------
// Size bounds
// ---------------------------------------------------------------------------

/// An upper bound on the locals, and on the blocks, that lowering an
/// expression creates.
pub open spec fn expr_cost(e: HirExpr) -> nat
    decreases e,
{
    match e.kind {
        HirExprKind::StrLit(_) => 1,
        HirExprKind::Assign { value, .. } => expr_cost(*value),
        HirExprKind::AugAssign { value, .. } => expr_cost(*value),
        HirExprKind::Binary { lhs, rhs, .. } => 1 + expr_cost(*lhs) + expr_cost(*rhs),
        HirExprKind::Unary { expr, .. } => 1 + expr_cost(*expr),
        HirExprKind::Call { args, .. } => 2 + exprs_cost(args@),
        HirExprKind::If { condition, then_branch, elif_branches, else_branch } => 3 + 2 * elif_branches@.len()
            + expr_cost(*condition) + stmts_cost(then_branch@) + elifs_cost(elif_branches@) + match else_branch {
            Some(b) => stmts_cost(b@),
            None => 0,
        },
        HirExprKind::For { iter, body, .. } => match iter.kind {
            HirExprKind::Range { start, end, .. } => 4 + expr_cost(*start) + expr_cost(*end) + stmts_cost(body@),
            _ => 0,
        },
        HirExprKind::While { condition, body } => 3 + expr_cost(*condition) + stmts_cost(body@),
        HirExprKind::Range { start, .. } => expr_cost(*start),
        HirExprKind::StructLiteral { fields, .. } => 1 + fields_cost(fields@),
        HirExprKind::FieldAccess { expr, .. } => 2 + expr_cost(*expr),
        HirExprKind::ListLiteral { elements } => 1 + exprs_cost(elements@),
        HirExprKind::Index { list, index } => 2 + expr_cost(*list) + expr_cost(*index),
        HirExprKind::Length { expr } => 2 + expr_cost(*expr),
        _ => 0,
    }
}

pub open spec fn exprs_cost(es: Seq<HirExpr>) -> nat
    decreases es,
{
    if es.len() == 0 {
        0
    } else {
        exprs_cost(es.drop_last()) + expr_cost(es.last())
    }
}

pub open spec fn fields_cost(fs: Seq<(SymbolId, Box<HirExpr>)>) -> nat
    decreases fs,
{
    if fs.len() == 0 {
        0
    } else {
        fields_cost(fs.drop_last()) + expr_cost(*fs.last().1)
    }
}

pub open spec fn elifs_cost(arms: Seq<(HirExpr, Vec<HirStmt>)>) -> nat
    decreases arms,
{
    if arms.len() == 0 {
        0
    } else {
        elifs_cost(arms.drop_last()) + expr_cost(arms.last().0) + stmts_cost(arms.last().1@)
    }
}

pub open spec fn stmt_cost(s: HirStmt) -> nat
    decreases s,
{
    match s.kind {
        HirStmtKind::Let { value, .. } => 1 + expr_cost(value),
        HirStmtKind::Expr(e) => expr_cost(e),
        HirStmtKind::Return(Some(e)) => expr_cost(e),
        HirStmtKind::Println(e) => 2 + expr_cost(e),
        HirStmtKind::PrintlnStr(e) => 2 + expr_cost(e),
        HirStmtKind::Raise(e) => 2 + expr_cost(e),
        _ => 0,
    }
}

pub open spec fn stmts_cost(ss: Seq<HirStmt>) -> nat
    decreases ss,
{
    if ss.len() == 0 {
        0
    } else {
        stmts_cost(ss.drop_last()) + stmt_cost(ss.last())
    }
}

/// How many locals lowering `e` declares, whatever its form: a temporary
/// for each operation, string, list, struct and call result; for a `for`
/// loop the start and end values, the loop variable and the test; nothing
/// of its own for a literal, a variable, an enum constructor, a `while`
/// or an `if`; and what its parts declare, in the order they are lowered.
pub open spec fn locals_used(e: HirExpr) -> nat
    decreases e,
{
    match e.kind {
        HirExprKind::StrLit(_) => 1,
        HirExprKind::Assign { value, .. } => locals_used(*value),
        HirExprKind::AugAssign { value, .. } => locals_used(*value),
        HirExprKind::Binary { lhs, rhs, .. } => locals_used(*lhs) + locals_used(*rhs) + 1,
        HirExprKind::Unary { expr, .. } => locals_used(*expr) + 1,
        HirExprKind::Call { args, .. } => exprs_locals(args@) + 1,
        HirExprKind::If { condition, then_branch, elif_branches, else_branch } => locals_used(*condition)
            + stmts_locals(then_branch@) + elifs_locals(elif_branches@) + match else_branch {
            Some(b) => stmts_locals(b@),
            None => 0,
        },
        HirExprKind::For { iter, body, .. } => match iter.kind {
            HirExprKind::Range { start, end, .. } => locals_used(*start) + locals_used(*end) + 4 + stmts_locals(body@),
            _ => 0,
        },
        HirExprKind::While { condition, body } => locals_used(*condition) + stmts_locals(body@),
        HirExprKind::Range { start, .. } => locals_used(*start),
        HirExprKind::StructLiteral { fields, .. } => fields_locals(fields@) + 1,
        HirExprKind::FieldAccess { expr, .. } => locals_used(*expr) + 2,
        HirExprKind::ListLiteral { elements } => exprs_locals(elements@) + 1,
        HirExprKind::Index { list, index } => locals_used(*list) + locals_used(*index) + 2,
        HirExprKind::Length { expr } => locals_used(*expr) + 2,
        _ => 0,
    }
}

pub open spec fn exprs_locals(es: Seq<HirExpr>) -> nat
    decreases es,
{
    if es.len() == 0 {
        0
    } else {
        exprs_locals(es.drop_last()) + locals_used(es.last())
    }
}

pub open spec fn fields_locals(fs: Seq<(SymbolId, Box<HirExpr>)>) -> nat
    decreases fs,
{
    if fs.len() == 0 {
        0
    } else {
        fields_locals(fs.drop_last()) + locals_used(*fs.last().1)
    }
}

pub open spec fn elifs_locals(arms: Seq<(HirExpr, Vec<HirStmt>)>) -> nat
    decreases arms,
{
    if arms.len() == 0 {
        0
    } else {
        elifs_locals(arms.drop_last()) + locals_used(arms.last().0) + stmts_locals(arms.last().1@)
    }
}

/// How many locals lowering the statement `s` declares: a `let` adds its
/// variable, and a print or a raise the result of its call.
pub open spec fn stmt_locals(s: HirStmt) -> nat
    decreases s,
{
    match s.kind {
        HirStmtKind::Let { value, .. } => locals_used(value) + 1,
        HirStmtKind::Expr(e) => locals_used(e),
        HirStmtKind::Return(Some(e)) => locals_used(e),
        HirStmtKind::Println(e) => locals_used(e) + 1,
        HirStmtKind::PrintlnStr(e) => locals_used(e) + 1,
        HirStmtKind::Raise(e) => locals_used(e) + 1,
        _ => 0,
    }
}

pub open spec fn stmts_locals(ss: Seq<HirStmt>) -> nat
    decreases ss,
{
    if ss.len() == 0 {
        0
    } else {
        stmts_locals(ss.drop_last()) + stmt_locals(ss.last())
    }
}

/// The operand that holds the value of the expression `e`, whatever its
/// form, lowered with the bindings `vm` and `nl` locals declared before
/// it: literals and enum constructors are constants, a variable or an
/// assignment is the variable's local, a range is its start, a loop or an
/// `if` is the unit constant, and anything else is the last local its
/// lowering declares (the result of its operation or call).
pub open spec fn result_operand(enums: Seq<EnumDef>, e: HirExpr, vm: Seq<(SymbolId, LocalId)>, nl: int) -> MirOperand
    decreases e,
{
    match e.kind {
        HirExprKind::Integer(n) => MirOperand::Const(MirConst::I64(n)),
        HirExprKind::Float(f) => MirOperand::Const(MirConst::F64(f)),
        HirExprKind::Bool(b) => MirOperand::Const(MirConst::Bool(b)),
        HirExprKind::Unit => MirOperand::Const(MirConst::I64(0)),
        HirExprKind::Variable { symbol } => MirOperand::Local(latest_binding(vm, symbol)->Some_0),
        HirExprKind::Assign { symbol, .. } => MirOperand::Local(latest_binding(vm, symbol)->Some_0),
        HirExprKind::AugAssign { symbol, .. } => MirOperand::Local(latest_binding(vm, symbol)->Some_0),
        HirExprKind::EnumConstructor { name, variant } =>
            MirOperand::Const(MirConst::I64(variant_position(enums, name, variant) as i64)),
        HirExprKind::Range { start, .. } => result_operand(enums, *start, vm, nl),
        HirExprKind::If { .. } | HirExprKind::While { .. } | HirExprKind::For { .. } => MirOperand::Const(MirConst::I64(0)),
        _ => MirOperand::Local(local_at(nl + locals_used(e) - 1)),
    }
}

/// An upper bound on the locals and blocks of a lowered function.
pub open spec fn function_cost(f: HirFunction) -> nat {
    1 + f.params@.len() + stmts_cost(f.body@)
}

// ---------------------------------------------------------------------------
// The builder and its invariant
// ---------------------------------------------------------------------------

/// Whether every block a terminator names is below `n`.
pub open spec fn targets_below(t: MirTerminator, n: int) -> bool {
    match t {
        MirTerminator::Goto { target } => target.0 < n,
        MirTerminator::SwitchInt { branches, else_target, .. } => else_target.0 < n
            && forall|j: int| 0 <= j < branches@.len() ==> (#[trigger] branches@[j]).1.0 < n,
        MirTerminator::Call { next, .. } => next.0 < n,
        _ => true,
    }
}

/// A `SwitchInt` is the test of a condition: on a boolean, with the one
/// branch for 1 (true) and the `else` target for anything else.
pub open spec fn tests_true(t: MirTerminator) -> bool {
    t matches MirTerminator::SwitchInt { ty, branches, .. } ==> ty == HirType::Bool && branches@.len() == 1
        && branches@[0].0 == 1
}

/// Every switch of the function is the test of a condition.
pub open spec fn switches_test_true(f: MirFunction) -> bool {
    forall|b: int| 0 <= b < f.blocks@.len() ==> tests_true(#[trigger] f.blocks@[b].terminator)
}

/// Whether every local the operands name is below `n`.
pub open spec fn operands_below(ops: Seq<MirOperand>, n: int) -> bool {
    forall|j: int| 0 <= j < ops.len() ==> (#[trigger] ops[j] matches MirOperand::Local(l) ==> l.0 < n)
}

pub open spec fn operand_below(op: MirOperand, n: int) -> bool {
    op matches MirOperand::Local(l) ==> l.0 < n
}

/// Block `i` of a function with `nb` blocks and `nl` locals is well formed:
/// numbered by its position, naming only existing blocks and locals.
pub open spec fn block_ok(b: MirBasicBlock, i: int, nb: int, nl: int) -> bool {
    &&& b.id == BlockId(i as u32)
    &&& targets_below(b.terminator, nb)
    &&& tests_true(b.terminator)
    &&& forall|k: int| 0 <= k < b.stmts@.len() ==> operands_below(stmt_operands_spec(#[trigger] b.stmts@[k]), nl)
}

pub open spec fn closed(b: MirBasicBlock) -> bool {
    !(b.terminator is Unreachable)
}

/// How the blocks may change while one construct is lowered: blocks that
/// existed stay as they were, but for the block being built; every new
/// block has its terminator, but for the one now being built; if building
/// moved on, the old block was terminated; and a terminated block stays so.
pub open spec fn stable(ob: Seq<MirBasicBlock>, oc: int, nb: Seq<MirBasicBlock>, nc: int) -> bool {
    &&& nb.len() >= ob.len()
    &&& 0 <= oc < ob.len()
    &&& forall|i: int| 0 <= i < ob.len() && i != oc ==> #[trigger] nb[i] == ob[i]
    &&& forall|i: int| ob.len() <= i < nb.len() && i != nc ==> closed(#[trigger] nb[i])
    &&& (nc == oc || (nc >= ob.len() && closed(nb[oc])))
    &&& (closed(ob[oc]) ==> closed(nb[oc]))
}

proof fn lemma_stable_trans(
    a: Seq<MirBasicBlock>,
    ac: int,
    b: Seq<MirBasicBlock>,
    bc: int,
    c: Seq<MirBasicBlock>,
    cc: int,
)
    requires
        stable(a, ac, b, bc),
        stable(b, bc, c, cc),
    ensures
        stable(a, ac, c, cc),
{
    assert forall|i: int| 0 <= i < a.len() && i != ac implies #[trigger] c[i] == a[i] by {
        assert(b[i] == a[i]);
        assert(i != bc);
        assert(c[i] == b[i]);
    }
    assert forall|i: int| a.len() <= i < c.len() && i != cc implies closed(#[trigger] c[i]) by {
        if i < b.len() {
            if i == bc {
            } else {
                assert(c[i] == b[i]);
                assert(closed(b[i]));
            }
        }
    }
    if bc != ac {
        assert(c[ac] == b[ac]);
    }
}

proof fn lemma_stable_refl(a: Seq<MirBasicBlock>, ac: int)
    requires
        0 <= ac < a.len(),
    ensures
        stable(a, ac, a, ac),
{
}

/// Per-function lowering state: the blocks and locals built so far, the
/// block being built, and the local each variable currently names.
pub struct MirLower<'hir> {
    hir: &'hir HirProgram,
    func: &'hir HirFunction,
    sigs: &'hir [(DefId, HirType)],
    blocks: Vec<MirBasicBlock>,
    current: usize,
    locals: Vec<MirLocal>,
    var_map: Vec<(SymbolId, LocalId)>,
    temp_symbol: SymbolId,
}

impl<'hir> MirLower<'hir> {
    /// After a `while` lowered from the state `s`: three new blocks, the
    /// condition block `l`, the body `l + 1` and the exit `l + 2`, which is
    /// current; the old current block goes to `l`; a switch on true enters
    /// the body and otherwise leaves; for a straight condition that switch
    /// ends block `l` and tests the condition's operand; a straight body
    /// goes back to `l`.
    /// After a print of `e` lowered from the state `s`: some block calls the
    /// print function `f` on the value of `e`, its result going to the next
    /// fresh local, and goes on to the block now being built.
    spec fn printed(self, s: Self, f: DefId, e: HirExpr) -> bool {
        exists|c: int| 0 <= c < self.blocks@.len() && #[trigger] calls_on(self.blocks@[c].terminator, f,
            seq![result_operand(s.enums(), e, s.var_map@, s.nlocals() as int)], local_at((s.nlocals() + locals_used(e)) as int),
            self.current as int)
    }

    spec fn while_shape(self, s: Self, expr: HirExpr) -> bool {
        expr.kind matches HirExprKind::While { condition, body } ==> {
            let l = s.nblocks() as int;
            let bs = self.blocks@;
            &&& self.current == l + 2
            &&& goes_to(bs[s.current as int].terminator, l)
            &&& exists|c: int| 0 <= c < bs.len() && c != l + 1 && c != l + 2 && #[trigger] branches_on(bs[c].terminator, l + 1, l + 2)
                && bs[c].terminator->SwitchInt_scrutinee == result_operand(s.enums(), *condition, s.var_map@, s.nlocals() as int)
            &&& straight(*condition) ==> branches_on(bs[l].terminator, l + 1, l + 2)
                && bs[l].terminator->SwitchInt_scrutinee == operand_of(s.enums(), *condition, s.var_map@,
                s.nlocals() as int)
            &&& straight_stmts(body@) ==> goes_to(bs[l + 1].terminator, l)
                && holds_lowering(bs[l + 1].stmts@, s.enums(), body@, (s.nlocals() + locals_used(*condition)) as int)
        }
    }

    /// After a `for` lowered from the state `s`: its iterator is a range,
    /// and the blocks from `current - 2` on are the loop (see [`for_lowered`]).
    spec fn for_shape(self, s: Self, expr: HirExpr) -> bool {
        expr.kind matches HirExprKind::For { iter, body, .. } ==> iter.kind is Range
            && self.current >= s.nblocks() + 2
            && for_lowered(self.blocks@, self.current - 2, iter.kind->Range_is_inclusive, body@)
            && (straight_stmts(body@) ==> holds_lowering(self.blocks@[self.current - 1].stmts@.drop_last(), s.enums(), body@,
                (s.nlocals() + locals_used(*iter.kind->Range_start) + locals_used(*iter.kind->Range_end) + 4) as int))
    }

    /// After an `if` lowered from the state `s`: the arm blocks and the
    /// end block `l + 1`, which is current; each condition switches on true
    /// to its arm and otherwise to the next condition or the else arm; a
    /// straight first condition ends the old current block; straight arms
    /// go to the end block.
    spec fn if_shape(self, s: Self, expr: HirExpr) -> bool {
        expr.kind matches HirExprKind::If { condition, then_branch, elif_branches, else_branch } ==> {
            let l = s.nblocks() as int;
            let n = elif_branches@.len() as int;
            let bs = self.blocks@;
            &&& self.current == l + 1
            &&& forall|k: int| 0 <= k <= n ==> #[trigger] has_switch(bs, if_true(l, k), if_false(l, n, k))
            &&& exists|c: int| 0 <= c < bs.len() && #[trigger] branches_on(bs[c].terminator, l, if_false(l, n, 0))
                && bs[c].terminator->SwitchInt_scrutinee == result_operand(s.enums(), *condition, s.var_map@, s.nlocals() as int)
            &&& forall|k: int| 1 <= k <= n ==> #[trigger] has_test(bs, if_true(l, k), if_false(l, n, k), s.enums(),
                elif_branches@[k - 1].0, elif_test_nl(s.nlocals() as int, *condition, then_branch@, elif_branches@, k - 1))
            &&& straight(*condition) ==> branches_on(bs[s.current as int].terminator, l, if_false(l, n, 0))
                && bs[s.current as int].terminator->SwitchInt_scrutinee == operand_of(s.enums(),
                *condition, s.var_map@, s.nlocals() as int)
            &&& forall|k: int| 0 <= k <= n && straight_stmts(if_arm(then_branch@, elif_branches@, k))
                ==> goes_to(bs[#[trigger] if_true(l, k)].terminator, l + 1)
            &&& (else_branch matches Some(b) ==> straight_stmts(b@)) ==> goes_to(bs[l + 2 + 2 * n].terminator, l + 1)
            &&& forall|k: int| 0 <= k <= n && straight_stmts(if_arm(then_branch@, elif_branches@, k))
                ==> holds_lowering(bs[#[trigger] if_true(l, k)].stmts@, s.enums(), if_arm(then_branch@, elif_branches@, k),
                arm_nl(s.nlocals() as int, *condition, then_branch@, elif_branches@, k))
            &&& else_branch matches Some(b) ==> (straight_stmts(b@) ==> holds_lowering(bs[l + 2 + 2 * n].stmts@, s.enums(), b@,
                elif_test_nl(s.nlocals() as int, *condition, then_branch@, elif_branches@, n)))
        }
    }
    pub closed spec fn wf(&self) -> bool {
        &&& self.current < self.blocks@.len()
        &&& self.blocks@.len() <= u32::MAX
        &&& self.locals@.len() <= u32::MAX
        &&& forall|i: int| 0 <= i < self.blocks@.len()
            ==> block_ok(#[trigger] self.blocks@[i], i, self.blocks@.len() as int, self.locals@.len() as int)
        &&& forall|i: int| 0 <= i < self.locals@.len() ==> (#[trigger] self.locals@[i]).id == LocalId(i as u32)
        &&& forall|i: int| 0 <= i < self.var_map@.len() ==> (#[trigger] self.var_map@[i]).1.0 < self.locals@.len()
    }

    /// The variables defined so far.
    pub closed spec fn defined(&self) -> Set<SymbolId> {
        Set::new(|s: SymbolId| exists|i: int| 0 <= i < self.var_map@.len() && (#[trigger] self.var_map@[i]).0 == s)
    }

    /// The same program, function and signatures.
    pub closed spec fn same_context(&self, other: &Self) -> bool {
        &&& self.hir == other.hir
        &&& self.func == other.func
        &&& self.sigs == other.sigs
        &&& self.temp_symbol == other.temp_symbol
    }

    pub closed spec fn nblocks(&self) -> nat {
        self.blocks@.len()
    }

    pub closed spec fn nlocals(&self) -> nat {
        self.locals@.len()
    }

    pub closed spec fn enums(&self) -> Seq<EnumDef> {
        self.hir.enums@
    }
}

proof fn lemma_block_ok_grow(b: MirBasicBlock, i: int, nb: int, nl: int, nb2: int, nl2: int)
    requires
        block_ok(b, i, nb, nl),
        nb <= nb2,
        nl <= nl2,
    ensures
        block_ok(b, i, nb2, nl2),
{
    match b.terminator {
        MirTerminator::SwitchInt { branches, .. } => {
            assert forall|j: int| 0 <= j < branches@.len() implies (#[trigger] branches@[j]).1.0 < nb2 by {
                assert(branches@[j].1.0 < nb);
            }
        },
        _ => {},
    }
    assert forall|k: int| 0 <= k < b.stmts@.len() implies operands_below(stmt_operands_spec(#[trigger] b.stmts@[k]), nl2) by {
        let ops = stmt_operands_spec(b.stmts@[k]);
        assert(operands_below(ops, nl));
        assert forall|j: int| 0 <= j < ops.len() implies (#[trigger] ops[j] matches MirOperand::Local(l) ==> l.0 < nl2) by {
            assert(ops[j] matches MirOperand::Local(l) ==> l.0 < nl);
        }
    }
}


/// An empty block, to hold the place of one being changed.
fn placeholder_block() -> (r: MirBasicBlock)
    ensures
        r.id == BlockId(0),
        r.name@.len() == 0,
        r.stmts@.len() == 0,
        r.terminator == MirTerminator::Unreachable,
{
    MirBasicBlock { id: BlockId(0), name: String::new(), stmts: Vec::new(), terminator: MirTerminator::Unreachable }
}

impl<'hir> MirLower<'hir> {
    /// A new local slot of the given type.
    fn new_local(&mut self, ty: HirType, name: SymbolId, mutable: bool) -> (r: LocalId)
        requires
            old(self).wf(),
            old(self).nlocals() < u32::MAX,
        ensures
            final(self).wf(),
            final(self).same_context(old(self)),
            r.0 == old(self).nlocals(),
            final(self).nlocals() == old(self).nlocals() + 1,
            final(self).blocks == old(self).blocks,
            final(self).current == old(self).current,
            final(self).var_map == old(self).var_map,
    {
        let id = LocalId(self.locals.len() as u32);
        self.locals.push(MirLocal { id, ty, name, mutable });
        proof {
            let nb = self.blocks@.len() as int;
            let nl = self.locals@.len() as int;
            assert forall|i: int| 0 <= i < self.blocks@.len() implies block_ok(#[trigger] self.blocks@[i], i, nb, nl) by {
                lemma_block_ok_grow(self.blocks@[i], i, nb, nl - 1, nb, nl);
            }
            assert forall|i: int| 0 <= i < self.locals@.len() implies (#[trigger] self.locals@[i]).id == LocalId(i as u32) by {
                if i < nl - 1 {
                    assert(self.locals@[i] == old(self).locals@[i]);
                }
            }
        }
        id
    }

    /// A new, empty, unterminated block; building continues where it was.
    fn create_block(&mut self, name: String) -> (r: BlockId)
        requires
            old(self).wf(),
            old(self).nblocks() < u32::MAX,
        ensures
            final(self).wf(),
            final(self).same_context(old(self)),
            r.0 == old(self).nblocks(),
            final(self).blocks@ == old(self).blocks@.push(
                MirBasicBlock { id: r, name, stmts: final(self).blocks@[r.0 as int].stmts, terminator: MirTerminator::Unreachable },
            ),
            final(self).blocks@[r.0 as int].stmts@.len() == 0,
            final(self).current == old(self).current,
            final(self).locals == old(self).locals,
            final(self).var_map == old(self).var_map,
    {
        let id = BlockId(self.blocks.len() as u32);
        let b = MirBasicBlock { id, name, stmts: Vec::new(), terminator: MirTerminator::Unreachable };
        self.blocks.push(b);
        proof {
            let nb = self.blocks@.len() as int;
            let nl = self.locals@.len() as int;
            assert forall|i: int| 0 <= i < self.blocks@.len() implies block_ok(#[trigger] self.blocks@[i], i, nb, nl) by {
                if i < nb - 1 {
                    assert(self.blocks@[i] == old(self).blocks@[i]);
                    lemma_block_ok_grow(self.blocks@[i], i, nb - 1, nl, nb, nl);
                }
            }
        }
        id
    }

    /// Append a statement to the block being built.
    fn emit(&mut self, kind: MirStmtKind)
        requires
            old(self).wf(),
            operands_below(stmt_operands_spec(MirStmt { kind }), old(self).nlocals() as int),
        ensures
            final(self).wf(),
            final(self).same_context(old(self)),
            final(self).blocks@.len() == old(self).blocks@.len(),
            forall|i: int| 0 <= i < old(self).blocks@.len() && i != old(self).current ==> #[trigger] final(self).blocks@[i]
                == old(self).blocks@[i],
            final(self).blocks@[old(self).current as int].terminator == old(self).blocks@[old(self).current as int].terminator,
            final(self).blocks@[old(self).current as int].id == old(self).blocks@[old(self).current as int].id,
            final(self).blocks@[old(self).current as int].name == old(self).blocks@[old(self).current as int].name,
            final(self).blocks@[old(self).current as int].stmts@ == old(self).blocks@[old(self).current as int].stmts@.push(
                MirStmt { kind },
            ),
            final(self).current == old(self).current,
            final(self).locals == old(self).locals,
            final(self).var_map == old(self).var_map,
            stable(old(self).blocks@, old(self).current as int, final(self).blocks@, final(self).current as int),
    {
        let cur = self.current;
        let mut b = placeholder_block();
        self.blocks.set_and_swap(cur, &mut b);
        b.stmts.push(MirStmt { kind });
        self.blocks.set(cur, b);
        proof {
            let nb = self.blocks@.len() as int;
            let nl = self.locals@.len() as int;
            let ob = old(self).blocks@[cur as int];
            assert(block_ok(ob, cur as int, nb, nl));
            assert forall|k: int| 0 <= k < b.stmts@.len() implies operands_below(stmt_operands_spec(#[trigger] b.stmts@[k]), nl) by {
                if k < ob.stmts@.len() {
                    assert(b.stmts@[k] == ob.stmts@[k]);
                }
            }
            assert(block_ok(self.blocks@[cur as int], cur as int, nb, nl));
            assert forall|i: int| 0 <= i < self.blocks@.len() implies block_ok(#[trigger] self.blocks@[i], i, nb, nl) by {
                if i != cur {
                    assert(self.blocks@[i] == old(self).blocks@[i]);
                }
            }
        }
    }

    /// Give the block being built its terminator.
    fn finish(&mut self, t: MirTerminator)
        requires
            old(self).wf(),
            targets_below(t, old(self).nblocks() as int),
            tests_true(t),
        ensures
            final(self).wf(),
            final(self).same_context(old(self)),
            final(self).blocks@.len() == old(self).blocks@.len(),
            forall|i: int| 0 <= i < old(self).blocks@.len() && i != old(self).current ==> #[trigger] final(self).blocks@[i]
                == old(self).blocks@[i],
            final(self).blocks@[old(self).current as int].terminator == t,
            final(self).blocks@[old(self).current as int].stmts == old(self).blocks@[old(self).current as int].stmts,
            final(self).blocks@[old(self).current as int].name == old(self).blocks@[old(self).current as int].name,
            final(self).current == old(self).current,
            final(self).locals == old(self).locals,
            final(self).var_map == old(self).var_map,
            !(t is Unreachable) ==> stable(old(self).blocks@, old(self).current as int, final(self).blocks@, final(self).current as int),
    {
        let cur = self.current;
        let mut b = placeholder_block();
        self.blocks.set_and_swap(cur, &mut b);
        b.terminator = t;
        self.blocks.set(cur, b);
        proof {
            let nb = self.blocks@.len() as int;
            let nl = self.locals@.len() as int;
            let ob = old(self).blocks@[cur as int];
            assert(block_ok(ob, cur as int, nb, nl));
            assert forall|k: int| 0 <= k < b.stmts@.len() implies operands_below(stmt_operands_spec(#[trigger] b.stmts@[k]), nl) by {
                assert(b.stmts@[k] == ob.stmts@[k]);
            }
            assert forall|i: int| 0 <= i < self.blocks@.len() implies block_ok(#[trigger] self.blocks@[i], i, nb, nl) by {
                if i != cur {
                    assert(self.blocks@[i] == old(self).blocks@[i]);
                }
            }
        }
    }

    /// Continue building in an existing block that has no terminator yet.
    fn switch_to(&mut self, b: BlockId)
        requires
            old(self).wf(),
            b.0 < old(self).nblocks(),
            !closed(old(self).blocks@[b.0 as int]),
        ensures
            final(self).wf(),
            final(self).same_context(old(self)),
            final(self).blocks == old(self).blocks,
            final(self).current == b.0,
            final(self).locals == old(self).locals,
            final(self).var_map == old(self).var_map,
    {
        self.current = b.0 as usize;
    }

    /// Whether the block being built has its terminator.
    fn current_closed(&self) -> (r: bool)
        requires
            self.wf(),
        ensures
            r == closed(self.blocks@[self.current as int]),
    {
        !matches!(self.blocks[self.current].terminator, MirTerminator::Unreachable)
    }

    /// Jump to `target` unless the block being built already ends.
    fn ensure_terminated(&mut self, target: BlockId)
        requires
            old(self).wf(),
            target.0 < old(self).nblocks(),
        ensures
            final(self).wf(),
            final(self).same_context(old(self)),
            final(self).blocks@.len() == old(self).blocks@.len(),
            forall|i: int| 0 <= i < old(self).blocks@.len() && i != old(self).current ==> #[trigger] final(self).blocks@[i]
                == old(self).blocks@[i],
            closed(final(self).blocks@[old(self).current as int]),
            closed(old(self).blocks@[old(self).current as int]) ==> final(self).blocks@[old(self).current as int]
                == old(self).blocks@[old(self).current as int],
            !closed(old(self).blocks@[old(self).current as int]) ==> final(self).blocks@[old(self).current as int].terminator
                == (MirTerminator::Goto { target }),
            final(self).blocks@[old(self).current as int].stmts == old(self).blocks@[old(self).current as int].stmts,
            final(self).blocks@[old(self).current as int].name == old(self).blocks@[old(self).current as int].name,
            final(self).current == old(self).current,
            final(self).locals == old(self).locals,
            final(self).var_map == old(self).var_map,
            stable(old(self).blocks@, old(self).current as int, final(self).blocks@, final(self).current as int),
    {
        if !self.current_closed() {
            self.finish(MirTerminator::Goto { target });
        }
    }

    /// The local a variable currently names.
    fn lookup_var(&self, sym: SymbolId) -> (r: Option<LocalId>)
        requires
            self.wf(),
        ensures
            r is Some <==> self.defined().contains(sym),
            r matches Some(l) ==> l.0 < self.nlocals(),
            r matches Some(l) ==> exists|i: int|
                0 <= i < self.var_map@.len() && self.var_map@[i] == (sym, l) && forall|j: int|
                    i < j < self.var_map@.len() ==> (#[trigger] self.var_map@[j]).0 != sym,
            r == latest_binding(self.var_map@, sym),
    {
        let n = self.var_map.len();
        let mut i = n;
        while i > 0
            invariant
                i <= n,
                n == self.var_map@.len(),
                self.wf(),
                forall|j: int| i <= j < n ==> (#[trigger] self.var_map@[j]).0 != sym,
            decreases i,
        {
            i = i - 1;
            if self.var_map[i].0 == sym {
                assert(self.var_map@[i as int].0 == sym);
                proof {
                    lemma_latest_take(self.var_map@, sym, i + 1);
                    assert(self.var_map@.take(i + 1).last() == self.var_map@[i as int]);
                }
                return Some(self.var_map[i].1);
            }
        }
        assert(!self.defined().contains(sym));
        proof {
            lemma_latest_take(self.var_map@, sym, 0);
        }
        None
    }

    /// Make `sym` name the local `l` from now on.
    fn bind_var(&mut self, sym: SymbolId, l: LocalId)
        requires
            old(self).wf(),
            l.0 < old(self).nlocals(),
        ensures
            final(self).wf(),
            final(self).same_context(old(self)),
            final(self).defined() == old(self).defined().insert(sym),
            final(self).var_map@ == old(self).var_map@.push((sym, l)),
            final(self).blocks == old(self).blocks,
            final(self).current == old(self).current,
            final(self).locals == old(self).locals,
    {
        self.var_map.push((sym, l));
        proof {
            assert(self.var_map@[self.var_map@.len() - 1].0 == sym);
            assert forall|s: SymbolId| #[trigger] self.defined().contains(s) == old(self).defined().insert(sym).contains(s) by {
                if old(self).defined().contains(s) {
                    let j = choose|j: int| 0 <= j < old(self).var_map@.len() && (#[trigger] old(self).var_map@[j]).0 == s;
                    assert(self.var_map@[j] == old(self).var_map@[j]);
                }
                if self.defined().contains(s) && s != sym {
                    let j = choose|j: int| 0 <= j < self.var_map@.len() && (#[trigger] self.var_map@[j]).0 == s;
                    assert(j < old(self).var_map@.len());
                    assert(old(self).var_map@[j] == self.var_map@[j]);
                }
            }
            assert(self.defined() =~= old(self).defined().insert(sym));
        }
    }
}


// ---------------------------------------------------------------------------
// Lowering
// ---------------------------------------------------------------------------

/// The name a symbol is reported under: its string, or `?`.
pub open spec fn name_or_unknown(symbols: Seq<Seq<char>>, s: SymbolId) -> Seq<char> {
    if s.0 < symbols.len() {
        symbols[s.0 as int]
    } else {
        "?"@
    }
}

/// Whether `e` is the error lowering reports for the failure `f`.
pub open spec fn reports(symbols: Seq<Seq<char>>, f: LowerFailure, e: CompilerError) -> bool {
    match f {
        LowerFailure::UndefinedVariable(s) => e matches CompilerError::Codegen(m) && m@ == "undefined variable: "@
            + name_or_unknown(symbols, s),
        LowerFailure::UndefinedEnum(n) => e matches CompilerError::Semantic(m) && m@ == "undefined enum: "@
            + name_or_unknown(symbols, n),
        LowerFailure::NoSuchVariant(n, v) => e matches CompilerError::Semantic(m) && m@ == "enum "@ + name_or_unknown(
            symbols,
            n,
        ) + " has no variant "@ + name_or_unknown(symbols, v),
        LowerFailure::ForOverNonRange => e matches CompilerError::Semantic(m) && m@
            == "for loop iterator must be a range expression"@,
    }
}

/// Whether a lowering step's result agrees with the check: success with the
/// variables defined afterwards, or the failure the check finds first.
pub open spec fn agrees<T>(
    symbols: Seq<Seq<char>>,
    chk: Result<Set<SymbolId>, LowerFailure>,
    r: Result<T, CompilerError>,
    after: Set<SymbolId>,
) -> bool {
    match r {
        Ok(_) => chk == Ok::<Set<SymbolId>, LowerFailure>(after),
        Err(e) => chk matches Err(f) && reports(symbols, f, e),
    }
}

impl<'hir> MirLower<'hir> {
    /// Invariant, context, and bounded growth of locals and blocks.
    pub closed spec fn progressed(&self, old: &Self, cost: nat) -> bool {
        &&& self.wf()
        &&& self.same_context(old)
        &&& old.nlocals() <= self.nlocals() <= old.nlocals() + cost
        &&& old.nblocks() <= self.nblocks() <= old.nblocks() + cost
    }

    /// Room for `cost` more locals and blocks.
    pub closed spec fn room(&self, cost: nat) -> bool {
        &&& self.nlocals() + cost <= u32::MAX
        &&& self.nblocks() + cost <= u32::MAX
    }

    pub closed spec fn stable_from(&self, old: &Self) -> bool {
        stable(old.blocks@, old.current as int, self.blocks@, self.current as int)
    }

    pub closed spec fn symbols(&self) -> Seq<Seq<char>> {
        self.hir.symbols@
    }

    fn name_of(&self, sym: SymbolId) -> (r: &'hir str)
        ensures
            r@ == name_or_unknown(self.symbols(), sym),
    {
        match self.hir.symbols.lookup(sym) {
            Some(s) => s,
            None => "?",
        }
    }

    fn undefined_variable(&self, sym: SymbolId) -> (e: CompilerError)
        ensures
            reports(self.symbols(), LowerFailure::UndefinedVariable(sym), e),
    {
        let mut m = String::from_str("undefined variable: ");
        m.append(self.name_of(sym));
        CompilerError::codegen(m)
    }

    /// Declare a fresh temporary of type `ty` and assign `rvalue` to it.
    fn assign_temp(&mut self, ty: HirType, rvalue: MirRvalue) -> (r: LocalId)
        requires
            old(self).wf(),
            old(self).nlocals() < u32::MAX,
            operands_below(stmt_operands_spec(MirStmt { kind: MirStmtKind::Assign { local: LocalId(0), rvalue } }),
                old(self).nlocals() as int),
        ensures
            final(self).progressed(old(self), 1),
            final(self).stable_from(old(self)),
            final(self).nblocks() == old(self).nblocks(),
            final(self).nlocals() == old(self).nlocals() + 1,
            final(self).current == old(self).current,
            final(self).var_map == old(self).var_map,
            final(self).blocks@[old(self).current as int].terminator == old(self).blocks@[old(self).current as int].terminator,
            final(self).blocks@[old(self).current as int].name == old(self).blocks@[old(self).current as int].name,
            r.0 == old(self).nlocals(),
            ({
                let before = old(self).blocks@[old(self).current as int].stmts@;
                let after = final(self).blocks@[old(self).current as int].stmts@;
                &&& after.len() == before.len() + 2
                &&& after.take(before.len() as int) == before
                &&& after[before.len() as int].kind matches MirStmtKind::LocalDecl { local, ty: t, mutable }
                    && local == r && crate::hir::types::model_of(t) == crate::hir::types::model_of(ty) && !mutable
                &&& after[before.len() as int + 1] == MirStmt { kind: MirStmtKind::Assign { local: r, rvalue } }
            }),
    {
        let t2 = ty.clone();
        let local = self.new_local(ty, self.temp_symbol, false);
        self.emit(MirStmtKind::LocalDecl { local, ty: t2, mutable: false });
        let ghost mid = self.blocks@;
        proof {
            assert forall|j: int| 0 <= j < stmt_operands_spec(MirStmt { kind: MirStmtKind::Assign { local, rvalue } }).len()
                implies (#[trigger] stmt_operands_spec(MirStmt { kind: MirStmtKind::Assign { local, rvalue } })[j]
                matches MirOperand::Local(l) ==> l.0 < self.nlocals()) by {
                assert(stmt_operands_spec(MirStmt { kind: MirStmtKind::Assign { local, rvalue } })
                    == stmt_operands_spec(MirStmt { kind: MirStmtKind::Assign { local: LocalId(0), rvalue } }));
            }
        }
        self.emit(MirStmtKind::Assign { local, rvalue });
        proof {
            lemma_stable_trans(old(self).blocks@, old(self).current as int, mid, self.current as int, self.blocks@, self.current as int);
        }
        local
    }
}


proof fn lemma_exprs_err(enums: Seq<EnumDef>, es: Seq<HirExpr>, i: int, d: Set<SymbolId>)
    requires
        0 <= i <= es.len(),
        check_exprs(enums, es.take(i), d) is Err,
    ensures
        check_exprs(enums, es, d) == check_exprs(enums, es.take(i), d),
    decreases es.len() - i,
{
    if i == es.len() {
        assert(es.take(i) == es);
    } else {
        assert(es.take(i + 1).drop_last() == es.take(i));
        lemma_exprs_err(enums, es, i + 1, d);
    }
}

proof fn lemma_exprs_cost(es: Seq<HirExpr>, i: int)
    requires
        0 <= i <= es.len(),
    ensures
        exprs_cost(es.take(i)) <= exprs_cost(es),
    decreases es.len() - i,
{
    if i == es.len() {
        assert(es.take(i) == es);
    } else {
        assert(es.take(i + 1).drop_last() == es.take(i));
        lemma_exprs_cost(es, i + 1);
    }
}

proof fn lemma_fields_err(enums: Seq<EnumDef>, fs: Seq<(SymbolId, Box<HirExpr>)>, i: int, d: Set<SymbolId>)
    requires
        0 <= i <= fs.len(),
        check_fields(enums, fs.take(i), d) is Err,
    ensures
        check_fields(enums, fs, d) == check_fields(enums, fs.take(i), d),
    decreases fs.len() - i,
{
    if i == fs.len() {
        assert(fs.take(i) == fs);
    } else {
        assert(fs.take(i + 1).drop_last() == fs.take(i));
        lemma_fields_err(enums, fs, i + 1, d);
    }
}

proof fn lemma_fields_cost(fs: Seq<(SymbolId, Box<HirExpr>)>, i: int)
    requires
        0 <= i <= fs.len(),
    ensures
        fields_cost(fs.take(i)) <= fields_cost(fs),
    decreases fs.len() - i,
{
    if i == fs.len() {
        assert(fs.take(i) == fs);
    } else {
        assert(fs.take(i + 1).drop_last() == fs.take(i));
        lemma_fields_cost(fs, i + 1);
    }
}

proof fn lemma_elifs_err(enums: Seq<EnumDef>, arms: Seq<(HirExpr, Vec<HirStmt>)>, i: int, d: Set<SymbolId>)
    requires
        0 <= i <= arms.len(),
        check_elifs(enums, arms.take(i), d) is Err,
    ensures
        check_elifs(enums, arms, d) == check_elifs(enums, arms.take(i), d),
    decreases arms.len() - i,
{
    if i == arms.len() {
        assert(arms.take(i) == arms);
    } else {
        assert(arms.take(i + 1).drop_last() == arms.take(i));
        lemma_elifs_err(enums, arms, i + 1, d);
    }
}

proof fn lemma_elifs_cost(arms: Seq<(HirExpr, Vec<HirStmt>)>, i: int)
    requires
        0 <= i <= arms.len(),
    ensures
        elifs_cost(arms.take(i)) <= elifs_cost(arms),
    decreases arms.len() - i,
{
    if i == arms.len() {
        assert(arms.take(i) == arms);
    } else {
        assert(arms.take(i + 1).drop_last() == arms.take(i));
        lemma_elifs_cost(arms, i + 1);
    }
}

proof fn lemma_stmts_err(enums: Seq<EnumDef>, ss: Seq<HirStmt>, i: int, d: Set<SymbolId>)
    requires
        0 <= i <= ss.len(),
        check_stmts(enums, ss.take(i), d) is Err,
    ensures
        check_stmts(enums, ss, d) == check_stmts(enums, ss.take(i), d),
    decreases ss.len() - i,
{
    if i == ss.len() {
        assert(ss.take(i) == ss);
    } else {
        assert(ss.take(i + 1).drop_last() == ss.take(i));
        lemma_stmts_err(enums, ss, i + 1, d);
    }
}

proof fn lemma_stmts_cost(ss: Seq<HirStmt>, i: int)
    requires
        0 <= i <= ss.len(),
    ensures
        stmts_cost(ss.take(i)) <= stmts_cost(ss),
    decreases ss.len() - i,
{
    if i == ss.len() {
        assert(ss.take(i) == ss);
    } else {
        assert(ss.take(i + 1).drop_last() == ss.take(i));
        lemma_stmts_cost(ss, i + 1);
    }
}

impl<'hir> MirLower<'hir> {
    proof fn lemma_stable_chain(a: Self, b: Self, c: Self)
        requires
            b.stable_from(&a),
            c.stable_from(&b),
        ensures
            c.stable_from(&a),
    {
        lemma_stable_trans(a.blocks@, a.current as int, b.blocks@, b.current as int, c.blocks@, c.current as int);
    }
}


impl<'hir> MirLower<'hir> {
    /// Lower an expression to an operand holding its value.
    #[verifier::spinoff_prover]
    #[verifier::rlimit(100)]
    fn lower_expr(&mut self, expr: &HirExpr) -> (r: Result<MirOperand, CompilerError>)
        requires
            old(self).wf(),
            old(self).room(expr_cost(*expr)),
        ensures
            final(self).progressed(old(self), expr_cost(*expr)),
            agrees(old(self).symbols(), check_expr(old(self).enums(), *expr, old(self).defined()), r, final(self).defined()),
            r is Ok ==> final(self).stable_from(old(self)),
            r matches Ok(op) ==> operand_below(op, final(self).nlocals() as int),
            r is Ok ==> final(self).nlocals() == old(self).nlocals() + locals_used(*expr),
            r matches Ok(op) ==> op == result_operand(old(self).enums(), *expr, old(self).var_map@, old(self).nlocals() as int),
            r matches Ok(op) ==> (straight(*expr) ==> {
                &&& final(self).current == old(self).current
                &&& final(self).var_map == old(self).var_map
                &&& final(self).nblocks() == old(self).nblocks()
                &&& final(self).blocks@[old(self).current as int].terminator == old(self).blocks@[old(self).current as int].terminator
                &&& final(self).blocks@[old(self).current as int].name == old(self).blocks@[old(self).current as int].name
                &&& final(self).nlocals() == old(self).nlocals() + temp_count(*expr)
                &&& op == operand_of(old(self).enums(), *expr, old(self).var_map@, old(self).nlocals() as int)
                &&& emits(old(self).enums(), *expr, old(self).var_map@, old(self).blocks@[old(self).current as int].stmts@,
                    final(self).blocks@[old(self).current as int].stmts@, old(self).nlocals() as int)
            }),
            r is Ok ==> final(self).while_shape(*old(self), *expr) && final(self).for_shape(*old(self), *expr)
                && final(self).if_shape(*old(self), *expr),
            expr.kind matches HirExprKind::Call { func, args, .. } ==> (r matches Ok(op) ==> (straight_exprs(args@) ==> {
                &&& final(self).current == old(self).nblocks()
                &&& call_lowered(old(self).enums(), func, args@, old(self).var_map@, old(self).nlocals() as int,
                    old(self).nblocks() as int, old(self).current as int, final(self).blocks@, op)
            })),
        decreases *expr, 1int,
    {
        let ghost s0 = *self;
        let ghost c = self.current as int;
        let ghost vm = self.var_map@;
        let ghost en = self.enums();
        let ghost n0 = self.nlocals() as int;
        let ghost b0 = self.blocks@[c].stmts@;
        match &expr.kind {
            HirExprKind::Integer(n) => {
                assert(b0.take(b0.len() as int) == b0);
                Ok(MirOperand::Const(MirConst::I64(*n)))
            },
            HirExprKind::Float(f) => {
                assert(b0.take(b0.len() as int) == b0);
                Ok(MirOperand::Const(MirConst::F64(*f)))
            },
            HirExprKind::Bool(b) => {
                assert(b0.take(b0.len() as int) == b0);
                Ok(MirOperand::Const(MirConst::Bool(*b)))
            },
            HirExprKind::Unit => {
                assert(b0.take(b0.len() as int) == b0);
                Ok(MirOperand::Const(MirConst::I64(0)))
            },
            HirExprKind::StrLit(sym) => {
                let local = self.assign_temp(HirType::Str, MirRvalue::StrLit(*sym));
                proof {
                    assert(local == local_at(n0));
                }
                Ok(MirOperand::Local(local))
            },
            HirExprKind::Variable { symbol } => match self.lookup_var(*symbol) {
                Some(l) => {
                    assert(b0.take(b0.len() as int) == b0);
                    Ok(MirOperand::Local(l))
                },
                None => Err(self.undefined_variable(*symbol)),
            },
            HirExprKind::Assign { symbol, value } => {
                let target = match self.lookup_var(*symbol) {
                    Some(l) => l,
                    None => {
                        return Err(self.undefined_variable(*symbol));
                    },
                };
                let val = match self.lower_expr(value) {
                    Ok(v) => v,
                    Err(e) => {
                        return Err(e);
                    },
                };
                let ghost s1 = *self;
                self.emit(MirStmtKind::Assign { local: target, rvalue: MirRvalue::Use(val) });
                proof {
                    Self::lemma_stable_chain(s0, s1, *self);
                    if straight(*expr) {
                        let b1 = s1.blocks@[c].stmts@;
                        let b2 = self.blocks@[c].stmts@;
                        assert(b2.drop_last() == b1);
                        assert(b2.take(b0.len() as int) == b1.take(b0.len() as int));
                    }
                }
                Ok(MirOperand::Local(target))
            },
            HirExprKind::AugAssign { symbol, op, value } => {
                let target = match self.lookup_var(*symbol) {
                    Some(l) => l,
                    None => {
                        return Err(self.undefined_variable(*symbol));
                    },
                };
                let val = match self.lower_expr(value) {
                    Ok(v) => v,
                    Err(e) => {
                        return Err(e);
                    },
                };
                let ghost s1 = *self;
                self.emit(
                    MirStmtKind::Assign {
                        local: target,
                        rvalue: MirRvalue::Binary { op: MirBinOp::from(*op), lhs: MirOperand::Local(target), rhs: val },
                    },
                );
                proof {
                    Self::lemma_stable_chain(s0, s1, *self);
                    if straight(*expr) {
                        let b1 = s1.blocks@[c].stmts@;
                        let b2 = self.blocks@[c].stmts@;
                        assert(b2.drop_last() == b1);
                        assert(b2.take(b0.len() as int) == b1.take(b0.len() as int));
                    }
                }
                Ok(MirOperand::Local(target))
            },
            HirExprKind::Binary { op, lhs, rhs } => {
                let l = match self.lower_expr(lhs) {
                    Ok(v) => v,
                    Err(e) => {
                        return Err(e);
                    },
                };
                let ghost s1 = *self;
                let r = match self.lower_expr(rhs) {
                    Ok(v) => v,
                    Err(e) => {
                        return Err(e);
                    },
                };
                let ghost s2 = *self;
                let local = self.assign_temp(expr.ty.clone(), MirRvalue::Binary { op: MirBinOp::from(*op), lhs: l, rhs: r });
                proof {
                    Self::lemma_stable_chain(s0, s1, s2);
                    Self::lemma_stable_chain(s0, s2, *self);
                    if straight(*expr) {
                        let b1 = s1.blocks@[c].stmts@;
                        let b2 = s2.blocks@[c].stmts@;
                        let b3 = self.blocks@[c].stmts@;
                        lemma_take_chain(b1, b2, b3);
                        lemma_take_chain(b0, b1, b2);
                        lemma_take_chain(b0, b2, b3);
                        assert(local == local_at(n0 + temp_count(**lhs) + temp_count(**rhs)));
                    }
                }
                Ok(MirOperand::Local(local))
            },
            HirExprKind::Unary { op, expr: inner } => {
                let v = match self.lower_expr(inner) {
                    Ok(v) => v,
                    Err(e) => {
                        return Err(e);
                    },
                };
                let ghost s1 = *self;
                let local = self.assign_temp(expr.ty.clone(), MirRvalue::Unary { op: MirUnOp::from(*op), operand: v });
                proof {
                    Self::lemma_stable_chain(s0, s1, *self);
                    if straight(*expr) {
                        let b1 = s1.blocks@[c].stmts@;
                        let b2 = self.blocks@[c].stmts@;
                        lemma_take_chain(b0, b1, b2);
                        assert(local == local_at(n0 + temp_count(**inner)));
                    }
                }
                Ok(MirOperand::Local(local))
            },
            HirExprKind::Range { start, .. } => self.lower_expr(start),
            HirExprKind::FieldAccess { expr: inner, field } => {
                let v = match self.lower_expr(inner) {
                    Ok(v) => v,
                    Err(e) => {
                        return Err(e);
                    },
                };
                let ghost s1 = *self;
                let inner_local = self.assign_temp(inner.ty.clone(), MirRvalue::Use(v));
                let ghost s2 = *self;
                let local = self.assign_temp(expr.ty.clone(), MirRvalue::FieldAccess { local: inner_local, field: *field });
                proof {
                    Self::lemma_stable_chain(s0, s1, s2);
                    Self::lemma_stable_chain(s0, s2, *self);
                    if straight(*expr) {
                        let b1 = s1.blocks@[c].stmts@;
                        let b2 = s2.blocks@[c].stmts@;
                        let b3 = self.blocks@[c].stmts@;
                        lemma_take_chain(b1, b2, b3);
                        lemma_take_chain(b0, b1, b2);
                        lemma_take_chain(b0, b2, b3);
                        assert(inner_local == local_at(n0 + temp_count(**inner)));
                        assert(local == local_at(n0 + temp_count(**inner) + 1));
                    }
                }
                Ok(MirOperand::Local(local))
            },
            HirExprKind::Length { expr: inner } => {
                let v = match self.lower_expr(inner) {
                    Ok(v) => v,
                    Err(e) => {
                        return Err(e);
                    },
                };
                let ghost s1 = *self;
                let inner_local = self.assign_temp(inner.ty.clone(), MirRvalue::Use(v));
                let ghost s2 = *self;
                let local = self.assign_temp(expr.ty.clone(), MirRvalue::Length { list_local: inner_local });
                proof {
                    Self::lemma_stable_chain(s0, s1, s2);
                    Self::lemma_stable_chain(s0, s2, *self);
                    if straight(*expr) {
                        let b1 = s1.blocks@[c].stmts@;
                        let b2 = s2.blocks@[c].stmts@;
                        let b3 = self.blocks@[c].stmts@;
                        lemma_take_chain(b1, b2, b3);
                        lemma_take_chain(b0, b1, b2);
                        lemma_take_chain(b0, b2, b3);
                        assert(inner_local == local_at(n0 + temp_count(**inner)));
                        assert(local == local_at(n0 + temp_count(**inner) + 1));
                    }
                }
                Ok(MirOperand::Local(local))
            },
            HirExprKind::Index { list, index } => {
                let v = match self.lower_expr(list) {
                    Ok(v) => v,
                    Err(e) => {
                        return Err(e);
                    },
                };
                let ghost s1 = *self;
                let list_local = self.assign_temp(list.ty.clone(), MirRvalue::Use(v));
                let ghost s2 = *self;
                let idx = match self.lower_expr(index) {
                    Ok(v) => v,
                    Err(e) => {
                        return Err(e);
                    },
                };
                let ghost s3 = *self;
                let local = self.assign_temp(expr.ty.clone(), MirRvalue::Index { list_local, index: idx });
                proof {
                    Self::lemma_stable_chain(s0, s1, s2);
                    Self::lemma_stable_chain(s0, s2, s3);
                    Self::lemma_stable_chain(s0, s3, *self);
                    if straight(*expr) {
                        let b1 = s1.blocks@[c].stmts@;
                        let b2 = s2.blocks@[c].stmts@;
                        let b3 = s3.blocks@[c].stmts@;
                        let b4 = self.blocks@[c].stmts@;
                        lemma_take_chain(b2, b3, b4);
                        lemma_take_chain(b1, b2, b3);
                        lemma_take_chain(b1, b3, b4);
                        lemma_take_chain(b0, b1, b2);
                        lemma_take_chain(b0, b2, b4);
                        assert(list_local == local_at(n0 + temp_count(**list)));
                        assert(local == local_at(n0 + temp_count(**list) + 1 + temp_count(**index)));
                    }
                }
                Ok(MirOperand::Local(local))
            },
            HirExprKind::EnumConstructor { name, variant } => {
                let r = self.lower_enum_ctor(*name, *variant);
                proof {
                    assert(b0.take(b0.len() as int) == b0);
                    if r is Ok {
                        let p = choose|p: usize| #[trigger] first_position(enum_variants(en, *name), *variant, p as int)
                            && r->Ok_0 == MirOperand::Const(MirConst::I64(p as i64));
                        lemma_first_position_unique(enum_variants(en, *name), *variant, p as int,
                            variant_position(en, *name, *variant));
                    }
                }
                r
            },
            HirExprKind::Call { func, args, .. } => {
                let ops = match self.lower_operands(args) {
                    Ok(v) => v,
                    Err(e) => {
                        return Err(e);
                    },
                };
                let ghost s1 = *self;
                let ghost ops_v = ops@;
                let d = self.lower_call(*func, ops, &expr.ty);
                proof {
                    Self::lemma_stable_chain(s0, s1, *self);
                    if straight_exprs(args@) {
                        assert(d == local_at(n0 + exprs_temp_count(args@)));
                        assert(ops_v == operands_of(en, args@, vm, n0));
                    }
                }
                Ok(MirOperand::Local(d))
            },
            HirExprKind::ListLiteral { elements } => {
                let ops = match self.lower_operands(elements) {
                    Ok(v) => v,
                    Err(e) => {
                        return Err(e);
                    },
                };
                let ghost s1 = *self;
                proof {
                    assert(operands_below(ops@, self.nlocals() as int));
                }
                let local = self.assign_temp(
                    HirType::List(Box::new(HirType::I64)),
                    MirRvalue::ListLiteral { elements: ops },
                );
                proof {
                    Self::lemma_stable_chain(s0, s1, *self);
                    if straight(*expr) {
                        let b1 = s1.blocks@[c].stmts@;
                        let b2 = self.blocks@[c].stmts@;
                        lemma_take_chain(b0, b1, b2);
                        assert(local == local_at(n0 + temp_count(*expr) - 1));
                    }
                }
                Ok(MirOperand::Local(local))
            },
            HirExprKind::StructLiteral { name, fields, .. } => {
                let ops = match self.lower_fields(fields) {
                    Ok(v) => v,
                    Err(e) => {
                        return Err(e);
                    },
                };
                let ghost s1 = *self;
                proof {
                    let rv = MirRvalue::StructLit { struct_def: *name, fields: ops };
                    let got = stmt_operands_spec(MirStmt { kind: MirStmtKind::Assign { local: LocalId(0), rvalue: rv } });
                    assert(got == ops@.map_values(|p: (SymbolId, MirOperand)| p.1));
                    assert forall|j: int| 0 <= j < got.len() implies (#[trigger] got[j] matches MirOperand::Local(l) ==> l.0
                        < self.nlocals()) by {
                        assert(got[j] == ops@[j].1);
                    }
                }
                let local = self.assign_temp(expr.ty.clone(), MirRvalue::StructLit { struct_def: *name, fields: ops });
                proof {
                    Self::lemma_stable_chain(s0, s1, *self);
                }
                Ok(MirOperand::Local(local))
            },
            HirExprKind::While { .. } => match self.lower_while(expr) {
                Ok(()) => Ok(MirOperand::Const(MirConst::I64(0))),
                Err(e) => Err(e),
            },
            HirExprKind::For { .. } => match self.lower_for(expr) {
                Ok(()) => Ok(MirOperand::Const(MirConst::I64(0))),
                Err(e) => Err(e),
            },
            HirExprKind::If { .. } => match self.lower_if(expr) {
                Ok(()) => Ok(MirOperand::Const(MirConst::I64(0))),
                Err(e) => Err(e),
            },
        }
    }

    /// The tag of an enum variant: its position among the variants.
    fn lower_enum_ctor(&mut self, name: SymbolId, variant: SymbolId) -> (r: Result<MirOperand, CompilerError>)
        requires
            old(self).wf(),
        ensures
            *final(self) == *old(self),
            match check_enum_ctor(old(self).enums(), name, variant) {
                Some(f) => r matches Err(e) && reports(old(self).symbols(), f, e),
                None => r matches Ok(MirOperand::Const(_)),
            },
            r matches Ok(op) ==> exists|p: usize|
                #[trigger] first_position(enum_variants(old(self).enums(), name), variant, p as int)
                && op == MirOperand::Const(MirConst::I64(p as i64)),
    {
        let ed = match self.hir.enum_def(name) {
            Some(ed) => ed,
            None => {
                let mut m = String::from_str("undefined enum: ");
                m.append(self.name_of(name));
                return Err(CompilerError::semantic(m));
            },
        };
        proof {
            let i = choose|i: int|
                0 <= i < self.hir.enums@.len() && self.hir.enums@[i].name == name
                && (forall|j: int| 0 <= j < i ==> self.hir.enums@[j].name != name) && *ed == self.hir.enums@[i];
            assert(first_enum_named(self.hir.enums@, name, i));
            let k = choose|k: int| first_enum_named(self.hir.enums@, name, k);
            assert(k == i) by {
                if k < i {
                    assert(self.hir.enums@[k].name != name);
                } else if k > i {
                    assert(self.hir.enums@[i].name != name);
                }
            }
        }
        let mut i: usize = 0;
        while i < ed.variants.len()
            invariant
                i <= ed.variants@.len(),
                forall|j: int| 0 <= j < i ==> ed.variants@[j] != variant,
                exists|k: int| first_enum_named(self.hir.enums@, name, k),
                self.hir.enums@[choose|k: int| first_enum_named(self.hir.enums@, name, k)] == *ed,
            decreases ed.variants@.len() - i,
        {
            if ed.variants[i] == variant {
                assert(ed.variants@[i as int] == variant);
                assert(first_position(enum_variants(self.hir.enums@, name), variant, i as int));
                return Ok(MirOperand::Const(MirConst::I64(#[verifier::truncate] (i as i64))));
            }
            i = i + 1;
        }
        let mut m = String::from_str("enum ");
        m.append(self.name_of(name));
        m.append(" has no variant ");
        m.append(self.name_of(variant));
        Err(CompilerError::semantic(m))
    }
}


impl<'hir> MirLower<'hir> {
    /// Lower expressions left to right.
    fn lower_operands(&mut self, es: &Vec<HirExpr>) -> (r: Result<Vec<MirOperand>, CompilerError>)
        requires
            old(self).wf(),
            old(self).room(exprs_cost(es@)),
        ensures
            final(self).progressed(old(self), exprs_cost(es@)),
            agrees(old(self).symbols(), check_exprs(old(self).enums(), es@, old(self).defined()), r, final(self).defined()),
            r is Ok ==> final(self).stable_from(old(self)),
            r matches Ok(ops) ==> ops@.len() == es@.len() && operands_below(ops@, final(self).nlocals() as int),
            r is Ok ==> final(self).nlocals() == old(self).nlocals() + exprs_locals(es@),
            r matches Ok(ops) ==> (straight_exprs(es@) ==> {
                &&& final(self).current == old(self).current
                &&& final(self).var_map == old(self).var_map
                &&& final(self).nblocks() == old(self).nblocks()
                &&& final(self).blocks@[old(self).current as int].terminator == old(self).blocks@[old(self).current as int].terminator
                &&& final(self).blocks@[old(self).current as int].name == old(self).blocks@[old(self).current as int].name
                &&& final(self).nlocals() == old(self).nlocals() + exprs_temp_count(es@)
                &&& ops@ == operands_of(old(self).enums(), es@, old(self).var_map@, old(self).nlocals() as int)
                &&& exprs_emits(old(self).enums(), es@, old(self).var_map@, old(self).blocks@[old(self).current as int].stmts@,
                    final(self).blocks@[old(self).current as int].stmts@, old(self).nlocals() as int)
            }),
        decreases es@, 0int,
    {
        let ghost s0 = *self;
        let ghost c = self.current as int;
        let ghost b0 = self.blocks@[c].stmts@;
        let mut ops: Vec<MirOperand> = Vec::new();
        let mut i: usize = 0;
        proof {
            assert(es@.take(0) =~= Seq::<HirExpr>::empty());
            assert(b0.take(b0.len() as int) == b0);
        }
        while i < es.len()
            invariant
                i <= es@.len(),
                c == s0.current as int,
                b0 == s0.blocks@[c].stmts@,
                straight_exprs(es@) ==> {
                    &&& self.current == s0.current
                    &&& self.var_map == s0.var_map
                    &&& self.nblocks() == s0.nblocks()
                    &&& self.blocks@[c].terminator == s0.blocks@[c].terminator
                    &&& self.blocks@[c].name == s0.blocks@[c].name
                    &&& self.nlocals() == s0.nlocals() + exprs_temp_count(es@.take(i as int))
                    &&& ops@ == operands_of(s0.enums(), es@.take(i as int), s0.var_map@, s0.nlocals() as int)
                    &&& exprs_emits(s0.enums(), es@.take(i as int), s0.var_map@, b0, self.blocks@[c].stmts@, s0.nlocals() as int)
                },
                s0 == *old(self),
                s0.wf(),
                s0.room(exprs_cost(es@)),
                self.progressed(&s0, exprs_cost(es@.take(i as int))),
                self.stable_from(&s0),
                exprs_cost(es@.take(i as int)) <= exprs_cost(es@),
                check_exprs(s0.enums(), es@.take(i as int), s0.defined()) == Ok::<Set<SymbolId>, LowerFailure>(self.defined()),
                ops@.len() == i,
                operands_below(ops@, self.nlocals() as int),
                self.nlocals() == s0.nlocals() + exprs_locals(es@.take(i as int)),
            decreases es@.len() - i,
        {
            proof {
                assert(es@.take(i + 1).drop_last() == es@.take(i as int));
                assert(es@.take(i + 1).last() == es@[i as int]);
                lemma_exprs_cost(es@, i + 1);
            }
            let ghost s1 = *self;
            let v = match self.lower_expr(&es[i]) {
                Ok(v) => v,
                Err(e) => {
                    proof {
                        lemma_exprs_err(s0.enums(), es@, i + 1, s0.defined());
                    }
                    return Err(e);
                },
            };
            proof {
                Self::lemma_stable_chain(s0, s1, *self);
                if straight_exprs(es@) {
                    lemma_straight_exprs_take(es@, i as int);
                    let t = es@.take(i + 1);
                    assert(t.drop_last() == es@.take(i as int));
                    assert(t.last() == es@[i as int]);
                    let b1 = s1.blocks@[c].stmts@;
                    let b2 = self.blocks@[c].stmts@;
                    lemma_take_chain(b0, b1, b2);
                    assert(b2.take(b2.len() - emit_count(t.last())) == b1);
                }
            }
            ops.push(v);
            i = i + 1;
        }
        assert(es@.take(es@.len() as int) == es@);
        Ok(ops)
    }

    /// Lower struct literal field values left to right.
    fn lower_fields(&mut self, fs: &Vec<(SymbolId, Box<HirExpr>)>) -> (r: Result<Vec<(SymbolId, MirOperand)>, CompilerError>)
        requires
            old(self).wf(),
            old(self).room(fields_cost(fs@)),
        ensures
            final(self).progressed(old(self), fields_cost(fs@)),
            agrees(old(self).symbols(), check_fields(old(self).enums(), fs@, old(self).defined()), r, final(self).defined()),
            r is Ok ==> final(self).stable_from(old(self)),
            r matches Ok(ops) ==> forall|j: int| 0 <= j < ops@.len() ==> operand_below(#[trigger] ops@[j].1, final(self).nlocals() as int),
            r is Ok ==> final(self).nlocals() == old(self).nlocals() + fields_locals(fs@),
        decreases fs@, 0int,
    {
        let ghost s0 = *self;
        let mut ops: Vec<(SymbolId, MirOperand)> = Vec::new();
        let mut i: usize = 0;
        while i < fs.len()
            invariant
                i <= fs@.len(),
                s0 == *old(self),
                s0.wf(),
                s0.room(fields_cost(fs@)),
                self.progressed(&s0, fields_cost(fs@.take(i as int))),
                self.stable_from(&s0),
                fields_cost(fs@.take(i as int)) <= fields_cost(fs@),
                check_fields(s0.enums(), fs@.take(i as int), s0.defined()) == Ok::<Set<SymbolId>, LowerFailure>(self.defined()),
                forall|j: int| 0 <= j < ops@.len() ==> operand_below(#[trigger] ops@[j].1, self.nlocals() as int),
                self.nlocals() == s0.nlocals() + fields_locals(fs@.take(i as int)),
            decreases fs@.len() - i,
        {
            proof {
                assert(fs@.take(i + 1).drop_last() == fs@.take(i as int));
                assert(fs@.take(i + 1).last() == fs@[i as int]);
                lemma_fields_cost(fs@, i + 1);
                assert(decreases_to!(fs@ => fs@[i as int]));
            }
            let ghost s1 = *self;
            let v = match self.lower_expr(&fs[i].1) {
                Ok(v) => v,
                Err(e) => {
                    proof {
                        lemma_fields_err(s0.enums(), fs@, i + 1, s0.defined());
                    }
                    return Err(e);
                },
            };
            proof {
                Self::lemma_stable_chain(s0, s1, *self);
            }
            ops.push((fs[i].0, v));
            i = i + 1;
        }
        assert(fs@.take(fs@.len() as int) == fs@);
        Ok(ops)
    }

    /// A block name: the prefix and the current block count.
    fn numbered_name(&self, prefix: &str) -> (r: String)
        ensures
            r@ == prefix@ + decimal(self.blocks@.len()),
    {
        let mut n = String::from_str(prefix);
        push_wide_decimal(&mut n, self.blocks.len());
        n
    }

    /// End the block being built with a call whose result goes to a fresh
    /// local, and continue in a fresh block.
    fn emit_call(&mut self, func: DefId, args: Vec<MirOperand>, ret: HirType, prefix: &str) -> (r: LocalId)
        requires
            old(self).wf(),
            old(self).room(1),
        ensures
            final(self).progressed(old(self), 1),
            final(self).stable_from(old(self)),
            final(self).nlocals() == old(self).nlocals() + 1,
            final(self).defined() == old(self).defined(),
            r.0 < final(self).nlocals(),
            !closed(final(self).blocks@[final(self).current as int]),
            final(self).var_map == old(self).var_map,
            r.0 == old(self).nlocals(),
            final(self).current == old(self).nblocks(),
            final(self).blocks@[old(self).current as int].terminator == (MirTerminator::Call {
                func, args, destination: r, next: BlockId(old(self).nblocks() as u32) }),
    {
        let ghost s0 = *self;
        let t2 = ret.clone();
        let dest = self.new_local(ret, self.temp_symbol, false);
        self.emit(MirStmtKind::LocalDecl { local: dest, ty: t2, mutable: false });
        let ghost s1 = *self;
        let name = self.numbered_name(prefix);
        let next = self.create_block(name);
        self.finish(MirTerminator::Call { func, args, destination: dest, next });
        self.switch_to(next);
        proof {
            assert(stable(s1.blocks@, s1.current as int, self.blocks@, self.current as int));
            Self::lemma_stable_chain(s0, s1, *self);
            assert(self.defined() =~= s0.defined());
        }
        dest
    }

    /// A call: the destination local holds the callee's declared return
    /// type (the expression's type if the callee has no signature).
    fn lower_call(&mut self, func: DefId, args: Vec<MirOperand>, result_ty: &HirType) -> (r: LocalId)
        requires
            old(self).wf(),
            old(self).room(1),
        ensures
            final(self).progressed(old(self), 1),
            final(self).stable_from(old(self)),
            final(self).defined() == old(self).defined(),
            r.0 < final(self).nlocals(),
            r.0 == old(self).nlocals(),
            final(self).nlocals() == old(self).nlocals() + 1,
            final(self).var_map == old(self).var_map,
            final(self).current == old(self).nblocks(),
            final(self).blocks@[old(self).current as int].terminator == (MirTerminator::Call {
                func, args, destination: r, next: BlockId(old(self).nblocks() as u32) }),
    {
        let mut ret: Option<HirType> = None;
        let mut k = self.sigs.len();
        while k > 0
            invariant
                k <= self.sigs@.len(),
            decreases k,
        {
            k = k - 1;
            if self.sigs[k].0 == func {
                ret = Some(self.sigs[k].1.clone());
                break;
            }
        }
        let ret_ty = match ret {
            Some(t) => t,
            None => result_ty.clone(),
        };
        self.emit_call(func, args, ret_ty, "call_cont_")
    }
}


/// Like [`stable`], while the blocks in `pend` are created but not yet
/// built: each is unterminated and not the one being built.
pub open spec fn pending_ok(ob: Seq<MirBasicBlock>, oc: int, nb: Seq<MirBasicBlock>, nc: int, pend: Set<int>) -> bool {
    &&& nb.len() >= ob.len()
    &&& 0 <= oc < ob.len()
    &&& 0 <= nc < nb.len()
    &&& forall|i: int| 0 <= i < ob.len() && i != oc ==> #[trigger] nb[i] == ob[i]
    &&& forall|p: int| #[trigger] pend.contains(p) ==> ob.len() <= p < nb.len() && p != nc && !closed(nb[p])
        && nb[p].stmts@.len() == 0
    &&& forall|i: int| ob.len() <= i < nb.len() && i != nc && !pend.contains(i) ==> closed(#[trigger] nb[i])
    &&& (nc == oc || (nc >= ob.len() && closed(nb[oc])))
    &&& (closed(ob[oc]) ==> closed(nb[oc]))
}

proof fn lemma_pending_step(
    o: Seq<MirBasicBlock>,
    oc: int,
    m: Seq<MirBasicBlock>,
    mc: int,
    n: Seq<MirBasicBlock>,
    nc: int,
    pend: Set<int>,
)
    requires
        pending_ok(o, oc, m, mc, pend),
        stable(m, mc, n, nc),
        0 <= nc < n.len(),
    ensures
        pending_ok(o, oc, n, nc, pend),
{
    assert forall|i: int| 0 <= i < o.len() && i != oc implies #[trigger] n[i] == o[i] by {
        assert(m[i] == o[i]);
        assert(i != mc);
        assert(n[i] == m[i]);
    }
    assert forall|p: int| #[trigger] pend.contains(p) implies o.len() <= p < n.len() && p != nc && !closed(n[p]) by {
        assert(n[p] == m[p]);
    }
    assert forall|i: int| o.len() <= i < n.len() && i != nc && !pend.contains(i) implies closed(#[trigger] n[i]) by {
        if i < m.len() {
            if i != mc {
                assert(n[i] == m[i]);
                assert(closed(m[i]));
            }
        }
    }
    if mc != oc {
        assert(n[oc] == m[oc]);
    }
}

proof fn lemma_pending_create(
    o: Seq<MirBasicBlock>,
    oc: int,
    m: Seq<MirBasicBlock>,
    mc: int,
    n: Seq<MirBasicBlock>,
    pend: Set<int>,
)
    requires
        pending_ok(o, oc, m, mc, pend),
        n.len() == m.len() + 1,
        forall|i: int| 0 <= i < m.len() ==> #[trigger] n[i] == m[i],
        !closed(n[m.len() as int]),
        n[m.len() as int].stmts@.len() == 0,
    ensures
        pending_ok(o, oc, n, mc, pend.insert(m.len() as int)),
{
    assert forall|i: int| 0 <= i < o.len() && i != oc implies #[trigger] n[i] == o[i] by {
        assert(n[i] == m[i]);
    }
    assert forall|p: int| #[trigger] pend.insert(m.len() as int).contains(p) implies o.len() <= p < n.len() && p != mc
        && !closed(n[p]) && n[p].stmts@.len() == 0 by {
        if p != m.len() {
            assert(pend.contains(p));
            assert(n[p] == m[p]);
        }
    }
    assert forall|i: int| o.len() <= i < n.len() && i != mc && !pend.insert(m.len() as int).contains(i) implies closed(
        #[trigger] n[i],
    ) by {
        assert(n[i] == m[i]);
    }
    assert(n[oc] == m[oc]);
}

proof fn lemma_pending_switch(o: Seq<MirBasicBlock>, oc: int, m: Seq<MirBasicBlock>, mc: int, pend: Set<int>, p: int)
    requires
        pending_ok(o, oc, m, mc, pend),
        closed(m[mc]),
        pend.contains(p),
    ensures
        pending_ok(o, oc, m, p, pend.remove(p)),
{
}

proof fn lemma_pending_done(o: Seq<MirBasicBlock>, oc: int, n: Seq<MirBasicBlock>, nc: int)
    requires
        pending_ok(o, oc, n, nc, Set::empty()),
    ensures
        stable(o, oc, n, nc),
{
}

impl<'hir> MirLower<'hir> {
    pub closed spec fn pending_from(&self, old: &Self, pend: Set<int>) -> bool {
        pending_ok(old.blocks@, old.current as int, self.blocks@, self.current as int, pend)
    }

    /// Lower one statement.
    #[verifier::spinoff_prover]
    #[verifier::rlimit(80)]
    fn lower_stmt(&mut self, stmt: &HirStmt) -> (r: Result<(), CompilerError>)
        requires
            old(self).wf(),
            old(self).room(stmt_cost(*stmt)),
        ensures
            final(self).progressed(old(self), stmt_cost(*stmt)),
            agrees(old(self).symbols(), check_stmt(old(self).enums(), *stmt, old(self).defined()), r, final(self).defined()),
            r is Ok ==> final(self).stable_from(old(self)),
            r is Ok ==> final(self).nlocals() == old(self).nlocals() + stmt_locals(*stmt),
            (r is Ok && stmt.kind is Return) ==> closed(final(self).blocks@[final(self).current as int]),
            (r is Ok && straight_stmt(*stmt)) ==> {
                &&& final(self).current == old(self).current
                &&& final(self).nblocks() == old(self).nblocks()
                &&& final(self).blocks@[old(self).current as int].terminator == old(self).blocks@[old(self).current as int].terminator
                &&& final(self).blocks@[old(self).current as int].name == old(self).blocks@[old(self).current as int].name
                &&& final(self).var_map@ == stmt_vm(*stmt, old(self).var_map@, old(self).nlocals() as int)
                &&& final(self).nlocals() == old(self).nlocals() + stmt_temps(*stmt)
                &&& stmt_emits(old(self).enums(), *stmt, old(self).var_map@, old(self).nlocals() as int,
                    old(self).blocks@[old(self).current as int].stmts@, final(self).blocks@[old(self).current as int].stmts@)
            },
            stmt.kind matches HirStmtKind::Return(Some(e)) ==> (r is Ok && straight(e)
                && !closed(old(self).blocks@[old(self).current as int]) ==> {
                &&& final(self).current == old(self).current
                &&& final(self).nblocks() == old(self).nblocks()
                &&& final(self).blocks@[old(self).current as int].name == old(self).blocks@[old(self).current as int].name
                &&& emits(old(self).enums(), e, old(self).var_map@, old(self).blocks@[old(self).current as int].stmts@,
                    final(self).blocks@[old(self).current as int].stmts@, old(self).nlocals() as int)
                &&& final(self).blocks@[old(self).current as int].terminator == MirTerminator::Return(
                    Some(operand_of(old(self).enums(), e, old(self).var_map@, old(self).nlocals() as int)))
            }),
            stmt.kind matches HirStmtKind::Println(e) ==> (r is Ok ==> final(self).printed(*old(self), DefId(PRINTLN_DEF), e)),
            stmt.kind matches HirStmtKind::PrintlnStr(e) ==> (r is Ok ==> final(self).printed(*old(self), DefId(PRINTLN_STR_DEF), e)),
            stmt.kind matches HirStmtKind::Let { name, value, .. } ==> (r is Ok ==> {
                let t = local_at(old(self).nlocals() as int);
                &&& final(self).var_map@.last() == (name, t)
                &&& final(self).blocks@[final(self).current as int].stmts@.last() == MirStmt { kind: MirStmtKind::Assign {
                    local: t, rvalue: MirRvalue::Use(result_operand(old(self).enums(), value, old(self).var_map@,
                    (old(self).nlocals() + 1) as int)) } }
            }),
            (r is Ok && stmt.kind == HirStmtKind::Return(None) && !closed(old(self).blocks@[old(self).current as int])) ==> {
                &&& final(self).current == old(self).current
                &&& final(self).blocks@[old(self).current as int].terminator == MirTerminator::Return(None)
                &&& final(self).blocks@[old(self).current as int].stmts == old(self).blocks@[old(self).current as int].stmts
            },
        decreases *stmt, 1int,
    {
        let ghost s0 = *self;
        match &stmt.kind {
            HirStmtKind::Let { name, mutable, ty, value } => {
                let local_ty = match ty {
                    Some(t) => t.clone(),
                    None => value.ty.clone(),
                };
                let t2 = local_ty.clone();
                let local = self.new_local(local_ty, *name, *mutable);
                let ghost s1 = *self;
                let val = match self.lower_expr(value) {
                    Ok(v) => v,
                    Err(e) => {
                        return Err(e);
                    },
                };
                let ghost s2 = *self;
                self.bind_var(*name, local);
                self.emit(MirStmtKind::LocalDecl { local, ty: t2, mutable: *mutable });
                let ghost s3 = *self;
                self.emit(MirStmtKind::Assign { local, rvalue: MirRvalue::Use(val) });
                proof {
                    Self::lemma_stable_chain(s1, s2, s3);
                    Self::lemma_stable_chain(s1, s3, *self);
                    assert(s1.blocks == s0.blocks);
                    if straight_stmt(*stmt) {
                        let c = s0.current as int;
                        let b0 = s0.blocks@[c].stmts@;
                        let b2 = s2.blocks@[c].stmts@;
                        let b4 = self.blocks@[c].stmts@;
                        assert(model_of(t2) == model_of(let_type(*ty, *value)));
                        assert(local == local_at(s0.nlocals() as int));
                        assert(b4.take(b2.len() as int) =~= b2);
                        assert(b4.take(b0.len() as int) =~= b0) by {
                            assert(b2.take(b0.len() as int) == b0);
                        }
                    }
                }
                Ok(())
            },
            HirStmtKind::Expr(e) => match self.lower_expr(e) {
                Ok(_) => Ok(()),
                Err(err) => Err(err),
            },
            HirStmtKind::Return(opt) => {
                let operand = match opt {
                    Some(e) => match self.lower_expr(e) {
                        Ok(v) => Some(v),
                        Err(err) => {
                            return Err(err);
                        },
                    },
                    None => None,
                };
                let ghost s1 = *self;
                if !self.current_closed() {
                    self.finish(MirTerminator::Return(operand));
                }
                proof {
                    Self::lemma_stable_chain(s0, s1, *self);
                }
                Ok(())
            },
            HirStmtKind::Println(e) => {
                let v = match self.lower_expr(e) {
                    Ok(v) => v,
                    Err(err) => {
                        return Err(err);
                    },
                };
                let ghost s1 = *self;
                let args = vec![v];
                assert(args@ =~= seq![v]);
                let d = self.emit_call(DefId(PRINTLN_DEF), args, HirType::I64, "println_cont_");
                proof {
                    Self::lemma_stable_chain(s0, s1, *self);
                    assert(calls_on(self.blocks@[s1.current as int].terminator, DefId(PRINTLN_DEF), seq![v], d,
                        self.current as int));
                    assert(v == result_operand(s0.enums(), *e, s0.var_map@, s0.nlocals() as int));
                    assert(d == local_at((s0.nlocals() + locals_used(*e)) as int));
                    assert(calls_on(self.blocks@[s1.current as int].terminator, DefId(PRINTLN_DEF),
                        seq![result_operand(s0.enums(), *e, s0.var_map@, s0.nlocals() as int)],
                        local_at((s0.nlocals() + locals_used(*e)) as int), self.current as int));
                }
                Ok(())
            },
            HirStmtKind::PrintlnStr(e) => {
                let v = match self.lower_expr(e) {
                    Ok(v) => v,
                    Err(err) => {
                        return Err(err);
                    },
                };
                let ghost s1 = *self;
                let args = vec![v];
                assert(args@ =~= seq![v]);
                let d = self.emit_call(DefId(PRINTLN_STR_DEF), args, HirType::I64, "println_str_cont_");
                proof {
                    Self::lemma_stable_chain(s0, s1, *self);
                    assert(calls_on(self.blocks@[s1.current as int].terminator, DefId(PRINTLN_STR_DEF), seq![v], d,
                        self.current as int));
                    assert(v == result_operand(s0.enums(), *e, s0.var_map@, s0.nlocals() as int));
                    assert(d == local_at((s0.nlocals() + locals_used(*e)) as int));
                    assert(calls_on(self.blocks@[s1.current as int].terminator, DefId(PRINTLN_STR_DEF),
                        seq![result_operand(s0.enums(), *e, s0.var_map@, s0.nlocals() as int)],
                        local_at((s0.nlocals() + locals_used(*e)) as int), self.current as int));
                }
                Ok(())
            },
            HirStmtKind::Raise(e) => {
                let v = match self.lower_expr(e) {
                    Ok(v) => v,
                    Err(err) => {
                        return Err(err);
                    },
                };
                let ghost s1 = *self;
                let func = if matches!(e.ty, HirType::Str) {
                    DefId(PRINTLN_STR_DEF)
                } else {
                    DefId(PRINTLN_DEF)
                };
                let _ = self.emit_call(func, vec![v], HirType::I64, "raise_cont_");
                let ghost s2 = *self;
                self.finish(MirTerminator::Unreachable);
                proof {
                    assert(stable(s2.blocks@, s2.current as int, self.blocks@, self.current as int));
                    Self::lemma_stable_chain(s0, s1, s2);
                    Self::lemma_stable_chain(s0, s2, *self);
                }
                Ok(())
            },
            HirStmtKind::StructDef { .. } | HirStmtKind::EnumDef { .. } => Ok(()),
        }
    }

    /// Lower statements in order.
    fn lower_stmts(&mut self, ss: &Vec<HirStmt>) -> (r: Result<(), CompilerError>)
        requires
            old(self).wf(),
            old(self).room(stmts_cost(ss@)),
        ensures
            final(self).progressed(old(self), stmts_cost(ss@)),
            agrees(old(self).symbols(), check_stmts(old(self).enums(), ss@, old(self).defined()), r, final(self).defined()),
            r is Ok ==> final(self).stable_from(old(self)),
            r is Ok ==> final(self).nlocals() == old(self).nlocals() + stmts_locals(ss@),
            (r is Ok && forall|k: int| 0 <= k < ss@.len() ==> straight_stmt(#[trigger] ss@[k])) ==> {
                &&& final(self).current == old(self).current
                &&& final(self).nblocks() == old(self).nblocks()
                &&& final(self).blocks@[old(self).current as int].terminator == old(self).blocks@[old(self).current as int].terminator
                &&& final(self).blocks@[old(self).current as int].name == old(self).blocks@[old(self).current as int].name
                &&& final(self).var_map@ == stmts_vm(ss@, old(self).var_map@, old(self).nlocals() as int)
                &&& final(self).nlocals() == stmts_nl(ss@, old(self).nlocals() as int)
                &&& stmts_emit(old(self).enums(), ss@, old(self).var_map@, old(self).nlocals() as int,
                    old(self).blocks@[old(self).current as int].stmts@, final(self).blocks@[old(self).current as int].stmts@)
            },
        decreases ss@, 0int,
    {
        let ghost s0 = *self;
        let ghost c = self.current as int;
        let ghost sb = forall|k: int| 0 <= k < ss@.len() ==> straight_stmt(#[trigger] ss@[k]);
        let mut i: usize = 0;
        proof {
            assert(ss@.take(0) =~= Seq::<HirStmt>::empty());
        }
        while i < ss.len()
            invariant
                c == s0.current as int,
                sb == (forall|k: int| 0 <= k < ss@.len() ==> straight_stmt(#[trigger] ss@[k])),
                sb ==> {
                    &&& self.current == s0.current
                    &&& self.nblocks() == s0.nblocks()
                    &&& self.blocks@[c].terminator == s0.blocks@[c].terminator
                    &&& self.blocks@[c].name == s0.blocks@[c].name
                    &&& self.var_map@ == stmts_vm(ss@.take(i as int), s0.var_map@, s0.nlocals() as int)
                    &&& self.nlocals() == stmts_nl(ss@.take(i as int), s0.nlocals() as int)
                    &&& stmts_emit(s0.enums(), ss@.take(i as int), s0.var_map@, s0.nlocals() as int,
                        s0.blocks@[c].stmts@, self.blocks@[c].stmts@)
                },
                i <= ss@.len(),
                s0 == *old(self),
                s0.wf(),
                s0.room(stmts_cost(ss@)),
                self.progressed(&s0, stmts_cost(ss@.take(i as int))),
                self.stable_from(&s0),
                stmts_cost(ss@.take(i as int)) <= stmts_cost(ss@),
                check_stmts(s0.enums(), ss@.take(i as int), s0.defined()) == Ok::<Set<SymbolId>, LowerFailure>(self.defined()),
                self.nlocals() == s0.nlocals() + stmts_locals(ss@.take(i as int)),
            decreases ss@.len() - i,
        {
            proof {
                assert(ss@.take(i + 1).drop_last() == ss@.take(i as int));
                assert(ss@.take(i + 1).last() == ss@[i as int]);
                lemma_stmts_cost(ss@, i + 1);
            }
            let ghost s1 = *self;
            match self.lower_stmt(&ss[i]) {
                Ok(()) => {},
                Err(e) => {
                    proof {
                        lemma_stmts_err(s0.enums(), ss@, i + 1, s0.defined());
                    }
                    return Err(e);
                },
            }
            proof {
                Self::lemma_stable_chain(s0, s1, *self);
                if sb {
                    let t = ss@.take(i + 1);
                    assert(t.drop_last() == ss@.take(i as int));
                    assert(t.last() == ss@[i as int]);
                    assert(straight_stmt(ss@[i as int]));
                    lemma_stmt_emits_shape(s0.enums(), ss@[i as int], s1.var_map@, s1.nlocals() as int,
                        s1.blocks@[c].stmts@, self.blocks@[c].stmts@);
                    let after = self.blocks@[c].stmts@;
                    assert(after.take(after.len() - stmt_count(t.last())) == s1.blocks@[c].stmts@);
                }
            }
            i = i + 1;
        }
        assert(ss@.take(ss@.len() as int) == ss@);
        Ok(())
    }
}


impl<'hir> MirLower<'hir> {
    /// `while condition body`: a condition block, a body block that jumps
    /// back to it, and an exit block where building continues.
    fn lower_while(&mut self, expr: &HirExpr) -> (r: Result<(), CompilerError>)
        requires
            old(self).wf(),
            old(self).room(expr_cost(*expr)),
            expr.kind is While,
        ensures
            final(self).progressed(old(self), expr_cost(*expr)),
            agrees(old(self).symbols(), check_expr(old(self).enums(), *expr, old(self).defined()), r, final(self).defined()),
            r is Ok ==> final(self).stable_from(old(self)),
            r is Ok ==> final(self).while_shape(*old(self), *expr),
            r is Ok ==> final(self).nlocals() == old(self).nlocals() + locals_used(*expr),
            r is Ok ==> !closed(final(self).blocks@[final(self).current as int]),
        decreases *expr, 0int,
    {
        let ghost s0 = *self;
        match &expr.kind {
            HirExprKind::While { condition, body } => {
                let cond_bb = self.create_block(String::from_str("while_cond"));
                let body_bb = self.create_block(String::from_str("while_body"));
                let exit_bb = self.create_block(String::from_str("while_exit"));
                let ghost l = s0.blocks@.len() as int;
                let ghost pend = Set::<int>::empty().insert(l).insert(l + 1).insert(l + 2);
                assert(self.pending_from(&s0, pend));
                let ghost m = *self;
                let ghost sc0 = *self;
                self.finish(MirTerminator::Goto { target: cond_bb });
                proof {
                    lemma_pending_step(s0.blocks@, s0.current as int, m.blocks@, m.current as int, self.blocks@, self.current as int, pend);
                    lemma_pending_switch(s0.blocks@, s0.current as int, self.blocks@, self.current as int, pend, l);
                }
                self.switch_to(cond_bb);
                let ghost pend = pend.remove(l);
                let ghost m = *self;
                let ghost sg = *self;
                let v = match self.lower_expr(condition) {
                    Ok(v) => v,
                    Err(e) => {
                        return Err(e);
                    },
                };
                proof {
                    lemma_pending_step(s0.blocks@, s0.current as int, m.blocks@, m.current as int, self.blocks@, self.current as int, pend);
                }
                let ghost m = *self;
                let ghost sv = *self;
                self.finish(MirTerminator::SwitchInt {
                    scrutinee: v,
                    ty: HirType::Bool,
                    branches: vec![(1u64, body_bb)],
                    else_target: exit_bb,
                });
                let ghost sf = *self;
                proof {
                    lemma_pending_step(s0.blocks@, s0.current as int, m.blocks@, m.current as int, self.blocks@, self.current as int, pend);
                    lemma_pending_switch(s0.blocks@, s0.current as int, self.blocks@, self.current as int, pend, l + 1);
                    let t = self.blocks@[sv.current as int].terminator;
                    assert(t->SwitchInt_branches@ =~= seq![(1u64, BlockId((l + 1) as u32))]);
                    assert(branches_on(t, l + 1, l + 2));
                }
                self.switch_to(body_bb);
                let ghost pend = pend.remove(l + 1);
                let ghost m = *self;
                let ghost sb = *self;
                proof {
                    assert(self.blocks@[self.current as int].stmts@ =~= Seq::<MirStmt>::empty());
                }
                match self.lower_stmts(body) {
                    Ok(()) => {},
                    Err(e) => {
                        return Err(e);
                    },
                }
                proof {
                    lemma_pending_step(s0.blocks@, s0.current as int, m.blocks@, m.current as int, self.blocks@, self.current as int, pend);
                }
                let ghost m = *self;
                let ghost se = *self;
                self.ensure_terminated(cond_bb);
                proof {
                    lemma_pending_step(s0.blocks@, s0.current as int, m.blocks@, m.current as int, self.blocks@, self.current as int, pend);
                    lemma_pending_switch(s0.blocks@, s0.current as int, self.blocks@, self.current as int, pend, l + 2);
                }
                self.switch_to(exit_bb);
                proof {
                    assert(pend.remove(l + 2) =~= Set::<int>::empty());
                    lemma_pending_done(s0.blocks@, s0.current as int, self.blocks@, self.current as int);
                    let c = sv.current as int;
                    let bs = self.blocks@;
                    assert(c != l + 1 && c != l + 2);
                    assert(bs[c] == se.blocks@[c]);
                    assert(se.blocks@[c] == sf.blocks@[c]);
                    assert(bs[s0.current as int] == sg.blocks@[s0.current as int]);
                    assert(branches_on(bs[c].terminator, l + 1, l + 2));
                    if straight(**condition) {
                        assert(c == l);
                    }
                    if straight_stmts(body@) {
                        assert(se.current == l + 1);
                        assert(!closed(se.blocks@[l + 1]));
                        assert(stmts_emit(s0.enums(), body@, sb.var_map@, sb.nlocals() as int, Seq::empty(),
                            se.blocks@[l + 1].stmts@));
                        assert(bs[l + 1].stmts == se.blocks@[l + 1].stmts);
                        assert(holds_lowering(bs[l + 1].stmts@, s0.enums(), body@, (s0.nlocals() + locals_used(**condition)) as int));
                    }
                }
                Ok(())
            },
            _ => Ok(()),
        }
    }
}


impl<'hir> MirLower<'hir> {
    /// `for var in start..end body` (or `start...end`): the bounds are
    /// evaluated once into locals, the loop variable counts up from the
    /// start, and building continues in the exit block.
    #[verifier::spinoff_prover]
    #[verifier::rlimit(60)]
    fn lower_for(&mut self, expr: &HirExpr) -> (r: Result<(), CompilerError>)
        requires
            old(self).wf(),
            old(self).room(expr_cost(*expr)),
            expr.kind is For,
        ensures
            final(self).progressed(old(self), expr_cost(*expr)),
            agrees(old(self).symbols(), check_expr(old(self).enums(), *expr, old(self).defined()), r, final(self).defined()),
            r is Ok ==> final(self).stable_from(old(self)),
            r is Ok ==> final(self).for_shape(*old(self), *expr),
            r is Ok ==> final(self).nlocals() == old(self).nlocals() + locals_used(*expr),
            r is Ok ==> !closed(final(self).blocks@[final(self).current as int]),
        decreases *expr, 0int,
    {
        let ghost s0 = *self;
        match &expr.kind {
            HirExprKind::For { var, iter, body } => {
                let (start, end, is_inclusive) = match &iter.kind {
                    HirExprKind::Range { start, end, is_inclusive } => (start, end, *is_inclusive),
                    _ => {
                        return Err(CompilerError::semantic(String::from_str("for loop iterator must be a range expression")));
                    },
                };
                proof {
                    assert(decreases_to!(*expr => expr.kind));
                    assert(decreases_to!(expr.kind => *iter));
                    assert(decreases_to!(*iter => iter.kind));
                }
                let sv = match self.lower_expr(start) {
                    Ok(v) => v,
                    Err(e) => {
                        return Err(e);
                    },
                };
                let ghost s1 = *self;
                let start_local = self.assign_temp(HirType::I64, MirRvalue::Use(sv));
                let ghost s2 = *self;
                let ev = match self.lower_expr(end) {
                    Ok(v) => v,
                    Err(e) => {
                        return Err(e);
                    },
                };
                let ghost s3 = *self;
                let end_local = self.assign_temp(HirType::I64, MirRvalue::Use(ev));
                let loop_var = self.new_local(HirType::I64, *var, true);
                let ghost sm = *self;
                proof {
                    Self::lemma_stable_chain(s0, s1, s2);
                    Self::lemma_stable_chain(s0, s2, s3);
                    assert(self.stable_from(&s0));
                }
                let cond_bb = self.create_block(String::from_str("for_cond"));
                let body_bb = self.create_block(String::from_str("for_body"));
                let exit_bb = self.create_block(String::from_str("for_exit"));
                let ghost l = sm.blocks@.len() as int;
                let ghost pend = Set::<int>::empty().insert(l).insert(l + 1).insert(l + 2);
                assert(self.pending_from(&sm, pend));
                let ghost m = *self;
                self.emit(MirStmtKind::LocalDecl { local: loop_var, ty: HirType::I64, mutable: true });
                self.emit(MirStmtKind::Assign { local: loop_var, rvalue: MirRvalue::Use(MirOperand::Local(start_local)) });
                self.finish(MirTerminator::Goto { target: cond_bb });
                proof {
                    assert(stable(m.blocks@, m.current as int, self.blocks@, self.current as int));
                    lemma_pending_step(sm.blocks@, sm.current as int, m.blocks@, m.current as int, self.blocks@, self.current as int, pend);
                    lemma_pending_switch(sm.blocks@, sm.current as int, self.blocks@, self.current as int, pend, l);
                }
                self.switch_to(cond_bb);
                let ghost pend = pend.remove(l);
                let ghost m = *self;
                let ghost sg = *self;
                let test_op = if is_inclusive {
                    MirBinOp::Le
                } else {
                    MirBinOp::Lt
                };
                let cond_local = self.assign_temp(
                    HirType::Bool,
                    MirRvalue::Binary { op: test_op, lhs: MirOperand::Local(loop_var), rhs: MirOperand::Local(end_local) },
                );
                self.finish(MirTerminator::SwitchInt {
                    scrutinee: MirOperand::Local(cond_local),
                    ty: HirType::Bool,
                    branches: vec![(1u64, body_bb)],
                    else_target: exit_bb,
                });
                let ghost sf = *self;
                proof {
                    let t = self.blocks@[l].terminator;
                    assert(t->SwitchInt_branches@ =~= seq![(1u64, BlockId((l + 1) as u32))]);
                    assert(branches_on(t, l + 1, l + 2));
                    assert(stable(m.blocks@, m.current as int, self.blocks@, self.current as int));
                    lemma_pending_step(sm.blocks@, sm.current as int, m.blocks@, m.current as int, self.blocks@, self.current as int, pend);
                    lemma_pending_switch(sm.blocks@, sm.current as int, self.blocks@, self.current as int, pend, l + 1);
                }
                self.switch_to(body_bb);
                let ghost pend = pend.remove(l + 1);
                self.bind_var(*var, loop_var);
                let ghost m = *self;
                proof {
                    assert(self.blocks@[self.current as int].stmts@ =~= Seq::<MirStmt>::empty());
                }
                match self.lower_stmts(body) {
                    Ok(()) => {},
                    Err(e) => {
                        return Err(e);
                    },
                }
                let ghost m2 = *self;
                proof {
                    assert(self.blocks@[l] == sf.blocks@[l]);
                }
                self.emit(MirStmtKind::Assign {
                    local: loop_var,
                    rvalue: MirRvalue::Binary {
                        op: MirBinOp::Add,
                        lhs: MirOperand::Local(loop_var),
                        rhs: MirOperand::Const(MirConst::I64(1)),
                    },
                });
                let ghost m3 = *self;
                self.ensure_terminated(cond_bb);
                proof {
                    Self::lemma_stable_chain(m, m2, m3);
                    Self::lemma_stable_chain(m, m3, *self);
                    lemma_pending_step(sm.blocks@, sm.current as int, m.blocks@, m.current as int, self.blocks@, self.current as int, pend);
                    lemma_pending_switch(sm.blocks@, sm.current as int, self.blocks@, self.current as int, pend, l + 2);
                }
                self.switch_to(exit_bb);
                proof {
                    assert(pend.remove(l + 2) =~= Set::<int>::empty());
                    lemma_pending_done(sm.blocks@, sm.current as int, self.blocks@, self.current as int);
                    Self::lemma_stable_chain(s0, sm, *self);
                    let bs = self.blocks@;
                    assert(bs[l] == sf.blocks@[l]);
                    assert(sf.blocks@[l].stmts@.len() == 2);
                    if straight_stmts(body@) {
                        assert(m2.current == l + 1);
                        assert(!closed(m3.blocks@[l + 1]));
                    }
                    assert(self.current == l + 2);
                    assert(l >= s0.blocks@.len());
                    let cs = bs[l].stmts@;
                    assert(cs[1].kind matches MirStmtKind::Assign { local, rvalue } && local == cond_local);
                    assert(bs[l].terminator->SwitchInt_scrutinee == MirOperand::Local(cond_local));
                    assert(branches_on(bs[l].terminator, l + 1, l + 2));
                    assert(sg.blocks@[l].stmts@.len() == 0);
                    assert(cs[1] == MirStmt { kind: MirStmtKind::Assign { local: cond_local, rvalue: MirRvalue::Binary {
                        op: test_op, lhs: MirOperand::Local(loop_var), rhs: MirOperand::Local(end_local) } } });
                    if straight_stmts(body@) {
                        assert(bs[l + 1].stmts@ == m3.blocks@[l + 1].stmts@);
                        assert(m3.blocks@[l + 1].stmts@.last() == MirStmt { kind: MirStmtKind::Assign { local: loop_var,
                            rvalue: MirRvalue::Binary { op: MirBinOp::Add, lhs: MirOperand::Local(loop_var),
                            rhs: MirOperand::Const(MirConst::I64(1)) } } });
                        assert(m3.blocks@[l + 1].stmts@.drop_last() =~= m2.blocks@[l + 1].stmts@);
                        assert(stmts_emit(s0.enums(), body@, m.var_map@, m.nlocals() as int, Seq::empty(),
                            m2.blocks@[l + 1].stmts@));
                        assert(holds_lowering(bs[l + 1].stmts@.drop_last(), s0.enums(), body@, m.nlocals() as int));
                    }
                    assert(for_lowered(bs, l, is_inclusive, body@));
                }
                Ok(())
            },
            _ => Ok(()),
        }
    }

    /// `if` / `elif` / `else`: a block per arm body and per `elif`
    /// condition, an `else` block, and an end block where building
    /// continues; each arm that does not end by itself jumps to the end.
    #[verifier::spinoff_prover]
    #[verifier::rlimit(100)]
    fn lower_if(&mut self, expr: &HirExpr) -> (r: Result<(), CompilerError>)
        requires
            old(self).wf(),
            old(self).room(expr_cost(*expr)),
            expr.kind is If,
        ensures
            final(self).progressed(old(self), expr_cost(*expr)),
            agrees(old(self).symbols(), check_expr(old(self).enums(), *expr, old(self).defined()), r, final(self).defined()),
            r is Ok ==> final(self).stable_from(old(self)),
            r is Ok ==> final(self).if_shape(*old(self), *expr),
            r is Ok ==> final(self).nlocals() == old(self).nlocals() + locals_used(*expr),
            r is Ok ==> !closed(final(self).blocks@[final(self).current as int]),
        decreases *expr, 0int,
    {
        let ghost s0 = *self;
        match &expr.kind {
            HirExprKind::If { condition, then_branch, elif_branches, else_branch } => {
                let ghost l = s0.blocks@.len() as int;
                let n = elif_branches.len();
                let then_bb = self.create_block(String::from_str("if_then"));
                proof {
                    lemma_stable_refl(s0.blocks@, s0.current as int);
                    assert(pending_ok(s0.blocks@, s0.current as int, s0.blocks@, s0.current as int, Set::empty()));
                    lemma_pending_create(s0.blocks@, s0.current as int, s0.blocks@, s0.current as int, self.blocks@, Set::empty());
                }
                let ghost m = *self;
                let end_bb = self.create_block(String::from_str("if_end"));
                proof {
                    lemma_pending_create(s0.blocks@, s0.current as int, m.blocks@, m.current as int, self.blocks@, Set::empty().insert(l));
                    assert(Set::<int>::empty().insert(l).insert(l + 1) =~= Set::new(|p: int| l <= p < l + 2 + 2 * 0));
                }
                let mut elif_conds: Vec<BlockId> = Vec::new();
                let mut elif_bodies: Vec<BlockId> = Vec::new();
                let mut i: usize = 0;
                while i < n
                    invariant
                        i <= n,
                        n == elif_branches@.len(),
                        s0 == *old(self),
                        s0.wf(),
                        s0.room(expr_cost(*expr)),
                        expr.kind == (HirExprKind::If {
                            condition: *condition,
                            then_branch: *then_branch,
                            elif_branches: *elif_branches,
                            else_branch: *else_branch,
                        }),
                        l == s0.blocks@.len(),
                        self.wf(),
                        self.same_context(&s0),
                        self.locals == s0.locals,
                        self.var_map == s0.var_map,
                        self.current == s0.current,
                        self.blocks@.len() == l + 2 + 2 * i,
                        then_bb.0 == l,
                        end_bb.0 == l + 1,
                        elif_conds@.len() == i,
                        elif_bodies@.len() == i,
                        forall|j: int| 0 <= j < i ==> (#[trigger] elif_conds@[j]).0 == l + 2 + 2 * j,
                        forall|j: int| 0 <= j < i ==> (#[trigger] elif_bodies@[j]).0 == l + 3 + 2 * j,
                        self.pending_from(&s0, Set::new(|p: int| l <= p < l + 2 + 2 * i)),
                    decreases n - i,
                {
                    let ghost pend = Set::new(|p: int| l <= p < l + 2 + 2 * i);
                    let mut nm = String::from_str("elif");
                    push_wide_decimal(&mut nm, i);
                    nm.append("_cond");
                    let ghost m = *self;
                    let c = self.create_block(nm);
                    proof {
                        lemma_pending_create(s0.blocks@, s0.current as int, m.blocks@, m.current as int, self.blocks@, pend);
                    }
                    let ghost pend = pend.insert(l + 2 + 2 * i);
                    let mut nm2 = String::from_str("elif");
                    push_wide_decimal(&mut nm2, i);
                    nm2.append("_body");
                    let ghost m = *self;
                    let b = self.create_block(nm2);
                    proof {
                        lemma_pending_create(s0.blocks@, s0.current as int, m.blocks@, m.current as int, self.blocks@, pend);
                        assert(pend.insert(l + 3 + 2 * i) =~= Set::new(|p: int| l <= p < l + 2 + 2 * (i + 1)));
                    }
                    elif_conds.push(c);
                    elif_bodies.push(b);
                    i = i + 1;
                }
                let ghost m = *self;
                let else_bb = self.create_block(String::from_str("if_else"));
                let ghost pend = Set::new(|p: int| l <= p < l + 3 + 2 * n);
                proof {
                    lemma_pending_create(s0.blocks@, s0.current as int, m.blocks@, m.current as int, self.blocks@, Set::new(|p: int| l <= p < l + 2 + 2 * n));
                    assert(Set::new(|p: int| l <= p < l + 2 + 2 * n).insert(l + 2 + 2 * n) =~= pend);
                }
                let ghost m = *self;
                let ghost sc = *self;
                let cond_val = match self.lower_expr(condition) {
                    Ok(v) => v,
                    Err(e) => {
                        return Err(e);
                    },
                };
                proof {
                    lemma_pending_step(s0.blocks@, s0.current as int, m.blocks@, m.current as int, self.blocks@, self.current as int, pend);
                }
                let next_cond = if n > 0 {
                    elif_conds[0]
                } else {
                    else_bb
                };
                let ghost m = *self;
                self.finish(MirTerminator::SwitchInt {
                    scrutinee: cond_val,
                    ty: HirType::Bool,
                    branches: vec![(1u64, then_bb)],
                    else_target: next_cond,
                });
                proof {
                    lemma_pending_step(s0.blocks@, s0.current as int, m.blocks@, m.current as int, self.blocks@, self.current as int, pend);
                    lemma_pending_switch(s0.blocks@, s0.current as int, self.blocks@, self.current as int, pend, l);
                    let t = self.blocks@[m.current as int].terminator;
                    assert(t->SwitchInt_branches@ =~= seq![(1u64, BlockId(l as u32))]);
                    assert(branches_on(t, if_true(l, 0), if_false(l, n as int, 0)));
                }
                let ghost c0 = self.current as int;
                let ghost t0 = self.blocks@[c0].terminator;
                assert(pend.contains(l));
                self.switch_to(then_bb);
                let ghost pend = pend.remove(l);
                let ghost m = *self;
                let ghost mut fz: Seq<(int, MirBasicBlock)> = Seq::empty();
                proof {
                    lemma_frozen_push(self.blocks@, self.current as int, fz, c0);
                    fz = fz.push((c0, self.blocks@[c0]));
                }
                let ghost ma = *self;
                proof {
                    assert(self.blocks@[self.current as int].stmts@ =~= Seq::<MirStmt>::empty());
                }
                match self.lower_stmts(then_branch) {
                    Ok(()) => {},
                    Err(e) => {
                        return Err(e);
                    },
                }
                let ghost m2 = *self;
                self.ensure_terminated(end_bb);
                proof {
                    if straight_stmts(then_branch@) {
                        assert(stmts_emit(s0.enums(), then_branch@, ma.var_map@, ma.nlocals() as int, Seq::empty(),
                            self.blocks@[ma.current as int].stmts@));
                        assert(holds_lowering(self.blocks@[ma.current as int].stmts@, s0.enums(), then_branch@,
                            arm_nl(s0.nlocals() as int, **condition, then_branch@, elif_branches@, 0)));
                    }
                }
                proof {
                    lemma_frozen_stable(m.blocks@, m.current as int, m2.blocks@, m2.current as int, fz);
                    lemma_frozen_stable(m2.blocks@, m2.current as int, self.blocks@, self.current as int, fz);
                    Self::lemma_stable_chain(m, m2, *self);
                    lemma_pending_step(s0.blocks@, s0.current as int, m.blocks@, m.current as int, self.blocks@, self.current as int, pend);
                    lemma_elifs_cost(elif_branches@, 0);
                    assert(elif_branches@.take(0) =~= Seq::<(HirExpr, Vec<HirStmt>)>::empty());
                    assert(pend =~= Set::new(|p: int| p == l + 1 || (l + 2 + 2 * 0 <= p < l + 3 + 2 * n)));
                }
                let ghost d_then = self.defined();
                let mut i: usize = 0;
                while i < n
                    invariant
                        i <= n,
                        n == elif_branches@.len(),
                        s0 == *old(self),
                        s0.wf(),
                        s0.room(expr_cost(*expr)),
                        expr.kind == (HirExprKind::If {
                            condition: *condition,
                            then_branch: *then_branch,
                            elif_branches: *elif_branches,
                            else_branch: *else_branch,
                        }),
                        l == s0.blocks@.len(),
                        then_bb.0 == l,
                        end_bb.0 == l + 1,
                        else_bb.0 == l + 2 + 2 * n,
                        self.blocks@.len() >= l + 3 + 2 * n,
                        elif_conds@.len() == n,
                        elif_bodies@.len() == n,
                        forall|j: int| 0 <= j < n ==> (#[trigger] elif_conds@[j]).0 == l + 2 + 2 * j,
                        forall|j: int| 0 <= j < n ==> (#[trigger] elif_bodies@[j]).0 == l + 3 + 2 * j,
                        self.pending_from(&s0, Set::new(|p: int| p == l + 1 || (l + 2 + 2 * i <= p < l + 3 + 2 * n))),
                        closed(self.blocks@[self.current as int]),
                        self.progressed(&s0, (3 + 2 * n + expr_cost(**condition) + stmts_cost(then_branch@) + elifs_cost(
                            elif_branches@.take(i as int),
                        )) as nat),
                        elifs_cost(elif_branches@.take(i as int)) <= elifs_cost(elif_branches@),
                        check_expr(s0.enums(), **condition, s0.defined()) matches Ok(d1) && check_stmts(
                            s0.enums(),
                            then_branch@,
                            d1,
                        ) == Ok::<Set<SymbolId>, LowerFailure>(d_then),
                        check_elifs(s0.enums(), elif_branches@.take(i as int), d_then) == Ok::<Set<SymbolId>, LowerFailure>(
                            self.defined(),
                        ),
                        frozen(self.blocks@, self.current as int, fz),
                        fz.len() == 1 + 2 * i,
                        forall|k: int| 0 <= k <= i ==> branches_on((#[trigger] fz[2 * k]).1.terminator, if_true(l, k), if_false(l, n as int, k)),
                        forall|k: int| 0 <= k < i && straight_stmts(if_arm(then_branch@, elif_branches@, k))
                            ==> (#[trigger] fz[2 * k + 1]).0 == if_true(l, k)
                            && fz[2 * k + 1].1.terminator == (MirTerminator::Goto { target: BlockId((l + 1) as u32) }),
                        straight_stmts(if_arm(then_branch@, elif_branches@, i as int)) ==> self.current == if_true(l, i as int)
                            && goes_to(self.blocks@[self.current as int].terminator, l + 1),
                        fz[0].0 == c0 && fz[0].1.terminator == t0,
                        straight(**condition) ==> c0 == s0.current,
                        t0->SwitchInt_scrutinee == result_operand(s0.enums(), **condition, s0.var_map@, s0.nlocals() as int),
                        self.nlocals() == elif_test_nl(s0.nlocals() as int, **condition, then_branch@, elif_branches@, i as int),
                        forall|k: int| 1 <= k <= i ==> tests_value_of((#[trigger] fz[2 * k]).1.terminator, s0.enums(), elif_branches@[k - 1].0,
                            elif_test_nl(s0.nlocals() as int, **condition, then_branch@, elif_branches@, k - 1)),
                        straight_stmts(if_arm(then_branch@, elif_branches@, i as int)) ==> holds_lowering(
                            self.blocks@[self.current as int].stmts@, s0.enums(), if_arm(then_branch@, elif_branches@, i as int),
                            arm_nl(s0.nlocals() as int, **condition, then_branch@, elif_branches@, i as int)),
                        forall|k: int| 0 <= k < i && straight_stmts(if_arm(then_branch@, elif_branches@, k)) ==> holds_lowering(
                            (#[trigger] fz[2 * k + 1]).1.stmts@, s0.enums(), if_arm(then_branch@, elif_branches@, k),
                            arm_nl(s0.nlocals() as int, **condition, then_branch@, elif_branches@, k)),
                    decreases n - i,
                {
                    let ghost pend = Set::new(|p: int| p == l + 1 || (l + 2 + 2 * i <= p < l + 3 + 2 * n));
                    proof {
                        assert(elif_branches@.take(i + 1).drop_last() == elif_branches@.take(i as int));
                        assert(elif_branches@.take(i + 1).last() == elif_branches@[i as int]);
                        lemma_elifs_cost(elif_branches@, i + 1);
                        assert(decreases_to!(*expr => expr.kind));
                        assert(decreases_to!(expr.kind => *elif_branches));
                        assert(decreases_to!(*elif_branches => elif_branches@));
                        assert(decreases_to!(elif_branches@ => elif_branches@[i as int]));
                        lemma_pending_switch(s0.blocks@, s0.current as int, self.blocks@, self.current as int, pend, l + 2 + 2 * i);
                    }
                    assert(pend.contains(l + 2 + 2 * i));
                    assert(elif_conds@[i as int].0 == l + 2 + 2 * i);
                    let ghost pc = self.current as int;
                    let ghost pt = self.blocks@[pc].terminator;
                    let ghost before_sw = *self;
                    self.switch_to(elif_conds[i]);
                    let ghost pend = pend.remove(l + 2 + 2 * i);
                    let ghost m = *self;
                    proof {
                        lemma_frozen_switch(before_sw.blocks@, before_sw.current as int, self.current as int, fz);
                        lemma_frozen_push(self.blocks@, self.current as int, fz, pc);
                        fz = fz.push((pc, self.blocks@[pc]));
                    }
                    let v = match self.lower_expr(&elif_branches[i].0) {
                        Ok(v) => v,
                        Err(e) => {
                            proof {
                                lemma_elifs_err(s0.enums(), elif_branches@, i + 1, d_then);
                            }
                            return Err(e);
                        },
                    };
                    proof {
                        lemma_pending_step(s0.blocks@, s0.current as int, m.blocks@, m.current as int, self.blocks@, self.current as int, pend);
                        lemma_frozen_stable(m.blocks@, m.current as int, self.blocks@, self.current as int, fz);
                    }
                    let elif_else = if i + 1 < n {
                        elif_conds[i + 1]
                    } else {
                        else_bb
                    };
                    assert(elif_else.0 < self.blocks@.len());
                    assert(elif_bodies@[i as int].0 < self.blocks@.len());
                    let ghost m = *self;
                    self.finish(MirTerminator::SwitchInt {
                        scrutinee: v,
                        ty: HirType::Bool,
                        branches: vec![(1u64, elif_bodies[i])],
                        else_target: elif_else,
                    });
                    proof {
                        lemma_pending_step(s0.blocks@, s0.current as int, m.blocks@, m.current as int, self.blocks@, self.current as int, pend);
                        lemma_pending_switch(s0.blocks@, s0.current as int, self.blocks@, self.current as int, pend, l + 3 + 2 * i);
                        lemma_frozen_stable(m.blocks@, m.current as int, self.blocks@, self.current as int, fz);
                        let t = self.blocks@[m.current as int].terminator;
                        assert(t->SwitchInt_branches@ =~= seq![(1u64, BlockId((l + 3 + 2 * i) as u32))]);
                        assert(branches_on(t, if_true(l, i + 1), if_false(l, n as int, i + 1)));
                    }
                    let ghost ci = self.current as int;
                    let ghost ti = self.blocks@[ci].terminator;
                    assert(pend.contains(l + 3 + 2 * i));
                    assert(elif_bodies@[i as int].0 == l + 3 + 2 * i);
                    let ghost before_sw = *self;
                    self.switch_to(elif_bodies[i]);
                    let ghost pend = pend.remove(l + 3 + 2 * i);
                    let ghost m = *self;
                    proof {
                        lemma_frozen_switch(before_sw.blocks@, before_sw.current as int, self.current as int, fz);
                        lemma_frozen_push(self.blocks@, self.current as int, fz, ci);
                        fz = fz.push((ci, self.blocks@[ci]));
                    }
                    let ghost ma = *self;
                    proof {
                        assert(self.blocks@[self.current as int].stmts@ =~= Seq::<MirStmt>::empty());
                    }
                    match self.lower_stmts(&elif_branches[i].1) {
                        Ok(()) => {},
                        Err(e) => {
                            proof {
                                lemma_elifs_err(s0.enums(), elif_branches@, i + 1, d_then);
                            }
                            return Err(e);
                        },
                    }
                    let ghost m2 = *self;
                    self.ensure_terminated(end_bb);
                    proof {
                        assert(if_arm(then_branch@, elif_branches@, i + 1) == elif_branches@[i as int].1@);
                        if straight_stmts(elif_branches@[i as int].1@) {
                            assert(stmts_emit(s0.enums(), elif_branches@[i as int].1@, ma.var_map@, ma.nlocals() as int, Seq::empty(),
                                self.blocks@[ma.current as int].stmts@));
                            assert(holds_lowering(self.blocks@[ma.current as int].stmts@, s0.enums(), elif_branches@[i as int].1@,
                                arm_nl(s0.nlocals() as int, **condition, then_branch@, elif_branches@, i + 1)));
                        }
                    }
                    proof {
                        lemma_frozen_stable(m.blocks@, m.current as int, m2.blocks@, m2.current as int, fz);
                        lemma_frozen_stable(m2.blocks@, m2.current as int, self.blocks@, self.current as int, fz);
                        Self::lemma_stable_chain(m, m2, *self);
                        lemma_pending_step(s0.blocks@, s0.current as int, m.blocks@, m.current as int, self.blocks@, self.current as int, pend);
                        assert(pend =~= Set::new(|p: int| p == l + 1 || (l + 2 + 2 * (i + 1) <= p < l + 3 + 2 * n)));
                    }
                    i = i + 1;
                }
                assert(elif_branches@.take(n as int) == elif_branches@);
                let ghost pend = Set::new(|p: int| p == l + 1 || (l + 2 + 2 * n <= p < l + 3 + 2 * n));
                proof {
                    lemma_pending_switch(s0.blocks@, s0.current as int, self.blocks@, self.current as int, pend, l + 2 + 2 * n);
                }
                assert(pend.contains(l + 2 + 2 * n));
                let ghost pc = self.current as int;
                let ghost pt = self.blocks@[pc].terminator;
                let ghost before_sw = *self;
                self.switch_to(else_bb);
                let ghost pend = pend.remove(l + 2 + 2 * n);
                let ghost m = *self;
                proof {
                    lemma_frozen_switch(before_sw.blocks@, before_sw.current as int, self.current as int, fz);
                    lemma_frozen_push(self.blocks@, self.current as int, fz, pc);
                    fz = fz.push((pc, self.blocks@[pc]));
                    assert(fz[2 * n + 1] == (pc, self.blocks@[pc]));
                }
                let ghost fz_end = fz;
                let ghost ma = *self;
                proof {
                    assert(self.blocks@[self.current as int].stmts@ =~= Seq::<MirStmt>::empty());
                }
                match else_branch {
                    Some(b) => {
                        match self.lower_stmts(b) {
                            Ok(()) => {},
                            Err(e) => {
                                return Err(e);
                            },
                        }
                    },
                    None => {},
                }
                let ghost m2 = *self;
                self.ensure_terminated(end_bb);
                proof {
                    if else_branch is Some {
                        lemma_frozen_stable(m.blocks@, m.current as int, m2.blocks@, m2.current as int, fz);
                        Self::lemma_stable_chain(m, m2, *self);
                    }
                    match else_branch {
                        Some(b) => {
                            if straight_stmts(b@) {
                                assert(stmts_emit(s0.enums(), b@, ma.var_map@, ma.nlocals() as int, Seq::empty(),
                                    self.blocks@[ma.current as int].stmts@));
                                assert(holds_lowering(self.blocks@[ma.current as int].stmts@, s0.enums(), b@,
                                    elif_test_nl(s0.nlocals() as int, **condition, then_branch@, elif_branches@, n as int)));
                            }
                        },
                        None => {},
                    }
                    lemma_frozen_stable(m2.blocks@, m2.current as int, self.blocks@, self.current as int, fz);
                    lemma_pending_step(s0.blocks@, s0.current as int, m.blocks@, m.current as int, self.blocks@, self.current as int, pend);
                    lemma_pending_switch(s0.blocks@, s0.current as int, self.blocks@, self.current as int, pend, l + 1);
                }
                assert(pend.contains(l + 1));
                self.switch_to(end_bb);
                proof {
                    assert(pend.remove(l + 1) =~= Set::<int>::empty());
                    lemma_pending_done(s0.blocks@, s0.current as int, self.blocks@, self.current as int);
                    let bs = self.blocks@;
                    let nn = n as int;
                    assert forall|k: int| 0 <= k <= nn && straight_stmts(if_arm(then_branch@, elif_branches@, k))
                        implies holds_lowering(bs[#[trigger] if_true(l, k)].stmts@, s0.enums(), if_arm(then_branch@, elif_branches@, k),
                            arm_nl(s0.nlocals() as int, **condition, then_branch@, elif_branches@, k)) by {
                        assert(fz[2 * k + 1].0 == if_true(l, k));
                        assert(bs[fz[2 * k + 1].0] == fz[2 * k + 1].1);
                    }
                    assert forall|k: int| 0 <= k <= nn && straight_stmts(if_arm(then_branch@, elif_branches@, k))
                        implies goes_to(bs[#[trigger] if_true(l, k)].terminator, l + 1) by {
                        assert(fz[2 * k + 1].0 == if_true(l, k));
                        assert(bs[fz[2 * k + 1].0] == fz[2 * k + 1].1);
                    }
                    assert(fz[0].0 == c0 && fz[0].1.terminator == t0);
                    if straight(**condition) {
                        assert(bs[c0] == fz[0].1);
                        assert(t0->SwitchInt_scrutinee == cond_val);
                        assert(sc.var_map == s0.var_map);
                        assert(sc.locals == s0.locals);
                        assert(sc.nlocals() == s0.nlocals());
                        assert(cond_val == operand_of(sc.enums(), **condition, sc.var_map@, sc.nlocals() as int));
                        assert(sc.enums() == s0.enums());
                        assert(c0 == s0.current as int);
                        assert(bs[s0.current as int].terminator->SwitchInt_scrutinee == cond_val);
                    }
                    if (else_branch matches Some(b) ==> straight_stmts(b@)) {
                        assert(m2.current == l + 2 + 2 * n);
                        assert(!closed(m2.blocks@[l + 2 + 2 * n]));
                    }
                    assert(self.current == l + 1);
                    let l2 = s0.nblocks() as int;
                    let n2 = elif_branches@.len() as int;
                    assert(l2 == l && n2 == nn);
                    assert forall|k: int| 0 <= k <= n2 implies #[trigger] has_switch(bs, if_true(l2, k), if_false(l2, n2, k)) by {
                        assert(branches_on(fz[2 * k].1.terminator, if_true(l, k), if_false(l, nn, k)));
                        assert(bs[fz[2 * k].0] == fz[2 * k].1);
                        assert(branches_on(bs[fz[2 * k].0].terminator, if_true(l, k), if_false(l, nn, k)));
                    }
                    assert(bs[fz[0].0] == fz[0].1);
                    assert(branches_on(bs[c0].terminator, l, if_false(l, nn, 0)));
                    assert(bs[c0].terminator->SwitchInt_scrutinee == result_operand(s0.enums(), **condition, s0.var_map@,
                        s0.nlocals() as int));
                    assert forall|k: int| 1 <= k <= n2 implies #[trigger] has_test(bs, if_true(l2, k), if_false(l2, n2, k), s0.enums(),
                        elif_branches@[k - 1].0, elif_test_nl(s0.nlocals() as int, **condition, then_branch@, elif_branches@, k - 1)) by {
                        assert(branches_on(fz[2 * k].1.terminator, if_true(l, k), if_false(l, nn, k)));
                        assert(bs[fz[2 * k].0] == fz[2 * k].1);
                        assert(branches_on(bs[fz[2 * k].0].terminator, if_true(l, k), if_false(l, nn, k)));
                        assert(tests_value_of(bs[fz[2 * k].0].terminator, s0.enums(), elif_branches@[k - 1].0,
                            elif_test_nl(s0.nlocals() as int, **condition, then_branch@, elif_branches@, k - 1)));
                    }
                    assert(straight(**condition) ==> branches_on(bs[s0.current as int].terminator, l, if_false(l, nn, 0)));
                    assert(straight(**condition) ==> bs[s0.current as int].terminator->SwitchInt_scrutinee == operand_of(s0.enums(),
                        **condition, s0.var_map@, s0.nlocals() as int));
                    assert((else_branch matches Some(b) ==> straight_stmts(b@)) ==> goes_to(bs[l + 2 + 2 * nn].terminator, l + 1));
                }
                Ok(())
            },
            _ => Ok(()),
        }
    }
}


// ---------------------------------------------------------------------------
// Lowered functions pass the MIR checks
// ---------------------------------------------------------------------------

/// Blocks numbered by position, naming only existing blocks and locals.
pub open spec fn blocks_ok(bs: Seq<MirBasicBlock>, nl: int) -> bool {
    forall|i: int| 0 <= i < bs.len() ==> block_ok(#[trigger] bs[i], i, bs.len() as int, nl)
}

/// Locals numbered by position.
pub open spec fn locals_numbered(ls: Seq<MirLocal>) -> bool {
    forall|i: int| 0 <= i < ls.len() ==> (#[trigger] ls[i]).id == LocalId(i as u32)
}

proof fn lemma_has_block(valid: Seq<MirBasicBlock>, nl: int, t: BlockId)
    requires
        blocks_ok(valid, nl),
        t.0 < valid.len(),
    ensures
        has_block(valid, t),
{
    assert(block_ok(valid[t.0 as int], t.0 as int, valid.len() as int, nl));
    assert(valid[t.0 as int].id == t);
}

proof fn lemma_has_local(ls: Seq<MirLocal>, l: LocalId)
    requires
        locals_numbered(ls),
        l.0 < ls.len(),
        ls.len() <= u32::MAX,
    ensures
        has_local(ls, l),
{
    assert(ls[l.0 as int].id == LocalId(l.0 as u32));
}

proof fn lemma_no_unterminated(f: Seq<char>, bs: Seq<MirBasicBlock>)
    requires
        forall|i: int| 0 <= i < bs.len() ==> closed(#[trigger] bs[i]),
    ensures
        crate::mir::verify::unterminated_errors(f, bs) =~= Seq::empty(),
    decreases bs.len(),
{
    if bs.len() > 0 {
        assert(closed(bs[bs.len() - 1]));
        lemma_no_unterminated(f, bs.drop_last());
    }
}

proof fn lemma_no_branch_errors(f: Seq<char>, name: Seq<char>, valid: Seq<MirBasicBlock>, nl: int, br: Seq<(u64, BlockId)>)
    requires
        blocks_ok(valid, nl),
        forall|j: int| 0 <= j < br.len() ==> (#[trigger] br[j]).1.0 < valid.len(),
    ensures
        crate::mir::verify::branch_errors(f, name, valid, br) =~= Seq::empty(),
    decreases br.len(),
{
    if br.len() > 0 {
        assert(br[br.len() - 1].1.0 < valid.len());
        lemma_has_block(valid, nl, br.last().1);
        lemma_no_branch_errors(f, name, valid, nl, br.drop_last());
    }
}

proof fn lemma_no_dangling(f: Seq<char>, valid: Seq<MirBasicBlock>, nl: int, bs: Seq<MirBasicBlock>)
    requires
        blocks_ok(valid, nl),
        forall|i: int| 0 <= i < bs.len() ==> targets_below((#[trigger] bs[i]).terminator, valid.len() as int),
    ensures
        crate::mir::verify::dangling_target_errors(f, valid, bs) =~= Seq::empty(),
    decreases bs.len(),
{
    if bs.len() > 0 {
        let b = bs[bs.len() - 1];
        assert(targets_below(b.terminator, valid.len() as int));
        match b.terminator {
            MirTerminator::Goto { target } => lemma_has_block(valid, nl, target),
            MirTerminator::SwitchInt { branches, else_target, .. } => {
                lemma_has_block(valid, nl, else_target);
                lemma_no_branch_errors(f, b.name@, valid, nl, branches@);
            },
            MirTerminator::Call { next, .. } => lemma_has_block(valid, nl, next),
            _ => {},
        }
        lemma_no_dangling(f, valid, nl, bs.drop_last());
    }
}

proof fn lemma_no_operand_errors(f: Seq<char>, name: Seq<char>, ls: Seq<MirLocal>, ops: Seq<MirOperand>)
    requires
        locals_numbered(ls),
        ls.len() <= u32::MAX,
        operands_below(ops, ls.len() as int),
    ensures
        crate::mir::verify::operand_errors(f, name, ls, ops) =~= Seq::empty(),
    decreases ops.len(),
{
    if ops.len() > 0 {
        let o = ops[ops.len() - 1];
        assert(o matches MirOperand::Local(l) ==> l.0 < ls.len());
        match o {
            MirOperand::Local(l) => lemma_has_local(ls, l),
            _ => {},
        }
        assert forall|j: int| 0 <= j < ops.drop_last().len() implies (#[trigger] ops.drop_last()[j] matches MirOperand::Local(
            l,
        ) ==> l.0 < ls.len()) by {
            assert(ops.drop_last()[j] == ops[j]);
        }
        lemma_no_operand_errors(f, name, ls, ops.drop_last());
    }
}

proof fn lemma_no_stmt_errors(f: Seq<char>, name: Seq<char>, ls: Seq<MirLocal>, ss: Seq<MirStmt>)
    requires
        locals_numbered(ls),
        ls.len() <= u32::MAX,
        forall|k: int| 0 <= k < ss.len() ==> operands_below(stmt_operands_spec(#[trigger] ss[k]), ls.len() as int),
    ensures
        crate::mir::verify::stmts_errors(f, name, ls, ss) =~= Seq::empty(),
    decreases ss.len(),
{
    if ss.len() > 0 {
        assert(operands_below(stmt_operands_spec(ss[ss.len() - 1]), ls.len() as int));
        lemma_no_operand_errors(f, name, ls, stmt_operands_spec(ss.last()));
        lemma_no_stmt_errors(f, name, ls, ss.drop_last());
    }
}

proof fn lemma_no_local_errors(f: Seq<char>, ls: Seq<MirLocal>, valid: Seq<MirBasicBlock>, bs: Seq<MirBasicBlock>)
    requires
        locals_numbered(ls),
        ls.len() <= u32::MAX,
        forall|i: int| 0 <= i < bs.len() ==> block_ok(#[trigger] bs[i], i, valid.len() as int, ls.len() as int),
    ensures
        crate::mir::verify::undefined_local_errors(f, ls, bs) =~= Seq::empty(),
    decreases bs.len(),
{
    if bs.len() > 0 {
        let b = bs[bs.len() - 1];
        assert(block_ok(b, bs.len() - 1, valid.len() as int, ls.len() as int));
        lemma_no_stmt_errors(f, b.name@, ls, b.stmts@);
        lemma_no_local_errors(f, ls, valid, bs.drop_last());
    }
}


proof fn lemma_no_param_errors(f: Seq<char>, ls: Seq<MirLocal>, ps: Seq<LocalId>)
    requires
        locals_numbered(ls),
        ls.len() <= u32::MAX,
        forall|k: int| 0 <= k < ps.len() ==> (#[trigger] ps[k]).0 < ls.len(),
    ensures
        crate::mir::verify::param_errors(f, ls, ps) =~= Seq::empty(),
    decreases ps.len(),
{
    if ps.len() > 0 {
        assert(ps[ps.len() - 1].0 < ls.len());
        lemma_has_local(ls, ps.last());
        lemma_no_param_errors(f, ls, ps.drop_last());
    }
}

/// The parameter names of a function.
pub open spec fn param_names(params: Seq<(SymbolId, HirType)>) -> Set<SymbolId> {
    Set::new(|s: SymbolId| exists|k: int| 0 <= k < params.len() && (#[trigger] params[k]).0 == s)
}

/// Lowering a function's body with its parameters defined.
pub open spec fn check_function(enums: Seq<EnumDef>, f: HirFunction) -> Result<Set<SymbolId>, LowerFailure> {
    check_stmts(enums, f.body@, param_names(f.params@))
}

impl<'hir> MirLower<'hir> {
    /// A lowerer that has built nothing yet.
    pub closed spec fn is_fresh(&self) -> bool {
        &&& self.blocks@.len() == 0
        &&& self.locals@.len() == 0
        &&& self.var_map@.len() == 0
        &&& self.current == 0
    }

    pub closed spec fn program(&self) -> &'hir HirProgram {
        self.hir
    }

    pub closed spec fn function(&self) -> &'hir HirFunction {
        self.func
    }

    /// A lowerer for one function of `hir`; `sigs` gives the declared
    /// return type of each callee.
    pub fn new(hir: &'hir HirProgram, func: &'hir HirFunction, sigs: &'hir [(DefId, HirType)]) -> (r: MirLower<'hir>)
        requires
            hir.symbols@.contains(""@) || hir.symbols@.len() < u32::MAX,
        ensures
            r.is_fresh(),
            r.program() == hir,
            r.function() == func,
    {
        let mut symbols = hir.symbols.clone();
        let temp_symbol = symbols.intern("");
        MirLower {
            hir,
            func,
            sigs,
            blocks: Vec::new(),
            current: 0,
            locals: Vec::new(),
            var_map: Vec::new(),
            temp_symbol,
        }
    }

    /// Open the entry block and make each parameter a local, in order.
    fn start(&mut self) -> (r: (Vec<LocalId>, Vec<(SymbolId, HirType)>))
        requires
            old(self).is_fresh(),
            old(self).func.params@.len() < u32::MAX,
        ensures
            final(self).wf(),
            final(self).same_context(old(self)),
            final(self).current == 0,
            final(self).nblocks() == 1,
            !closed(final(self).blocks@[0]),
            final(self).nlocals() == old(self).func.params@.len(),
            final(self).defined() == param_names(old(self).func.params@),
            final(self).var_map@ == param_bindings(old(self).func.params@),
            final(self).blocks@[0].stmts@ == Seq::<MirStmt>::empty(),
            final(self).blocks@[0].name@ == "entry"@,
            r.0@.len() == old(self).func.params@.len(),
            forall|j: int| 0 <= j < r.0@.len() ==> (#[trigger] r.0@[j]).0 == j,
            r.1@.len() == old(self).func.params@.len(),
            forall|j: int| 0 <= j < r.1@.len() ==> (#[trigger] r.1@[j]).0 == old(self).func.params@[j].0
                && model_of(r.1@[j].1) == model_of(old(self).func.params@[j].1),
    {
        let f = self.func;
        let entry = MirBasicBlock {
            id: BlockId(0),
            name: String::from_str("entry"),
            stmts: Vec::new(),
            terminator: MirTerminator::Unreachable,
        };
        self.blocks.push(entry);
        self.current = 0;
        proof {
            assert(self.var_map@.len() == 0);
            assert(self.var_map@ =~= param_bindings(f.params@.take(0)));
            assert(block_ok(self.blocks@[0], 0, 1, 0));
            assert(self.defined() =~= Set::<SymbolId>::empty());
            assert(param_names(f.params@.take(0)) =~= Set::<SymbolId>::empty());
        }
        let ghost s_entry = *self;
        let np = f.params.len();
        let mut param_locals: Vec<LocalId> = Vec::new();
        let mut param_types: Vec<(SymbolId, HirType)> = Vec::new();
        let mut k: usize = 0;
        while k < np
            invariant
                k <= np,
                np == f.params@.len(),
                np < u32::MAX,
                f == self.func,
                self.wf(),
                self.same_context(&s_entry),
                self.blocks == s_entry.blocks,
                self.current == 0,
                self.nlocals() == k,
                self.nblocks() == 1,
                !closed(self.blocks@[0]),
                param_locals@.len() == k,
                forall|j: int| 0 <= j < k ==> (#[trigger] param_locals@[j]).0 == j,
                param_types@.len() == k,
                forall|j: int| 0 <= j < k ==> (#[trigger] param_types@[j]).0 == f.params@[j].0
                    && model_of(param_types@[j].1) == model_of(f.params@[j].1),
                self.defined() == param_names(f.params@.take(k as int)),
                self.var_map@ == param_bindings(f.params@.take(k as int)),
                self.blocks@[0].stmts@ == Seq::<MirStmt>::empty(),
                self.blocks@[0].name@ == "entry"@,
            decreases np - k,
        {
            let sym = f.params[k].0;
            let ty = &f.params[k].1;
            let lid = self.new_local(ty.clone(), sym, false);
            self.bind_var(sym, lid);
            param_locals.push(lid);
            param_types.push((sym, ty.clone()));
            proof {
                assert(param_bindings(f.params@.take(k + 1)) =~= param_bindings(f.params@.take(k as int)).push((sym, lid)));
                assert(param_names(f.params@.take(k + 1)) =~= param_names(f.params@.take(k as int)).insert(sym)) by {
                    assert(f.params@.take(k + 1)[k as int] == f.params@[k as int]);
                    assert forall|s: SymbolId| param_names(f.params@.take(k + 1)).contains(s) implies param_names(
                        f.params@.take(k as int),
                    ).insert(sym).contains(s) by {
                        let j = choose|j: int| 0 <= j < k + 1 && (#[trigger] f.params@.take(k + 1)[j]).0 == s;
                        if j < k {
                            assert(f.params@.take(k as int)[j] == f.params@.take(k + 1)[j]);
                        }
                    }
                    assert forall|s: SymbolId| param_names(f.params@.take(k as int)).contains(s) implies param_names(
                        f.params@.take(k + 1),
                    ).contains(s) by {
                        let j = choose|j: int| 0 <= j < k && (#[trigger] f.params@.take(k as int)[j]).0 == s;
                        assert(f.params@.take(k + 1)[j] == f.params@.take(k as int)[j]);
                    }
                }
            }
            k = k + 1;
        }
        assert(f.params@.take(np as int) == f.params@);
        (param_locals, param_types)
    }

    /// The last statement of a body: a final expression is returned; a
    /// body that does not end by itself returns nothing.
    fn lower_tail(&mut self, last: &HirStmt) -> (r: Result<(), CompilerError>)
        requires
            old(self).wf(),
            old(self).room(stmt_cost(*last)),
        ensures
            final(self).progressed(old(self), stmt_cost(*last)),
            agrees(old(self).symbols(), check_stmt(old(self).enums(), *last, old(self).defined()), r, final(self).defined()),
            r is Ok ==> final(self).stable_from(old(self)),
            r is Ok ==> closed(final(self).blocks@[final(self).current as int]),
            returned_expr(*last) matches Some(e) ==> (r is Ok && straight(e)
                && !closed(old(self).blocks@[old(self).current as int]) ==> {
                &&& final(self).current == old(self).current
                &&& final(self).nblocks() == old(self).nblocks()
                &&& final(self).blocks@[old(self).current as int].name == old(self).blocks@[old(self).current as int].name
                &&& emits(old(self).enums(), e, old(self).var_map@, old(self).blocks@[old(self).current as int].stmts@,
                    final(self).blocks@[old(self).current as int].stmts@, old(self).nlocals() as int)
                &&& final(self).blocks@[old(self).current as int].terminator == MirTerminator::Return(
                    Some(operand_of(old(self).enums(), e, old(self).var_map@, old(self).nlocals() as int)))
            }),
    {
        let ghost s1 = *self;
        match &last.kind {
            HirStmtKind::Expr(e) => {
                let v = match self.lower_expr(e) {
                    Ok(v) => v,
                    Err(err) => {
                        return Err(err);
                    },
                };
                let ghost s2 = *self;
                if !self.current_closed() {
                    self.finish(MirTerminator::Return(Some(v)));
                }
                proof {
                    Self::lemma_stable_chain(s1, s2, *self);
                }
                Ok(())
            },
            HirStmtKind::Return(_) => self.lower_stmt(last),
            _ => {
                match self.lower_stmt(last) {
                    Ok(()) => {},
                    Err(err) => {
                        return Err(err);
                    },
                }
                let ghost s2 = *self;
                if !self.current_closed() {
                    self.finish(MirTerminator::Return(None));
                }
                proof {
                    Self::lemma_stable_chain(s1, s2, *self);
                }
                Ok(())
            },
        }
    }

    /// Lower a function body; afterwards every block has its terminator.
    fn lower_body(&mut self, body: &Vec<HirStmt>) -> (r: Result<(), CompilerError>)
        requires
            old(self).wf(),
            old(self).room(stmts_cost(body@)),
        ensures
            final(self).progressed(old(self), stmts_cost(body@)),
            agrees(old(self).symbols(), check_stmts(old(self).enums(), body@, old(self).defined()), r, final(self).defined()),
            r is Ok ==> final(self).stable_from(old(self)),
            r is Ok ==> closed(final(self).blocks@[final(self).current as int]),
            (r is Ok && straight_body(body@) && !closed(old(self).blocks@[old(self).current as int])) ==> {
                &&& final(self).current == old(self).current
                &&& final(self).nblocks() == old(self).nblocks()
                &&& final(self).blocks@[old(self).current as int].name == old(self).blocks@[old(self).current as int].name
                &&& returned_expr(body@.last()) matches Some(e) && {
                    let fin = final(self).blocks@[old(self).current as int].stmts@;
                    let mid = fin.take(fin.len() - emit_count(e));
                    let init = body@.drop_last();
                    let vm1 = stmts_vm(init, old(self).var_map@, old(self).nlocals() as int);
                    let n1 = stmts_nl(init, old(self).nlocals() as int);
                    &&& fin.len() >= emit_count(e)
                    &&& stmts_emit(old(self).enums(), init, old(self).var_map@, old(self).nlocals() as int,
                        old(self).blocks@[old(self).current as int].stmts@, mid)
                    &&& emits(old(self).enums(), e, vm1, mid, fin, n1)
                    &&& final(self).blocks@[old(self).current as int].terminator
                        == MirTerminator::Return(Some(operand_of(old(self).enums(), e, vm1, n1)))
                }
            },
    {
        let ghost s0 = *self;
        let ghost c = self.current as int;
        let ghost sb = straight_body(body@) && !closed(self.blocks@[c]);
        let ghost vm0 = self.var_map@;
        let ghost n0 = self.nlocals() as int;
        let ghost b0 = self.blocks@[c].stmts@;
        let ghost en = self.enums();
        let nb = body.len();
        if nb == 0 {
            self.finish(MirTerminator::Return(None));
            assert(body@ =~= Seq::<HirStmt>::empty());
            return Ok(());
        }
        let mut i: usize = 0;
        while i < nb - 1
            invariant
                i <= nb - 1,
                nb == body@.len(),
                s0 == *old(self),
                s0.wf(),
                s0.room(stmts_cost(body@)),
                self.progressed(&s0, stmts_cost(body@.take(i as int))),
                self.stable_from(&s0),
                stmts_cost(body@.take(i as int)) <= stmts_cost(body@),
                check_stmts(s0.enums(), body@.take(i as int), s0.defined()) == Ok::<Set<SymbolId>, LowerFailure>(self.defined()),
                sb == (straight_body(body@) && !closed(s0.blocks@[c])),
                c == s0.current as int,
                vm0 == s0.var_map@,
                n0 == s0.nlocals() as int,
                b0 == s0.blocks@[c].stmts@,
                en == s0.enums(),
                sb ==> {
                    &&& self.current == s0.current
                    &&& self.nblocks() == s0.nblocks()
                    &&& self.blocks@[c].terminator == s0.blocks@[c].terminator
                    &&& self.blocks@[c].name == s0.blocks@[c].name
                    &&& self.var_map@ == stmts_vm(body@.take(i as int), vm0, n0)
                    &&& self.nlocals() == stmts_nl(body@.take(i as int), n0)
                    &&& stmts_emit(en, body@.take(i as int), vm0, n0, b0, self.blocks@[c].stmts@)
                },
            decreases nb - 1 - i,
        {
            proof {
                assert(body@.take(i + 1).drop_last() == body@.take(i as int));
                assert(body@.take(i + 1).last() == body@[i as int]);
                lemma_stmts_cost(body@, i + 1);
            }
            let ghost s1 = *self;
            match self.lower_stmt(&body[i]) {
                Ok(()) => {},
                Err(e) => {
                    proof {
                        lemma_stmts_err(s0.enums(), body@, i + 1, s0.defined());
                    }
                    return Err(e);
                },
            }
            proof {
                Self::lemma_stable_chain(s0, s1, *self);
                if sb {
                    let t = body@.take(i + 1);
                    assert(t.drop_last() == body@.take(i as int));
                    assert(t.last() == body@[i as int]);
                    assert(straight_stmt(body@[i as int]));
                    lemma_stmt_emits_shape(en, body@[i as int], s1.var_map@, s1.nlocals() as int,
                        s1.blocks@[c].stmts@, self.blocks@[c].stmts@);
                    let after = self.blocks@[c].stmts@;
                    assert(after.take(after.len() - stmt_count(t.last())) == s1.blocks@[c].stmts@);
                }
            }
            i = i + 1;
        }
        proof {
            assert(body@.take(nb - 1) == body@.drop_last());
            assert(body@.last() == body@[nb - 1]);
        }
        let ghost s1 = *self;
        match self.lower_tail(&body[nb - 1]) {
            Ok(()) => {},
            Err(e) => {
                return Err(e);
            },
        }
        proof {
            Self::lemma_stable_chain(s0, s1, *self);
            if sb {
                let after = self.blocks@[c].stmts@;
                let e = returned_expr(body@.last())->Some_0;
                assert(after.take(after.len() - emit_count(e)) == s1.blocks@[c].stmts@);
            }
        }
        Ok(())
    }

    /// Lower the function: parameters become the first locals, the body is
    /// lowered statement by statement, and a final expression statement
    /// becomes the returned value.
    pub fn lower_function(&mut self) -> (r: Result<MirFunction, CompilerError>)
        requires
            old(self).is_fresh(),
            function_cost(*old(self).function()) <= u32::MAX,
        ensures
            agrees(old(self).program().symbols@, check_function(old(self).program().enums@, *old(self).function()), r, final(self).defined()),
            r matches Ok(mf) ==> {
                &&& mf.def_id == old(self).function().def_id
                &&& mf.name == old(self).function().name
                &&& mf.start_block == BlockId(0)
                &&& mf.param_locals@.len() == old(self).function().params@.len()
                &&& mf.params@.len() == old(self).function().params@.len()
                &&& forall|k: int| 0 <= k < mf.params@.len() ==> (#[trigger] mf.params@[k]).0 == old(self).function().params@[k].0
                    && model_of(mf.params@[k].1) == model_of(old(self).function().params@[k].1)
                &&& model_of(mf.return_type) == model_of(old(self).function().return_type)
                &&& straight_body(old(self).function().body@) ==> straight_lowered(old(self).program().enums@,
                    *old(self).function(), mf)
                &&& forall|k: int| 0 <= k < mf.param_locals@.len() ==> (#[trigger] mf.param_locals@[k]).0 == k
                &&& mf.locals@.len() >= mf.param_locals@.len()
                &&& forall|name: Seq<char>| #[trigger] function_errors(name, mf) == Seq::<crate::mir::verify::ErrorView>::empty()
                &&& switches_test_true(mf)
            },
    {
        let f = self.func;
        let (param_locals, param_types) = self.start();
        let ghost s_params = *self;
        match self.lower_body(&f.body) {
            Ok(()) => {},
            Err(e) => {
                return Err(e);
            },
        }
        proof {
            let bs = self.blocks@;
            assert(stable(s_params.blocks@, 0, bs, self.current as int));
            assert forall|i: int| 0 <= i < bs.len() implies closed(#[trigger] bs[i]) by {
                if i == 0 && self.current != 0 {
                    assert(closed(bs[0]));
                }
            }
        }
        let mut blocks: Vec<MirBasicBlock> = Vec::new();
        core::mem::swap(&mut blocks, &mut self.blocks);
        let mut locals: Vec<MirLocal> = Vec::new();
        core::mem::swap(&mut locals, &mut self.locals);
        let mf = MirFunction {
            def_id: f.def_id,
            name: f.name,
            params: param_types,
            return_type: f.return_type.clone(),
            locals,
            param_locals,
            blocks,
            start_block: BlockId(0),
        };
        proof {
            assert(blocks_ok(mf.blocks@, mf.locals@.len() as int));
            assert forall|name: Seq<char>| #[trigger] function_errors(name, mf) == Seq::<crate::mir::verify::ErrorView>::empty() by {
                lemma_no_unterminated(name, mf.blocks@);
                lemma_no_dangling(name, mf.blocks@, mf.locals@.len() as int, mf.blocks@);
                lemma_no_local_errors(name, mf.locals@, mf.blocks@, mf.blocks@);
                lemma_no_param_errors(name, mf.locals@, mf.param_locals@);
                lemma_has_block(mf.blocks@, mf.locals@.len() as int, BlockId(0));
            }
        }
        Ok(mf)
    }
}


pub(crate) proof fn lemma_no_program_errors(syms: Seq<Seq<char>>, fs: Seq<MirFunction>)
    requires
        forall|i: int, name: Seq<char>| 0 <= i < fs.len() ==> #[trigger] function_errors(name, fs[i]) == Seq::<
            crate::mir::verify::ErrorView,
        >::empty(),
    ensures
        crate::mir::verify::functions_errors(syms, fs) =~= Seq::empty(),
    decreases fs.len(),
{
    if fs.len() > 0 {
        let name = crate::mir::verify::reported_name(syms, fs.last().name);
        assert(function_errors(name, fs[fs.len() - 1]) == Seq::<crate::mir::verify::ErrorView>::empty());
        assert forall|i: int, name: Seq<char>| 0 <= i < fs.drop_last().len() implies #[trigger] function_errors(
            name,
            fs.drop_last()[i],
        ) == Seq::<crate::mir::verify::ErrorView>::empty() by {
            assert(fs.drop_last()[i] == fs[i]);
        }
        lemma_no_program_errors(syms, fs.drop_last());
    }
}

/// `i` is the first function of `fs` whose check fails.
pub open spec fn first_failure(enums: Seq<EnumDef>, fs: Seq<HirFunction>, i: int) -> bool {
    &&& 0 <= i < fs.len()
    &&& check_function(enums, fs[i]) is Err
    &&& forall|j: int| 0 <= j < i ==> (#[trigger] check_function(enums, fs[j])) is Ok
}

/// Whether the check failed with the failure `e` reports.
pub open spec fn reported_by(symbols: Seq<Seq<char>>, chk: Result<Set<SymbolId>, LowerFailure>, e: CompilerError) -> bool {
    chk matches Err(f) && reports(symbols, f, e)
}

/// A MIR function has the parameters, in order, and the return type of a
/// HIR function, each type up to its model.
pub open spec fn same_signature(mf: MirFunction, f: HirFunction) -> bool {
    &&& mf.params@.len() == f.params@.len()
    &&& forall|k: int| 0 <= k < mf.params@.len() ==> (#[trigger] mf.params@[k]).0 == f.params@[k].0
        && model_of(mf.params@[k].1) == model_of(f.params@[k].1)
    &&& model_of(mf.return_type) == model_of(f.return_type)
}

/// What lowering a whole program gives: success exactly when every
/// function's check passes, else the failure of the first function whose
/// check fails; on success one MIR function per function, with its id,
/// name, parameters and return type (and, for a body of straight
/// statements, its one block exactly), copies of the program's symbols,
/// structs and enums, no MIR check failing, and every switch a test of a
/// condition that is taken on true.
pub open spec fn lowering_outcome(hir: HirProgram, r: Result<MirProgram, CompilerError>) -> bool {
    &&& (r is Ok <==> forall|i: int| 0 <= i < hir.functions@.len() ==> (#[trigger] check_function(hir.enums@, hir.functions@[i])) is Ok)
    &&& r matches Err(e) ==> exists|i: int|
        first_failure(hir.enums@, hir.functions@, i) && reported_by(hir.symbols@, check_function(hir.enums@, #[trigger] hir.functions@[i]), e)
    &&& r matches Ok(p) ==> {
        &&& p.functions@.len() == hir.functions@.len()
        &&& forall|i: int| 0 <= i < p.functions@.len() ==> (#[trigger] p.functions@[i]).def_id == hir.functions@[i].def_id
            && p.functions@[i].name == hir.functions@[i].name
        &&& forall|i: int| 0 <= i < p.functions@.len() ==> same_signature(#[trigger] p.functions@[i], hir.functions@[i])
        &&& forall|i: int| 0 <= i < p.functions@.len() && straight_body(hir.functions@[i].body@)
            ==> straight_lowered(hir.enums@, hir.functions@[i], #[trigger] p.functions@[i])
        &&& p.symbols@ == hir.symbols@
        &&& p.structs@.len() == hir.structs@.len()
        &&& forall|i: int| 0 <= i < hir.structs@.len() ==> same_struct(#[trigger] p.structs@[i], hir.structs@[i])
        &&& p.enums@.len() == hir.enums@.len()
        &&& forall|i: int| 0 <= i < hir.enums@.len() ==> same_enum(#[trigger] p.enums@[i], hir.enums@[i])
        &&& crate::mir::verify::program_errors(p).len() == 0
        &&& forall|i: int| 0 <= i < p.functions@.len() ==> switches_test_true(#[trigger] p.functions@[i])
    }
}

/// Lower every function of a program, in order; the first failure stops
/// lowering.  A program lowered successfully passes every MIR check.
pub fn lower_program(hir: &HirProgram) -> (r: Result<MirProgram, CompilerError>)
    requires
        hir.symbols@.contains(""@) || hir.symbols@.len() < u32::MAX,
        forall|i: int| 0 <= i < hir.functions@.len() ==> function_cost(#[trigger] hir.functions@[i]) <= u32::MAX,
    ensures
        lowering_outcome(*hir, r),
{
    proof {
        use_type_invariant(&hir.symbols);
    }
    let mut sigs: Vec<(DefId, HirType)> = Vec::new();
    let mut i: usize = 0;
    while i < hir.functions.len()
        invariant
            i <= hir.functions@.len(),
        decreases hir.functions@.len() - i,
    {
        let f = &hir.functions[i];
        sigs.push((f.def_id, f.return_type.clone()));
        i = i + 1;
    }
    let mut funcs: Vec<MirFunction> = Vec::new();
    let mut i: usize = 0;
    while i < hir.functions.len()
        invariant
            i <= hir.functions@.len(),
            hir.symbols.wf(),
            hir.symbols@.contains(""@) || hir.symbols@.len() < u32::MAX,
            forall|k: int| 0 <= k < hir.functions@.len() ==> function_cost(#[trigger] hir.functions@[k]) <= u32::MAX,
            funcs@.len() == i,
            forall|k: int| 0 <= k < i ==> (#[trigger] check_function(hir.enums@, hir.functions@[k])) is Ok,
            forall|k: int| 0 <= k < i ==> (#[trigger] funcs@[k]).def_id == hir.functions@[k].def_id
                && funcs@[k].name == hir.functions@[k].name,
            forall|k: int| 0 <= k < i ==> same_signature(#[trigger] funcs@[k], hir.functions@[k]),
            forall|k: int| 0 <= k < i && straight_body(hir.functions@[k].body@)
                ==> straight_lowered(hir.enums@, hir.functions@[k], #[trigger] funcs@[k]),
            forall|k: int, name: Seq<char>| 0 <= k < i ==> #[trigger] function_errors(name, funcs@[k]) == Seq::<
                crate::mir::verify::ErrorView,
            >::empty(),
            forall|k: int| 0 <= k < i ==> switches_test_true(#[trigger] funcs@[k]),
        decreases hir.functions@.len() - i,
    {
        let mut lower = MirLower::new(hir, &hir.functions[i], sigs.as_slice());
        let mf = match lower.lower_function() {
            Ok(mf) => mf,
            Err(e) => {
                assert(first_failure(hir.enums@, hir.functions@, i as int));
                return Err(e);
            },
        };
        funcs.push(mf);
        proof {
            assert forall|k: int, name: Seq<char>| 0 <= k < i + 1 implies #[trigger] function_errors(name, funcs@[k]) == Seq::<
                crate::mir::verify::ErrorView,
            >::empty() by {
                if k < i {
                    assert(function_errors(name, funcs@[k]) == Seq::<crate::mir::verify::ErrorView>::empty());
                } else {
                    assert(funcs@[k] == mf);
                }
            }
            assert forall|k: int| 0 <= k < i + 1 implies switches_test_true(#[trigger] funcs@[k]) by {
                if k == i {
                    assert(funcs@[k] == mf);
                }
            }
        }
        i = i + 1;
    }
    let mut structs: Vec<StructDef> = Vec::new();
    let mut i: usize = 0;
    while i < hir.structs.len()
        invariant
            i <= hir.structs@.len(),
            structs@.len() == i,
            forall|j: int| 0 <= j < i ==> same_struct(#[trigger] structs@[j], hir.structs@[j]),
        decreases hir.structs@.len() - i,
    {
        structs.push(copy_struct_def(&hir.structs[i]));
        i = i + 1;
    }
    let mut enums: Vec<EnumDef> = Vec::new();
    let mut i: usize = 0;
    while i < hir.enums.len()
        invariant
            i <= hir.enums@.len(),
            enums@.len() == i,
            forall|j: int| 0 <= j < i ==> same_enum(#[trigger] enums@[j], hir.enums@[j]),
        decreases hir.enums@.len() - i,
    {
        enums.push(copy_enum_def(&hir.enums[i]));
        i = i + 1;
    }
    let p = MirProgram { functions: funcs, symbols: hir.symbols.clone(), structs, enums };
    proof {
        lemma_no_program_errors(p.symbols@, p.functions@);
    }
    Ok(p)
}

} // verus!
