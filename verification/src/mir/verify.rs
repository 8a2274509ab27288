//! Structural checks of a MIR program, run before code generation.
//!
//! For each function, in order: every block has a real terminator; every
//! block a terminator names exists; every local an operand names exists;
//! every parameter local exists; the start block exists.  Failures are
//! reported as values, all of them, in that order.
use vstd::prelude::*;
use crate::error::CompilerError;
use crate::mir::{
    BlockId, LocalId, MirBasicBlock, MirFunction, MirLocal, MirOperand, MirProgram, MirRvalue, MirStmt,
    MirStmtKind, MirTerminator,
};
use crate::text::{decimal, push_decimal, push_wide_decimal};

verus! {

/// A single verification failure: a message and, where known, the function
/// and block it was found in.
#[derive(Debug, Clone)]
pub struct MirVerifyError {
    pub message: String,
    pub location: Option<(String, String)>,
}

/// A failure as plain text: the message and the (function, block) names.
pub type ErrorView = (Seq<char>, Option<(Seq<char>, Seq<char>)>);

pub open spec fn error_view(e: MirVerifyError) -> ErrorView {
    (e.message@, match e.location {
        Some((f, b)) => Some((f@, b@)),
        None => None,
    })
}

pub open spec fn errors_view(s: Seq<MirVerifyError>) -> Seq<ErrorView> {
    s.map_values(|e: MirVerifyError| error_view(e))
}

/// How a block id is printed: `BlockId(3)`.
pub open spec fn block_text(b: BlockId) -> Seq<char> {
    "BlockId("@ + decimal(b.0 as nat) + ")"@
}

/// How a local id is printed: `LocalId(3)`.
pub open spec fn local_text(l: LocalId) -> Seq<char> {
    "LocalId("@ + decimal(l.0 as nat) + ")"@
}

pub open spec fn has_block(blocks: Seq<MirBasicBlock>, id: BlockId) -> bool {
    exists|i: int| 0 <= i < blocks.len() && (#[trigger] blocks[i]).id == id
}

pub open spec fn has_local(locals: Seq<MirLocal>, id: LocalId) -> bool {
    exists|i: int| 0 <= i < locals.len() && (#[trigger] locals[i]).id == id
}

/// Check 1: blocks still holding the `Unreachable` placeholder.
pub open spec fn unterminated_errors(f: Seq<char>, bs: Seq<MirBasicBlock>) -> Seq<ErrorView>
    decreases bs.len(),
{
    if bs.len() == 0 {
        Seq::empty()
    } else {
        let b = bs.last();
        unterminated_errors(f, bs.drop_last()) + if b.terminator is Unreachable {
            seq![("block `"@ + b.name@ + "` has no terminator (Unreachable placeholder remains)"@, Some((f, b.name@)))]
        } else {
            Seq::empty()
        }
    }
}

/// Check 2, for the branches of a `SwitchInt`.
pub open spec fn branch_errors(f: Seq<char>, name: Seq<char>, valid: Seq<MirBasicBlock>, branches: Seq<(u64, BlockId)>) -> Seq<
    ErrorView,
>
    decreases branches.len(),
{
    if branches.len() == 0 {
        Seq::empty()
    } else {
        let t = branches.last().1;
        branch_errors(f, name, valid, branches.drop_last()) + if !has_block(valid, t) {
            seq![("SwitchInt branch references non-existent block "@ + block_text(t), Some((f, name)))]
        } else {
            Seq::empty()
        }
    }
}

/// Check 2 for one block: the blocks its terminator names must exist.
pub open spec fn terminator_errors(f: Seq<char>, valid: Seq<MirBasicBlock>, b: MirBasicBlock) -> Seq<ErrorView> {
    let loc = Some((f, b.name@));
    match b.terminator {
        MirTerminator::Goto { target } => if !has_block(valid, target) {
            seq![("Goto references non-existent block "@ + block_text(target), loc)]
        } else {
            Seq::empty()
        },
        MirTerminator::SwitchInt { branches, else_target, .. } => (if !has_block(valid, else_target) {
            seq![("SwitchInt else_target references non-existent block "@ + block_text(else_target), loc)]
        } else {
            Seq::empty()
        }) + branch_errors(f, b.name@, valid, branches@),
        MirTerminator::Call { next, .. } => if !has_block(valid, next) {
            seq![("Call next references non-existent block "@ + block_text(next), loc)]
        } else {
            Seq::empty()
        },
        _ => Seq::empty(),
    }
}

/// Check 2 over a sequence of blocks.
pub open spec fn dangling_target_errors(f: Seq<char>, valid: Seq<MirBasicBlock>, bs: Seq<MirBasicBlock>) -> Seq<ErrorView>
    decreases bs.len(),
{
    if bs.len() == 0 {
        Seq::empty()
    } else {
        dangling_target_errors(f, valid, bs.drop_last()) + terminator_errors(f, valid, bs.last())
    }
}

/// The operands an rvalue reads, in order; a field access, index or length
/// reads its local.
pub open spec fn rvalue_operands_spec(rv: MirRvalue) -> Seq<MirOperand> {
    match rv {
        MirRvalue::Use(op) => seq![op],
        MirRvalue::Binary { lhs, rhs, .. } => seq![lhs, rhs],
        MirRvalue::Unary { operand, .. } => seq![operand],
        MirRvalue::FieldAccess { local, .. } => seq![MirOperand::Local(local)],
        MirRvalue::StructLit { fields, .. } => fields@.map_values(|p: (crate::hir::symbol::SymbolId, MirOperand)| p.1),
        MirRvalue::EnumCtor { .. } => Seq::empty(),
        MirRvalue::ListLiteral { elements } => elements@,
        MirRvalue::Index { list_local, index } => seq![MirOperand::Local(list_local), index],
        MirRvalue::Length { list_local } => seq![MirOperand::Local(list_local)],
        MirRvalue::StrLit(_) => Seq::empty(),
    }
}

/// The operands a statement reads.
pub open spec fn stmt_operands_spec(st: MirStmt) -> Seq<MirOperand> {
    match st.kind {
        MirStmtKind::LocalDecl { .. } => Seq::empty(),
        MirStmtKind::Assign { rvalue, .. } => rvalue_operands_spec(rvalue),
    }
}

/// Check 3 for a sequence of operands.
pub open spec fn operand_errors(f: Seq<char>, name: Seq<char>, locals: Seq<MirLocal>, ops: Seq<MirOperand>) -> Seq<ErrorView>
    decreases ops.len(),
{
    if ops.len() == 0 {
        Seq::empty()
    } else {
        operand_errors(f, name, locals, ops.drop_last()) + match ops.last() {
            MirOperand::Local(l) => if !has_local(locals, l) {
                seq![("operand references undefined local "@ + local_text(l), Some((f, name)))]
            } else {
                Seq::empty()
            },
            MirOperand::Const(_) => Seq::empty(),
        }
    }
}

/// Check 3 for the statements of a block.
pub open spec fn stmts_errors(f: Seq<char>, name: Seq<char>, locals: Seq<MirLocal>, stmts: Seq<MirStmt>) -> Seq<ErrorView>
    decreases stmts.len(),
{
    if stmts.len() == 0 {
        Seq::empty()
    } else {
        stmts_errors(f, name, locals, stmts.drop_last()) + operand_errors(f, name, locals, stmt_operands_spec(stmts.last()))
    }
}

/// Check 3 over a sequence of blocks.
pub open spec fn undefined_local_errors(f: Seq<char>, locals: Seq<MirLocal>, bs: Seq<MirBasicBlock>) -> Seq<ErrorView>
    decreases bs.len(),
{
    if bs.len() == 0 {
        Seq::empty()
    } else {
        undefined_local_errors(f, locals, bs.drop_last()) + stmts_errors(f, bs.last().name@, locals, bs.last().stmts@)
    }
}

/// Check 4: each parameter local, with its position, must be a local.
pub open spec fn param_errors(f: Seq<char>, locals: Seq<MirLocal>, params: Seq<LocalId>) -> Seq<ErrorView>
    decreases params.len(),
{
    if params.len() == 0 {
        Seq::empty()
    } else {
        let p = params.last();
        param_errors(f, locals, params.drop_last()) + if !has_local(locals, p) {
            seq![(
                "parameter "@ + decimal((params.len() - 1) as nat) + " local "@ + local_text(p) + " not found in locals"@,
                Some((f, "entry"@)),
            )]
        } else {
            Seq::empty()
        }
    }
}

/// Check 5: the start block must exist.
pub open spec fn start_errors(f: Seq<char>, func: MirFunction) -> Seq<ErrorView> {
    if !has_block(func.blocks@, func.start_block) {
        seq![(
            "start_block "@ + block_text(func.start_block) + " does not exist in function body"@,
            Some((f, "entry"@)),
        )]
    } else {
        Seq::empty()
    }
}

/// All failures of one function named `f`, in check order.
pub open spec fn function_errors(f: Seq<char>, func: MirFunction) -> Seq<ErrorView> {
    unterminated_errors(f, func.blocks@) + dangling_target_errors(f, func.blocks@, func.blocks@)
        + undefined_local_errors(f, func.locals@, func.blocks@) + param_errors(f, func.locals@, func.param_locals@)
        + start_errors(f, func)
}

/// The name a function is reported under: its symbol, or `?`.
pub open spec fn reported_name(symbols: Seq<Seq<char>>, name: crate::hir::symbol::SymbolId) -> Seq<char> {
    if name.0 < symbols.len() {
        symbols[name.0 as int]
    } else {
        "?"@
    }
}

/// All failures of the functions `fs`, in order.
pub open spec fn functions_errors(symbols: Seq<Seq<char>>, fs: Seq<MirFunction>) -> Seq<ErrorView>
    decreases fs.len(),
{
    if fs.len() == 0 {
        Seq::empty()
    } else {
        functions_errors(symbols, fs.drop_last()) + function_errors(reported_name(symbols, fs.last().name), fs.last())
    }
}

/// All failures of a program.
pub open spec fn program_errors(p: MirProgram) -> Seq<ErrorView> {
    functions_errors(p.symbols@, p.functions@)
}

/// How a failure is displayed: the message, then the place if known.
pub open spec fn display_spec(e: ErrorView) -> Seq<char> {
    match e.1 {
        Some((f, b)) => e.0 + " (in fn `"@ + f + "`, block `"@ + b + "`)"@,
        None => e.0,
    }
}

fn push_error(errors: &mut Vec<MirVerifyError>, e: MirVerifyError)
    ensures
        errors_view(final(errors)@) == errors_view(old(errors)@).push(error_view(e)),
{
    errors.push(e);
    assert(errors_view(errors@) =~= errors_view(old(errors)@).push(error_view(e)));
}

fn at(func: &String, block: &String) -> (r: Option<(String, String)>)
    ensures
        r matches Some((f, b)) && f@ == func@ && b@ == block@,
{
    Some((String::from_str(func.as_str()), String::from_str(block.as_str())))
}

fn contains_block(blocks: &Vec<MirBasicBlock>, id: BlockId) -> (r: bool)
    ensures
        r == has_block(blocks@, id),
{
    let mut i: usize = 0;
    while i < blocks.len()
        invariant
            i <= blocks@.len(),
            forall|k: int| 0 <= k < i ==> blocks@[k].id != id,
        decreases blocks@.len() - i,
    {
        if blocks[i].id == id {
            assert(blocks@[i as int].id == id);
            return true;
        }
        i = i + 1;
    }
    false
}

fn contains_local(locals: &Vec<MirLocal>, id: LocalId) -> (r: bool)
    ensures
        r == has_local(locals@, id),
{
    let mut i: usize = 0;
    while i < locals.len()
        invariant
            i <= locals@.len(),
            forall|k: int| 0 <= k < i ==> locals@[k].id != id,
        decreases locals@.len() - i,
    {
        if locals[i].id == id {
            assert(locals@[i as int].id == id);
            return true;
        }
        i = i + 1;
    }
    false
}

fn block_id_message(prefix: &str, b: BlockId) -> (r: String)
    ensures
        r@ == prefix@ + block_text(b),
{
    let mut m = String::from_str(prefix);
    m.append("BlockId(");
    push_decimal(&mut m, b.0);
    m.append(")");
    assert(m@ == prefix@ + block_text(b));
    m
}

fn local_id_text(l: LocalId) -> (r: String)
    ensures
        r@ == local_text(l),
{
    let mut m = String::from_str("LocalId(");
    push_decimal(&mut m, l.0);
    m.append(")");
    m
}

/// Check 1 over the blocks of a function.
fn check_terminated(blocks: &Vec<MirBasicBlock>, fname: &String, errors: &mut Vec<MirVerifyError>)
    ensures
        errors_view(final(errors)@) == errors_view(old(errors)@) + unterminated_errors(fname@, blocks@),
{
    let mut i: usize = 0;
    while i < blocks.len()
        invariant
            i <= blocks@.len(),
            errors_view(errors@) == errors_view(old(errors)@) + unterminated_errors(fname@, blocks@.take(i as int)),
        decreases blocks@.len() - i,
    {
        let block = &blocks[i];
        proof {
            assert(blocks@.take(i + 1).drop_last() == blocks@.take(i as int));
            assert(blocks@.take(i + 1).last() == blocks@[i as int]);
        }
        if matches!(block.terminator, MirTerminator::Unreachable) {
            let mut m = String::from_str("block `");
            m.append(block.name.as_str());
            m.append("` has no terminator (Unreachable placeholder remains)");
            push_error(errors, MirVerifyError { message: m, location: at(fname, &block.name) });
        }
        i = i + 1;
    }
    assert(blocks@.take(blocks@.len() as int) == blocks@);
}

/// Check 2 for one block.
fn check_terminator_blocks(
    block: &MirBasicBlock,
    valid: &Vec<MirBasicBlock>,
    fname: &String,
    errors: &mut Vec<MirVerifyError>,
)
    ensures
        errors_view(final(errors)@) == errors_view(old(errors)@) + terminator_errors(fname@, valid@, *block),
{
    match &block.terminator {
        MirTerminator::Goto { target } => {
            if !contains_block(valid, *target) {
                let m = block_id_message("Goto references non-existent block ", *target);
                push_error(errors, MirVerifyError { message: m, location: at(fname, &block.name) });
            }
        },
        MirTerminator::SwitchInt { branches, else_target, .. } => {
            if !contains_block(valid, *else_target) {
                let m = block_id_message("SwitchInt else_target references non-existent block ", *else_target);
                push_error(errors, MirVerifyError { message: m, location: at(fname, &block.name) });
            }
            let ghost mid = errors_view(errors@);
            let mut i: usize = 0;
            while i < branches.len()
                invariant
                    i <= branches@.len(),
                    errors_view(errors@) == mid + branch_errors(fname@, block.name@, valid@, branches@.take(i as int)),
                decreases branches@.len() - i,
            {
                proof {
                    assert(branches@.take(i + 1).drop_last() == branches@.take(i as int));
                    assert(branches@.take(i + 1).last() == branches@[i as int]);
                }
                let t = branches[i].1;
                if !contains_block(valid, t) {
                    let m = block_id_message("SwitchInt branch references non-existent block ", t);
                    push_error(errors, MirVerifyError { message: m, location: at(fname, &block.name) });
                }
                i = i + 1;
            }
            assert(branches@.take(branches@.len() as int) == branches@);
        },
        MirTerminator::Call { next, .. } => {
            if !contains_block(valid, *next) {
                let m = block_id_message("Call next references non-existent block ", *next);
                push_error(errors, MirVerifyError { message: m, location: at(fname, &block.name) });
            }
        },
        MirTerminator::Return(_) | MirTerminator::Unreachable => {},
    }
}

/// The operands an rvalue reads.
fn rvalue_operands(rvalue: &MirRvalue) -> (r: Vec<MirOperand>)
    ensures
        r@ == rvalue_operands_spec(*rvalue),
{
    match rvalue {
        MirRvalue::Use(op) => vec![*op],
        MirRvalue::Binary { lhs, rhs, .. } => vec![*lhs, *rhs],
        MirRvalue::Unary { operand, .. } => vec![*operand],
        MirRvalue::FieldAccess { local, .. } => vec![MirOperand::Local(*local)],
        MirRvalue::StructLit { fields, .. } => {
            let mut out: Vec<MirOperand> = Vec::new();
            let mut i: usize = 0;
            while i < fields.len()
                invariant
                    i <= fields@.len(),
                    out@ == fields@.take(i as int).map_values(|p: (crate::hir::symbol::SymbolId, MirOperand)| p.1),
                decreases fields@.len() - i,
            {
                out.push(fields[i].1);
                assert(fields@.take(i + 1).map_values(|p: (crate::hir::symbol::SymbolId, MirOperand)| p.1)
                    =~= fields@.take(i as int).map_values(|p: (crate::hir::symbol::SymbolId, MirOperand)| p.1).push(fields@[i as int].1));
                i = i + 1;
            }
            assert(fields@.take(fields@.len() as int) == fields@);
            out
        },
        MirRvalue::EnumCtor { .. } => Vec::new(),
        MirRvalue::ListLiteral { elements } => {
            let mut out: Vec<MirOperand> = Vec::new();
            let mut i: usize = 0;
            while i < elements.len()
                invariant
                    i <= elements@.len(),
                    out@ == elements@.take(i as int),
                decreases elements@.len() - i,
            {
                out.push(elements[i]);
                assert(elements@.take(i + 1) == elements@.take(i as int).push(elements@[i as int]));
                i = i + 1;
            }
            assert(elements@.take(elements@.len() as int) == elements@);
            out
        },
        MirRvalue::Index { list_local, index } => vec![MirOperand::Local(*list_local), *index],
        MirRvalue::Length { list_local } => vec![MirOperand::Local(*list_local)],
        MirRvalue::StrLit(_) => Vec::new(),
    }
}

/// The operands a statement reads.
fn stmt_operands(stmt: &MirStmt) -> (r: Vec<MirOperand>)
    ensures
        r@ == stmt_operands_spec(*stmt),
{
    match &stmt.kind {
        MirStmtKind::LocalDecl { .. } => Vec::new(),
        MirStmtKind::Assign { rvalue, .. } => rvalue_operands(rvalue),
    }
}

/// Check 3 for one block.
fn check_local_refs(
    block: &MirBasicBlock,
    valid: &Vec<MirLocal>,
    fname: &String,
    errors: &mut Vec<MirVerifyError>,
)
    ensures
        errors_view(final(errors)@) == errors_view(old(errors)@) + stmts_errors(fname@, block.name@, valid@, block.stmts@),
{
    let mut s: usize = 0;
    while s < block.stmts.len()
        invariant
            s <= block.stmts@.len(),
            errors_view(errors@) == errors_view(old(errors)@) + stmts_errors(fname@, block.name@, valid@, block.stmts@.take(s as int)),
        decreases block.stmts@.len() - s,
    {
        proof {
            assert(block.stmts@.take(s + 1).drop_last() == block.stmts@.take(s as int));
            assert(block.stmts@.take(s + 1).last() == block.stmts@[s as int]);
        }
        let ops = stmt_operands(&block.stmts[s]);
        let ghost mid = errors_view(errors@);
        let mut k: usize = 0;
        while k < ops.len()
            invariant
                k <= ops@.len(),
                errors_view(errors@) == mid + operand_errors(fname@, block.name@, valid@, ops@.take(k as int)),
            decreases ops@.len() - k,
        {
            proof {
                assert(ops@.take(k + 1).drop_last() == ops@.take(k as int));
                assert(ops@.take(k + 1).last() == ops@[k as int]);
            }
            if let MirOperand::Local(lid) = ops[k] {
                if !contains_local(valid, lid) {
                    let mut m = String::from_str("operand references undefined local ");
                    let t = local_id_text(lid);
                    m.append(t.as_str());
                    push_error(errors, MirVerifyError { message: m, location: at(fname, &block.name) });
                }
            }
            k = k + 1;
        }
        assert(ops@.take(ops@.len() as int) == ops@);
        proof {
            assert(mid + operand_errors(fname@, block.name@, valid@, ops@) == errors_view(old(errors)@)
                + stmts_errors(fname@, block.name@, valid@, block.stmts@.take(s + 1)));
        }
        s = s + 1;
    }
    assert(block.stmts@.take(block.stmts@.len() as int) == block.stmts@);
}

/// Checks 2 and 3 over all blocks.
fn check_blocks(func: &MirFunction, fname: &String, errors: &mut Vec<MirVerifyError>)
    ensures
        errors_view(final(errors)@) == errors_view(old(errors)@) + dangling_target_errors(fname@, func.blocks@, func.blocks@)
            + undefined_local_errors(fname@, func.locals@, func.blocks@),
{
    let mut i: usize = 0;
    while i < func.blocks.len()
        invariant
            i <= func.blocks@.len(),
            errors_view(errors@) == errors_view(old(errors)@) + dangling_target_errors(fname@, func.blocks@, func.blocks@.take(i as int)),
        decreases func.blocks@.len() - i,
    {
        proof {
            assert(func.blocks@.take(i + 1).drop_last() == func.blocks@.take(i as int));
            assert(func.blocks@.take(i + 1).last() == func.blocks@[i as int]);
        }
        check_terminator_blocks(&func.blocks[i], &func.blocks, fname, errors);
        proof {
            assert(errors_view(errors@) == errors_view(old(errors)@) + dangling_target_errors(fname@, func.blocks@, func.blocks@.take(i as int))
                + terminator_errors(fname@, func.blocks@, func.blocks@[i as int]));
        }
        i = i + 1;
    }
    assert(func.blocks@.take(func.blocks@.len() as int) == func.blocks@);
    let ghost mid = errors_view(errors@);
    let mut j: usize = 0;
    while j < func.blocks.len()
        invariant
            j <= func.blocks@.len(),
            errors_view(errors@) == mid + undefined_local_errors(fname@, func.locals@, func.blocks@.take(j as int)),
        decreases func.blocks@.len() - j,
    {
        proof {
            assert(func.blocks@.take(j + 1).drop_last() == func.blocks@.take(j as int));
            assert(func.blocks@.take(j + 1).last() == func.blocks@[j as int]);
        }
        check_local_refs(&func.blocks[j], &func.locals, fname, errors);
        j = j + 1;
    }
    assert(func.blocks@.take(func.blocks@.len() as int) == func.blocks@);
}

/// Checks 4 and 5.
fn check_entry(func: &MirFunction, fname: &String, errors: &mut Vec<MirVerifyError>)
    ensures
        errors_view(final(errors)@) == errors_view(old(errors)@) + param_errors(fname@, func.locals@, func.param_locals@)
            + start_errors(fname@, *func),
{
    let mut i: usize = 0;
    while i < func.param_locals.len()
        invariant
            i <= func.param_locals@.len(),
            errors_view(errors@) == errors_view(old(errors)@) + param_errors(fname@, func.locals@, func.param_locals@.take(i as int)),
        decreases func.param_locals@.len() - i,
    {
        proof {
            assert(func.param_locals@.take(i + 1).drop_last() == func.param_locals@.take(i as int));
            assert(func.param_locals@.take(i + 1).last() == func.param_locals@[i as int]);
        }
        let p = func.param_locals[i];
        if !contains_local(&func.locals, p) {
            let mut m = String::from_str("parameter ");
            push_wide_decimal(&mut m, i);
            m.append(" local ");
            let t = local_id_text(p);
            m.append(t.as_str());
            m.append(" not found in locals");
            let entry = String::from_str("entry");
            push_error(errors, MirVerifyError { message: m, location: at(fname, &entry) });
        }
        i = i + 1;
    }
    assert(func.param_locals@.take(func.param_locals@.len() as int) == func.param_locals@);
    if !contains_block(&func.blocks, func.start_block) {
        let mut m = block_id_message("start_block ", func.start_block);
        m.append(" does not exist in function body");
        let entry = String::from_str("entry");
        push_error(errors, MirVerifyError { message: m, location: at(fname, &entry) });
    }
}

impl MirVerifyError {
    /// The failure as displayed: the message, then ` (in fn `f`, block
    /// `b`)` where the place is known.
    pub fn to_string(&self) -> (r: String)
        ensures
            r@ == display_spec(error_view(*self)),
    {
        let mut s = String::from_str(self.message.as_str());
        match &self.location {
            Some((f, b)) => {
                s.append(" (in fn `");
                s.append(f.as_str());
                s.append("`, block `");
                s.append(b.as_str());
                s.append("`)");
            },
            None => {},
        }
        s
    }

    /// The failure as a code generation error carrying its display text.
    pub fn to_compiler_error(&self) -> (r: CompilerError)
        ensures
            r matches CompilerError::Codegen(m) && m@ == display_spec(error_view(*self)),
    {
        CompilerError::codegen(self.to_string())
    }
}

impl MirProgram {
    /// Check every function; all failures, in order, or `Ok` if none.
    pub fn verify(&self) -> (r: Result<(), Vec<MirVerifyError>>)
        ensures
            r is Ok <==> program_errors(*self).len() == 0,
            r matches Err(v) ==> errors_view(v@) == program_errors(*self),
    {
        let mut errors: Vec<MirVerifyError> = Vec::new();
        let mut i: usize = 0;
        assert(errors_view(errors@) =~= Seq::<ErrorView>::empty());
        while i < self.functions.len()
            invariant
                i <= self.functions@.len(),
                errors_view(errors@) == functions_errors(self.symbols@, self.functions@.take(i as int)),
            decreases self.functions@.len() - i,
        {
            proof {
                assert(self.functions@.take(i + 1).drop_last() == self.functions@.take(i as int));
                assert(self.functions@.take(i + 1).last() == self.functions@[i as int]);
            }
            Self::verify_function(&self.functions[i], self, &mut errors);
            i = i + 1;
        }
        assert(self.functions@.take(self.functions@.len() as int) == self.functions@);
        if errors.len() == 0 {
            Ok(())
        } else {
            Err(errors)
        }
    }

    fn verify_function(func: &MirFunction, prog: &MirProgram, errors: &mut Vec<MirVerifyError>)
        ensures
            errors_view(final(errors)@) == errors_view(old(errors)@) + function_errors(
                reported_name(prog.symbols@, func.name),
                *func,
            ),
    {
        let name = match prog.symbols.lookup(func.name) {
            Some(s) => String::from_str(s),
            None => String::from_str("?"),
        };
        check_terminated(&func.blocks, &name, errors);
        check_blocks(func, &name, errors);
        check_entry(func, &name, errors);
    }
}

/// Whether the rvalue reads the local `l`: an operand that names it, or
/// the local it takes a field, an element or the length of.
pub open spec fn rvalue_reads(rv: MirRvalue, l: LocalId) -> bool {
    match rv {
        MirRvalue::Use(op) => op == MirOperand::Local(l),
        MirRvalue::Binary { lhs, rhs, .. } => lhs == MirOperand::Local(l) || rhs == MirOperand::Local(l),
        MirRvalue::Unary { operand, .. } => operand == MirOperand::Local(l),
        MirRvalue::StructLit { fields, .. } => exists|k: int| 0 <= k < fields@.len() && #[trigger] fields@[k].1 == MirOperand::Local(l),
        MirRvalue::FieldAccess { local, .. } => local == l,
        MirRvalue::EnumCtor { .. } => false,
        MirRvalue::ListLiteral { elements } => exists|k: int| 0 <= k < elements@.len() && #[trigger] elements@[k] == MirOperand::Local(l),
        MirRvalue::Index { list_local, index } => list_local == l || index == MirOperand::Local(l),
        MirRvalue::Length { list_local } => list_local == l,
        MirRvalue::StrLit(_) => false,
    }
}

proof fn lemma_reads_listed(rv: MirRvalue, l: LocalId)
    requires
        rvalue_reads(rv, l),
    ensures
        exists|k: int| 0 <= k < rvalue_operands_spec(rv).len() && rvalue_operands_spec(rv)[k] == MirOperand::Local(l),
{
    let ops = rvalue_operands_spec(rv);
    match rv {
        MirRvalue::Use(op) => assert(ops[0] == MirOperand::Local(l)),
        MirRvalue::Binary { lhs, rhs, .. } => {
            if lhs == MirOperand::Local(l) {
                assert(ops[0] == MirOperand::Local(l));
            } else {
                assert(ops[1] == MirOperand::Local(l));
            }
        },
        MirRvalue::Unary { operand, .. } => assert(ops[0] == MirOperand::Local(l)),
        MirRvalue::StructLit { fields, .. } => {
            let k = choose|k: int| 0 <= k < fields@.len() && #[trigger] fields@[k].1 == MirOperand::Local(l);
            assert(ops[k] == MirOperand::Local(l));
        },
        MirRvalue::FieldAccess { local, .. } => assert(ops[0] == MirOperand::Local(l)),
        MirRvalue::ListLiteral { elements } => {
            let k = choose|k: int| 0 <= k < elements@.len() && #[trigger] elements@[k] == MirOperand::Local(l);
            assert(ops[k] == MirOperand::Local(l));
        },
        MirRvalue::Index { list_local, index } => {
            if list_local == l {
                assert(ops[0] == MirOperand::Local(l));
            } else {
                assert(ops[1] == MirOperand::Local(l));
            }
        },
        MirRvalue::Length { list_local } => assert(ops[0] == MirOperand::Local(l)),
        _ => {},
    }
}

proof fn lemma_operands_ok(f: Seq<char>, name: Seq<char>, locals: Seq<MirLocal>, ops: Seq<MirOperand>, k: int, l: LocalId)
    requires
        operand_errors(f, name, locals, ops).len() == 0,
        0 <= k < ops.len(),
        ops[k] == MirOperand::Local(l),
    ensures
        has_local(locals, l),
    decreases ops.len(),
{
    if k < ops.len() - 1 {
        lemma_operands_ok(f, name, locals, ops.drop_last(), k, l);
    }
}

proof fn lemma_stmts_ok(f: Seq<char>, name: Seq<char>, locals: Seq<MirLocal>, ss: Seq<MirStmt>, si: int)
    requires
        stmts_errors(f, name, locals, ss).len() == 0,
        0 <= si < ss.len(),
    ensures
        operand_errors(f, name, locals, stmt_operands_spec(ss[si])).len() == 0,
    decreases ss.len(),
{
    if si < ss.len() - 1 {
        lemma_stmts_ok(f, name, locals, ss.drop_last(), si);
    }
}

proof fn lemma_blocks_ok(f: Seq<char>, locals: Seq<MirLocal>, bs: Seq<MirBasicBlock>, bi: int)
    requires
        undefined_local_errors(f, locals, bs).len() == 0,
        0 <= bi < bs.len(),
    ensures
        stmts_errors(f, bs[bi].name@, locals, bs[bi].stmts@).len() == 0,
    decreases bs.len(),
{
    if bi < bs.len() - 1 {
        lemma_blocks_ok(f, locals, bs.drop_last(), bi);
    }
}

proof fn lemma_functions_ok(symbols: Seq<Seq<char>>, fs: Seq<MirFunction>, fi: int)
    requires
        functions_errors(symbols, fs).len() == 0,
        0 <= fi < fs.len(),
    ensures
        function_errors(reported_name(symbols, fs[fi].name), fs[fi]).len() == 0,
    decreases fs.len(),
{
    if fi < fs.len() - 1 {
        lemma_functions_ok(symbols, fs.drop_last(), fi);
    }
}

/// What passing the check guarantees of the locals a program reads: when
/// `verify` finds no failure, every local that an assignment reads (either
/// operand of a binary operation, an element, an index, a field's struct)
/// is a local of its function.
pub proof fn law_verified_reads_defined(p: MirProgram, fi: int, bi: int, si: int, l: LocalId)
    requires
        program_errors(p).len() == 0,
        0 <= fi < p.functions@.len(),
        0 <= bi < p.functions@[fi].blocks@.len(),
        0 <= si < p.functions@[fi].blocks@[bi].stmts@.len(),
        p.functions@[fi].blocks@[bi].stmts@[si].kind matches MirStmtKind::Assign { rvalue, .. } && rvalue_reads(rvalue, l),
    ensures
        exists|k: int| 0 <= k < p.functions@[fi].locals@.len() && #[trigger] p.functions@[fi].locals@[k].id == l,
{
    let func = p.functions@[fi];
    let f = reported_name(p.symbols@, func.name);
    lemma_functions_ok(p.symbols@, p.functions@, fi);
    assert(undefined_local_errors(f, func.locals@, func.blocks@).len() == 0);
    lemma_blocks_ok(f, func.locals@, func.blocks@, bi);
    let b = func.blocks@[bi];
    lemma_stmts_ok(f, b.name@, func.locals@, b.stmts@, si);
    let st = b.stmts@[si];
    match st.kind {
        MirStmtKind::Assign { rvalue, .. } => {
            lemma_reads_listed(rvalue, l);
            let ops = rvalue_operands_spec(rvalue);
            let k = choose|k: int| 0 <= k < ops.len() && ops[k] == MirOperand::Local(l);
            lemma_operands_ok(f, b.name@, func.locals@, stmt_operands_spec(st), k, l);
        },
        _ => {},
    }
}

/// Whether the terminator may pass control to the block `b`.
pub open spec fn jumps_to(t: MirTerminator, b: BlockId) -> bool {
    match t {
        MirTerminator::Goto { target } => target == b,
        MirTerminator::SwitchInt { branches, else_target, .. } => else_target == b
            || exists|k: int| 0 <= k < branches@.len() && #[trigger] branches@[k].1 == b,
        MirTerminator::Call { next, .. } => next == b,
        _ => false,
    }
}

proof fn lemma_unterminated_ok(f: Seq<char>, bs: Seq<MirBasicBlock>, bi: int)
    requires
        unterminated_errors(f, bs).len() == 0,
        0 <= bi < bs.len(),
    ensures
        !(bs[bi].terminator is Unreachable),
    decreases bs.len(),
{
    if bi < bs.len() - 1 {
        lemma_unterminated_ok(f, bs.drop_last(), bi);
    }
}

proof fn lemma_branches_ok(f: Seq<char>, name: Seq<char>, valid: Seq<MirBasicBlock>, br: Seq<(u64, BlockId)>, k: int)
    requires
        branch_errors(f, name, valid, br).len() == 0,
        0 <= k < br.len(),
    ensures
        has_block(valid, br[k].1),
    decreases br.len(),
{
    if k < br.len() - 1 {
        lemma_branches_ok(f, name, valid, br.drop_last(), k);
    }
}

proof fn lemma_targets_ok(f: Seq<char>, valid: Seq<MirBasicBlock>, bs: Seq<MirBasicBlock>, bi: int, b: BlockId)
    requires
        dangling_target_errors(f, valid, bs).len() == 0,
        0 <= bi < bs.len(),
        jumps_to(bs[bi].terminator, b),
    ensures
        has_block(valid, b),
    decreases bs.len(),
{
    if bi < bs.len() - 1 {
        lemma_targets_ok(f, valid, bs.drop_last(), bi, b);
    } else {
        let blk = bs[bi];
        assert(terminator_errors(f, valid, blk).len() == 0);
        match blk.terminator {
            MirTerminator::SwitchInt { branches, else_target, .. } => {
                if else_target != b {
                    let k = choose|k: int| 0 <= k < branches@.len() && #[trigger] branches@[k].1 == b;
                    lemma_branches_ok(f, blk.name@, valid, branches@, k);
                }
            },
            _ => {},
        }
    }
}

proof fn lemma_params_ok(f: Seq<char>, locals: Seq<MirLocal>, params: Seq<LocalId>, k: int)
    requires
        param_errors(f, locals, params).len() == 0,
        0 <= k < params.len(),
    ensures
        has_local(locals, params[k]),
    decreases params.len(),
{
    if k < params.len() - 1 {
        lemma_params_ok(f, locals, params.drop_last(), k);
    }
}

/// What passing the check guarantees of the control flow of each
/// function: when `verify` finds no failure, every block of a function is
/// terminated, every block a terminator can pass control to (a jump, each
/// branch and the `else` of a switch, the return point of a call) is a
/// block of the function, every parameter local is a local of it, and its
/// start block exists.
pub proof fn law_verified_control_flow(p: MirProgram, fi: int, bi: int, b: BlockId, k: int)
    requires
        program_errors(p).len() == 0,
        0 <= fi < p.functions@.len(),
    ensures
        0 <= bi < p.functions@[fi].blocks@.len() ==> !(p.functions@[fi].blocks@[bi].terminator is Unreachable),
        0 <= bi < p.functions@[fi].blocks@.len() && jumps_to(p.functions@[fi].blocks@[bi].terminator, b) ==> exists|j: int|
            0 <= j < p.functions@[fi].blocks@.len() && #[trigger] p.functions@[fi].blocks@[j].id == b,
        0 <= k < p.functions@[fi].param_locals@.len() ==> exists|j: int|
            0 <= j < p.functions@[fi].locals@.len() && #[trigger] p.functions@[fi].locals@[j].id == p.functions@[fi].param_locals@[k],
        exists|j: int| 0 <= j < p.functions@[fi].blocks@.len() && #[trigger] p.functions@[fi].blocks@[j].id == p.functions@[fi].start_block,
{
    let func = p.functions@[fi];
    let f = reported_name(p.symbols@, func.name);
    lemma_functions_ok(p.symbols@, p.functions@, fi);
    assert(unterminated_errors(f, func.blocks@).len() == 0);
    assert(dangling_target_errors(f, func.blocks@, func.blocks@).len() == 0);
    assert(param_errors(f, func.locals@, func.param_locals@).len() == 0);
    assert(start_errors(f, func).len() == 0);
    if 0 <= bi < func.blocks@.len() {
        lemma_unterminated_ok(f, func.blocks@, bi);
        if jumps_to(func.blocks@[bi].terminator, b) {
            lemma_targets_ok(f, func.blocks@, func.blocks@, bi, b);
        }
    }
    if 0 <= k < func.param_locals@.len() {
        lemma_params_ok(f, func.locals@, func.param_locals@, k);
    }
}

} // verus!
